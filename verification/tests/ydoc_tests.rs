use vb_manager::content::{BlockData, BlockType, NewContentBlock, UploadedImage};
use vb_manager::ydoc::{block_from_map_ref, block_map_prelim, decode_yjs_content};
use yrs::{ArrayRef, Doc, MapRef, Out, StateVector, Transact, Transaction};

fn setup_y_map(doc: &Doc, block: NewContentBlock) -> MapRef {
    let map = doc.get_or_insert_map("test");
    let mut txn = doc.transact_mut();
    let prelim = block_map_prelim(&block);
    yrs::Map::insert(&map, &mut txn, "block", prelim)
}

fn get(m: &MapRef, txn: &Transaction, key: &str) -> Option<Out> {
    yrs::Map::get(m, txn, key)
}

fn text(m: &MapRef, txn: &Transaction, key: &str) -> String {
    get(m, txn, key).unwrap().to_string(txn)
}

fn sub_map(m: &MapRef, txn: &Transaction, key: &str) -> MapRef {
    get(m, txn, key).unwrap().cast::<MapRef>().unwrap()
}

fn new_block(block_type: BlockType, data: BlockData, css_classes: Vec<String>) -> NewContentBlock {
    NewContentBlock {
        id: uuid::Uuid::new_v4().to_string(),
        block_type,
        data,
        css_classes,
        revision_id: None,
    }
}

#[test]
fn test_paragraph_conversion() {
    let block = new_block(BlockType::Paragraph, BlockData::Paragraph { text: "Hello world".to_string() }, vec![]);
    let doc = Doc::new();
    let map_ref = setup_y_map(&doc, block.clone());
    let txn = doc.transact();
    assert_eq!(text(&map_ref, &txn, "id"), block.id);
    assert_eq!(text(&map_ref, &txn, "type"), "paragraph");
    let data = sub_map(&map_ref, &txn, "data");
    assert_eq!(text(&data, &txn, "text"), "Hello world");
}

#[test]
fn test_heading_conversion() {
    let block = new_block(
        BlockType::Heading,
        BlockData::Heading { text: "Heading".to_string(), level: 2 },
        vec![],
    );
    let doc = Doc::new();
    let map_ref = setup_y_map(&doc, block.clone());
    let txn = doc.transact();
    assert_eq!(text(&map_ref, &txn, "id"), block.id);
    assert_eq!(text(&map_ref, &txn, "type"), "header");
    let data = sub_map(&map_ref, &txn, "data");
    assert_eq!(text(&data, &txn, "text"), "Heading");
    assert_eq!(text(&data, &txn, "level"), "2");
}

#[test]
fn test_list_conversion() {
    let block = new_block(
        BlockType::Heading,
        BlockData::List {
            style: "ordered".to_string(),
            items: vec!["item1".to_string(), "item2".to_string()],
        },
        vec![],
    );
    let doc = Doc::new();
    let map_ref = setup_y_map(&doc, block.clone());
    let txn = doc.transact();
    assert_eq!(text(&map_ref, &txn, "id"), block.id);
    assert_eq!(text(&map_ref, &txn, "type"), "list");
    let data = sub_map(&map_ref, &txn, "data");
    assert_eq!(text(&data, &txn, "style"), "ordered");
    let items = get(&data, &txn, "items").unwrap().cast::<ArrayRef>().unwrap();
    assert_eq!(yrs::Array::len(&items, &txn), 2);
    assert_eq!(yrs::Array::get(&items, &txn, 0).unwrap().to_string(&txn), "item1");
    assert_eq!(yrs::Array::get(&items, &txn, 1).unwrap().to_string(&txn), "item2");
}

#[test]
fn test_quote_conversion() {
    let block = new_block(
        BlockType::Heading,
        BlockData::Quote {
            text: "To be or not to be".to_string(),
            caption: "Shakespeare".to_string(),
            alignment: "center".to_string(),
        },
        vec![],
    );
    let doc = Doc::new();
    let map_ref = setup_y_map(&doc, block.clone());
    let txn = doc.transact();
    assert_eq!(text(&map_ref, &txn, "id"), block.id);
    assert_eq!(text(&map_ref, &txn, "type"), "quote");
    let data = sub_map(&map_ref, &txn, "data");
    assert_eq!(text(&data, &txn, "text"), "To be or not to be");
    assert_eq!(text(&data, &txn, "caption"), "Shakespeare");
    assert_eq!(text(&data, &txn, "alignment"), "center");
}

#[test]
fn test_image_conversion() {
    let block = new_block(
        BlockType::Heading,
        BlockData::Image {
            file: UploadedImage { url: "url".to_string(), filename: "file.png".to_string() },
            caption: Some("Caption".to_string()),
            with_border: true,
            with_background: false,
            stretched: true,
        },
        vec![],
    );
    let doc = Doc::new();
    let map_ref = setup_y_map(&doc, block.clone());
    let txn = doc.transact();
    assert_eq!(text(&map_ref, &txn, "id"), block.id);
    assert_eq!(text(&map_ref, &txn, "type"), "image");
    let data = sub_map(&map_ref, &txn, "data");
    let file = sub_map(&data, &txn, "file");
    assert_eq!(text(&file, &txn, "url"), "url");
    assert_eq!(text(&file, &txn, "filename"), "file.png");
    assert_eq!(text(&data, &txn, "caption"), "Caption");
    assert_eq!(text(&data, &txn, "withBorder"), "true");
    assert_eq!(text(&data, &txn, "withBackground"), "false");
    assert_eq!(text(&data, &txn, "stretched"), "true");
}

#[test]
fn test_css_classes_tunes() {
    let block = new_block(
        BlockType::Paragraph,
        BlockData::Paragraph { text: "Text".to_string() },
        vec!["class1".to_string(), "class2".to_string()],
    );
    let doc = Doc::new();
    let map_ref = setup_y_map(&doc, block.clone());
    let txn = doc.transact();
    assert_eq!(text(&map_ref, &txn, "id"), block.id);
    let tunes = sub_map(&map_ref, &txn, "tunes");
    let style_tunes = sub_map(&tunes, &txn, "block_style_tunes");
    assert_eq!(text(&style_tunes, &txn, "css_classes"), "class1 class2");
}

#[test]
fn test_raw_conversion() {
    let block = new_block(
        BlockType::Paragraph,
        BlockData::Raw { html: "<div>Raw</div>".to_string() },
        vec![],
    );
    let doc = Doc::new();
    let map_ref = setup_y_map(&doc, block.clone());
    let txn = doc.transact();
    assert_eq!(text(&map_ref, &txn, "id"), block.id);
    assert_eq!(text(&map_ref, &txn, "type"), "paragraph");
    let data = sub_map(&map_ref, &txn, "data");
    assert_eq!(text(&data, &txn, "html"), "<div>Raw</div>");
}

fn round_trip(block: &NewContentBlock) -> NewContentBlock {
    let doc = Doc::new();
    let map_ref = setup_y_map(&doc, block.clone());
    let txn = doc.transact();
    block_from_map_ref(&map_ref, &txn).unwrap()
}

#[test]
fn test_map_ref_conversion() {
    let block = new_block(
        BlockType::Heading,
        BlockData::Heading { text: "Heading".to_string(), level: 2 },
        vec!["class1".to_string()],
    );
    assert_eq!(block, round_trip(&block));
}

#[test]
fn test_map_ref_conversion_paragraph() {
    let block = new_block(BlockType::Paragraph, BlockData::Paragraph { text: "Paragraph".to_string() }, vec![]);
    assert_eq!(block, round_trip(&block));
}

#[test]
fn test_map_ref_conversion_list() {
    let block = new_block(
        BlockType::List,
        BlockData::List {
            style: "ordered".to_string(),
            items: vec!["item1".to_string(), "item2".to_string()],
        },
        vec![],
    );
    assert_eq!(block, round_trip(&block));
}

#[test]
fn test_map_ref_conversion_quote() {
    let block = new_block(
        BlockType::Quote,
        BlockData::Quote {
            text: "To be or not to be".to_string(),
            caption: "Shakespeare".to_string(),
            alignment: "center".to_string(),
        },
        vec![],
    );
    assert_eq!(block, round_trip(&block));
}

#[test]
fn test_map_ref_conversion_image() {
    let block = new_block(
        BlockType::Image,
        BlockData::Image {
            file: UploadedImage {
                url: "https://example.com/image.png".to_string(),
                filename: "image.png".to_string(),
            },
            caption: Some("An image caption".to_string()),
            with_border: true,
            with_background: false,
            stretched: true,
        },
        vec!["custom-image".to_string()],
    );
    assert_eq!(block, round_trip(&block));
}

#[test]
fn test_map_ref_conversion_raw() {
    let block = new_block(BlockType::Raw, BlockData::Raw { html: "<div>Raw HTML</div>".to_string() }, vec![]);
    assert_eq!(block, round_trip(&block));
}

#[test]
fn test_decode_yjs_content() {
    let block1 = new_block(BlockType::Paragraph, BlockData::Paragraph { text: "First block".to_string() }, vec![]);
    let block2 = new_block(
        BlockType::Heading,
        BlockData::Heading { text: "Second block".to_string(), level: 1 },
        vec![],
    );
    let doc = Doc::new();
    let blocks_array = doc.get_or_insert_array("blocks");
    {
        let mut txn = doc.transact_mut();
        yrs::Array::push_back(&blocks_array, &mut txn, block_map_prelim(&block1));
        yrs::Array::push_back(&blocks_array, &mut txn, block_map_prelim(&block2));
    }
    let update = {
        let txn = doc.transact();
        yrs::ReadTxn::encode_diff_v1(&txn, &StateVector::default())
    };
    let decoded_blocks = decode_yjs_content(&update).unwrap();
    assert_eq!(decoded_blocks.len(), 2);
    assert_eq!(decoded_blocks[0], block1);
    assert_eq!(decoded_blocks[1], block2);
}

#[test]
fn empty_content_has_no_blocks() {
    assert_eq!(decode_yjs_content(&[]), Ok(vec![]));
}

#[test]
fn undecodable_content_is_refused() {
    assert_eq!(decode_yjs_content(&[255, 255, 255]), Err("Could not decode yrs update".to_string()));
}

#[test]
fn block_without_data_is_refused() {
    let doc = Doc::new();
    let map = doc.get_or_insert_map("test");
    let inner = {
        let mut txn = doc.transact_mut();
        let entries = vec![("id".to_string(), "x"), ("type".to_string(), "paragraph")];
        yrs::Map::insert(&map, &mut txn, "block", yrs::MapPrelim::from_iter(entries))
    };
    let txn = doc.transact();
    assert_eq!(block_from_map_ref(&inner, &txn), Err("Missing field 'data'".to_string()));
}

#[test]
fn unknown_block_type_is_named() {
    let doc = Doc::new();
    let map = doc.get_or_insert_map("test");
    let inner = {
        let mut txn = doc.transact_mut();
        let data: Vec<(String, yrs::In)> = vec![];
        let entries: Vec<(String, yrs::In)> = vec![
            ("id".to_string(), "x".into()),
            ("type".to_string(), "video".into()),
            ("data".to_string(), yrs::MapPrelim::from_iter(data).into()),
        ];
        yrs::Map::insert(&map, &mut txn, "block", yrs::MapPrelim::from_iter(entries))
    };
    let txn = doc.transact();
    assert_eq!(block_from_map_ref(&inner, &txn), Err("Unknown block type: video".to_string()));
}

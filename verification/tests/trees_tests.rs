use vb_manager::biblio::{MyFormatString, MyPerson};
use vb_manager::bibtree::{
    bibliography_tree, folder_parent, search_bibliography_entries, swept_parents, BibEntryOrFolder,
    BibEntrySummary, BibFolder, BibRecord, BibTreeEntry,
};
use vb_manager::storage::ProjectListEntry;
use vb_manager::trees::{build_entries, FolderRow, ProjectRow};

fn folder(id: u128, name: &str, parent: Option<u128>) -> FolderRow {
    FolderRow { id, name: name.to_string(), parent }
}

fn project(id: u128, name: &str, folder: Option<u128>) -> ProjectRow {
    ProjectRow { id, name: name.to_string(), last_interaction: 1_700_000_000, folder }
}

#[test]
fn tree_reconstruction_nests_folders_and_projects() {
    let root_folder: u128 = 7;
    let folders = vec![folder(root_folder, "Root", None)];
    let projects = vec![
        project(1, "Top-level project", None),
        project(2, "Nested project", Some(root_folder)),
    ];
    let tree = build_entries(None, &folders, &projects);
    assert_eq!(tree.len(), 2);
    let found = tree
        .iter()
        .find_map(|e| match e {
            ProjectListEntry::Folder(f) if f.id == root_folder => Some(f),
            _ => None,
        })
        .unwrap();
    assert_eq!(found.children.len(), 1);
}

#[test]
fn project_tree_puts_folders_before_projects_in_row_order() {
    let folders = vec![
        folder(10, "B", None),
        folder(11, "Inner", Some(10)),
        folder(12, "A", None),
    ];
    let projects = vec![
        project(1, "p1", None),
        project(2, "p2", Some(11)),
        project(3, "p3", Some(10)),
        project(4, "p4", None),
    ];
    let tree = build_entries(None, &folders, &projects);
    let ids: Vec<u128> = tree.iter().map(|e| e.id()).collect();
    assert_eq!(ids, vec![10, 12, 1, 4]);
    match &tree[0] {
        ProjectListEntry::Folder(f) => {
            let inner: Vec<u128> = f.children.iter().map(|e| e.id()).collect();
            assert_eq!(inner, vec![11, 3]);
            match &f.children[0] {
                ProjectListEntry::Folder(g) => {
                    assert_eq!(g.children.len(), 1);
                    assert_eq!(g.children[0].id(), 2);
                    assert_eq!(g.children[0].name(), "p2");
                }
                _ => panic!("expected a folder"),
            }
        }
        _ => panic!("expected a folder"),
    }
}

#[test]
fn project_tree_of_nothing_is_empty() {
    let tree = build_entries(None, &Vec::new(), &Vec::new());
    assert!(tree.is_empty());
}

fn entry(id: u128, title: Option<&str>, key_text: &str, parents: Vec<u128>) -> BibRecord {
    BibRecord {
        id,
        record: BibEntryOrFolder::BibEntry(BibEntrySummary {
            key: id,
            key_text: key_text.to_string(),
            entry_type: "Book".to_string(),
            title: title.map(|t| MyFormatString { value: t.to_string(), short: None }),
            authors: vec![],
            editors: vec![],
            parents,
        }),
    }
}

fn bib_folder(id: u128, name: &str, parent: Option<u128>) -> BibRecord {
    BibRecord {
        id,
        record: BibEntryOrFolder::BibFolder(BibFolder { name: name.to_string(), parent }),
    }
}

fn names(level: &[BibTreeEntry]) -> Vec<String> {
    level.iter().map(|e| e.short.name.clone()).collect()
}

#[test]
fn folder_and_entry_tree_reconstruction() {
    let folder_id: u128 = 100;
    let records = vec![
        entry(200, Some("An entry"), "key-200", vec![folder_id]),
        bib_folder(folder_id, "Folder", None),
    ];
    let tree = bibliography_tree(&records);
    assert_eq!(tree.len(), 1);
    assert!(tree[0].short.is_folder);
    assert_eq!(tree[0].short.name, "Folder");
    assert_eq!(tree[0].short.bib_entry_type, None);
    assert_eq!(tree[0].children.len(), 1);
    assert_eq!(tree[0].children[0].short.id, 200);
    assert_eq!(tree[0].children[0].short.bib_entry_type, Some("Book".to_string()));
}

#[test]
fn bibliography_levels_sort_folders_first_then_by_name_ignoring_case() {
    let records = vec![
        entry(1, Some("zebra"), "k1", vec![]),
        bib_folder(2, "beta", None),
        entry(3, Some("Apple"), "k3", vec![]),
        bib_folder(4, "Alpha", None),
        entry(5, None, "mango-key", vec![]),
        entry(6, Some("banana"), "k6", vec![2, 4]),
    ];
    let tree = bibliography_tree(&records);
    assert_eq!(names(&tree), vec!["Alpha", "beta", "Apple", "mango-key", "zebra"]);
    assert_eq!(tree[1].short.id, 2);
    assert_eq!(names(&tree[1].children), vec!["banana"]);
    assert!(tree[0].children.is_empty());
}

#[test]
fn bibliography_equal_keys_keep_record_order() {
    let records = vec![
        entry(1, Some("Same"), "k1", vec![]),
        entry(2, Some("same"), "k2", vec![]),
        entry(3, Some("SAME"), "k3", vec![]),
    ];
    let tree = bibliography_tree(&records);
    let ids: Vec<u128> = tree.iter().map(|e| e.short.id).collect();
    assert_eq!(ids, vec![1, 2, 3]);
}

#[test]
fn bibliography_prefix_sorts_first() {
    let records = vec![
        entry(1, Some("abc"), "k1", vec![]),
        entry(2, Some("ab"), "k2", vec![]),
    ];
    let tree = bibliography_tree(&records);
    assert_eq!(names(&tree), vec!["ab", "abc"]);
}

#[test]
fn sweeping_a_removed_parent() {
    assert_eq!(swept_parents(&vec![1, 2, 1, 3], 1), Some(vec![2, 3]));
    assert_eq!(swept_parents(&vec![2, 3], 1), None);
    assert_eq!(swept_parents(&vec![], 1), None);
    assert_eq!(swept_parents(&vec![1], 1), Some(vec![]));
}

#[test]
fn folder_of_an_entry_is_its_first_parent_folder() {
    assert_eq!(folder_parent(&vec![5, 6, 7], &vec![false, true, true]), Some(6));
    assert_eq!(folder_parent(&vec![5, 6], &vec![false, false]), None);
    assert_eq!(folder_parent(&vec![], &vec![]), None);
}

fn person(name: &str, given: Option<&str>) -> MyPerson {
    MyPerson {
        name: name.to_string(),
        given_name: given.map(|g| g.to_string()),
        prefix: None,
        suffix: None,
        alias: None,
    }
}

fn with_people(mut r: BibRecord, authors: Vec<MyPerson>, editors: Vec<MyPerson>) -> BibRecord {
    if let BibEntryOrFolder::BibEntry(e) = &mut r.record {
        e.authors = authors;
        e.editors = editors;
    }
    r
}

#[test]
fn search_looks_at_keys_titles_and_names_without_case() {
    let records = vec![
        entry(1, Some("Rust in Action"), "aaaa-1111", vec![]),
        bib_folder(2, "Rust folder", None),
        with_people(entry(3, Some("Other"), "bbbb-2222", vec![]), vec![person("Klabnik", Some("Steve"))], vec![]),
        with_people(entry(4, None, "cccc-rust", vec![]), vec![], vec![person("Nichols", Some("Carol"))]),
        entry(5, Some("Unrelated"), "dddd-4444", vec![]),
    ];
    let hits = search_bibliography_entries(&records, "RUST");
    let titles: Vec<String> = hits.iter().map(|h| h.title.clone()).collect();
    assert_eq!(titles, vec!["cccc-rust", "Rust in Action"]);
    assert_eq!(hits[0].id, 4);
    assert_eq!(hits[0].entry_type, "Book");
    let by_name = search_bibliography_entries(&records, "steve");
    assert_eq!(by_name.len(), 1);
    assert_eq!(by_name[0].id, 3);
    let by_editor = search_bibliography_entries(&records, "carol");
    assert_eq!(by_editor[0].id, 4);
    assert!(search_bibliography_entries(&records, "nothing here").is_empty());
}

#[test]
fn search_returns_at_most_five_sorted_results() {
    let records: Vec<BibRecord> = ["f", "b", "e", "a", "g", "c", "d"]
        .iter()
        .enumerate()
        .map(|(i, t)| entry(i as u128, Some(&format!("x{}", t)), "k", vec![]))
        .collect();
    let hits = search_bibliography_entries(&records, "X");
    let titles: Vec<String> = hits.iter().map(|h| h.title.clone()).collect();
    assert_eq!(titles, vec!["xa", "xb", "xc", "xd", "xe"]);
}

#[test]
fn empty_search_matches_every_entry() {
    let records = vec![entry(1, Some("B"), "k1", vec![]), bib_folder(2, "F", None), entry(3, Some("a"), "k3", vec![])];
    let hits = search_bibliography_entries(&records, "");
    let ids: Vec<u128> = hits.iter().map(|h| h.id).collect();
    assert_eq!(ids, vec![3, 1]);
}

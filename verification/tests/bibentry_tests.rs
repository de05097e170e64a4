use vb_manager::bibentry::{
    date_from_raw, import_bib_text, role_from_name, store_entries, BibEntryV2, EntryFields,
    EntryIds, EntryNames, EntryNumbers, EntryTexts, EntryTimes, RawDate, RawUrl, RoleName,
    RolePersons,
};
use vb_manager::biblio::{
    MyDate, MyFormatString, MyMaybeTyped, MyNumeric, MyNumericDelimiter, MyNumericValue,
    MyPageRanges, MyPageRangesPart, MyPerson, MyPersonRole,
};
use vb_manager::import::ImportError;

const ARTICLE: &str = r#"@article{test_article,
    title = {Title},
    volume = {3},
    url = {https://example.org},
    pages = {1--99},
    journaltitle = {Testing Journal},
    author = {Doe, Jane},
    date = {2024-12},
    doi = {10.1000/xyz},
}"#;

fn number(v: i32) -> MyNumeric {
    MyNumeric { value: MyNumericValue::Number(v), prefix: None, suffix: None }
}

fn text(s: &str) -> MyFormatString {
    MyFormatString { value: s.to_string(), short: None }
}

fn person(name: &str) -> MyPerson {
    MyPerson { name: name.to_string(), given_name: None, prefix: None, suffix: None, alias: None }
}

fn empty_fields(key: &str) -> EntryFields {
    EntryFields {
        ids: EntryIds {
            key: key.to_string(),
            entry_type: "Book".to_string(),
            serial_number: None,
            language: None,
        },
        texts: EntryTexts {
            title: None,
            location: None,
            organization: None,
            archive: None,
            archive_location: None,
            call_number: None,
            note: None,
            abstract_: None,
            genre: None,
        },
        names: EntryNames { authors: None, editors: None, affiliated: None, publisher: None },
        numbers: EntryNumbers {
            issue: None,
            volume: None,
            volume_total: None,
            edition: None,
            page_range: None,
            page_total: None,
        },
        times: EntryTimes { date: None, time_range: None, runtime: None, url: None },
        parents: vec![],
    }
}

#[test]
fn biblatex_articles_are_read_and_stored() {
    let entries = import_bib_text(ARTICLE).unwrap();
    assert_eq!(entries.len(), 1);
    let e: &BibEntryV2 = &entries[0];
    assert_eq!(e.key, "test_article");
    assert_eq!(e.entry_type, "Article");
    assert_eq!(e.title, Some(text("Title")));
    assert_eq!(e.authors.len(), 1);
    assert_eq!(e.authors[0].name, "Doe");
    assert_eq!(e.authors[0].given_name, Some("Jane".to_string()));
    assert!(e.editors.is_empty());
    assert_eq!(
        e.date,
        Some(MyDate { year: 2024, month: Some(12), day: None, approximate: false })
    );
    assert_eq!(
        e.page_range,
        Some(MyMaybeTyped::Typed(MyNumeric {
            value: MyNumericValue::NumberSet(vec![
                (1, Some(MyNumericDelimiter::Hyphen)),
                (99, None)
            ]),
            prefix: None,
            suffix: None,
        }))
    );
    let url = e.url.as_ref().unwrap();
    assert!(url.value.starts_with("https://example.org"));
    let serials = e.serial_numbers.as_ref().unwrap();
    assert!(serials.iter().any(|(k, v)| k == "doi" && v == "10.1000/xyz"));
    assert_eq!(e.annote, None);
    // the journal becomes the parent, which carries the volume
    assert_eq!(e.parents.len(), 1);
    assert_eq!(e.parents[0].title, Some(text("Testing Journal")));
    assert_eq!(e.parents[0].volume, Some(MyMaybeTyped::Typed(number(3))));
}

#[test]
fn unreadable_biblatex_is_an_invalid_file() {
    assert_eq!(
        import_bib_text("@article{broken, title = {Unclosed").err(),
        Some(ImportError::BibFileInvalid)
    );
}

#[test]
fn empty_biblatex_has_no_entries() {
    assert!(import_bib_text("").unwrap().is_empty());
}

#[test]
fn entries_keep_the_order_of_the_file() {
    let text = "@book{first, title = {A}}\n@book{second, title = {B}}\n@misc{third, title = {C}}";
    let entries = import_bib_text(text).unwrap();
    let keys: Vec<&str> = entries.iter().map(|e| e.key.as_str()).collect();
    assert_eq!(keys, vec!["first", "second", "third"]);
}

#[test]
fn stored_dates_count_months_and_days_from_one() {
    let d = date_from_raw(RawDate { year: 1961, month: Some(4), day: Some(0), approximate: true });
    assert_eq!(d, MyDate { year: 1961, month: Some(5), day: Some(1), approximate: true });
    let d = date_from_raw(RawDate { year: 5, month: None, day: None, approximate: false });
    assert_eq!(d, MyDate { year: 5, month: None, day: None, approximate: false });
}

#[test]
fn roles_are_stored_by_name() {
    assert_eq!(role_from_name(RoleName::Known("Translator".to_string())), MyPersonRole::Translator);
    assert_eq!(
        role_from_name(RoleName::Known("ExecutiveProducer".to_string())),
        MyPersonRole::ExecutiveProducer
    );
    assert_eq!(
        role_from_name(RoleName::Unknown("Typesetter".to_string())),
        MyPersonRole::Unknown("Typesetter".to_string())
    );
    assert_eq!(
        role_from_name(RoleName::Known("Sculptor".to_string())),
        MyPersonRole::Unknown(String::new())
    );
}

#[test]
fn stored_entries_fill_in_missing_lists_and_publishers() {
    let mut f = empty_fields("k");
    f.names.publisher = Some(None);
    f.names.affiliated = Some(vec![RolePersons {
        names: vec![person("Smith")],
        role: RoleName::Known("Director".to_string()),
    }]);
    f.numbers.page_range = Some(MyMaybeTyped::Typed(MyPageRanges {
        ranges: vec![MyPageRangesPart::SinglePage(number(7))],
    }));
    f.times.url = Some(RawUrl {
        value: "https://example.org/".to_string(),
        visit_date: Some(RawDate { year: 2020, month: Some(0), day: Some(9), approximate: false }),
    });
    let mut parent = empty_fields("p");
    parent.names.authors = Some(vec![person("Doe")]);
    f.parents = vec![parent];

    let stored = store_entries(vec![f]);
    assert_eq!(stored.len(), 1);
    let e = &stored[0];
    assert!(e.authors.is_empty());
    assert!(e.editors.is_empty());
    assert_eq!(e.publisher, Some(MyFormatString { value: String::new(), short: None }));
    assert_eq!(e.affiliated.len(), 1);
    assert_eq!(e.affiliated[0].role, MyPersonRole::Director);
    assert_eq!(e.affiliated[0].names, vec![person("Smith")]);
    assert_eq!(e.page_range, Some(MyMaybeTyped::Typed(number(7))));
    let url = e.url.as_ref().unwrap();
    assert_eq!(
        url.visit_date,
        Some(MyDate { year: 2020, month: Some(1), day: Some(10), approximate: false })
    );
    assert_eq!(e.parents.len(), 1);
    assert_eq!(e.parents[0].key, "p");
    assert_eq!(e.parents[0].authors, vec![person("Doe")]);
}

#[test]
fn page_range_strings_stay_strings() {
    let mut f = empty_fields("s");
    f.numbers.page_range = Some(MyMaybeTyped::String("iv-x".to_string()));
    let stored = store_entries(vec![f]);
    assert_eq!(stored[0].page_range, Some(MyMaybeTyped::String("iv-x".to_string())));
}

use vb_manager::export::PersonUuidOrString;
use vb_manager::metadata::{license_from_string, license_to_string, License};
use vb_manager::metadata::{
    patched_title, read_date, CalendarDate, PatchProjectMetadata, PatchSectionMetadata,
    ProjectMetadataV5, SectionMetadata,
};
use vb_manager::projects::Patch;

fn section() -> SectionMetadata {
    SectionMetadata {
        title: "T".to_string(),
        toc_title_subtitle_override: None,
        subtitle: Some("S".to_string()),
        authors: vec![PersonUuidOrString::NameString("A".to_string())],
        editors: vec![],
        web_url: None,
        identifiers: vec![],
        published: Some(CalendarDate { year: 2020, month: 1, day: 2 }),
        last_changed: None,
        lang: Some("de-DE".to_string()),
        custom_fields: vec![("k".to_string(), "v".to_string())],
    }
}

fn section_patch() -> PatchSectionMetadata {
    PatchSectionMetadata {
        title: None,
        toc_title_subtitle_override: None,
        subtitle: None,
        authors: None,
        editors: None,
        web_url: None,
        identifiers: None,
        published: None,
        last_changed: None,
        lang: None,
    }
}

fn project() -> ProjectMetadataV5 {
    ProjectMetadataV5 {
        title: "Book".to_string(),
        subtitle: None,
        authors: None,
        editors: None,
        web_url: None,
        identifiers: None,
        published: Some(CalendarDate { year: 2020, month: 1, day: 2 }),
        languages: Some(vec!["en-GB".to_string()]),
        number_of_pages: Some(100),
        short_abstract: None,
        long_abstract: None,
        keywords: None,
        ddc: None,
        license: None,
        series: None,
        volume: None,
        edition: None,
        publisher: None,
        custom_fields: vec![],
    }
}

fn project_patch() -> PatchProjectMetadata {
    PatchProjectMetadata {
        title: None,
        subtitle: None,
        authors: None,
        editors: None,
        web_url: None,
        identifiers: None,
        published: None,
        languages: None,
        number_of_pages: None,
        short_abstract: None,
        long_abstract: None,
        keywords: None,
        ddc: None,
        license: None,
        series: None,
        volume: None,
        edition: None,
        publisher: None,
        custom_fields: None,
    }
}

#[test]
fn dates_are_read_as_year_month_day() {
    assert_eq!(read_date("2024-02-29"), Some(CalendarDate { year: 2024, month: 2, day: 29 }));
    assert_eq!(read_date("2023-02-29"), None);
    assert_eq!(read_date("yesterday"), None);
}

#[test]
fn an_unreadable_date_keeps_the_section_date() {
    let mut m = section();
    let mut p = section_patch();
    p.published = Some(Some("2023-02-30".to_string()));
    p.title = Some("New".to_string());
    p.subtitle = Some(None);
    let r = m.patch(p);
    assert_eq!(r.published, Some(CalendarDate { year: 2020, month: 1, day: 2 }));
    assert_eq!(r.title, "New");
    assert_eq!(r.subtitle, None);
    assert_eq!(r.authors, section().authors);
    assert_eq!(r.custom_fields, section().custom_fields);
    assert_eq!(m, section());
}

#[test]
fn an_unreadable_date_clears_the_project_date() {
    let mut m = project();
    let mut p = project_patch();
    p.published = Some(Some("2023-02-30".to_string()));
    p.number_of_pages = Some(None);
    let r = m.patch(p);
    assert_eq!(r.published, None);
    assert_eq!(r.number_of_pages, None);
    assert_eq!(r.languages, Some(vec!["en-GB".to_string()]));
    let mut q = project_patch();
    q.published = Some(Some("2021-12-31".to_string()));
    assert_eq!(m.patch(q).published, Some(CalendarDate { year: 2021, month: 12, day: 31 }));
}

#[test]
fn section_patches_apply_once() {
    let mut p = section_patch();
    p.published = Some(Some("2022-05-06".to_string()));
    p.lang = Some(None);
    let mut m = section();
    let mut once = m.patch(p.clone());
    let twice = once.patch(p);
    assert_eq!(twice, once);
}

#[test]
fn an_explicit_name_wins_over_the_metadata_title() {
    let mut md = project_patch();
    md.title = Some("From metadata".to_string());
    let with_md = Some(Some(md));
    assert_eq!(patched_title(Some("Name".to_string()), &with_md), Some("Name".to_string()));
    assert_eq!(patched_title(None, &with_md), Some("From metadata".to_string()));
    assert_eq!(patched_title(None, &None), None);
}

#[test]
fn licenses_are_stored_by_name() {
    assert_eq!(license_to_string(&License::CC0), "CC0");
    assert_eq!(license_to_string(&License::CC_BY_SA_4), "CC_BY_SA_4");
    assert_eq!(license_to_string(&License::Other("MIT".to_string())), "MIT");
    assert_eq!(license_from_string("CC_BY_NC_ND_4"), License::CC_BY_NC_ND_4);
    assert_eq!(license_from_string("CC_BY_NC_SA_4"), License::CC_BY_NC_SA_4);
    assert_eq!(license_from_string("cc0"), License::Other("cc0".to_string()));
    assert_eq!(license_from_string(""), License::Other(String::new()));
}

#[test]
fn license_names_read_back_to_the_license() {
    let all = vec![
        License::CC0,
        License::CC_BY_4,
        License::CC_BY_SA_4,
        License::CC_BY_ND_4,
        License::CC_BY_NC_4,
        License::CC_BY_NC_SA_4,
        License::CC_BY_NC_ND_4,
        License::Other("Proprietary".to_string()),
    ];
    for l in all {
        assert_eq!(license_from_string(&license_to_string(&l)), l);
    }
    // another license under a standard name reads back as the standard one
    let named_like_cc0 = License::Other("CC0".to_string());
    assert_eq!(license_from_string(&license_to_string(&named_like_cc0)), License::CC0);
}

#[test]
fn midnight_texts_follow_the_iso_date_form() {
    let t = |y: i32, m: u32, d: u32| vb_manager::metadata::midnight_text(&vb_manager::metadata::CalendarDate { year: y, month: m, day: d });
    assert_eq!(t(2024, 1, 1), "2024-01-01 00:00:00");
    assert_eq!(t(7, 12, 31), "0007-12-31 00:00:00");
    assert_eq!(t(-1, 2, 3), "-0001-02-03 00:00:00");
    assert_eq!(t(10000, 10, 10), "+10000-10-10 00:00:00");
}

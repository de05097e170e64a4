use vb_manager::projects::{list_request, page_offsets, OrderBy};
use vb_manager::projects::{Patch, PatchProjectSettings, ProjectSettingsV5};

fn settings() -> ProjectSettingsV5 {
    ProjectSettingsV5 {
        toc_enabled: true,
        csl_style: Some("apa".to_string()),
        csl_language_code: None,
        metadata_page_additional_html: None,
        cover_image_path: Some("cover.png".to_string()),
        backcover_image_path: None,
        add_soft_hyphens: false,
    }
}

fn empty_patch() -> PatchProjectSettings {
    PatchProjectSettings {
        toc_enabled: None,
        csl_style: None,
        csl_language_code: None,
        metadata_page_additional_html: None,
        cover_image_path: None,
        backcover_image_path: None,
        add_soft_hyphens: None,
    }
}

#[test]
fn a_patch_sets_and_clears_the_given_fields() {
    let mut s = settings();
    let mut p = empty_patch();
    p.toc_enabled = Some(false);
    p.csl_style = Some(None);
    p.csl_language_code = Some(Some("de-DE".to_string()));
    let r = s.patch(p);
    assert_eq!(
        r,
        ProjectSettingsV5 {
            toc_enabled: false,
            csl_style: None,
            csl_language_code: Some("de-DE".to_string()),
            metadata_page_additional_html: None,
            cover_image_path: Some("cover.png".to_string()),
            backcover_image_path: None,
            add_soft_hyphens: false,
        }
    );
    assert_eq!(s, settings());
}

#[test]
fn an_empty_patch_changes_nothing() {
    let mut s = settings();
    assert_eq!(s.patch(empty_patch()), settings());
}

#[test]
fn a_patch_applied_twice_is_applied_once() {
    let mut p = empty_patch();
    p.add_soft_hyphens = Some(true);
    p.cover_image_path = Some(None);
    let mut s = settings();
    let mut once = s.patch(p.clone());
    let twice = once.patch(p);
    assert_eq!(twice, once);
}

#[test]
fn person_list_paging_defaults_and_offsets() {
    assert_eq!(list_request(None, None, None), (0, 10, OrderBy::FirstnameAscending));
    assert_eq!(list_request(Some(20), Some(5), Some(OrderBy::LastnameDescending)), (20, 5, OrderBy::LastnameDescending));
    assert_eq!(page_offsets(3, 0, 10), (Some(10), None));
    assert_eq!(page_offsets(3, 10, 10), (Some(20), Some(0)));
    assert_eq!(page_offsets(3, 20, 10), (None, Some(10)));
    assert_eq!(page_offsets(0, 0, 10), (None, None));
}

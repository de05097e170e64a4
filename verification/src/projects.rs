//! Project settings and their partial updates, and the plain records of
//! the project forms and uploads.
use vstd::prelude::*;
use crate::content::UploadedImage;

verus! {

/// Partial update of a value of type `T` with data of type `P`.
pub trait Patch<P, T> {
    /// The value updated with the data of `patch`.
    fn patch(&mut self, patch: P) -> T;
}

/// The rendering settings of a project.
#[derive(Clone, Debug, PartialEq, Eq)]
pub struct ProjectSettingsV5 {
    pub toc_enabled: bool,
    pub csl_style: Option<String>,
    pub csl_language_code: Option<String>,
    pub metadata_page_additional_html: Option<String>,
    pub cover_image_path: Option<String>,
    pub backcover_image_path: Option<String>,
    pub add_soft_hyphens: bool,
}

/// A partial update of the settings: each field given replaces the
/// setting, each field absent leaves it; for the optional settings,
/// `Some(None)` clears the setting.
#[derive(Clone, Debug, PartialEq, Eq)]
pub struct PatchProjectSettings {
    pub toc_enabled: Option<bool>,
    pub csl_style: Option<Option<String>>,
    pub csl_language_code: Option<Option<String>>,
    pub metadata_page_additional_html: Option<Option<String>>,
    pub cover_image_path: Option<Option<String>>,
    pub backcover_image_path: Option<Option<String>>,
    pub add_soft_hyphens: Option<bool>,
}

pub open spec fn pick<A>(given: Option<A>, current: A) -> A {
    match given {
        Some(v) => v,
        None => current,
    }
}

/// The settings after a patch.
pub open spec fn patched_settings(s: ProjectSettingsV5, p: PatchProjectSettings) -> ProjectSettingsV5 {
    ProjectSettingsV5 {
        toc_enabled: pick(p.toc_enabled, s.toc_enabled),
        csl_style: pick(p.csl_style, s.csl_style),
        csl_language_code: pick(p.csl_language_code, s.csl_language_code),
        metadata_page_additional_html: pick(
            p.metadata_page_additional_html,
            s.metadata_page_additional_html,
        ),
        cover_image_path: pick(p.cover_image_path, s.cover_image_path),
        backcover_image_path: pick(p.backcover_image_path, s.backcover_image_path),
        add_soft_hyphens: pick(p.add_soft_hyphens, s.add_soft_hyphens),
    }
}

/// The patch that does what `first` then `second` do: each field of
/// `second` if given, else that of `first`.
pub open spec fn merged_patch(first: PatchProjectSettings, second: PatchProjectSettings) -> PatchProjectSettings {
    PatchProjectSettings {
        toc_enabled: if second.toc_enabled is Some {
            second.toc_enabled
        } else {
            first.toc_enabled
        },
        csl_style: if second.csl_style is Some {
            second.csl_style
        } else {
            first.csl_style
        },
        csl_language_code: if second.csl_language_code is Some {
            second.csl_language_code
        } else {
            first.csl_language_code
        },
        metadata_page_additional_html: if second.metadata_page_additional_html is Some {
            second.metadata_page_additional_html
        } else {
            first.metadata_page_additional_html
        },
        cover_image_path: if second.cover_image_path is Some {
            second.cover_image_path
        } else {
            first.cover_image_path
        },
        backcover_image_path: if second.backcover_image_path is Some {
            second.backcover_image_path
        } else {
            first.backcover_image_path
        },
        add_soft_hyphens: if second.add_soft_hyphens is Some {
            second.add_soft_hyphens
        } else {
            first.add_soft_hyphens
        },
    }
}

/// The patch that changes nothing.
pub open spec fn empty_settings_patch() -> PatchProjectSettings {
    PatchProjectSettings {
        toc_enabled: None,
        csl_style: None,
        csl_language_code: None,
        metadata_page_additional_html: None,
        cover_image_path: None,
        backcover_image_path: None,
        add_soft_hyphens: None,
    }
}

fn copy_text(s: &Option<String>) -> (r: Option<String>)
    ensures
        r == *s,
{
    match s {
        Some(t) => Some(t.clone()),
        None => None,
    }
}

fn pick_text(given: Option<Option<String>>, current: &Option<String>) -> (r: Option<String>)
    ensures
        r == pick(given, *current),
{
    match given {
        Some(v) => v,
        None => copy_text(current),
    }
}

impl Patch<PatchProjectSettings, ProjectSettingsV5> for ProjectSettingsV5 {
    /// The settings with the fields of `patch` applied; `self` itself is
    /// left as it is.
    fn patch(&mut self, patch: PatchProjectSettings) -> (r: ProjectSettingsV5)
        ensures
            r == patched_settings(*old(self), patch),
            *final(self) == *old(self),
    {
        ProjectSettingsV5 {
            toc_enabled: match patch.toc_enabled {
                Some(v) => v,
                None => self.toc_enabled,
            },
            csl_style: pick_text(patch.csl_style, &self.csl_style),
            csl_language_code: pick_text(patch.csl_language_code, &self.csl_language_code),
            metadata_page_additional_html: pick_text(
                patch.metadata_page_additional_html,
                &self.metadata_page_additional_html,
            ),
            cover_image_path: pick_text(patch.cover_image_path, &self.cover_image_path),
            backcover_image_path: pick_text(patch.backcover_image_path, &self.backcover_image_path),
            add_soft_hyphens: match patch.add_soft_hyphens {
                Some(v) => v,
                None => self.add_soft_hyphens,
            },
        }
    }
}

/// A settings patch sets each setting it gives and keeps each setting it
/// leaves out.
pub proof fn lemma_settings_patch_fields(s: ProjectSettingsV5, p: PatchProjectSettings)
    ensures
        p.toc_enabled matches Some(v) ==> patched_settings(s, p).toc_enabled == v,
        p.toc_enabled is None ==> patched_settings(s, p).toc_enabled == s.toc_enabled,
        p.csl_style matches Some(v) ==> patched_settings(s, p).csl_style == v,
        p.csl_style is None ==> patched_settings(s, p).csl_style == s.csl_style,
        p.csl_language_code matches Some(v) ==> patched_settings(s, p).csl_language_code == v,
        p.csl_language_code is None ==> patched_settings(s, p).csl_language_code == s.csl_language_code,
        p.metadata_page_additional_html matches Some(v) ==> patched_settings(s, p).metadata_page_additional_html == v,
        p.metadata_page_additional_html is None ==> patched_settings(s, p).metadata_page_additional_html == s.metadata_page_additional_html,
        p.cover_image_path matches Some(v) ==> patched_settings(s, p).cover_image_path == v,
        p.cover_image_path is None ==> patched_settings(s, p).cover_image_path == s.cover_image_path,
        p.backcover_image_path matches Some(v) ==> patched_settings(s, p).backcover_image_path == v,
        p.backcover_image_path is None ==> patched_settings(s, p).backcover_image_path == s.backcover_image_path,
        p.add_soft_hyphens matches Some(v) ==> patched_settings(s, p).add_soft_hyphens == v,
        p.add_soft_hyphens is None ==> patched_settings(s, p).add_soft_hyphens == s.add_soft_hyphens,
{
}

/// A patch without fields leaves the settings unchanged.
pub proof fn lemma_empty_patch_identity(s: ProjectSettingsV5)
    ensures
        patched_settings(s, empty_settings_patch()) == s,
{
}

/// Applying the same patch twice is applying it once.
pub proof fn lemma_patch_idempotent(s: ProjectSettingsV5, p: PatchProjectSettings)
    ensures
        patched_settings(patched_settings(s, p), p) == patched_settings(s, p),
{
}

/// Two patches in a row are one patch whose fields are those of the second
/// where it has them and those of the first elsewhere.
pub proof fn lemma_patch_compose(
    s: ProjectSettingsV5,
    first: PatchProjectSettings,
    second: PatchProjectSettings,
)
    ensures
        patched_settings(patched_settings(s, first), second) == patched_settings(
            s,
            merged_patch(first, second),
        ),
{
}

/// The fields of the form that creates a project.
#[derive(Clone, Debug, PartialEq, Eq)]
pub struct CreateProjectForm {
    /// Project name.
    pub project_name: String,
    /// Id of the template used, as text.
    pub template_id: String,
    /// Optional project description.
    pub project_description: Option<String>,
}

/// An image upload: the path of the uploaded temporary file.
#[derive(Clone, Debug, PartialEq, Eq)]
pub struct ImageUpload {
    pub image: String,
}

/// The editor's answer to an image upload.
#[derive(Clone, Debug, PartialEq)]
pub struct ImageUploadResponse {
    pub success: u8,
    pub file: Option<UploadedImage>,
}

impl ImageUploadResponse {
    /// The answer for a stored upload.
    pub fn stored(file: UploadedImage) -> (r: ImageUploadResponse)
        ensures
            r.success == 1,
            r.file == Some(file),
    {
        ImageUploadResponse { success: 1, file: Some(file) }
    }

    /// The answer for a failed upload.
    pub fn failed() -> (r: ImageUploadResponse)
        ensures
            r.success == 0,
            r.file is None,
    {
        ImageUploadResponse { success: 0, file: None }
    }
}

/// Orders of the person list.
#[derive(Clone, Copy, Debug, PartialEq, Eq, Structural)]
pub enum OrderBy {
    FirstnameAscending,
    FirstnameDescending,
    LastnameAscending,
    LastnameDescending,
}

/// The paging of a person-list request: the offset (0 when not given), the
/// number of persons per page (10 when not given) and the order (first
/// name ascending when not given).
pub fn list_request(offset: Option<u32>, limit: Option<u32>, order: Option<OrderBy>) -> (r: (u32, u32, OrderBy))
    ensures
        r.0 == match offset {
            Some(o) => o,
            None => 0u32,
        },
        r.1 == match limit {
            Some(l) => l,
            None => 10u32,
        },
        r.2 == match order {
            Some(o) => o,
            None => OrderBy::FirstnameAscending,
        },
{
    let o = match offset {
        Some(o) => o,
        None => 0,
    };
    let l = match limit {
        Some(l) => l,
        None => 10,
    };
    let ord = match order {
        Some(x) => x,
        None => OrderBy::FirstnameAscending,
    };
    (o, l, ord)
}

/// The page a person list shows, counted from 1.
pub open spec fn current_page(offset: u32, limit: u32) -> int {
    offset as int / limit as int + 1
}

/// The offsets of the next and the previous page of a person list with
/// `num_of_pages` pages: the next page where there are pages after the
/// current one, the previous page where the current one is not the first.
pub fn page_offsets(num_of_pages: u32, offset: u32, limit: u32) -> (r: (Option<u32>, Option<u32>))
    requires
        limit > 0,
        current_page(offset, limit) <= u32::MAX,
        num_of_pages > current_page(offset, limit) ==> offset + limit <= u32::MAX,
    ensures
        r.0 == if num_of_pages > current_page(offset, limit) {
            Some((offset + limit) as u32)
        } else {
            None::<u32>
        },
        r.1 == if current_page(offset, limit) > 1 {
            Some((offset - limit) as u32)
        } else {
            None::<u32>
        },
{
    let page = offset / limit + 1;
    let next = if num_of_pages > page {
        Some(offset + limit)
    } else {
        None
    };
    let previous = if page > 1 {
        assert(offset >= limit) by (nonlinear_arith)
            requires
                offset as int / limit as int + 1 > 1,
                limit > 0,
        ;
        Some(offset - limit)
    } else {
        None
    };
    (next, previous)
}

/// A user's role within a team.
#[derive(Clone, Copy, Debug, PartialEq, Eq, Structural)]
pub enum TeamRole {
    Owner,
    Admin,
    Member,
}

/// The login form.
#[derive(Clone, Debug, PartialEq, Eq)]
pub struct LoginForm {
    pub email: String,
    pub password: String,
}

/// The form that asks for a password reset.
#[derive(Clone, Debug, PartialEq, Eq)]
pub struct PwResetForm {
    pub email: String,
}

/// The form that sets a new password with a reset token.
#[derive(Clone, Debug, PartialEq, Eq)]
pub struct PwResetConfirmationForm {
    pub email: String,
    pub token: String,
    pub password: String,
    pub password2: String,
}

/// A user to create from the settings page.
#[derive(Clone, Debug, PartialEq, Eq)]
pub struct NewUser {
    pub username: String,
    pub password: String,
    pub email: String,
}

} // verus!

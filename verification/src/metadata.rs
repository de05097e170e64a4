//! Metadata of sections and projects and their partial updates, including
//! the reading of publication dates.
use vstd::prelude::*;
use crate::export::PersonUuidOrString;
use crate::projects::{Patch, pick};
use crate::content::owned;
use crate::text::{chars_of, push_char, text_eq};
use crate::wordpress::{decimal, decimal_text};

verus! {

// ---------------------------------------------------------------------------
// Dates
// ---------------------------------------------------------------------------

/// A calendar date.
#[derive(Clone, Copy, Debug, PartialEq, Eq, Structural)]
pub struct CalendarDate {
    pub year: i32,
    pub month: u32,
    pub day: u32,
}

/// The decimal digits of `n`, with zeros put in front up to `w`
/// characters.
pub open spec fn zero_padded(n: nat, w: nat) -> Seq<char> {
    if decimal(n).len() < w {
        Seq::new((w - decimal(n).len()) as nat, |i: int| '0') + decimal(n)
    } else {
        decimal(n)
    }
}

/// A year as ISO 8601 writes it: four digits from 0 to 9999, otherwise
/// the sign and at least four digits.
pub open spec fn year_text(y: int) -> Seq<char> {
    if 0 <= y <= 9999 {
        zero_padded(y as nat, 4)
    } else if y < 0 {
        seq!['-'] + zero_padded((-y) as nat, 4)
    } else {
        seq!['+'] + zero_padded(y as nat, 4)
    }
}

/// The date-time text of midnight at the start of a date, as
/// `NaiveDate::and_time(NaiveTime::default()).to_string()` writes it:
/// `YYYY-MM-DD 00:00:00`.
pub open spec fn midnight_text_spec(d: CalendarDate) -> Seq<char> {
    year_text(d.year as int) + "-"@ + zero_padded(d.month as nat, 2) + "-"@ + zero_padded(
        d.day as nat,
        2,
    ) + " 00:00:00"@
}

fn zero_padded_exec(n: usize, w: usize) -> (r: String)
    ensures
        r@ == zero_padded(n as nat, w as nat),
{
    let digits = decimal_text(n);
    let len = chars_of(digits.as_str()).len();
    let mut r = String::new();
    if len < w {
        let mut i: usize = 0;
        while i < w - len
            invariant
                len < w,
                i <= w - len,
                r@ == Seq::new(i as nat, |k: int| '0'),
            decreases w - len - i,
        {
            push_char(&mut r, '0');
            assert(r@ =~= Seq::new((i + 1) as nat, |k: int| '0'));
            i = i + 1;
        }
    }
    r.append(digits.as_str());
    proof {
        if !(len < w) {
            assert(r@ =~= decimal(n as nat));
        }
    }
    r
}

/// The date-time text of midnight at the start of a date, as the blog API
/// takes it in its date filters.
pub fn midnight_text(d: &CalendarDate) -> (r: String)
    requires
        d.month < 100,
        d.day < 100,
    ensures
        r@ == midnight_text_spec(*d),
{
    let mut r = String::new();
    if 0 <= d.year && d.year <= 9999 {
        r.append(zero_padded_exec(d.year as usize, 4).as_str());
    } else {
        let y: i64 = d.year as i64;
        if y < 0 {
            push_char(&mut r, '-');
            r.append(zero_padded_exec((-y) as usize, 4).as_str());
        } else {
            push_char(&mut r, '+');
            r.append(zero_padded_exec(y as usize, 4).as_str());
        }
    }
    r.append("-");
    r.append(zero_padded_exec(d.month as usize, 2).as_str());
    r.append("-");
    r.append(zero_padded_exec(d.day as usize, 2).as_str());
    r.append(" 00:00:00");
    r
}

/// What `chrono::NaiveDate::parse_from_str` with the format `%Y-%m-%d`
/// gives for a text: year, month and day of the date, or `None`.
pub uninterp spec fn parsed_ymd(s: Seq<char>) -> Option<(i32, u32, u32)>;

/// `chrono::NaiveDate::parse_from_str(s, "%Y-%m-%d")`, read back with
/// `Datelike`; the result is named `parsed_ymd`.
#[verifier::external_body]
fn parse_ymd(s: &str) -> (r: Option<CalendarDate>)
    ensures
        match r {
            Some(d) => parsed_ymd(s@) == Some((d.year, d.month, d.day)),
            None => parsed_ymd(s@) is None,
        },
{
    match chrono::NaiveDate::parse_from_str(s, "%Y-%m-%d") {
        Ok(d) => Some(CalendarDate {
            year: chrono::Datelike::year(&d),
            month: chrono::Datelike::month(&d),
            day: chrono::Datelike::day(&d),
        }),
        Err(_) => None,
    }
}

pub open spec fn date_of(t: (i32, u32, u32)) -> CalendarDate {
    CalendarDate { year: t.0, month: t.1, day: t.2 }
}

/// Reads a publication date written as `year-month-day`.
pub fn read_date(s: &str) -> (r: Option<CalendarDate>)
    ensures
        r == match parsed_ymd(s@) {
            Some(t) => Some(date_of(t)),
            None => None,
        },
{
    parse_ymd(s)
}

// ---------------------------------------------------------------------------
// Section metadata
// ---------------------------------------------------------------------------

/// An identifier of a publication, such as a DOI.
#[derive(Clone, Debug, PartialEq, Eq)]
pub struct Identifier {
    pub id: Option<u128>,
    pub name: String,
    pub value: String,
    /// The kind of identifier, by name (such as `DOI`).
    pub identifier_type: String,
}

/// The metadata of a section.
#[derive(Clone, Debug, PartialEq, Eq)]
pub struct SectionMetadata {
    pub title: String,
    pub toc_title_subtitle_override: Option<String>,
    pub subtitle: Option<String>,
    pub authors: Vec<PersonUuidOrString>,
    pub editors: Vec<PersonUuidOrString>,
    pub web_url: Option<String>,
    pub identifiers: Vec<Identifier>,
    pub published: Option<CalendarDate>,
    /// Seconds since the epoch of the last change.
    pub last_changed: Option<i64>,
    /// The language, as its language tag.
    pub lang: Option<String>,
    pub custom_fields: Vec<(String, String)>,
}

/// A partial update of section metadata: each field given replaces the
/// field, `Some(None)` clears an optional field; a publication date is
/// given as text.
#[derive(Clone, Debug, PartialEq, Eq)]
pub struct PatchSectionMetadata {
    pub title: Option<String>,
    pub toc_title_subtitle_override: Option<Option<String>>,
    pub subtitle: Option<Option<String>>,
    pub authors: Option<Vec<PersonUuidOrString>>,
    pub editors: Option<Vec<PersonUuidOrString>>,
    pub web_url: Option<Option<String>>,
    pub identifiers: Option<Vec<Identifier>>,
    pub published: Option<Option<String>>,
    pub last_changed: Option<Option<i64>>,
    pub lang: Option<Option<String>>,
}

/// The publication date of section metadata after a patch: a date that
/// cannot be read leaves the date as it was.
pub open spec fn section_published(current: Option<CalendarDate>, given: Option<Option<String>>) -> Option<
    CalendarDate,
> {
    match given {
        Some(Some(s)) => match parsed_ymd(s@) {
            Some(t) => Some(date_of(t)),
            None => current,
        },
        Some(None) => None,
        None => current,
    }
}

/// Section metadata after a patch.
pub open spec fn patched_section_metadata(m: SectionMetadata, p: PatchSectionMetadata) -> SectionMetadata {
    SectionMetadata {
        title: pick(p.title, m.title),
        toc_title_subtitle_override: pick(p.toc_title_subtitle_override, m.toc_title_subtitle_override),
        subtitle: pick(p.subtitle, m.subtitle),
        authors: pick(p.authors, m.authors),
        editors: pick(p.editors, m.editors),
        web_url: pick(p.web_url, m.web_url),
        identifiers: pick(p.identifiers, m.identifiers),
        published: section_published(m.published, p.published),
        last_changed: pick(p.last_changed, m.last_changed),
        lang: pick(p.lang, m.lang),
        custom_fields: m.custom_fields,
    }
}

/// Equal metadata: equal fields, lists compared by their elements.
pub open spec fn same_section_metadata(a: SectionMetadata, b: SectionMetadata) -> bool {
    &&& a.title == b.title
    &&& a.toc_title_subtitle_override == b.toc_title_subtitle_override
    &&& a.subtitle == b.subtitle
    &&& a.authors@ == b.authors@
    &&& a.editors@ == b.editors@
    &&& a.web_url == b.web_url
    &&& a.identifiers@ == b.identifiers@
    &&& a.published == b.published
    &&& a.last_changed == b.last_changed
    &&& a.lang == b.lang
    &&& a.custom_fields@ == b.custom_fields@
}

pub open spec fn opt_list<T>(o: Option<Vec<T>>) -> Option<Seq<T>> {
    match o {
        Some(v) => Some(v@),
        None => None,
    }
}

/// Equal project metadata: equal fields, lists compared by their elements.
pub open spec fn same_project_metadata(a: ProjectMetadataV5, b: ProjectMetadataV5) -> bool {
    &&& a.title == b.title
    &&& a.subtitle == b.subtitle
    &&& opt_list(a.authors) == opt_list(b.authors)
    &&& opt_list(a.editors) == opt_list(b.editors)
    &&& a.web_url == b.web_url
    &&& opt_list(a.identifiers) == opt_list(b.identifiers)
    &&& a.published == b.published
    &&& opt_list(a.languages) == opt_list(b.languages)
    &&& a.number_of_pages == b.number_of_pages
    &&& a.short_abstract == b.short_abstract
    &&& a.long_abstract == b.long_abstract
    &&& opt_list(a.keywords) == opt_list(b.keywords)
    &&& a.ddc == b.ddc
    &&& a.license == b.license
    &&& a.series == b.series
    &&& a.volume == b.volume
    &&& a.edition == b.edition
    &&& a.publisher == b.publisher
    &&& a.custom_fields@ == b.custom_fields@
}

fn copy_text(s: &Option<String>) -> (r: Option<String>)
    ensures
        r == *s,
{
    match s {
        Some(t) => Some(t.clone()),
        None => None,
    }
}

fn copy_persons(v: &Vec<PersonUuidOrString>) -> (r: Vec<PersonUuidOrString>)
    ensures
        r@ == v@,
{
    let mut r: Vec<PersonUuidOrString> = Vec::new();
    let mut i: usize = 0;
    while i < v.len()
        invariant
            i <= v.len(),
            r@ == v@.take(i as int),
        decreases v.len() - i,
    {
        let p = match &v[i] {
            PersonUuidOrString::PersonUuid(id) => PersonUuidOrString::PersonUuid(*id),
            PersonUuidOrString::NameString(s) => PersonUuidOrString::NameString(s.clone()),
        };
        r.push(p);
        assert(v@.take(i + 1) =~= v@.take(i as int).push(v@[i as int]));
        i = i + 1;
    }
    assert(v@.take(i as int) =~= v@);
    r
}

fn copy_identifiers(v: &Vec<Identifier>) -> (r: Vec<Identifier>)
    ensures
        r@ == v@,
{
    let mut r: Vec<Identifier> = Vec::new();
    let mut i: usize = 0;
    while i < v.len()
        invariant
            i <= v.len(),
            r@ == v@.take(i as int),
        decreases v.len() - i,
    {
        let x = &v[i];
        r.push(
            Identifier {
                id: x.id,
                name: x.name.clone(),
                value: x.value.clone(),
                identifier_type: x.identifier_type.clone(),
            },
        );
        assert(v@.take(i + 1) =~= v@.take(i as int).push(v@[i as int]));
        i = i + 1;
    }
    assert(v@.take(i as int) =~= v@);
    r
}

fn copy_pairs(v: &Vec<(String, String)>) -> (r: Vec<(String, String)>)
    ensures
        r@ == v@,
{
    let mut r: Vec<(String, String)> = Vec::new();
    let mut i: usize = 0;
    while i < v.len()
        invariant
            i <= v.len(),
            r@ == v@.take(i as int),
        decreases v.len() - i,
    {
        r.push((v[i].0.clone(), v[i].1.clone()));
        assert(v@.take(i + 1) =~= v@.take(i as int).push(v@[i as int]));
        i = i + 1;
    }
    assert(v@.take(i as int) =~= v@);
    r
}

fn pick_text(given: Option<Option<String>>, current: &Option<String>) -> (r: Option<String>)
    ensures
        r == pick(given, *current),
{
    match given {
        Some(v) => v,
        None => copy_text(current),
    }
}

impl Patch<PatchSectionMetadata, SectionMetadata> for SectionMetadata {
    /// The metadata with the fields of `patch` applied; `self` is left as
    /// it is.
    fn patch(&mut self, patch: PatchSectionMetadata) -> (r: SectionMetadata)
        ensures
            same_section_metadata(r, patched_section_metadata(*old(self), patch)),
            *final(self) == *old(self),
    {
        let published = match patch.published {
            Some(Some(s)) => match read_date(s.as_str()) {
                Some(d) => Some(d),
                None => self.published,
            },
            Some(None) => None,
            None => self.published,
        };
        SectionMetadata {
            title: match patch.title {
                Some(t) => t,
                None => self.title.clone(),
            },
            toc_title_subtitle_override: pick_text(
                patch.toc_title_subtitle_override,
                &self.toc_title_subtitle_override,
            ),
            subtitle: pick_text(patch.subtitle, &self.subtitle),
            authors: match patch.authors {
                Some(a) => a,
                None => copy_persons(&self.authors),
            },
            editors: match patch.editors {
                Some(e) => e,
                None => copy_persons(&self.editors),
            },
            web_url: pick_text(patch.web_url, &self.web_url),
            identifiers: match patch.identifiers {
                Some(i) => i,
                None => copy_identifiers(&self.identifiers),
            },
            published,
            last_changed: match patch.last_changed {
                Some(v) => v,
                None => self.last_changed,
            },
            lang: pick_text(patch.lang, &self.lang),
            custom_fields: copy_pairs(&self.custom_fields),
        }
    }
}

/// Applying the same section metadata patch twice is applying it once.
pub proof fn lemma_section_patch_idempotent(m: SectionMetadata, p: PatchSectionMetadata)
    ensures
        patched_section_metadata(patched_section_metadata(m, p), p) == patched_section_metadata(
            m,
            p,
        ),
{
}

// ---------------------------------------------------------------------------
// Licenses
// ---------------------------------------------------------------------------

/// The license of a book.
#[allow(non_camel_case_types)]
#[derive(Clone, Debug, PartialEq, Eq)]
pub enum License {
    CC0,
    CC_BY_4,
    CC_BY_SA_4,
    CC_BY_ND_4,
    CC_BY_NC_4,
    CC_BY_NC_SA_4,
    CC_BY_NC_ND_4,
    /// Any other license, by name.
    Other(String),
}

/// A license, with the name of another license as text.
#[allow(non_camel_case_types)]
pub enum LicenseView {
    CC0,
    CC_BY_4,
    CC_BY_SA_4,
    CC_BY_ND_4,
    CC_BY_NC_4,
    CC_BY_NC_SA_4,
    CC_BY_NC_ND_4,
    Other(Seq<char>),
}

impl View for License {
    type V = LicenseView;

    open spec fn view(&self) -> LicenseView {
        match self {
            License::CC0 => LicenseView::CC0,
            License::CC_BY_4 => LicenseView::CC_BY_4,
            License::CC_BY_SA_4 => LicenseView::CC_BY_SA_4,
            License::CC_BY_ND_4 => LicenseView::CC_BY_ND_4,
            License::CC_BY_NC_4 => LicenseView::CC_BY_NC_4,
            License::CC_BY_NC_SA_4 => LicenseView::CC_BY_NC_SA_4,
            License::CC_BY_NC_ND_4 => LicenseView::CC_BY_NC_ND_4,
            License::Other(n) => LicenseView::Other(n@),
        }
    }
}

/// The name under which a license is stored.
pub open spec fn license_name(l: LicenseView) -> Seq<char> {
    match l {
        LicenseView::CC0 => "CC0"@,
        LicenseView::CC_BY_4 => "CC_BY_4"@,
        LicenseView::CC_BY_SA_4 => "CC_BY_SA_4"@,
        LicenseView::CC_BY_ND_4 => "CC_BY_ND_4"@,
        LicenseView::CC_BY_NC_4 => "CC_BY_NC_4"@,
        LicenseView::CC_BY_NC_SA_4 => "CC_BY_NC_SA_4"@,
        LicenseView::CC_BY_NC_ND_4 => "CC_BY_NC_ND_4"@,
        LicenseView::Other(n) => n,
    }
}

/// Whether a name is that of one of the named licenses.
pub open spec fn is_standard_license_name(s: Seq<char>) -> bool {
    s == "CC0"@ || s == "CC_BY_4"@ || s == "CC_BY_SA_4"@ || s == "CC_BY_ND_4"@ || s == "CC_BY_NC_4"@ || s == "CC_BY_NC_SA_4"@ || s == "CC_BY_NC_ND_4"@
}

/// The license stored under a name: a named license under its own name,
/// any other name as another license.
pub open spec fn license_of(s: Seq<char>) -> LicenseView {
    if s == "CC0"@ {
        LicenseView::CC0
    } else if s == "CC_BY_4"@ {
        LicenseView::CC_BY_4
    } else if s == "CC_BY_SA_4"@ {
        LicenseView::CC_BY_SA_4
    } else if s == "CC_BY_ND_4"@ {
        LicenseView::CC_BY_ND_4
    } else if s == "CC_BY_NC_4"@ {
        LicenseView::CC_BY_NC_4
    } else if s == "CC_BY_NC_SA_4"@ {
        LicenseView::CC_BY_NC_SA_4
    } else if s == "CC_BY_NC_ND_4"@ {
        LicenseView::CC_BY_NC_ND_4
    } else {
        LicenseView::Other(s)
    }
}

/// The name under which a license is stored.
pub fn license_to_string(license: &License) -> (r: String)
    ensures
        r@ == license_name(license@),
{
    match license {
        License::CC0 => owned("CC0"),
        License::CC_BY_4 => owned("CC_BY_4"),
        License::CC_BY_SA_4 => owned("CC_BY_SA_4"),
        License::CC_BY_ND_4 => owned("CC_BY_ND_4"),
        License::CC_BY_NC_4 => owned("CC_BY_NC_4"),
        License::CC_BY_NC_SA_4 => owned("CC_BY_NC_SA_4"),
        License::CC_BY_NC_ND_4 => owned("CC_BY_NC_ND_4"),
        License::Other(other) => other.clone(),
    }
}

/// The license stored under a name; a name that is none of the named
/// licenses' is another license.
pub fn license_from_string(value: &str) -> (r: License)
    ensures
        r@ == license_of(value@),
{
    if text_eq(value, "CC0") {
        License::CC0
    } else if text_eq(value, "CC_BY_4") {
        License::CC_BY_4
    } else if text_eq(value, "CC_BY_SA_4") {
        License::CC_BY_SA_4
    } else if text_eq(value, "CC_BY_ND_4") {
        License::CC_BY_ND_4
    } else if text_eq(value, "CC_BY_NC_4") {
        License::CC_BY_NC_4
    } else if text_eq(value, "CC_BY_NC_SA_4") {
        License::CC_BY_NC_SA_4
    } else if text_eq(value, "CC_BY_NC_ND_4") {
        License::CC_BY_NC_ND_4
    } else {
        License::Other(owned(value))
    }
}

/// Reading back the stored name of a license gives the license, unless it
/// is another license that carries the name of a named one.
pub proof fn lemma_license_round_trip(l: LicenseView)
    requires
        !(l is Other && is_standard_license_name(license_name(l))),
    ensures
        license_of(license_name(l)) == l,
{
    reveal_strlit("CC0");
    reveal_strlit("CC_BY_4");
    reveal_strlit("CC_BY_SA_4");
    reveal_strlit("CC_BY_ND_4");
    reveal_strlit("CC_BY_NC_4");
    reveal_strlit("CC_BY_NC_SA_4");
    reveal_strlit("CC_BY_NC_ND_4");
    match l {
        LicenseView::CC_BY_4 => {
            assert("CC_BY_4"@.len() != "CC0"@.len());
        },
        LicenseView::CC_BY_SA_4 => {
            assert("CC_BY_SA_4"@.len() != "CC0"@.len());
            assert("CC_BY_SA_4"@.len() != "CC_BY_4"@.len());
        },
        LicenseView::CC_BY_ND_4 => {
            assert("CC_BY_ND_4"@.len() != "CC0"@.len());
            assert("CC_BY_ND_4"@.len() != "CC_BY_4"@.len());
            assert("CC_BY_ND_4"@[6] != "CC_BY_SA_4"@[6]);
        },
        LicenseView::CC_BY_NC_4 => {
            assert("CC_BY_NC_4"@.len() != "CC0"@.len());
            assert("CC_BY_NC_4"@.len() != "CC_BY_4"@.len());
            assert("CC_BY_NC_4"@[6] != "CC_BY_SA_4"@[6]);
            assert("CC_BY_NC_4"@[7] != "CC_BY_ND_4"@[7]);
        },
        LicenseView::CC_BY_NC_SA_4 => {
            assert("CC_BY_NC_SA_4"@.len() != "CC0"@.len());
            assert("CC_BY_NC_SA_4"@.len() != "CC_BY_4"@.len());
            assert("CC_BY_NC_SA_4"@.len() != "CC_BY_SA_4"@.len());
            assert("CC_BY_NC_SA_4"@.len() != "CC_BY_ND_4"@.len());
            assert("CC_BY_NC_SA_4"@.len() != "CC_BY_NC_4"@.len());
        },
        LicenseView::CC_BY_NC_ND_4 => {
            assert("CC_BY_NC_ND_4"@.len() != "CC0"@.len());
            assert("CC_BY_NC_ND_4"@.len() != "CC_BY_4"@.len());
            assert("CC_BY_NC_ND_4"@.len() != "CC_BY_SA_4"@.len());
            assert("CC_BY_NC_ND_4"@.len() != "CC_BY_ND_4"@.len());
            assert("CC_BY_NC_ND_4"@.len() != "CC_BY_NC_4"@.len());
            assert("CC_BY_NC_ND_4"@[9] != "CC_BY_NC_SA_4"@[9]);
        },
        _ => {},
    }
}

/// Storing the license read from a name stores that name.
pub proof fn lemma_license_name_round_trip(s: Seq<char>)
    ensures
        license_name(license_of(s)) == s,
{
}

// ---------------------------------------------------------------------------
// Project metadata
// ---------------------------------------------------------------------------

/// The metadata of a book project.
#[derive(Clone, Debug, PartialEq, Eq)]
pub struct ProjectMetadataV5 {
    pub title: String,
    pub subtitle: Option<String>,
    pub authors: Option<Vec<PersonUuidOrString>>,
    pub editors: Option<Vec<PersonUuidOrString>>,
    pub web_url: Option<String>,
    pub identifiers: Option<Vec<Identifier>>,
    pub published: Option<CalendarDate>,
    /// Language tags.
    pub languages: Option<Vec<String>>,
    pub number_of_pages: Option<u32>,
    pub short_abstract: Option<String>,
    pub long_abstract: Option<String>,
    /// Keywords, by title.
    pub keywords: Option<Vec<String>>,
    pub ddc: Option<String>,
    /// The license, by name.
    pub license: Option<String>,
    pub series: Option<String>,
    pub volume: Option<String>,
    pub edition: Option<String>,
    pub publisher: Option<String>,
    pub custom_fields: Vec<(String, String)>,
}

/// A partial update of project metadata.
#[derive(Clone, Debug, PartialEq, Eq)]
pub struct PatchProjectMetadata {
    pub title: Option<String>,
    pub subtitle: Option<Option<String>>,
    pub authors: Option<Option<Vec<PersonUuidOrString>>>,
    pub editors: Option<Option<Vec<PersonUuidOrString>>>,
    pub web_url: Option<Option<String>>,
    pub identifiers: Option<Option<Vec<Identifier>>>,
    pub published: Option<Option<String>>,
    pub languages: Option<Option<Vec<String>>>,
    pub number_of_pages: Option<Option<u32>>,
    pub short_abstract: Option<Option<String>>,
    pub long_abstract: Option<Option<String>>,
    pub keywords: Option<Option<Vec<String>>>,
    pub ddc: Option<Option<String>>,
    pub license: Option<Option<String>>,
    pub series: Option<Option<String>>,
    pub volume: Option<Option<String>>,
    pub edition: Option<Option<String>>,
    pub publisher: Option<Option<String>>,
    pub custom_fields: Option<Vec<(String, String)>>,
}

/// The publication date of project metadata after a patch: a date that
/// cannot be read clears the date.
pub open spec fn project_published(current: Option<CalendarDate>, given: Option<Option<String>>) -> Option<
    CalendarDate,
> {
    match given {
        Some(Some(s)) => match parsed_ymd(s@) {
            Some(t) => Some(date_of(t)),
            None => None,
        },
        Some(None) => None,
        None => current,
    }
}

/// Project metadata after a patch.
pub open spec fn patched_project_metadata(m: ProjectMetadataV5, p: PatchProjectMetadata) -> ProjectMetadataV5 {
    ProjectMetadataV5 {
        title: pick(p.title, m.title),
        subtitle: pick(p.subtitle, m.subtitle),
        authors: pick(p.authors, m.authors),
        editors: pick(p.editors, m.editors),
        web_url: pick(p.web_url, m.web_url),
        identifiers: pick(p.identifiers, m.identifiers),
        published: project_published(m.published, p.published),
        languages: pick(p.languages, m.languages),
        number_of_pages: pick(p.number_of_pages, m.number_of_pages),
        short_abstract: pick(p.short_abstract, m.short_abstract),
        long_abstract: pick(p.long_abstract, m.long_abstract),
        keywords: pick(p.keywords, m.keywords),
        ddc: pick(p.ddc, m.ddc),
        license: pick(p.license, m.license),
        series: pick(p.series, m.series),
        volume: pick(p.volume, m.volume),
        edition: pick(p.edition, m.edition),
        publisher: pick(p.publisher, m.publisher),
        custom_fields: pick(p.custom_fields, m.custom_fields),
    }
}

fn copy_opt_persons(v: &Option<Vec<PersonUuidOrString>>) -> (r: Option<Vec<PersonUuidOrString>>)
    ensures
        opt_list(r) == opt_list(*v),
{
    match v {
        Some(x) => Some(copy_persons(x)),
        None => None,
    }
}

fn copy_texts(v: &Vec<String>) -> (r: Vec<String>)
    ensures
        r@ == v@,
{
    let mut r: Vec<String> = Vec::new();
    let mut i: usize = 0;
    while i < v.len()
        invariant
            i <= v.len(),
            r@ == v@.take(i as int),
        decreases v.len() - i,
    {
        r.push(v[i].clone());
        assert(v@.take(i + 1) =~= v@.take(i as int).push(v@[i as int]));
        i = i + 1;
    }
    assert(v@.take(i as int) =~= v@);
    r
}

fn copy_opt_texts(v: &Option<Vec<String>>) -> (r: Option<Vec<String>>)
    ensures
        opt_list(r) == opt_list(*v),
{
    match v {
        Some(x) => Some(copy_texts(x)),
        None => None,
    }
}

fn copy_opt_identifiers(v: &Option<Vec<Identifier>>) -> (r: Option<Vec<Identifier>>)
    ensures
        opt_list(r) == opt_list(*v),
{
    match v {
        Some(x) => Some(copy_identifiers(x)),
        None => None,
    }
}

impl Patch<PatchProjectMetadata, ProjectMetadataV5> for ProjectMetadataV5 {
    /// The metadata with the fields of `patch` applied; `self` is left as
    /// it is.
    fn patch(&mut self, patch: PatchProjectMetadata) -> (r: ProjectMetadataV5)
        ensures
            same_project_metadata(r, patched_project_metadata(*old(self), patch)),
            *final(self) == *old(self),
    {
        let published = match patch.published {
            Some(Some(s)) => read_date(s.as_str()),
            Some(None) => None,
            None => self.published,
        };
        ProjectMetadataV5 {
            title: match patch.title {
                Some(t) => t,
                None => self.title.clone(),
            },
            subtitle: pick_text(patch.subtitle, &self.subtitle),
            authors: match patch.authors {
                Some(a) => a,
                None => copy_opt_persons(&self.authors),
            },
            editors: match patch.editors {
                Some(e) => e,
                None => copy_opt_persons(&self.editors),
            },
            web_url: pick_text(patch.web_url, &self.web_url),
            identifiers: match patch.identifiers {
                Some(i) => i,
                None => copy_opt_identifiers(&self.identifiers),
            },
            published,
            languages: match patch.languages {
                Some(l) => l,
                None => copy_opt_texts(&self.languages),
            },
            number_of_pages: match patch.number_of_pages {
                Some(n) => n,
                None => self.number_of_pages,
            },
            short_abstract: pick_text(patch.short_abstract, &self.short_abstract),
            long_abstract: pick_text(patch.long_abstract, &self.long_abstract),
            keywords: match patch.keywords {
                Some(k) => k,
                None => copy_opt_texts(&self.keywords),
            },
            ddc: pick_text(patch.ddc, &self.ddc),
            license: pick_text(patch.license, &self.license),
            series: pick_text(patch.series, &self.series),
            volume: pick_text(patch.volume, &self.volume),
            edition: pick_text(patch.edition, &self.edition),
            publisher: pick_text(patch.publisher, &self.publisher),
            custom_fields: match patch.custom_fields {
                Some(c) => c,
                None => copy_pairs(&self.custom_fields),
            },
        }
    }
}

/// A project metadata patch sets each field it gives and keeps each field
/// it leaves out; a publication date it gives is read as a date, and
/// clears the date where it is empty or cannot be read.
pub proof fn lemma_project_patch_fields(m: ProjectMetadataV5, p: PatchProjectMetadata)
    ensures
        p.title matches Some(v) ==> patched_project_metadata(m, p).title == v,
        p.title is None ==> patched_project_metadata(m, p).title == m.title,
        p.subtitle matches Some(v) ==> patched_project_metadata(m, p).subtitle == v,
        p.subtitle is None ==> patched_project_metadata(m, p).subtitle == m.subtitle,
        p.authors matches Some(v) ==> patched_project_metadata(m, p).authors == v,
        p.authors is None ==> patched_project_metadata(m, p).authors == m.authors,
        p.editors matches Some(v) ==> patched_project_metadata(m, p).editors == v,
        p.editors is None ==> patched_project_metadata(m, p).editors == m.editors,
        p.web_url matches Some(v) ==> patched_project_metadata(m, p).web_url == v,
        p.web_url is None ==> patched_project_metadata(m, p).web_url == m.web_url,
        p.identifiers matches Some(v) ==> patched_project_metadata(m, p).identifiers == v,
        p.identifiers is None ==> patched_project_metadata(m, p).identifiers == m.identifiers,
        p.languages matches Some(v) ==> patched_project_metadata(m, p).languages == v,
        p.languages is None ==> patched_project_metadata(m, p).languages == m.languages,
        p.number_of_pages matches Some(v) ==> patched_project_metadata(m, p).number_of_pages == v,
        p.number_of_pages is None ==> patched_project_metadata(m, p).number_of_pages == m.number_of_pages,
        p.short_abstract matches Some(v) ==> patched_project_metadata(m, p).short_abstract == v,
        p.short_abstract is None ==> patched_project_metadata(m, p).short_abstract == m.short_abstract,
        p.long_abstract matches Some(v) ==> patched_project_metadata(m, p).long_abstract == v,
        p.long_abstract is None ==> patched_project_metadata(m, p).long_abstract == m.long_abstract,
        p.keywords matches Some(v) ==> patched_project_metadata(m, p).keywords == v,
        p.keywords is None ==> patched_project_metadata(m, p).keywords == m.keywords,
        p.ddc matches Some(v) ==> patched_project_metadata(m, p).ddc == v,
        p.ddc is None ==> patched_project_metadata(m, p).ddc == m.ddc,
        p.license matches Some(v) ==> patched_project_metadata(m, p).license == v,
        p.license is None ==> patched_project_metadata(m, p).license == m.license,
        p.series matches Some(v) ==> patched_project_metadata(m, p).series == v,
        p.series is None ==> patched_project_metadata(m, p).series == m.series,
        p.volume matches Some(v) ==> patched_project_metadata(m, p).volume == v,
        p.volume is None ==> patched_project_metadata(m, p).volume == m.volume,
        p.edition matches Some(v) ==> patched_project_metadata(m, p).edition == v,
        p.edition is None ==> patched_project_metadata(m, p).edition == m.edition,
        p.publisher matches Some(v) ==> patched_project_metadata(m, p).publisher == v,
        p.publisher is None ==> patched_project_metadata(m, p).publisher == m.publisher,
        p.custom_fields matches Some(v) ==> patched_project_metadata(m, p).custom_fields == v,
        p.custom_fields is None ==> patched_project_metadata(m, p).custom_fields == m.custom_fields,
        p.published is None ==> patched_project_metadata(m, p).published == m.published,
        p.published == Some(None::<String>) ==> patched_project_metadata(m, p).published is None,
        p.published matches Some(Some(t)) ==> patched_project_metadata(m, p).published == match parsed_ymd(t@) {
            Some(d) => Some(date_of(d)),
            None => None::<CalendarDate>,
        },
{
}

/// A section metadata patch sets each field it gives and keeps each field
/// it leaves out, and the custom fields; a publication date it gives is
/// read as a date, an empty one clears the date, and one that cannot be
/// read keeps it.
pub proof fn lemma_section_patch_fields(m: SectionMetadata, p: PatchSectionMetadata)
    ensures
        p.title matches Some(v) ==> patched_section_metadata(m, p).title == v,
        p.title is None ==> patched_section_metadata(m, p).title == m.title,
        p.toc_title_subtitle_override matches Some(v) ==> patched_section_metadata(m, p).toc_title_subtitle_override == v,
        p.toc_title_subtitle_override is None ==> patched_section_metadata(m, p).toc_title_subtitle_override == m.toc_title_subtitle_override,
        p.subtitle matches Some(v) ==> patched_section_metadata(m, p).subtitle == v,
        p.subtitle is None ==> patched_section_metadata(m, p).subtitle == m.subtitle,
        p.authors matches Some(v) ==> patched_section_metadata(m, p).authors == v,
        p.authors is None ==> patched_section_metadata(m, p).authors == m.authors,
        p.editors matches Some(v) ==> patched_section_metadata(m, p).editors == v,
        p.editors is None ==> patched_section_metadata(m, p).editors == m.editors,
        p.web_url matches Some(v) ==> patched_section_metadata(m, p).web_url == v,
        p.web_url is None ==> patched_section_metadata(m, p).web_url == m.web_url,
        p.identifiers matches Some(v) ==> patched_section_metadata(m, p).identifiers == v,
        p.identifiers is None ==> patched_section_metadata(m, p).identifiers == m.identifiers,
        p.last_changed matches Some(v) ==> patched_section_metadata(m, p).last_changed == v,
        p.last_changed is None ==> patched_section_metadata(m, p).last_changed == m.last_changed,
        p.lang matches Some(v) ==> patched_section_metadata(m, p).lang == v,
        p.lang is None ==> patched_section_metadata(m, p).lang == m.lang,
        patched_section_metadata(m, p).custom_fields == m.custom_fields,
        p.published is None ==> patched_section_metadata(m, p).published == m.published,
        p.published == Some(None::<String>) ==> patched_section_metadata(m, p).published is None,
        p.published matches Some(Some(t)) ==> patched_section_metadata(m, p).published == match parsed_ymd(t@) {
            Some(d) => Some(date_of(d)),
            None => m.published,
        },
{
}

/// Applying the same project metadata patch twice is applying it once.
pub proof fn lemma_project_patch_idempotent(m: ProjectMetadataV5, p: PatchProjectMetadata)
    ensures
        patched_project_metadata(patched_project_metadata(m, p), p) == patched_project_metadata(
            m,
            p,
        ),
{
}

/// The title a project patch gives the project: an explicit name first,
/// else a title in patched metadata.
pub fn patched_title(name: Option<String>, metadata: &Option<Option<PatchProjectMetadata>>) -> (r: Option<String>)
    ensures
        r == match name {
            Some(n) => Some(n),
            None => match metadata {
                Some(Some(m)) => m.title,
                _ => None,
            },
        },
{
    match name {
        Some(n) => Some(n),
        None => match metadata {
            Some(Some(m)) => copy_text(&m.title),
            _ => None,
        },
    }
}

} // verus!

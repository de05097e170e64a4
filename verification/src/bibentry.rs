//! Bibliography entries read from BibLaTeX: the fields that the citation
//! library reads from a file, and the stored entry made of them.
use vstd::prelude::*;
use crate::biblio::{
    ranges_to_numeric, MyDate, MyFormatString, MyMaybeTyped, MyNumeric, MyNumericDelimiter,
    MyNumericValue, MyPageRanges, MyPageRangesPart, MyPerson, MyPersonRole, MyPersonsWithRoles,
};
use hayagriva::types::{
    Date, Duration, DurationRange, FormatString, MaybeTyped, Numeric, NumericDelimiter, NumericValue,
    PageRanges, PageRangesPart, Person, PersonRole, PersonsWithRoles, QualifiedUrl,
};
use hayagriva::Entry;
use crate::import::ImportError;
use crate::text::text_eq;

verus! {

// ---------------------------------------------------------------------------
// Values of entries
// ---------------------------------------------------------------------------

/// A duration.
#[derive(Clone, Copy, Debug, PartialEq, Eq, Structural)]
pub struct MyDuration {
    pub days: u32,
    pub hours: u32,
    pub minutes: u32,
    pub seconds: u8,
    pub milliseconds: u16,
}

/// A range of durations, such as the minutes of a recording.
#[derive(Clone, Copy, Debug, PartialEq, Eq, Structural)]
pub struct MyDurationRange {
    pub start: MyDuration,
    pub end: MyDuration,
}

/// A URL with the date it was last visited.
#[derive(Clone, Debug, PartialEq, Eq)]
pub struct MyQualifiedUrl {
    pub value: String,
    pub visit_date: Option<MyDate>,
}

/// A date as the citation library keeps it: month and day counted from 0.
#[derive(Clone, Copy, Debug, PartialEq, Eq, Structural)]
pub struct RawDate {
    pub year: i32,
    pub month: Option<u8>,
    pub day: Option<u8>,
    pub approximate: bool,
}

/// A URL as the citation library keeps it.
#[derive(Clone, Debug, PartialEq, Eq)]
pub struct RawUrl {
    pub value: String,
    pub visit_date: Option<RawDate>,
}

/// The role of persons as the citation library names it: one of its roles
/// by the role's name, or a role of its own description.
#[derive(Clone, Debug, PartialEq, Eq)]
pub enum RoleName {
    Known(String),
    Unknown(String),
}

/// Persons with a role, as the citation library keeps them.
#[derive(Clone, Debug, PartialEq, Eq)]
pub struct RolePersons {
    pub names: Vec<MyPerson>,
    pub role: RoleName,
}

// ---------------------------------------------------------------------------
// The fields of an entry
// ---------------------------------------------------------------------------

/// The key, kind and identifying fields of an entry.
#[derive(Clone, Debug, PartialEq, Eq)]
pub struct EntryIds {
    pub key: String,
    /// The name of the entry's type, such as `Article`.
    pub entry_type: String,
    /// Serial numbers by kind (such as `doi`), in the order of their kinds.
    pub serial_number: Option<Vec<(String, String)>>,
    /// The language tag.
    pub language: Option<String>,
}

/// The text fields of an entry.
#[derive(Clone, Debug, PartialEq, Eq)]
pub struct EntryTexts {
    pub title: Option<MyFormatString>,
    pub location: Option<MyFormatString>,
    pub organization: Option<MyFormatString>,
    pub archive: Option<MyFormatString>,
    pub archive_location: Option<MyFormatString>,
    pub call_number: Option<MyFormatString>,
    pub note: Option<MyFormatString>,
    pub abstract_: Option<MyFormatString>,
    pub genre: Option<MyFormatString>,
}

/// The persons and the publisher of an entry; a publisher may lack a name.
#[derive(Clone, Debug, PartialEq, Eq)]
pub struct EntryNames {
    pub authors: Option<Vec<MyPerson>>,
    pub editors: Option<Vec<MyPerson>>,
    pub affiliated: Option<Vec<RolePersons>>,
    pub publisher: Option<Option<MyFormatString>>,
}

/// The numeric fields of an entry.
#[derive(Clone, Debug, PartialEq, Eq)]
pub struct EntryNumbers {
    pub issue: Option<MyMaybeTyped<MyNumeric>>,
    pub volume: Option<MyMaybeTyped<MyNumeric>>,
    pub volume_total: Option<MyNumeric>,
    pub edition: Option<MyMaybeTyped<MyNumeric>>,
    pub page_range: Option<MyMaybeTyped<MyPageRanges>>,
    pub page_total: Option<MyNumeric>,
}

/// The dates, times and URL of an entry.
#[derive(Clone, Debug, PartialEq, Eq)]
pub struct EntryTimes {
    pub date: Option<RawDate>,
    pub time_range: Option<MyMaybeTyped<MyDurationRange>>,
    pub runtime: Option<MyMaybeTyped<MyDuration>>,
    pub url: Option<RawUrl>,
}

/// An entry as the citation library reads it from a file, with the
/// entries it is part of.
#[derive(Debug)]
pub struct EntryFields {
    pub ids: EntryIds,
    pub texts: EntryTexts,
    pub names: EntryNames,
    pub numbers: EntryNumbers,
    pub times: EntryTimes,
    pub parents: Vec<EntryFields>,
}

/// A stored bibliography entry of the version keyed by its citation key.
#[derive(Debug)]
pub struct BibEntryV2 {
    pub key: String,
    pub entry_type: String,
    pub title: Option<MyFormatString>,
    pub authors: Vec<MyPerson>,
    pub date: Option<MyDate>,
    pub editors: Vec<MyPerson>,
    pub affiliated: Vec<MyPersonsWithRoles>,
    pub publisher: Option<MyFormatString>,
    pub location: Option<MyFormatString>,
    pub organization: Option<MyFormatString>,
    pub issue: Option<MyMaybeTyped<MyNumeric>>,
    pub volume: Option<MyMaybeTyped<MyNumeric>>,
    pub volume_total: Option<MyNumeric>,
    pub edition: Option<MyMaybeTyped<MyNumeric>>,
    pub page_range: Option<MyMaybeTyped<MyNumeric>>,
    pub page_total: Option<MyNumeric>,
    pub time_range: Option<MyMaybeTyped<MyDurationRange>>,
    pub runtime: Option<MyMaybeTyped<MyDuration>>,
    pub url: Option<MyQualifiedUrl>,
    pub serial_numbers: Option<Vec<(String, String)>>,
    pub language: Option<String>,
    pub archive: Option<MyFormatString>,
    pub archive_location: Option<MyFormatString>,
    pub call_number: Option<MyFormatString>,
    pub note: Option<MyFormatString>,
    pub abstractt: Option<MyFormatString>,
    pub annote: Option<MyFormatString>,
    pub genre: Option<MyFormatString>,
    pub parents: Vec<BibEntryV2>,
}

// ---------------------------------------------------------------------------
// Dates and roles
// ---------------------------------------------------------------------------

/// A month or day counted from 1 instead of 0; the addition wraps, so 255
/// becomes 0.
pub open spec fn one_based(x: Option<u8>) -> Option<u8> {
    match x {
        Some(v) => Some(
            if v == 255 {
                0u8
            } else {
                (v + 1) as u8
            },
        ),
        None => None,
    }
}

fn one_based_exec(x: Option<u8>) -> (r: Option<u8>)
    ensures
        r == one_based(x),
{
    match x {
        Some(v) => Some(v.wrapping_add(1)),
        None => None,
    }
}

/// The stored date of a date of the citation library.
pub open spec fn date_of(d: RawDate) -> MyDate {
    MyDate { year: d.year, month: one_based(d.month), day: one_based(d.day), approximate: d.approximate }
}

/// The stored date of a date of the citation library: month and day
/// counted from 1.
pub fn date_from_raw(d: RawDate) -> (r: MyDate)
    ensures
        r == date_of(d),
{
    MyDate {
        year: d.year,
        month: one_based_exec(d.month),
        day: one_based_exec(d.day),
        approximate: d.approximate,
    }
}

/// The role the citation library names so, among those without a
/// description of their own.
pub open spec fn known_role(name: Seq<char>) -> Option<MyPersonRole> {
    if name == "Translator"@ {
        Some(MyPersonRole::Translator)
    } else if name == "Afterword"@ {
        Some(MyPersonRole::Afterword)
    } else if name == "Foreword"@ {
        Some(MyPersonRole::Foreword)
    } else if name == "Introduction"@ {
        Some(MyPersonRole::Introduction)
    } else if name == "Annotator"@ {
        Some(MyPersonRole::Annotator)
    } else if name == "Commentator"@ {
        Some(MyPersonRole::Commentator)
    } else if name == "Holder"@ {
        Some(MyPersonRole::Holder)
    } else if name == "Compiler"@ {
        Some(MyPersonRole::Compiler)
    } else if name == "Founder"@ {
        Some(MyPersonRole::Founder)
    } else if name == "Collaborator"@ {
        Some(MyPersonRole::Collaborator)
    } else if name == "Organizer"@ {
        Some(MyPersonRole::Organizer)
    } else if name == "CastMember"@ {
        Some(MyPersonRole::CastMember)
    } else if name == "Composer"@ {
        Some(MyPersonRole::Composer)
    } else if name == "Producer"@ {
        Some(MyPersonRole::Producer)
    } else if name == "ExecutiveProducer"@ {
        Some(MyPersonRole::ExecutiveProducer)
    } else if name == "Writer"@ {
        Some(MyPersonRole::Writer)
    } else if name == "Cinematography"@ {
        Some(MyPersonRole::Cinematography)
    } else if name == "Director"@ {
        Some(MyPersonRole::Director)
    } else if name == "Illustrator"@ {
        Some(MyPersonRole::Illustrator)
    } else if name == "Narrator"@ {
        Some(MyPersonRole::Narrator)
    } else {
        None
    }
}

/// The name of a role of its own: the variant's name; a described role
/// has none.
pub open spec fn role_name(m: MyPersonRole) -> Option<Seq<char>> {
    match m {
        MyPersonRole::Translator => Some("Translator"@),
        MyPersonRole::Afterword => Some("Afterword"@),
        MyPersonRole::Foreword => Some("Foreword"@),
        MyPersonRole::Introduction => Some("Introduction"@),
        MyPersonRole::Annotator => Some("Annotator"@),
        MyPersonRole::Commentator => Some("Commentator"@),
        MyPersonRole::Holder => Some("Holder"@),
        MyPersonRole::Compiler => Some("Compiler"@),
        MyPersonRole::Founder => Some("Founder"@),
        MyPersonRole::Collaborator => Some("Collaborator"@),
        MyPersonRole::Organizer => Some("Organizer"@),
        MyPersonRole::CastMember => Some("CastMember"@),
        MyPersonRole::Composer => Some("Composer"@),
        MyPersonRole::Producer => Some("Producer"@),
        MyPersonRole::ExecutiveProducer => Some("ExecutiveProducer"@),
        MyPersonRole::Writer => Some("Writer"@),
        MyPersonRole::Cinematography => Some("Cinematography"@),
        MyPersonRole::Director => Some("Director"@),
        MyPersonRole::Illustrator => Some("Illustrator"@),
        MyPersonRole::Narrator => Some("Narrator"@),
        MyPersonRole::Unknown(_) => None,
    }
}

/// A role name of the citation library is stored as the role of the same
/// name: the role found for a name is named by it, so that different names
/// give different roles.
pub proof fn lemma_roles_keep_their_names(name: Seq<char>, other: Seq<char>)
    ensures
        known_role(name) matches Some(m) ==> role_name(m) == Some(name),
        known_role(name) is Some && known_role(name) == known_role(other) ==> name == other,
{
}

/// A person stored from a role of the citation library that has a name
/// of its own keeps that role: its stored role is named so.
pub proof fn lemma_stored_role_named(m: MyPersonRole, n: String)
    requires
        role_stored(m, RoleName::Known(n)),
        known_role(n@) is Some,
    ensures
        role_name(m) == Some(n@),
{
    lemma_roles_keep_their_names(n@, n@);
}

/// Whether `m` is the stored role of `r`: a known role by its name, a
/// described role with its description; a role name that is not known
/// becomes a described role without description.
pub open spec fn role_stored(m: MyPersonRole, r: RoleName) -> bool {
    match r {
        RoleName::Unknown(s) => m == MyPersonRole::Unknown(s),
        RoleName::Known(n) => match known_role(n@) {
            Some(k) => m == k,
            None => m matches MyPersonRole::Unknown(s) && s@.len() == 0,
        },
    }
}

/// The stored role of a role of the citation library.
pub fn role_from_name(r: RoleName) -> (m: MyPersonRole)
    ensures
        role_stored(m, r),
{
    match r {
        RoleName::Unknown(s) => MyPersonRole::Unknown(s),
        RoleName::Known(n) => {
            let n = n.as_str();
            if text_eq(n, "Translator") {
                MyPersonRole::Translator
            } else if text_eq(n, "Afterword") {
                MyPersonRole::Afterword
            } else if text_eq(n, "Foreword") {
                MyPersonRole::Foreword
            } else if text_eq(n, "Introduction") {
                MyPersonRole::Introduction
            } else if text_eq(n, "Annotator") {
                MyPersonRole::Annotator
            } else if text_eq(n, "Commentator") {
                MyPersonRole::Commentator
            } else if text_eq(n, "Holder") {
                MyPersonRole::Holder
            } else if text_eq(n, "Compiler") {
                MyPersonRole::Compiler
            } else if text_eq(n, "Founder") {
                MyPersonRole::Founder
            } else if text_eq(n, "Collaborator") {
                MyPersonRole::Collaborator
            } else if text_eq(n, "Organizer") {
                MyPersonRole::Organizer
            } else if text_eq(n, "CastMember") {
                MyPersonRole::CastMember
            } else if text_eq(n, "Composer") {
                MyPersonRole::Composer
            } else if text_eq(n, "Producer") {
                MyPersonRole::Producer
            } else if text_eq(n, "ExecutiveProducer") {
                MyPersonRole::ExecutiveProducer
            } else if text_eq(n, "Writer") {
                MyPersonRole::Writer
            } else if text_eq(n, "Cinematography") {
                MyPersonRole::Cinematography
            } else if text_eq(n, "Director") {
                MyPersonRole::Director
            } else if text_eq(n, "Illustrator") {
                MyPersonRole::Illustrator
            } else if text_eq(n, "Narrator") {
                MyPersonRole::Narrator
            } else {
                MyPersonRole::Unknown(String::new())
            }
        },
    }
}

// ---------------------------------------------------------------------------
// The stored entry
// ---------------------------------------------------------------------------

/// The persons of a list that may be missing: none where it is missing.
pub open spec fn persons_or_empty(o: Option<Vec<MyPerson>>) -> Seq<MyPerson> {
    match o {
        Some(v) => v@,
        None => Seq::empty(),
    }
}

/// Whether `r` are the stored persons-with-roles of `f`: the same persons
/// with their roles stored, none where `f` is missing.
pub open spec fn affiliated_stored(r: Seq<MyPersonsWithRoles>, f: Option<Vec<RolePersons>>) -> bool {
    let s = match f {
        Some(v) => v@,
        None => Seq::empty(),
    };
    &&& r.len() == s.len()
    &&& forall|i: int|
        0 <= i < s.len() ==> #[trigger] r[i].names == s[i].names && role_stored(r[i].role, s[i].role)
}

/// Whether `r` is the stored publisher of `f`: its name, an empty name
/// where the publisher has none.
pub open spec fn publisher_stored(r: Option<MyFormatString>, f: Option<Option<MyFormatString>>) -> bool {
    match f {
        None => r is None,
        Some(Some(n)) => r == Some(n),
        Some(None) => r matches Some(p) && p.value@.len() == 0 && p.short is None,
    }
}

/// Whether `r` is the stored page range of `f`: typed page ranges in their
/// numeric form, a string as it is.
pub open spec fn pages_stored(r: Option<MyMaybeTyped<MyNumeric>>, f: Option<MyMaybeTyped<MyPageRanges>>) -> bool {
    match (f, r) {
        (None, None) => true,
        (Some(MyMaybeTyped::Typed(p)), Some(MyMaybeTyped::Typed(n))) => n@ == ranges_to_numeric(p@),
        (Some(MyMaybeTyped::String(s)), Some(MyMaybeTyped::String(t))) => t == s,
        _ => false,
    }
}

/// Whether `r` is the stored URL of `f`: the same URL, its visit date
/// stored.
pub open spec fn url_stored(r: Option<MyQualifiedUrl>, f: Option<RawUrl>) -> bool {
    match f {
        None => r is None,
        Some(u) => r matches Some(q) && q.value == u.value && q.visit_date == match u.visit_date {
            Some(d) => Some(date_of(d)),
            None => None,
        },
    }
}

/// Whether `r` is the stored entry made of the fields `f`: lists of persons
/// that are missing are empty, roles, dates and the URL's date are stored,
/// the publisher is stored by its name, page ranges in numeric form, no
/// annotation, and the parents, in order, are the stored entries of the
/// parents of `f`; all other fields are taken over.
pub open spec fn entry_stored(r: BibEntryV2, f: EntryFields) -> bool
    decreases f,
{
    &&& r.key == f.ids.key
    &&& r.entry_type == f.ids.entry_type
    &&& r.serial_numbers == f.ids.serial_number
    &&& r.language == f.ids.language
    &&& r.title == f.texts.title
    &&& r.location == f.texts.location
    &&& r.organization == f.texts.organization
    &&& r.archive == f.texts.archive
    &&& r.archive_location == f.texts.archive_location
    &&& r.call_number == f.texts.call_number
    &&& r.note == f.texts.note
    &&& r.abstractt == f.texts.abstract_
    &&& r.genre == f.texts.genre
    &&& r.annote is None
    &&& r.authors@ == persons_or_empty(f.names.authors)
    &&& r.editors@ == persons_or_empty(f.names.editors)
    &&& affiliated_stored(r.affiliated@, f.names.affiliated)
    &&& publisher_stored(r.publisher, f.names.publisher)
    &&& r.issue == f.numbers.issue
    &&& r.volume == f.numbers.volume
    &&& r.volume_total == f.numbers.volume_total
    &&& r.edition == f.numbers.edition
    &&& pages_stored(r.page_range, f.numbers.page_range)
    &&& r.page_total == f.numbers.page_total
    &&& r.date == match f.times.date {
        Some(d) => Some(date_of(d)),
        None => None,
    }
    &&& r.time_range == f.times.time_range
    &&& r.runtime == f.times.runtime
    &&& url_stored(r.url, f.times.url)
    &&& r.parents@.len() == f.parents@.len()
    &&& forall|i: int|
        0 <= i < f.parents@.len() ==> {
            &&& decreases_to!(f => f.parents@[i])
            &&& entry_stored(#[trigger] r.parents@[i], f.parents@[i])
        }
}

fn persons_from(o: Option<Vec<MyPerson>>) -> (r: Vec<MyPerson>)
    ensures
        r@ == persons_or_empty(o),
{
    match o {
        Some(v) => v,
        None => Vec::new(),
    }
}

fn affiliated_from(o: Option<Vec<RolePersons>>) -> (r: Vec<MyPersonsWithRoles>)
    ensures
        affiliated_stored(r@, o),
{
    let ghost s = match o {
        Some(ref v) => v@,
        None => Seq::<RolePersons>::empty(),
    };
    let mut rest = match o {
        Some(v) => v,
        None => Vec::new(),
    };
    assert(rest@ == s.skip(0));
    let mut r: Vec<MyPersonsWithRoles> = Vec::new();
    while rest.len() > 0
        invariant
            r@.len() + rest@.len() == s.len(),
            rest@ == s.skip(r@.len() as int),
            forall|i: int|
                0 <= i < r@.len() ==> #[trigger] r@[i].names == s[i].names && role_stored(r@[i].role, s[i].role),
        decreases rest@.len(),
    {
        let ghost k = r@.len() as int;
        let p = rest.remove(0);
        assert(p == s[k]);
        let role = role_from_name(p.role);
        r.push(MyPersonsWithRoles { names: p.names, role });
        assert(rest@ =~= s.skip(k + 1));
    }
    r
}

fn publisher_from(o: Option<Option<MyFormatString>>) -> (r: Option<MyFormatString>)
    ensures
        publisher_stored(r, o),
{
    match o {
        None => None,
        Some(Some(n)) => Some(n),
        Some(None) => Some(MyFormatString { value: String::new(), short: None }),
    }
}

fn pages_from(o: Option<MyMaybeTyped<MyPageRanges>>) -> (r: Option<MyMaybeTyped<MyNumeric>>)
    ensures
        pages_stored(r, o),
{
    match o {
        Some(p) => Some(p.to_numeric()),
        None => None,
    }
}

fn url_from(o: Option<RawUrl>) -> (r: Option<MyQualifiedUrl>)
    ensures
        url_stored(r, o),
{
    match o {
        Some(u) => Some(
            MyQualifiedUrl {
                value: u.value,
                visit_date: match u.visit_date {
                    Some(d) => Some(date_from_raw(d)),
                    None => None,
                },
            },
        ),
        None => None,
    }
}

impl BibEntryV2 {
    /// The stored entry made of the fields the citation library read, with
    /// its parents.
    pub fn from_fields(f: EntryFields) -> (r: BibEntryV2)
        ensures
            entry_stored(r, f),
        decreases f,
    {
        let EntryFields { ids, texts, names, numbers, times, parents } = f;
        let ghost ps = parents@;
        let mut rest = parents;
        let mut stored: Vec<BibEntryV2> = Vec::new();
        while rest.len() > 0
            invariant
                stored@.len() + rest@.len() == ps.len(),
                rest@ == ps.skip(stored@.len() as int),
                ps == f.parents@,
                forall|i: int|
                    0 <= i < stored@.len() ==> entry_stored(#[trigger] stored@[i], ps[i]),
            decreases rest@.len(),
        {
            let ghost k = stored@.len() as int;
            let p = rest.remove(0);
            assert(p == ps[k]);
            assert(decreases_to!(f => f.parents@[k]));
            stored.push(BibEntryV2::from_fields(p));
            assert(rest@ =~= ps.skip(k + 1));
        }
        assert forall|i: int| 0 <= i < f.parents@.len() implies decreases_to!(f => f.parents@[i]) by {}
        let date = match times.date {
            Some(d) => Some(date_from_raw(d)),
            None => None,
        };
        BibEntryV2 {
            key: ids.key,
            entry_type: ids.entry_type,
            title: texts.title,
            authors: persons_from(names.authors),
            date,
            editors: persons_from(names.editors),
            affiliated: affiliated_from(names.affiliated),
            publisher: publisher_from(names.publisher),
            location: texts.location,
            organization: texts.organization,
            issue: numbers.issue,
            volume: numbers.volume,
            volume_total: numbers.volume_total,
            edition: numbers.edition,
            page_range: pages_from(numbers.page_range),
            page_total: numbers.page_total,
            time_range: times.time_range,
            runtime: times.runtime,
            url: url_from(times.url),
            serial_numbers: ids.serial_number,
            language: ids.language,
            archive: texts.archive,
            archive_location: texts.archive_location,
            call_number: texts.call_number,
            note: texts.note,
            abstractt: texts.abstract_,
            annote: None,
            genre: texts.genre,
            parents: stored,
        }
    }
}

// ---------------------------------------------------------------------------
// Reading with the citation library
// ---------------------------------------------------------------------------

/// `hayagriva::Entry`, an entry of the citation library.
#[verifier::external_type_specification]
#[verifier::external_body]
pub struct ExEntry(Entry);

/// `hayagriva::types::FormatString`.
#[verifier::external_type_specification]
#[verifier::external_body]
pub struct ExFormatString(FormatString);

/// `hayagriva::types::Person`.
#[verifier::external_type_specification]
#[verifier::external_body]
pub struct ExPerson(Person);

/// `hayagriva::types::PersonRole`.
#[verifier::external_type_specification]
#[verifier::external_body]
pub struct ExPersonRole(PersonRole);

/// `hayagriva::types::PersonsWithRoles`.
#[verifier::external_type_specification]
#[verifier::external_body]
pub struct ExPersonsWithRoles(PersonsWithRoles);

/// `hayagriva::types::Numeric`.
#[verifier::external_type_specification]
#[verifier::external_body]
pub struct ExNumeric(Numeric);

/// `hayagriva::types::NumericDelimiter`.
#[verifier::external_type_specification]
#[verifier::external_body]
pub struct ExNumericDelimiter(NumericDelimiter);

/// `hayagriva::types::PageRanges`.
#[verifier::external_type_specification]
#[verifier::external_body]
pub struct ExPageRanges(PageRanges);

/// `hayagriva::types::PageRangesPart`.
#[verifier::external_type_specification]
#[verifier::external_body]
pub struct ExPageRangesPart(PageRangesPart);

/// `hayagriva::types::Date`.
#[verifier::external_type_specification]
#[verifier::external_body]
pub struct ExDate(Date);

/// `hayagriva::types::Duration`.
#[verifier::external_type_specification]
#[verifier::external_body]
pub struct ExDuration(Duration);

/// `hayagriva::types::DurationRange`.
#[verifier::external_type_specification]
#[verifier::external_body]
pub struct ExDurationRange(DurationRange);

/// `hayagriva::types::QualifiedUrl`.
#[verifier::external_type_specification]
#[verifier::external_body]
pub struct ExQualifiedUrl(QualifiedUrl);

/// `hayagriva::types::MaybeTyped`.
#[verifier::external_type_specification]
#[verifier::external_body]
#[verifier::reject_recursive_types(T)]
pub struct ExMaybeTyped<T>(MaybeTyped<T>);

/// A `FormatString`: its value and its short form, each as the text its
/// chunks write (`ChunkedString::to_string`).
#[verifier::external_body]
fn format_string_of(s: &FormatString) -> MyFormatString {
    MyFormatString { value: s.value.to_string(), short: s.short.as_ref().map(|x| x.to_string()) }
}

/// A `Person`: its name parts and alias, moved over (`comma_suffix` is not
/// kept).
#[verifier::external_body]
fn person_of(p: &Person) -> MyPerson {
    MyPerson {
        name: p.name.clone(),
        given_name: p.given_name.clone(),
        prefix: p.prefix.clone(),
        suffix: p.suffix.clone(),
        alias: p.alias.clone(),
    }
}

/// A `PersonRole`: a described role (`Unknown`) with its description, any
/// other role by the variant name that its derived `Debug` writes.
#[verifier::external_body]
fn role_name_of(r: &PersonRole) -> RoleName {
    match r {
        PersonRole::Unknown(s) => RoleName::Unknown(s.clone()),
        other => RoleName::Known(format!("{:?}", other)),
    }
}

/// A `PersonsWithRoles`: its persons, converted, and its role.
#[verifier::external_body]
fn role_persons_of(p: &PersonsWithRoles) -> RolePersons {
    RolePersons { names: p.names.iter().map(person_of).collect(), role: role_name_of(&p.role) }
}

/// A `NumericDelimiter`, variant for variant.
#[verifier::external_body]
fn delimiter_of(d: &NumericDelimiter) -> MyNumericDelimiter {
    match d {
        NumericDelimiter::Comma => MyNumericDelimiter::Comma,
        NumericDelimiter::Ampersand => MyNumericDelimiter::Ampersand,
        NumericDelimiter::Hyphen => MyNumericDelimiter::Hyphen,
    }
}

/// A `Numeric`: its value (a number, or a set of numbers each with the
/// delimiter after it) and its affixes, moved over.
#[verifier::external_body]
fn numeric_of(n: &Numeric) -> MyNumeric {
    let value = match &n.value {
        NumericValue::Number(v) => MyNumericValue::Number(*v),
        NumericValue::Set(s) => MyNumericValue::NumberSet(
            s.iter().map(|(v, d)| (*v, d.as_ref().map(delimiter_of))).collect(),
        ),
    };
    MyNumeric { value, prefix: n.prefix.clone(), suffix: n.suffix.clone() }
}

/// A `PageRangesPart`, variant for variant, its numbers converted.
#[verifier::external_body]
fn page_part_of(p: &PageRangesPart) -> MyPageRangesPart {
    match p {
        PageRangesPart::Ampersand => MyPageRangesPart::Ampersand,
        PageRangesPart::Comma => MyPageRangesPart::Comma,
        PageRangesPart::EscapedRange(a, b) => MyPageRangesPart::EscapedRange(numeric_of(a), numeric_of(b)),
        PageRangesPart::SinglePage(a) => MyPageRangesPart::SinglePage(numeric_of(a)),
        PageRangesPart::Range(a, b) => MyPageRangesPart::Range(numeric_of(a), numeric_of(b)),
    }
}

/// A `PageRanges`: its parts, in order.
#[verifier::external_body]
fn page_ranges_of(p: &PageRanges) -> MyPageRanges {
    MyPageRanges { ranges: p.ranges.iter().map(page_part_of).collect() }
}

/// A `Date`: year, month, day (counted from 0) and approximation, moved
/// over (the season is not kept).
#[verifier::external_body]
fn raw_date_of(d: &Date) -> RawDate {
    RawDate { year: d.year, month: d.month, day: d.day, approximate: d.approximate }
}

/// A `Duration`, field for field.
#[verifier::external_body]
fn duration_of(d: &Duration) -> MyDuration {
    MyDuration {
        days: d.days,
        hours: d.hours,
        minutes: d.minutes,
        seconds: d.seconds,
        milliseconds: d.milliseconds,
    }
}

/// A `DurationRange`: its start and end.
#[verifier::external_body]
fn duration_range_of(d: &DurationRange) -> MyDurationRange {
    MyDurationRange { start: duration_of(&d.start), end: duration_of(&d.end) }
}

/// A `QualifiedUrl`: the URL as text (`Url::to_string`) and its visit date.
#[verifier::external_body]
fn url_of(u: &QualifiedUrl) -> RawUrl {
    RawUrl { value: u.value.to_string(), visit_date: u.visit_date.as_ref().map(raw_date_of) }
}

/// A `MaybeTyped`: a typed value converted with `f`, a string moved over.
#[verifier::external_body]
fn maybe_of<T, U, F: Fn(&T) -> U>(m: &MaybeTyped<T>, f: F) -> MyMaybeTyped<U> {
    match m {
        MaybeTyped::Typed(t) => MyMaybeTyped::Typed(f(t)),
        MaybeTyped::String(s) => MyMaybeTyped::String(s.clone()),
    }
}

/// `Entry::key`, `Entry::entry_type` (by the name its derived `Debug`
/// writes), `Entry::serial_number` (its pairs in the map's order) and
/// `Entry::language` (the tag its `to_string` writes).
#[verifier::external_body]
fn entry_ids_of(e: &Entry) -> EntryIds {
    EntryIds {
        key: e.key().to_string(),
        entry_type: format!("{:?}", e.entry_type()),
        serial_number: e.serial_number().map(|s| s.0.iter().map(|(k, v)| (k.clone(), v.clone())).collect()),
        language: e.language().map(|l| l.to_string()),
    }
}

/// The getters of the text fields of an `Entry`, each converted.
#[verifier::external_body]
fn entry_texts_of(e: &Entry) -> EntryTexts {
    EntryTexts {
        title: e.title().map(format_string_of),
        location: e.location().map(format_string_of),
        organization: e.organization().map(format_string_of),
        archive: e.archive().map(format_string_of),
        archive_location: e.archive_location().map(format_string_of),
        call_number: e.call_number().map(format_string_of),
        note: e.note().map(format_string_of),
        abstract_: e.abstract_().map(format_string_of),
        genre: e.genre().map(format_string_of),
    }
}

/// `Entry::authors`, `Entry::editors`, `Entry::affiliated` and the name of
/// `Entry::publisher` (`Publisher::name`), each converted.
#[verifier::external_body]
fn entry_names_of(e: &Entry) -> EntryNames {
    EntryNames {
        authors: e.authors().map(|v| v.iter().map(person_of).collect()),
        editors: e.editors().map(|v| v.iter().map(person_of).collect()),
        affiliated: e.affiliated().map(|v| v.iter().map(role_persons_of).collect()),
        publisher: e.publisher().map(|p| p.name().map(format_string_of)),
    }
}

/// The getters of the numeric fields of an `Entry`, each converted.
#[verifier::external_body]
fn entry_numbers_of(e: &Entry) -> EntryNumbers {
    EntryNumbers {
        issue: e.issue().map(|m| maybe_of(m, numeric_of)),
        volume: e.volume().map(|m| maybe_of(m, numeric_of)),
        volume_total: e.volume_total().map(numeric_of),
        edition: e.edition().map(|m| maybe_of(m, numeric_of)),
        page_range: e.page_range().map(|m| maybe_of(m, page_ranges_of)),
        page_total: e.page_total().map(numeric_of),
    }
}

/// `Entry::date`, `Entry::time_range`, `Entry::runtime` and `Entry::url`,
/// each converted.
#[verifier::external_body]
fn entry_times_of(e: &Entry) -> EntryTimes {
    EntryTimes {
        date: e.date().map(raw_date_of),
        time_range: e.time_range().map(|m| maybe_of(m, duration_range_of)),
        runtime: e.runtime().map(|m| maybe_of(m, duration_of)),
        url: e.url().map(url_of),
    }
}

/// The fields of an `Entry`, and those of its parents (`Entry::parents`),
/// in order.
#[verifier::external_body]
fn entry_fields_of(e: &Entry) -> EntryFields {
    EntryFields {
        ids: entry_ids_of(e),
        texts: entry_texts_of(e),
        names: entry_names_of(e),
        numbers: entry_numbers_of(e),
        times: entry_times_of(e),
        parents: e.parents().iter().map(entry_fields_of).collect(),
    }
}

/// The entries that the citation library reads from a BibLaTeX text, each
/// with its fields, in the order of the text; none where the text does not
/// parse.
pub uninterp spec fn biblatex_entries(text: Seq<char>) -> Option<Seq<EntryFields>>;

/// `hayagriva::io::from_biblatex_str`, then the entries of the library in
/// its order (`Library::iter`), each read by `entry_fields_of`; `None` where
/// parsing fails. The result is the one named by the text.
#[verifier::external_body]
fn parse_biblatex(text: &str) -> (r: Option<Vec<EntryFields>>)
    ensures
        match biblatex_entries(text@) {
            Some(es) => r matches Some(v) && v@ == es,
            None => r is None,
        },
{
    hayagriva::io::from_biblatex_str(text).ok().map(|lib| lib.iter().map(entry_fields_of).collect())
}

/// The stored entries made of the fields of read entries, in order.
pub fn store_entries(fields: Vec<EntryFields>) -> (r: Vec<BibEntryV2>)
    ensures
        r@.len() == fields@.len(),
        forall|i: int| 0 <= i < fields@.len() ==> entry_stored(#[trigger] r@[i], fields@[i]),
{
    let ghost fs = fields@;
    let mut rest = fields;
    let mut r: Vec<BibEntryV2> = Vec::new();
    while rest.len() > 0
        invariant
            r@.len() + rest@.len() == fs.len(),
            rest@ == fs.skip(r@.len() as int),
            forall|i: int| 0 <= i < r@.len() ==> entry_stored(#[trigger] r@[i], fs[i]),
        decreases rest@.len(),
    {
        let ghost k = r@.len() as int;
        let f = rest.remove(0);
        assert(f == fs[k]);
        r.push(BibEntryV2::from_fields(f));
        assert(rest@ =~= fs.skip(k + 1));
    }
    r
}

/// Reads the entries of a BibLaTeX text: each entry the citation library
/// finds, stored with its parents, in the order of the text; a text that
/// does not parse is an invalid bibliography file.
pub fn import_bib_text(text: &str) -> (r: Result<Vec<BibEntryV2>, ImportError>)
    ensures
        match biblatex_entries(text@) {
            None => r == Err::<Vec<BibEntryV2>, ImportError>(ImportError::BibFileInvalid),
            Some(es) => r matches Ok(v) && v@.len() == es.len() && forall|i: int|
                0 <= i < es.len() ==> entry_stored(#[trigger] v@[i], es[i]),
        },
{
    match parse_biblatex(text) {
        Some(fields) => Ok(store_entries(fields)),
        None => Err(ImportError::BibFileInvalid),
    }
}

} // verus!

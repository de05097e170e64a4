//! Storage bookkeeping: the version numbers in storage file names, the
//! choice of the newest file, the migration steps from a stored version to
//! the current one, and the list of projects and folders.
use vstd::prelude::*;
use crate::text::{chars_of, matches_at, starts_with, strings_view, text_eq};

verus! {

// ---------------------------------------------------------------------------
// Version numbers
// ---------------------------------------------------------------------------

pub open spec fn is_digit(c: char) -> bool {
    48 <= (c as u32) && (c as u32) <= 57
}

pub open spec fn digit_value(c: char) -> nat {
    ((c as u32) - 48) as nat
}

pub open spec fn all_digits(s: Seq<char>) -> bool {
    forall|i: int| 0 <= i < s.len() ==> is_digit(#[trigger] s[i])
}

/// The number written by a sequence of decimal digits.
pub open spec fn digits_value(s: Seq<char>) -> nat
    decreases s.len(),
{
    if s.len() == 0 {
        0
    } else {
        digits_value(s.drop_last()) * 10 + digit_value(s.last())
    }
}

/// What `u64::from_str` accepts: an optional `+` and at least one decimal
/// digit, for a value that fits in 64 bits.
pub open spec fn parse_u64_spec(s: Seq<char>) -> Option<u64> {
    let d = if s.len() > 0 && s[0] == '+' {
        s.skip(1)
    } else {
        s
    };
    if d.len() > 0 && all_digits(d) && digits_value(d) <= u64::MAX {
        Some(digits_value(d) as u64)
    } else {
        None
    }
}

proof fn lemma_digits_value_prefix(s: Seq<char>, i: int)
    requires
        0 <= i <= s.len(),
        all_digits(s),
    ensures
        digits_value(s.take(i)) <= digits_value(s),
    decreases s.len() - i,
{
    if i < s.len() {
        lemma_digits_value_prefix(s, i + 1);
        assert(s.take(i + 1).drop_last() =~= s.take(i));
    } else {
        assert(s.take(i) =~= s);
    }
}

/// Reads a decimal version number as `u64::from_str` does.
pub fn parse_version(s: &str) -> (r: Option<u64>)
    ensures
        r == parse_u64_spec(s@),
{
    let v = chars_of(s);
    let start: usize = if v.len() > 0 && v[0] == '+' {
        1
    } else {
        0
    };
    let ghost d = if s@.len() > 0 && s@[0] == '+' {
        s@.skip(1)
    } else {
        s@
    };
    assert(d =~= v@.skip(start as int));
    if start >= v.len() {
        return None;
    }
    let mut acc: u64 = 0;
    let mut i: usize = start;
    while i < v.len()
        invariant
            v@ == s@,
            start <= i <= v.len(),
            d == v@.skip(start as int),
            d == (if s@.len() > 0 && s@[0] == '+' {
                s@.skip(1)
            } else {
                s@
            }),
            acc as nat == digits_value(d.take(i - start)),
            all_digits(d.take(i - start)),
        decreases v.len() - i,
    {
        let c = v[i];
        let k = i - start;
        assert(d[k as int] == c);
        assert(d.take(k + 1).drop_last() =~= d.take(k as int));
        assert(d.take(k + 1).last() == c);
        let cu = c as u32;
        if !(48 <= cu && cu <= 57) {
            assert(!is_digit(d[k as int]));
            assert(!all_digits(d));
            assert(parse_u64_spec(s@) is None);
            return None;
        }
        let digit = (cu - 48) as u64;
        assert(digit as nat == digit_value(c));
        assert(digits_value(d.take(k + 1)) == digits_value(d.take(k as int)) * 10 + digit_value(c));
        match acc.checked_mul(10) {
            Some(m) => match m.checked_add(digit) {
                Some(n) => {
                    acc = n;
                },
                None => {
                    proof {
                        if all_digits(d) {
                            lemma_digits_value_prefix(d, k + 1);
                        }
                    }
                    assert(parse_u64_spec(s@) is None);
                    return None;
                },
            },
            None => {
                proof {
                    if all_digits(d) {
                        lemma_digits_value_prefix(d, k + 1);
                    }
                }
                assert(parse_u64_spec(s@) is None);
                return None;
            },
        }
        assert(all_digits(d.take(k + 1))) by {
            assert forall|j: int| 0 <= j < k + 1 implies is_digit(#[trigger] d.take(k + 1)[j]) by {
                if j < k {
                    assert(d.take(k + 1)[j] == d.take(k as int)[j]);
                }
            }
        }
        i = i + 1;
    }
    assert(d.take(i - start) =~= d);
    Some(acc)
}

// ---------------------------------------------------------------------------
// Storage file names
// ---------------------------------------------------------------------------

/// The pieces of `s` between occurrences of `c`, empty pieces included
/// (the behaviour of `str::split` with a character).
pub open spec fn split_at_char(s: Seq<char>, c: char) -> Seq<Seq<char>>
    decreases s.len(),
{
    if s.len() == 0 {
        seq![Seq::<char>::empty()]
    } else {
        let r = split_at_char(s.drop_last(), c);
        if s.last() == c {
            r.push(Seq::<char>::empty())
        } else {
            r.update(r.len() - 1, r.last().push(s.last()))
        }
    }
}

/// Splitting always gives at least one piece.
pub proof fn lemma_split_nonempty(s: Seq<char>, c: char)
    ensures
        split_at_char(s, c).len() >= 1,
    decreases s.len(),
{
    if s.len() > 0 {
        lemma_split_nonempty(s.drop_last(), c);
    }
}

/// Splits `s` at every occurrence of `c`.
pub fn split_at(s: &str, c: char) -> (res: Vec<String>)
    ensures
        strings_view(res@) == split_at_char(s@, c),
{
    let v = chars_of(s);
    let mut parts: Vec<String> = Vec::new();
    let mut cur = String::new();
    let mut i: usize = 0;
    assert(v@.take(0) =~= Seq::<char>::empty());
    assert(strings_view(parts@).push(cur@) =~= split_at_char(v@.take(0), c));
    while i < v.len()
        invariant
            v@ == s@,
            i <= v.len(),
            strings_view(parts@).push(cur@) == split_at_char(v@.take(i as int), c),
        decreases v.len() - i,
    {
        let x = v[i];
        assert(v@.take(i + 1).drop_last() =~= v@.take(i as int));
        assert(v@.take(i + 1).last() == x);
        if x == c {
            let done = cur;
            parts.push(done);
            cur = String::new();
            assert(strings_view(parts@) =~= strings_view(parts@.drop_last()).push(done@));
        } else {
            crate::text::push_char(&mut cur, x);
        }
        assert(strings_view(parts@).push(cur@) =~= split_at_char(v@.take(i + 1), c));
        i = i + 1;
    }
    assert(v@.take(i as int) =~= v@);
    parts.push(cur);
    assert(strings_view(parts@) =~= split_at_char(s@, c));
    parts
}

/// The version in a storage file name of the form `stem.version.ext`: the
/// name splits at dots into exactly three pieces, the first is `stem` and
/// the second a version number.
pub open spec fn file_version(name: Seq<char>, stem: Seq<char>) -> Option<u64> {
    let parts = split_at_char(name, '.');
    if parts.len() == 3 && parts[0] == stem {
        parse_u64_spec(parts[1])
    } else {
        None
    }
}

/// Reads the version from a storage file name.
pub fn file_version_of(name: &str, stem: &str) -> (r: Option<u64>)
    ensures
        r == file_version(name@, stem@),
{
    let parts = split_at(name, '.');
    if parts.len() == 3 && text_eq(parts[0].as_str(), stem) {
        parse_version(parts[1].as_str())
    } else {
        None
    }
}

/// The position of the newest file: the highest version, and of equal
/// versions the one listed last.
pub open spec fn newest(versions: Seq<Option<u64>>) -> Option<int>
    decreases versions.len(),
{
    if versions.len() == 0 {
        None
    } else {
        let b = newest(versions.drop_last());
        match versions.last() {
            Some(v) => match b {
                Some(j) => if v >= versions[j].unwrap() {
                    Some(versions.len() - 1)
                } else {
                    b
                },
                None => Some(versions.len() - 1),
            },
            None => b,
        }
    }
}

pub open spec fn name_versions(names: Seq<String>, stem: Seq<char>) -> Seq<Option<u64>> {
    names.map_values(|n: String| file_version(n@, stem))
}

proof fn lemma_newest_valid(versions: Seq<Option<u64>>)
    ensures
        newest(versions) matches Some(j) ==> 0 <= j < versions.len() && versions[j] is Some,
        newest(versions) matches Some(j) ==> forall|k: int|
            0 <= k < versions.len() && versions[k] is Some ==> versions[k].unwrap()
                <= versions[j].unwrap(),
        newest(versions) is None ==> forall|k: int|
            0 <= k < versions.len() ==> versions[k] is None,
    decreases versions.len(),
{
    if versions.len() > 0 {
        let p = versions.drop_last();
        lemma_newest_valid(p);
        assert forall|k: int| 0 <= k < p.len() implies p[k] == versions[k] by {}
    }
}

/// The newest storage file among the names of a directory: its version
/// and position, or `None` when no name is a storage file.
pub fn newest_storage_file(names: &Vec<String>, stem: &str) -> (r: Option<(u64, usize)>)
    ensures
        match newest(name_versions(names@, stem@)) {
            Some(j) => r matches Some((v, p)) && p == j && name_versions(names@, stem@)[j] == Some(
                v,
            ),
            None => r is None,
        },
        r matches Some((v, p)) ==> forall|k: int|
            0 <= k < names@.len() ==> (#[trigger] file_version(names@[k]@, stem@) matches Some(w)
                ==> w <= v),
{
    let ghost all = name_versions(names@, stem@);
    let mut best: Option<(u64, usize)> = None;
    let mut i: usize = 0;
    while i < names.len()
        invariant
            i <= names.len(),
            all == name_versions(names@, stem@),
            match newest(all.take(i as int)) {
                Some(j) => best matches Some((v, p)) && p == j && all[j] == Some(v),
                None => best is None,
            },
        decreases names.len() - i,
    {
        assert(all.take(i + 1).drop_last() =~= all.take(i as int));
        assert(all.take(i + 1).last() == all[i as int]);
        proof {
            lemma_newest_valid(all.take(i as int));
        }
        let ver = file_version_of(names[i].as_str(), stem);
        match ver {
            Some(v) => {
                match best {
                    Some((bv, _)) => {
                        if v >= bv {
                            best = Some((v, i));
                        }
                    },
                    None => {
                        best = Some((v, i));
                    },
                }
            },
            None => {},
        }
        i = i + 1;
    }
    assert(all.take(i as int) =~= all);
    proof {
        lemma_newest_valid(all);
        assert forall|k: int| 0 <= k < names@.len() implies (#[trigger] file_version(
            names@[k]@,
            stem@,
        ) matches Some(w) ==> w <= best.unwrap().0) by {
            assert(all[k] == file_version(names@[k]@, stem@));
        }
    }
    best
}

// ---------------------------------------------------------------------------
// Migrations
// ---------------------------------------------------------------------------

/// How stored data of some version is brought to the current version:
/// read in the stored version's format, then upgraded one version at a
/// time.
#[derive(Clone, Debug, PartialEq, Eq)]
pub struct MigrationPlan {
    /// The version whose format is read.
    pub read_as: u64,
    /// The versions upgraded from, in order; each upgrade goes to the next
    /// version.
    pub upgrades: Vec<u64>,
}

/// The versions from `from` up to, not including, `to`.
pub open spec fn version_range(from: u64, to: u64) -> Seq<u64> {
    Seq::new((to - from) as nat, |k: int| (from + k) as u64)
}

/// Plans the migration of stored data of `version` to `current`; versions
/// outside 1 to `current` have no plan.
pub fn migration_plan(version: u64, current: u64) -> (r: Option<MigrationPlan>)
    ensures
        (1 <= version <= current) ==> (r matches Some(p) && p.read_as == version && p.upgrades@
            == version_range(version, current)),
        !(1 <= version <= current) ==> r is None,
{
    if version < 1 || version > current {
        return None;
    }
    let mut upgrades: Vec<u64> = Vec::new();
    let mut v: u64 = version;
    while v < current
        invariant
            version <= v <= current,
            upgrades@ == version_range(version, v),
        decreases current - v,
    {
        upgrades.push(v);
        assert(upgrades@ =~= version_range(version, (v + 1) as u64));
        v = v + 1;
    }
    Some(MigrationPlan { read_as: version, upgrades })
}

/// A plan ends at the current version: its upgrades are consecutive, start
/// at the stored version, and the last one goes to the current version.
pub proof fn lemma_plan_reaches_current(version: u64, current: u64)
    requires
        1 <= version < current,
    ensures
        version_range(version, current)[0] == version,
        version_range(version, current).last() + 1 == current,
        forall|k: int|
            0 <= k < version_range(version, current).len() - 1 ==> version_range(
                version,
                current,
            )[k + 1] == #[trigger] version_range(version, current)[k] + 1,
{
}

/// `s` ends with `p`.
pub open spec fn ends_with(s: Seq<char>, p: Seq<char>) -> bool {
    p.len() <= s.len() && s.skip(s.len() - p.len()) == p
}

/// A file of the earlier, file-based data storage: its name starts with
/// `data.` and ends with `.bincode`.
pub open spec fn is_legacy_data_name(name: Seq<char>) -> bool {
    starts_with(name, "data."@) && ends_with(name, ".bincode"@)
}

/// Whether a file name is that of a data storage file of the earlier,
/// file-based storage.
pub fn is_legacy_data_file(name: &str) -> (b: bool)
    ensures
        b == is_legacy_data_name(name@),
{
    let v = chars_of(name);
    let p = chars_of("data.");
    let q = chars_of(".bincode");
    assert(v@.skip(0) =~= v@);
    if !matches_at(&v, 0, &p) || v.len() < q.len() {
        return false;
    }
    let i = v.len() - q.len();
    let r = matches_at(&v, i, &q);
    assert(v@.skip(i as int).take(q@.len() as int) =~= v@.skip(i as int));
    r
}

/// Whether a directory with these file names holds a data storage file of
/// the earlier storage, so that an existing installation is migrated
/// rather than a new one set up.
pub fn legacy_data_exists(names: &Vec<String>) -> (b: bool)
    ensures
        b == exists|i: int| 0 <= i < names@.len() && is_legacy_data_name(#[trigger] names@[i]@),
{
    let mut i: usize = 0;
    while i < names.len()
        invariant
            i <= names.len(),
            forall|k: int| 0 <= k < i ==> !is_legacy_data_name(#[trigger] names@[k]@),
        decreases names.len() - i,
    {
        if is_legacy_data_file(names[i].as_str()) {
            return true;
        }
        i = i + 1;
    }
    false
}

/// The version of the data storage format in use.
pub const DATA_STORAGE_VERSION: u64 = 3;

/// The version of the project format in use.
pub const PROJECT_VERSION: u64 = 10;

/// Why the data storage could not be loaded.
#[derive(Clone, Debug, PartialEq, Eq)]
pub enum DataStorageLoadError {
    /// The storage file could not be decoded (with the decoder's message).
    BincodeDecodeError(String),
    /// The storage file could not be read (with the system's message).
    IoError(String),
    /// The stored version has no migration to the current one.
    InvalidVersionNumber,
    /// No storage file was found.
    DataStorageMissing,
}

/// Chooses the data storage file to load and plans its migration: missing
/// when no name is a storage file, refused when its version cannot be
/// migrated.
pub fn plan_data_storage_load(names: &Vec<String>) -> (r: Result<
    (usize, MigrationPlan),
    DataStorageLoadError,
>)
    ensures
        newest(name_versions(names@, "data"@)) is None ==> r == Err::<
            (usize, MigrationPlan),
            DataStorageLoadError,
        >(DataStorageLoadError::DataStorageMissing),
        newest(name_versions(names@, "data"@)) matches Some(j) ==> match name_versions(
            names@,
            "data"@,
        )[j] {
            Some(v) => if 1 <= v <= DATA_STORAGE_VERSION {
                r matches Ok((p, plan)) && p == j && plan.read_as == v && plan.upgrades@
                    == version_range(v, DATA_STORAGE_VERSION)
            } else {
                r == Err::<(usize, MigrationPlan), DataStorageLoadError>(
                    DataStorageLoadError::InvalidVersionNumber,
                )
            },
            None => false,
        },
{
    proof {
        lemma_newest_valid(name_versions(names@, "data"@));
    }
    match newest_storage_file(names, "data") {
        None => Err(DataStorageLoadError::DataStorageMissing),
        Some((v, p)) => match migration_plan(v, DATA_STORAGE_VERSION) {
            Some(plan) => Ok((p, plan)),
            None => Err(DataStorageLoadError::InvalidVersionNumber),
        },
    }
}

// ---------------------------------------------------------------------------
// Project list
// ---------------------------------------------------------------------------

/// A project in the project list.
#[derive(Clone, Debug, PartialEq, Eq)]
pub struct ProjectListProject {
    pub id: u128,
    pub name: String,
    /// Seconds since the epoch of the last interaction.
    pub last_interaction: i64,
}

/// A folder of the project list.
#[derive(Debug)]
pub struct ProjectListFolder {
    pub id: u128,
    pub name: String,
    pub children: Vec<ProjectListEntry>,
}

/// An entry of the project list.
#[derive(Debug)]
pub enum ProjectListEntry {
    Folder(ProjectListFolder),
    Project(ProjectListProject),
}

impl ProjectListEntry {
    pub open spec fn spec_id(&self) -> u128 {
        match self {
            ProjectListEntry::Folder(f) => f.id,
            ProjectListEntry::Project(p) => p.id,
        }
    }

    /// The id of the entry.
    pub fn id(&self) -> (r: u128)
        ensures
            r == self.spec_id(),
    {
        match self {
            ProjectListEntry::Folder(f) => f.id,
            ProjectListEntry::Project(p) => p.id,
        }
    }

    /// The name of the entry.
    pub fn name(&self) -> (r: &str)
        ensures
            r@ == match self {
                ProjectListEntry::Folder(f) => f.name@,
                ProjectListEntry::Project(p) => p.name@,
            },
    {
        match self {
            ProjectListEntry::Folder(f) => f.name.as_str(),
            ProjectListEntry::Project(p) => p.name.as_str(),
        }
    }

    /// Renames the entry.
    pub fn set_name(&mut self, name: String)
        ensures
            final(self).spec_id() == old(self).spec_id(),
            match *final(self) {
                ProjectListEntry::Folder(f) => *old(self) is Folder && f.name@ == name@,
                ProjectListEntry::Project(p) => *old(self) is Project && p.name@ == name@,
            },
    {
        match self {
            ProjectListEntry::Folder(f) => f.name = name,
            ProjectListEntry::Project(p) => p.name = name,
        }
    }
}

/// The top-level entries of the projects page.
#[derive(Debug)]
pub struct ProjectList {
    pub entries: Vec<ProjectListEntry>,
}

impl ProjectList {
    /// An empty list.
    pub fn new() -> (r: ProjectList)
        ensures
            r.entries@.len() == 0,
    {
        ProjectList { entries: Vec::new() }
    }

    /// The position of the first top-level entry with id `id`.
    pub fn position(&self, id: u128) -> (r: Option<usize>)
        ensures
            match r {
                Some(i) => i < self.entries@.len() && self.entries@[i as int].spec_id() == id
                    && forall|k: int| 0 <= k < i ==> self.entries@[k].spec_id() != id,
                None => forall|k: int|
                    0 <= k < self.entries@.len() ==> self.entries@[k].spec_id() != id,
            },
    {
        let mut i: usize = 0;
        while i < self.entries.len()
            invariant
                i <= self.entries.len(),
                forall|k: int| 0 <= k < i ==> self.entries@[k].spec_id() != id,
            decreases self.entries.len() - i,
        {
            if self.entries[i].id() == id {
                return Some(i);
            }
            i = i + 1;
        }
        None
    }

    /// Whether a top-level entry has id `id`.
    pub fn has(&self, id: u128) -> (r: bool)
        ensures
            r == exists|k: int| 0 <= k < self.entries@.len() && self.entries@[k].spec_id() == id,
    {
        match self.position(id) {
            Some(i) => {
                assert(self.entries@[i as int].spec_id() == id);
                true
            },
            None => false,
        }
    }

    /// The first top-level entry with id `id`.
    pub fn get(&self, id: u128) -> (r: Option<&ProjectListEntry>)
        ensures
            match r {
                Some(e) => exists|i: int|
                    0 <= i < self.entries@.len() && self.entries@[i] == *e && e.spec_id() == id
                        && forall|k: int| 0 <= k < i ==> self.entries@[k].spec_id() != id,
                None => forall|k: int|
                    0 <= k < self.entries@.len() ==> self.entries@[k].spec_id() != id,
            },
    {
        match self.position(id) {
            Some(i) => Some(&self.entries[i]),
            None => None,
        }
    }

    /// The first top-level entry with id `id`, when it is a folder.
    pub fn get_folder(&self, id: u128) -> (r: Option<&ProjectListFolder>)
        ensures
            match r {
                Some(f) => exists|i: int|
                    0 <= i < self.entries@.len() && self.entries@[i] == ProjectListEntry::Folder(*f)
                        && f.id == id && forall|k: int|
                        0 <= k < i ==> self.entries@[k].spec_id() != id,
                None => forall|i: int|
                    0 <= i < self.entries@.len() && self.entries@[i].spec_id() == id && (forall|
                        k: int,
                    | 0 <= k < i ==> self.entries@[k].spec_id() != id) ==> !(self.entries@[i] is Folder),
            },
    {
        match self.position(id) {
            Some(i) => match &self.entries[i] {
                ProjectListEntry::Folder(f) => Some(f),
                _ => None,
            },
            None => None,
        }
    }
}

/// The in-memory storage of small shared data: here, the project list.
#[derive(Debug)]
pub struct DataStorage {
    pub projects: ProjectList,
}

impl DataStorage {
    /// A new, empty storage.
    pub fn new() -> (r: DataStorage)
        ensures
            r.projects.entries@.len() == 0,
    {
        DataStorage { projects: ProjectList::new() }
    }
}

} // verus!

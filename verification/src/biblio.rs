//! Value types of bibliography entries as they are stored, and the
//! conversions between page ranges and the numeric form in which they are
//! kept.
use vstd::prelude::*;

verus! {

// ---------------------------------------------------------------------------
// Types
// ---------------------------------------------------------------------------

/// A delimiter between the numbers of a numeric set.
#[derive(Clone, Copy, Debug, PartialEq, Eq, Structural)]
pub enum MyNumericDelimiter {
    /// A comma.
    Comma,
    /// An ampersand.
    Ampersand,
    /// A hyphen, rendered as an en dash.
    Hyphen,
}

/// The value of a numeric field.
#[derive(Clone, Debug, PartialEq, Eq)]
pub enum MyNumericValue {
    /// A single number.
    Number(i32),
    /// A set of numbers, each with the delimiter that follows it.
    NumberSet(Vec<(i32, Option<MyNumericDelimiter>)>),
}

/// A numeric field with optional affixes.
#[derive(Clone, Debug, PartialEq, Eq)]
pub struct MyNumeric {
    /// The numeric value.
    pub value: MyNumericValue,
    /// A string put before the value.
    pub prefix: Option<Box<String>>,
    /// A string put after the value.
    pub suffix: Option<Box<String>>,
}

/// One part of a page-range expression.
#[derive(Clone, Debug, PartialEq, Eq)]
pub enum MyPageRangesPart {
    /// An `&`.
    Ampersand,
    /// A `,`.
    Comma,
    /// An escaped range such as `1\-4`.
    EscapedRange(MyNumeric, MyNumeric),
    /// A single page.
    SinglePage(MyNumeric),
    /// A full range such as `1n8--1n14`.
    Range(MyNumeric, MyNumeric),
}

/// A page-range expression.
#[derive(Clone, Debug, PartialEq, Eq)]
pub struct MyPageRanges {
    /// The parts, in order.
    pub ranges: Vec<MyPageRangesPart>,
}

/// A string with an optional short form.
#[derive(Clone, Debug, PartialEq, Eq)]
pub struct MyFormatString {
    /// The canonical form.
    pub value: String,
    /// The short form.
    pub short: Option<String>,
}

/// A person named in a bibliography entry.
#[derive(Clone, Debug, PartialEq, Eq)]
pub struct MyPerson {
    pub name: String,
    /// The given name.
    pub given_name: Option<String>,
    /// A prefix of the family name such as `van`.
    pub prefix: Option<String>,
    /// A suffix of the family name such as `Jr.`.
    pub suffix: Option<String>,
    /// Another name the person is known under.
    pub alias: Option<String>,
}

/// The role a person had in the creation of a cited item.
#[derive(Clone, Debug, PartialEq, Eq)]
pub enum MyPersonRole {
    Translator,
    Afterword,
    Foreword,
    Introduction,
    Annotator,
    Commentator,
    Holder,
    Compiler,
    Founder,
    Collaborator,
    Organizer,
    CastMember,
    Composer,
    Producer,
    ExecutiveProducer,
    Writer,
    Cinematography,
    Director,
    Illustrator,
    Narrator,
    /// Any other role, described by the string.
    Unknown(String),
}

/// Persons that share a role.
#[derive(Clone, Debug, PartialEq, Eq)]
pub struct MyPersonsWithRoles {
    pub names: Vec<MyPerson>,
    pub role: MyPersonRole,
}

/// A typed value, or the string it could not be read from.
#[derive(Clone, Debug, PartialEq, Eq)]
pub enum MyMaybeTyped<T> {
    Typed(T),
    String(String),
}

/// A publisher with an optional location.
#[derive(Clone, Debug, PartialEq, Eq)]
pub struct MyPublisher {
    pub name: MyFormatString,
    pub location: Option<MyFormatString>,
}

/// A calendar date with optional month and day, counted from 1.
#[derive(Clone, Copy, Debug, PartialEq, Eq, Structural)]
pub struct MyDate {
    /// The year (1 B.C.E. is 0).
    pub year: i32,
    /// The month, 1 to 12.
    pub month: Option<u8>,
    /// The day, 1 to 31.
    pub day: Option<u8>,
    /// Whether the date is approximate.
    pub approximate: bool,
}

// ---------------------------------------------------------------------------
// Views
// ---------------------------------------------------------------------------

pub enum NumericValueView {
    Number(i32),
    NumberSet(Seq<(i32, Option<MyNumericDelimiter>)>),
}

pub struct NumericView {
    pub value: NumericValueView,
    pub prefix: Option<Seq<char>>,
    pub suffix: Option<Seq<char>>,
}

pub enum PagePartView {
    Ampersand,
    Comma,
    EscapedRange(NumericView, NumericView),
    SinglePage(NumericView),
    Range(NumericView, NumericView),
}

pub open spec fn affix_view(a: Option<Box<String>>) -> Option<Seq<char>> {
    match a {
        Some(b) => Some(b@),
        None => None,
    }
}

impl View for MyNumericValue {
    type V = NumericValueView;

    open spec fn view(&self) -> NumericValueView {
        match self {
            MyNumericValue::Number(v) => NumericValueView::Number(*v),
            MyNumericValue::NumberSet(s) => NumericValueView::NumberSet(s@),
        }
    }
}

impl View for MyNumeric {
    type V = NumericView;

    open spec fn view(&self) -> NumericView {
        NumericView {
            value: self.value@,
            prefix: affix_view(self.prefix),
            suffix: affix_view(self.suffix),
        }
    }
}

impl View for MyPageRangesPart {
    type V = PagePartView;

    open spec fn view(&self) -> PagePartView {
        match self {
            MyPageRangesPart::Ampersand => PagePartView::Ampersand,
            MyPageRangesPart::Comma => PagePartView::Comma,
            MyPageRangesPart::EscapedRange(s, e) => PagePartView::EscapedRange(s@, e@),
            MyPageRangesPart::SinglePage(n) => PagePartView::SinglePage(n@),
            MyPageRangesPart::Range(s, e) => PagePartView::Range(s@, e@),
        }
    }
}

pub open spec fn parts_view(s: Seq<MyPageRangesPart>) -> Seq<PagePartView> {
    s.map_values(|p: MyPageRangesPart| p@)
}

impl View for MyPageRanges {
    type V = Seq<PagePartView>;

    open spec fn view(&self) -> Seq<PagePartView> {
        parts_view(self.ranges@)
    }
}

// ---------------------------------------------------------------------------
// Page ranges to numeric
// ---------------------------------------------------------------------------

/// The delimiter that a separator part stands for.
pub open spec fn delim_of_part(p: PagePartView) -> Option<MyNumericDelimiter> {
    match p {
        PagePartView::Comma => Some(MyNumericDelimiter::Comma),
        PagePartView::Ampersand => Some(MyNumericDelimiter::Ampersand),
        _ => None,
    }
}

/// The delimiter carried by the part after the first one of `rest`.
pub open spec fn next_delim(rest: Seq<PagePartView>) -> Option<MyNumericDelimiter> {
    if rest.len() > 1 {
        delim_of_part(rest[1])
    } else {
        None
    }
}

/// The numbers that the first part of `rest` adds to the set.
pub open spec fn part_numbers(rest: Seq<PagePartView>) -> Seq<(i32, Option<MyNumericDelimiter>)> {
    let after = next_delim(rest);
    match rest[0] {
        PagePartView::SinglePage(n) => match n.value {
            NumericValueView::Number(v) => seq![(v, after)],
            NumericValueView::NumberSet(_) => Seq::empty(),
        },
        PagePartView::Range(s, e) => range_numbers(s, e, after),
        PagePartView::EscapedRange(s, e) => range_numbers(s, e, after),
        _ => Seq::empty(),
    }
}

/// The numbers a range adds: its start with a hyphen, its end with the
/// delimiter that follows the range.
pub open spec fn range_numbers(
    s: NumericView,
    e: NumericView,
    after: Option<MyNumericDelimiter>,
) -> Seq<(i32, Option<MyNumericDelimiter>)> {
    let first = match s.value {
        NumericValueView::Number(v) => seq![(v, Some(MyNumericDelimiter::Hyphen))],
        NumericValueView::NumberSet(_) => Seq::empty(),
    };
    let second = match e.value {
        NumericValueView::Number(v) => seq![(v, after)],
        NumericValueView::NumberSet(_) => Seq::empty(),
    };
    first + second
}

/// The set of numbers of a page-range expression, in order.
pub open spec fn numbers_of(parts: Seq<PagePartView>) -> Seq<(i32, Option<MyNumericDelimiter>)>
    decreases parts.len(),
{
    if parts.len() == 0 {
        Seq::empty()
    } else {
        part_numbers(parts) + numbers_of(parts.skip(1))
    }
}

/// The numeric of a part from which the affixes are taken: a single page
/// or the start of a range, when it holds a single number.
pub open spec fn affix_source(p: PagePartView) -> Option<NumericView> {
    match p {
        PagePartView::SinglePage(n) => if n.value is Number { Some(n) } else { None },
        PagePartView::Range(s, _) => if s.value is Number { Some(s) } else { None },
        PagePartView::EscapedRange(s, _) => if s.value is Number { Some(s) } else { None },
        _ => None,
    }
}

pub open spec fn part_prefix(p: PagePartView) -> Option<Seq<char>> {
    match affix_source(p) {
        Some(n) => n.prefix,
        None => None,
    }
}

pub open spec fn part_suffix(p: PagePartView) -> Option<Seq<char>> {
    match affix_source(p) {
        Some(n) => n.suffix,
        None => None,
    }
}

/// The first prefix that a part supplies.
pub open spec fn first_prefix(parts: Seq<PagePartView>) -> Option<Seq<char>>
    decreases parts.len(),
{
    if parts.len() == 0 {
        None
    } else if part_prefix(parts[0]) is Some {
        part_prefix(parts[0])
    } else {
        first_prefix(parts.skip(1))
    }
}

/// The first suffix that a part supplies.
pub open spec fn first_suffix(parts: Seq<PagePartView>) -> Option<Seq<char>>
    decreases parts.len(),
{
    if parts.len() == 0 {
        None
    } else if part_suffix(parts[0]) is Some {
        part_suffix(parts[0])
    } else {
        first_suffix(parts.skip(1))
    }
}

/// The numeric form of a page-range expression: `0` for no parts, a single
/// number when exactly one number without delimiter results, a set
/// otherwise; the affixes are the first ones supplied.
pub open spec fn ranges_to_numeric(parts: Seq<PagePartView>) -> NumericView {
    if parts.len() == 0 {
        NumericView { value: NumericValueView::Number(0), prefix: None, suffix: None }
    } else {
        let set = numbers_of(parts);
        NumericView {
            value: if set.len() == 1 && set[0].1 is None {
                NumericValueView::Number(set[0].0)
            } else {
                NumericValueView::NumberSet(set)
            },
            prefix: first_prefix(parts),
            suffix: first_suffix(parts),
        }
    }
}

// ---------------------------------------------------------------------------
// Numeric to page ranges
// ---------------------------------------------------------------------------

pub open spec fn plain_number(
    v: i32,
    prefix: Option<Seq<char>>,
    suffix: Option<Seq<char>>,
) -> NumericView {
    NumericView { value: NumericValueView::Number(v), prefix, suffix }
}

/// The separator part that a delimiter turns into.
pub open spec fn delim_part(d: Option<MyNumericDelimiter>) -> Seq<PagePartView> {
    match d {
        Some(MyNumericDelimiter::Comma) => seq![PagePartView::Comma],
        Some(MyNumericDelimiter::Ampersand) => seq![PagePartView::Ampersand],
        _ => Seq::empty(),
    }
}

/// The page-range parts of a numeric set: a number followed by a hyphen and
/// another number is a range, any other number a single page; comma and
/// ampersand delimiters become separator parts.
pub open spec fn parts_of_set(
    set: Seq<(i32, Option<MyNumericDelimiter>)>,
    prefix: Option<Seq<char>>,
    suffix: Option<Seq<char>>,
) -> Seq<PagePartView>
    decreases set.len(),
{
    if set.len() == 0 {
        Seq::empty()
    } else if set[0].1 == Some(MyNumericDelimiter::Hyphen) && set.len() >= 2 {
        seq![
            PagePartView::Range(
                plain_number(set[0].0, prefix, suffix),
                plain_number(set[1].0, prefix, suffix),
            ),
        ] + delim_part(set[1].1) + parts_of_set(set.skip(2), prefix, suffix)
    } else {
        seq![PagePartView::SinglePage(plain_number(set[0].0, prefix, suffix))] + delim_part(
            set[0].1,
        ) + parts_of_set(set.skip(1), prefix, suffix)
    }
}

/// The page-range form of a numeric.
pub open spec fn numeric_to_ranges(n: NumericView) -> Seq<PagePartView> {
    match n.value {
        NumericValueView::Number(_) => seq![PagePartView::SinglePage(n)],
        NumericValueView::NumberSet(s) => parts_of_set(s, n.prefix, n.suffix),
    }
}

/// Every hyphen delimiter is followed by a number whose own delimiter is no
/// hyphen.
pub open spec fn hyphens_paired(set: Seq<(i32, Option<MyNumericDelimiter>)>) -> bool {
    forall|i: int|
        0 <= i < set.len() && #[trigger] set[i].1 == Some(MyNumericDelimiter::Hyphen) ==> i + 1
            < set.len() && set[i + 1].1 != Some(MyNumericDelimiter::Hyphen)
}

/// A numeric that the page-range form represents without loss: a single
/// number, or a set that is not one undelimited number and whose hyphens
/// each join two numbers.
pub open spec fn page_representable(n: NumericView) -> bool {
    match n.value {
        NumericValueView::Number(_) => true,
        NumericValueView::NumberSet(s) => s.len() > 0 && !(s.len() == 1 && s[0].1 is None)
            && hyphens_paired(s),
    }
}

// ---------------------------------------------------------------------------
// Lemmas
// ---------------------------------------------------------------------------

proof fn lemma_cons_skip<A>(x: A, rest: Seq<A>)
    ensures
        (seq![x] + rest).skip(1) == rest,
        (seq![x] + rest)[0] == x,
        (seq![x] + rest).len() == rest.len() + 1,
{
    assert((seq![x] + rest).skip(1) =~= rest);
}

/// Parts of a set begin with a page or a range.
proof fn lemma_parts_of_set_head(
    set: Seq<(i32, Option<MyNumericDelimiter>)>,
    prefix: Option<Seq<char>>,
    suffix: Option<Seq<char>>,
)
    requires
        set.len() > 0,
    ensures
        parts_of_set(set, prefix, suffix).len() > 0,
        delim_of_part(parts_of_set(set, prefix, suffix)[0]) is None,
        part_prefix(parts_of_set(set, prefix, suffix)[0]) == prefix,
        part_suffix(parts_of_set(set, prefix, suffix)[0]) == suffix,
{
}

/// A separator part adds no number and no affix.
proof fn lemma_separator_head(d: Option<MyNumericDelimiter>, rest: Seq<PagePartView>)
    ensures
        numbers_of(delim_part(d) + rest) == numbers_of(rest),
        first_prefix(delim_part(d) + rest) == first_prefix(rest),
        first_suffix(delim_part(d) + rest) == first_suffix(rest),
{
    match d {
        Some(MyNumericDelimiter::Comma) => {
            lemma_cons_skip(PagePartView::Comma, rest);
            assert(delim_part(d) + rest =~= seq![PagePartView::Comma] + rest);
        },
        Some(MyNumericDelimiter::Ampersand) => {
            lemma_cons_skip(PagePartView::Ampersand, rest);
            assert(delim_part(d) + rest =~= seq![PagePartView::Ampersand] + rest);
        },
        _ => {
            assert(delim_part(d) + rest =~= rest);
        },
    }
}

proof fn lemma_hyphens_paired_skip(set: Seq<(i32, Option<MyNumericDelimiter>)>, k: int)
    requires
        hyphens_paired(set),
        0 <= k <= set.len(),
    ensures
        hyphens_paired(set.skip(k)),
{
    assert forall|i: int|
        0 <= i < set.skip(k).len() && #[trigger] set.skip(k)[i].1 == Some(
            MyNumericDelimiter::Hyphen,
        ) implies i + 1 < set.skip(k).len() && set.skip(k)[i + 1].1 != Some(
        MyNumericDelimiter::Hyphen,
    ) by {
        assert(set.skip(k)[i] == set[i + k]);
        assert(set[i + k].1 == Some(MyNumericDelimiter::Hyphen));
    }
}

/// The numbers of the parts of a set are the set itself.
proof fn lemma_numbers_of_parts(
    set: Seq<(i32, Option<MyNumericDelimiter>)>,
    prefix: Option<Seq<char>>,
    suffix: Option<Seq<char>>,
)
    requires
        hyphens_paired(set),
    ensures
        numbers_of(parts_of_set(set, prefix, suffix)) == set,
        first_prefix(parts_of_set(set, prefix, suffix)) == (if set.len() > 0 {
            prefix
        } else {
            None
        }),
        first_suffix(parts_of_set(set, prefix, suffix)) == (if set.len() > 0 {
            suffix
        } else {
            None
        }),
    decreases set.len(),
{
    if set.len() == 0 {
        return;
    }
    let parts = parts_of_set(set, prefix, suffix);
    if set[0].1 == Some(MyNumericDelimiter::Hyphen) && set.len() >= 2 {
        let tail = parts_of_set(set.skip(2), prefix, suffix);
        let head = PagePartView::Range(
            plain_number(set[0].0, prefix, suffix),
            plain_number(set[1].0, prefix, suffix),
        );
        let rest = delim_part(set[1].1) + tail;
        assert(parts =~= seq![head] + rest);
        lemma_cons_skip(head, rest);
        lemma_hyphens_paired_skip(set, 2);
        lemma_numbers_of_parts(set.skip(2), prefix, suffix);
        lemma_separator_head(set[1].1, tail);
        assert(set[1].1 != Some(MyNumericDelimiter::Hyphen));
        if set.len() > 2 {
            lemma_parts_of_set_head(set.skip(2), prefix, suffix);
        }
        assert(next_delim(parts) == set[1].1);
        assert(part_numbers(parts) =~= seq![set[0], set[1]]);
        assert(set =~= seq![set[0], set[1]] + set.skip(2));
    } else {
        let tail = parts_of_set(set.skip(1), prefix, suffix);
        let head = PagePartView::SinglePage(plain_number(set[0].0, prefix, suffix));
        let rest = delim_part(set[0].1) + tail;
        assert(parts =~= seq![head] + rest);
        lemma_cons_skip(head, rest);
        lemma_hyphens_paired_skip(set, 1);
        lemma_numbers_of_parts(set.skip(1), prefix, suffix);
        lemma_separator_head(set[0].1, tail);
        assert(set[0].1 != Some(MyNumericDelimiter::Hyphen));
        if set.len() > 1 {
            lemma_parts_of_set_head(set.skip(1), prefix, suffix);
        }
        assert(next_delim(parts) == set[0].1);
        assert(part_numbers(parts) =~= seq![set[0]]);
        assert(set =~= seq![set[0]] + set.skip(1));
    }
}

/// A numeric that page ranges can represent comes back unchanged from its
/// page-range form.
pub proof fn lemma_numeric_page_ranges_round_trip(n: NumericView)
    requires
        page_representable(n),
    ensures
        ranges_to_numeric(numeric_to_ranges(n)) == n,
{
    match n.value {
        NumericValueView::Number(v) => {
            let parts = numeric_to_ranges(n);
            lemma_cons_skip(PagePartView::SinglePage(n), Seq::<PagePartView>::empty());
            assert(parts.skip(1) =~= Seq::<PagePartView>::empty());
            assert(parts.len() == 1 && parts[0] == PagePartView::SinglePage(n));
            assert(numbers_of(parts.skip(1)) == Seq::<(i32, Option<MyNumericDelimiter>)>::empty());
            assert(first_prefix(parts.skip(1)) == None::<Seq<char>>);
            assert(first_suffix(parts.skip(1)) == None::<Seq<char>>);
            assert(part_numbers(parts) =~= seq![(v, None::<MyNumericDelimiter>)]);
            assert(numbers_of(parts) =~= seq![(v, None::<MyNumericDelimiter>)]);
        },
        NumericValueView::NumberSet(s) => {
            lemma_numbers_of_parts(s, n.prefix, n.suffix);
            lemma_parts_of_set_head(s, n.prefix, n.suffix);
        },
    }
}

/// A single number with the given affixes.
pub open spec fn number_with_affixes(n: NumericView, prefix: Option<Seq<char>>, suffix: Option<Seq<char>>) -> bool {
    n.value is Number && n.prefix == prefix && n.suffix == suffix
}

/// A single page or a range of single numbers, with the given affixes.
pub open spec fn page_part_with(p: PagePartView, prefix: Option<Seq<char>>, suffix: Option<Seq<char>>) -> bool {
    match p {
        PagePartView::SinglePage(n) => number_with_affixes(n, prefix, suffix),
        PagePartView::Range(a, b) => number_with_affixes(a, prefix, suffix) && number_with_affixes(
            b,
            prefix,
            suffix,
        ),
        _ => false,
    }
}

/// Page parts and single separators in turn, starting and ending with a
/// page part; every number single and with the given affixes.
pub open spec fn alternating_pages(
    parts: Seq<PagePartView>,
    prefix: Option<Seq<char>>,
    suffix: Option<Seq<char>>,
) -> bool {
    &&& parts.len() % 2 == 1
    &&& forall|i: int|
        0 <= i < parts.len() ==> if i % 2 == 0 {
            page_part_with(#[trigger] parts[i], prefix, suffix)
        } else {
            parts[i] is Comma || parts[i] is Ampersand
        }
}

proof fn lemma_alternating_skip2(parts: Seq<PagePartView>, prefix: Option<Seq<char>>, suffix: Option<Seq<char>>)
    requires
        alternating_pages(parts, prefix, suffix),
        parts.len() >= 3,
    ensures
        alternating_pages(parts.skip(2), prefix, suffix),
{
    assert forall|i: int| 0 <= i < parts.skip(2).len() implies if i % 2 == 0 {
        page_part_with(#[trigger] parts.skip(2)[i], prefix, suffix)
    } else {
        parts.skip(2)[i] is Comma || parts.skip(2)[i] is Ampersand
    } by {
        assert(parts.skip(2)[i] == parts[i + 2]);
        assert((i + 2) % 2 == i % 2);
    }
}

/// The parts of the numbers of alternating page parts are those parts, and
/// the parts supply the common affixes.
proof fn lemma_parts_of_numbers(parts: Seq<PagePartView>, prefix: Option<Seq<char>>, suffix: Option<Seq<char>>)
    requires
        alternating_pages(parts, prefix, suffix),
    ensures
        parts_of_set(numbers_of(parts), prefix, suffix) == parts,
        numbers_of(parts).len() > 0,
        first_prefix(parts) == prefix,
        first_suffix(parts) == suffix,
        numbers_of(parts).len() == 1 ==> parts.len() == 1 && parts[0] is SinglePage,
        numbers_of(parts).len() == 1 ==> numbers_of(parts)[0].1 is None,
    decreases parts.len(),
{
    let p0 = parts[0];
    assert(page_part_with(parts[0], prefix, suffix));
    let tail_nums = numbers_of(parts.skip(1));
    assert(part_prefix(p0) == prefix && part_suffix(p0) == suffix);
    if parts.len() == 1 {
        assert(parts.skip(1) =~= Seq::<PagePartView>::empty());
        assert(next_delim(parts) is None);
        assert(first_prefix(parts.skip(1)) is None);
        assert(first_suffix(parts.skip(1)) is None);
    } else {
        let q = parts.skip(1);
        assert(q[0] == parts[1]);
        assert(parts[1] is Comma || parts[1] is Ampersand);
        assert(q.skip(1) =~= parts.skip(2));
        assert(part_numbers(q) =~= Seq::<(i32, Option<MyNumericDelimiter>)>::empty());
        assert(numbers_of(q) =~= numbers_of(parts.skip(2)));
        assert(first_prefix(q) == first_prefix(parts.skip(2)));
        assert(first_suffix(q) == first_suffix(parts.skip(2)));
        lemma_alternating_skip2(parts, prefix, suffix);
        lemma_parts_of_numbers(parts.skip(2), prefix, suffix);
        assert(parts =~= seq![parts[0], parts[1]] + parts.skip(2));
    }
    let d = next_delim(parts);
    let rest_nums = numbers_of(parts.skip(1));
    let nums = numbers_of(parts);
    assert(nums == part_numbers(parts) + rest_nums);
    match p0 {
        PagePartView::SinglePage(n) => {
            let v = n.value->Number_0;
            assert(part_numbers(parts) =~= seq![(v, d)]);
            assert(nums[0] == (v, d));
            assert(nums.skip(1) =~= rest_nums);
            assert(n == plain_number(v, prefix, suffix));
            if parts.len() == 1 {
                assert(rest_nums =~= Seq::<(i32, Option<MyNumericDelimiter>)>::empty());
                assert(d is None);
                assert(delim_part(d) =~= Seq::<PagePartView>::empty());
                assert(parts_of_set(nums.skip(1), prefix, suffix) =~= Seq::<PagePartView>::empty());
                assert(parts_of_set(nums, prefix, suffix) =~= seq![PagePartView::SinglePage(n)]);
                assert(parts =~= seq![p0]);
            } else {
                assert(d == delim_of_part(parts[1]));
                assert(delim_part(d) =~= seq![parts[1]]);
                assert(parts_of_set(nums, prefix, suffix) =~= seq![p0] + seq![parts[1]] + parts.skip(2));
            }
        },
        PagePartView::Range(a, b) => {
            let va = a.value->Number_0;
            let vb = b.value->Number_0;
            assert(part_numbers(parts) =~= seq![(va, Some(MyNumericDelimiter::Hyphen)), (vb, d)]);
            assert(nums[0] == (va, Some(MyNumericDelimiter::Hyphen)));
            assert(nums[1] == (vb, d));
            assert(nums.skip(2) =~= rest_nums);
            assert(a == plain_number(va, prefix, suffix));
            assert(b == plain_number(vb, prefix, suffix));
            if parts.len() == 1 {
                assert(rest_nums =~= Seq::<(i32, Option<MyNumericDelimiter>)>::empty());
                assert(d is None);
                assert(delim_part(d) =~= Seq::<PagePartView>::empty());
                assert(parts_of_set(nums.skip(2), prefix, suffix) =~= Seq::<PagePartView>::empty());
                assert(parts_of_set(nums, prefix, suffix) =~= seq![p0]);
                assert(parts =~= seq![p0]);
            } else {
                assert(d == delim_of_part(parts[1]));
                assert(delim_part(d) =~= seq![parts[1]]);
                assert(parts_of_set(nums, prefix, suffix) =~= seq![p0] + seq![parts[1]] + parts.skip(2));
            }
        },
        _ => {},
    }
}

/// Page parts and separators in turn, every number single and all with
/// the same affixes, come back unchanged from their numeric form.
pub proof fn lemma_page_ranges_numeric_round_trip(
    parts: Seq<PagePartView>,
    prefix: Option<Seq<char>>,
    suffix: Option<Seq<char>>,
)
    requires
        alternating_pages(parts, prefix, suffix),
    ensures
        numeric_to_ranges(ranges_to_numeric(parts)) == parts,
{
    lemma_parts_of_numbers(parts, prefix, suffix);
    let set = numbers_of(parts);
    if set.len() == 1 && set[0].1 is None {
        assert(page_part_with(parts[0], prefix, suffix));
        assert(parts =~= seq![parts[0]]);
        let n = parts[0]->SinglePage_0;
        assert(set[0].0 == n.value->Number_0) by {
            assert(part_numbers(parts) + numbers_of(parts.skip(1)) == set);
            assert(parts.skip(1) =~= Seq::<PagePartView>::empty());
        }
        assert(ranges_to_numeric(parts) == n);
    }
}

// ---------------------------------------------------------------------------
// Executable conversions
// ---------------------------------------------------------------------------

/// A copy of an optional affix.
fn copy_affix(a: &Option<Box<String>>) -> (r: Option<Box<String>>)
    ensures
        affix_view(r) == affix_view(*a),
{
    match a {
        Some(b) => {
            let s: String = (**b).clone();
            Some(Box::new(s))
        },
        None => None,
    }
}

/// The delimiter that the part after position `i` stands for.
fn delimiter_after(ranges: &Vec<MyPageRangesPart>, i: usize) -> (d: Option<MyNumericDelimiter>)
    requires
        i < ranges.len(),
    ensures
        d == next_delim(parts_view(ranges@).skip(i as int)),
{
    let ghost rest = parts_view(ranges@).skip(i as int);
    if i + 1 < ranges.len() {
        assert(rest[1] == ranges@[i + 1]@);
        match &ranges[i + 1] {
            MyPageRangesPart::Comma => Some(MyNumericDelimiter::Comma),
            MyPageRangesPart::Ampersand => Some(MyNumericDelimiter::Ampersand),
            _ => None,
        }
    } else {
        None
    }
}

impl MyNumeric {
    /// A single number with copies of the given affixes.
    fn number_with(v: i32, prefix: &Option<Box<String>>, suffix: &Option<Box<String>>) -> (r:
        MyNumeric)
        ensures
            r@ == plain_number(v, affix_view(*prefix), affix_view(*suffix)),
    {
        MyNumeric {
            value: MyNumericValue::Number(v),
            prefix: copy_affix(prefix),
            suffix: copy_affix(suffix),
        }
    }

    /// The numeric form of a page-range expression, in which it is stored.
    pub fn from_page_ranges(value: MyPageRanges) -> (r: MyNumeric)
        ensures
            r@ == ranges_to_numeric(value@),
    {
        let ghost parts = value@;
        if value.ranges.len() == 0 {
            return MyNumeric { value: MyNumericValue::Number(0), prefix: None, suffix: None };
        }
        let mut set: Vec<(i32, Option<MyNumericDelimiter>)> = Vec::new();
        let mut last_prefix: Option<Box<String>> = None;
        let mut last_suffix: Option<Box<String>> = None;
        let n = value.ranges.len();
        let mut i: usize = 0;
        assert(parts.skip(0) =~= parts);
        while i < n
            invariant
                n == value.ranges.len(),
                parts == value@,
                i <= n,
                set@ + numbers_of(parts.skip(i as int)) == numbers_of(parts),
                (if affix_view(last_prefix) is Some {
                    affix_view(last_prefix)
                } else {
                    first_prefix(parts.skip(i as int))
                }) == first_prefix(parts),
                (if affix_view(last_suffix) is Some {
                    affix_view(last_suffix)
                } else {
                    first_suffix(parts.skip(i as int))
                }) == first_suffix(parts),
            decreases n - i,
        {
            let ghost rest = parts.skip(i as int);
            let ghost old_set = set@;
            assert(rest[0] == value.ranges@[i as int]@);
            assert(rest.skip(1) =~= parts.skip(i + 1));
            let after = delimiter_after(&value.ranges, i);
            match &value.ranges[i] {
                MyPageRangesPart::SinglePage(p) => {
                    if let MyNumericValue::Number(val) = &p.value {
                        set.push((*val, after));
                        if last_prefix.is_none() {
                            last_prefix = copy_affix(&p.prefix);
                        }
                        if last_suffix.is_none() {
                            last_suffix = copy_affix(&p.suffix);
                        }
                    }
                },
                MyPageRangesPart::Range(start, end) | MyPageRangesPart::EscapedRange(start, end) => {
                    if let MyNumericValue::Number(s_val) = &start.value {
                        set.push((*s_val, Some(MyNumericDelimiter::Hyphen)));
                        if last_prefix.is_none() {
                            last_prefix = copy_affix(&start.prefix);
                        }
                        if last_suffix.is_none() {
                            last_suffix = copy_affix(&start.suffix);
                        }
                    }
                    if let MyNumericValue::Number(e_val) = &end.value {
                        set.push((*e_val, after));
                    }
                },
                _ => {},
            }
            assert(set@ =~= old_set + part_numbers(rest));
            i = i + 1;
        }
        assert(parts.skip(n as int) =~= Seq::<PagePartView>::empty());
        assert(set@ =~= numbers_of(parts));
        if set.len() == 1 && set[0].1.is_none() {
            MyNumeric {
                value: MyNumericValue::Number(set[0].0),
                prefix: last_prefix,
                suffix: last_suffix,
            }
        } else {
            MyNumeric { value: MyNumericValue::NumberSet(set), prefix: last_prefix, suffix: last_suffix }
        }
    }
}

impl MyPageRanges {
    /// The page-range form of a numeric.
    pub fn from_numeric(value: MyNumeric) -> (r: MyPageRanges)
        ensures
            r@ == numeric_to_ranges(value@),
    {
        if let MyNumericValue::NumberSet(set) = &value.value {
            let ghost pre = affix_view(value.prefix);
            let ghost suf = affix_view(value.suffix);
            let mut ranges: Vec<MyPageRangesPart> = Vec::new();
            let mut i: usize = 0;
            assert(set@.skip(0) =~= set@);
            while i < set.len()
                invariant
                    i <= set.len(),
                    pre == affix_view(value.prefix),
                    suf == affix_view(value.suffix),
                    parts_view(ranges@) + parts_of_set(set@.skip(i as int), pre, suf)
                        == parts_of_set(set@, pre, suf),
                decreases set.len() - i,
            {
                let ghost rest = set@.skip(i as int);
                let ghost old_parts = parts_view(ranges@);
                assert(rest[0] == set@[i as int]);
                let (val, delim) = set[i];
                let current = MyNumeric::number_with(val, &value.prefix, &value.suffix);
                if delim == Some(MyNumericDelimiter::Hyphen) && i + 1 < set.len() {
                    assert(rest[1] == set@[i + 1]);
                    assert(rest.skip(2) =~= set@.skip(i + 2));
                    let (next_val, next_delim) = set[i + 1];
                    let next = MyNumeric::number_with(next_val, &value.prefix, &value.suffix);
                    ranges.push(MyPageRangesPart::Range(current, next));
                    match next_delim {
                        Some(MyNumericDelimiter::Comma) => ranges.push(MyPageRangesPart::Comma),
                        Some(MyNumericDelimiter::Ampersand) => ranges.push(
                            MyPageRangesPart::Ampersand,
                        ),
                        _ => {},
                    }
                    assert(parts_view(ranges@) =~= old_parts + seq![
                        PagePartView::Range(
                            plain_number(val, pre, suf),
                            plain_number(next_val, pre, suf),
                        ),
                    ] + delim_part(next_delim));
                    i = i + 2;
                } else {
                    assert(rest.skip(1) =~= set@.skip(i + 1));
                    ranges.push(MyPageRangesPart::SinglePage(current));
                    match delim {
                        Some(MyNumericDelimiter::Comma) => ranges.push(MyPageRangesPart::Comma),
                        Some(MyNumericDelimiter::Ampersand) => ranges.push(
                            MyPageRangesPart::Ampersand,
                        ),
                        _ => {},
                    }
                    assert(parts_view(ranges@) =~= old_parts + seq![
                        PagePartView::SinglePage(plain_number(val, pre, suf)),
                    ] + delim_part(delim));
                    i = i + 1;
                }
            }
            assert(set@.skip(i as int) =~= Seq::<(i32, Option<MyNumericDelimiter>)>::empty());
            assert(parts_view(ranges@) =~= parts_of_set(set@, pre, suf));
            MyPageRanges { ranges }
        } else {
            let r = MyPageRanges { ranges: vec![MyPageRangesPart::SinglePage(value)] };
            assert(r@ =~= seq![PagePartView::SinglePage(value@)]);
            r
        }
    }
}

// ---------------------------------------------------------------------------
// Dates
// ---------------------------------------------------------------------------

pub open spec fn shift_up(x: Option<u8>) -> Option<u8> {
    match x {
        Some(v) => Some((v + 1) as u8),
        None => None,
    }
}

pub open spec fn shift_down(x: Option<u8>) -> Option<u8> {
    match x {
        Some(v) => if v == 0 { Some(0u8) } else { Some((v - 1) as u8) },
        None => None,
    }
}

pub open spec fn below_max(x: Option<u8>) -> bool {
    match x {
        Some(v) => v < 255,
        None => true,
    }
}

pub open spec fn not_zero(x: Option<u8>) -> bool {
    match x {
        Some(v) => v != 0,
        None => true,
    }
}

fn shift_up_exec(x: Option<u8>) -> (r: Option<u8>)
    requires
        below_max(x),
    ensures
        r == shift_up(x),
{
    match x {
        Some(v) => Some(v + 1),
        None => None,
    }
}

fn shift_down_exec(x: Option<u8>) -> (r: Option<u8>)
    ensures
        r == shift_down(x),
{
    match x {
        Some(v) => if v == 0 { Some(0) } else { Some(v - 1) },
        None => None,
    }
}

impl MyDate {
    /// A date from month and day counted from 0, as the citation library
    /// counts them.
    pub fn from_zero_based(year: i32, month: Option<u8>, day: Option<u8>, approximate: bool) -> (r:
        MyDate)
        requires
            below_max(month),
            below_max(day),
        ensures
            r == (MyDate { year, month: shift_up(month), day: shift_up(day), approximate }),
    {
        MyDate { year, month: shift_up_exec(month), day: shift_up_exec(day), approximate }
    }

    /// Year, month and day counted from 0, and the approximation flag; a
    /// month or day of 0 stays 0.
    pub fn to_zero_based(&self) -> (r: (i32, Option<u8>, Option<u8>, bool))
        ensures
            r == (self.year, shift_down(self.month), shift_down(self.day), self.approximate),
    {
        (self.year, shift_down_exec(self.month), shift_down_exec(self.day), self.approximate)
    }
}

/// Counting from 1 and back from 0 gives the same date.
pub proof fn lemma_date_zero_based_round_trip(
    year: i32,
    month: Option<u8>,
    day: Option<u8>,
    approximate: bool,
)
    requires
        below_max(month),
        below_max(day),
    ensures
        shift_down(shift_up(month)) == month,
        shift_down(shift_up(day)) == day,
{
}

/// A stored date whose month and day are not 0 comes back unchanged from
/// the form counted from 0.
pub proof fn lemma_date_one_based_round_trip(d: MyDate)
    requires
        not_zero(d.month),
        not_zero(d.day),
    ensures
        below_max(shift_down(d.month)),
        below_max(shift_down(d.day)),
        (MyDate {
            year: d.year,
            month: shift_up(shift_down(d.month)),
            day: shift_up(shift_down(d.day)),
            approximate: d.approximate,
        }) == d,
{
}

// ---------------------------------------------------------------------------
// Typed values
// ---------------------------------------------------------------------------

impl MyMaybeTyped<MyPageRanges> {
    /// The stored form of a page-range field: typed page ranges become
    /// their numeric form, a string stays as it is.
    pub fn to_numeric(self) -> (r: MyMaybeTyped<MyNumeric>)
        ensures
            match (self, r) {
                (MyMaybeTyped::Typed(p), MyMaybeTyped::Typed(n)) => n@ == ranges_to_numeric(p@),
                (MyMaybeTyped::String(s), MyMaybeTyped::String(t)) => t == s,
                _ => false,
            },
    {
        match self {
            MyMaybeTyped::Typed(t) => MyMaybeTyped::Typed(MyNumeric::from_page_ranges(t)),
            MyMaybeTyped::String(s) => MyMaybeTyped::String(s),
        }
    }
}

impl MyMaybeTyped<MyNumeric> {
    /// The page-range form of a stored page-range field.
    pub fn to_page_ranges(self) -> (r: MyMaybeTyped<MyPageRanges>)
        ensures
            match (self, r) {
                (MyMaybeTyped::Typed(n), MyMaybeTyped::Typed(p)) => p@ == numeric_to_ranges(n@),
                (MyMaybeTyped::String(s), MyMaybeTyped::String(t)) => t == s,
                _ => false,
            },
    {
        match self {
            MyMaybeTyped::Typed(t) => MyMaybeTyped::Typed(MyPageRanges::from_numeric(t)),
            MyMaybeTyped::String(s) => MyMaybeTyped::String(s),
        }
    }
}

} // verus!

//! Character-level string utilities: sequence views of strings, literal
//! substring replacement, and the HTML escaping used for note contents.
use vstd::prelude::*;

verus! {

// ---------------------------------------------------------------------------
// Specifications
// ---------------------------------------------------------------------------

/// `p` is a prefix of `s`.
pub open spec fn starts_with(s: Seq<char>, p: Seq<char>) -> bool {
    p.len() <= s.len() && s.take(p.len() as int) == p
}

/// Left-to-right, non-overlapping replacement of every occurrence of the
/// non-empty pattern `from` by `to` (the behaviour of `str::replace`).
pub open spec fn replace_spec(s: Seq<char>, from: Seq<char>, to: Seq<char>) -> Seq<char>
    decreases s.len(),
{
    if from.len() == 0 || s.len() == 0 {
        s
    } else if starts_with(s, from) {
        to + replace_spec(s.skip(from.len() as int), from, to)
    } else {
        seq![s[0]] + replace_spec(s.skip(1), from, to)
    }
}

/// Concatenation of `f(c)` over the characters `c` of `s`.
pub open spec fn flat_map(f: spec_fn(char) -> Seq<char>, s: Seq<char>) -> Seq<char>
    decreases s.len(),
{
    if s.len() == 0 {
        Seq::empty()
    } else {
        f(s[0]) + flat_map(f, s.skip(1))
    }
}

pub open spec fn amp_entity() -> Seq<char> {
    seq!['&', 'a', 'm', 'p', ';']
}

pub open spec fn lt_entity() -> Seq<char> {
    seq!['&', 'l', 't', ';']
}

pub open spec fn gt_entity() -> Seq<char> {
    seq!['&', 'g', 't', ';']
}

pub open spec fn quot_entity() -> Seq<char> {
    seq!['&', 'q', 'u', 'o', 't', ';']
}

/// The HTML escape of a single character.
pub open spec fn escape_char(c: char) -> Seq<char> {
    if c == '&' {
        amp_entity()
    } else if c == '<' {
        lt_entity()
    } else if c == '>' {
        gt_entity()
    } else if c == '"' {
        quot_entity()
    } else {
        seq![c]
    }
}

pub open spec fn escape_fn() -> spec_fn(char) -> Seq<char> {
    |c: char| escape_char(c)
}

/// `&`, `<`, `>` and `"` replaced by their HTML entities, every other
/// character kept.
pub open spec fn escape_html_spec(s: Seq<char>) -> Seq<char> {
    flat_map(escape_fn(), s)
}

/// The entities `&amp;`, `&lt;`, `&gt;`, `&quot;` replaced, in this order,
/// each in a full pass of its own.
pub open spec fn unescape_html_spec(s: Seq<char>) -> Seq<char> {
    replace_spec(
        replace_spec(
            replace_spec(replace_spec(s, amp_entity(), seq!['&']), lt_entity(), seq!['<']),
            gt_entity(),
            seq!['>'],
        ),
        quot_entity(),
        seq!['"'],
    )
}

// ---------------------------------------------------------------------------
// Lemmas about replacement
// ---------------------------------------------------------------------------

pub(crate) proof fn lemma_replace_unmatched_head(s: Seq<char>, from: Seq<char>, to: Seq<char>)
    requires
        s.len() > 0,
        from.len() > 0,
        !starts_with(s, from),
    ensures
        replace_spec(s, from, to) == seq![s[0]] + replace_spec(s.skip(1), from, to),
{
}

pub(crate) proof fn lemma_replace_matched_head(from: Seq<char>, rest: Seq<char>, to: Seq<char>)
    requires
        from.len() > 0,
    ensures
        replace_spec(from + rest, from, to) == to + replace_spec(rest, from, to),
{
    let s = from + rest;
    assert(s.take(from.len() as int) =~= from);
    assert(s.skip(from.len() as int) =~= rest);
}

/// A prefix without `&` passes unchanged through a replacement whose
/// pattern starts with `&`.
proof fn lemma_replace_no_amp_prefix(x: Seq<char>, rest: Seq<char>, from: Seq<char>, to: Seq<char>)
    requires
        from.len() > 0,
        from[0] == '&',
        forall|i: int| 0 <= i < x.len() ==> x[i] != '&',
    ensures
        replace_spec(x + rest, from, to) == x + replace_spec(rest, from, to),
    decreases x.len(),
{
    if x.len() > 0 {
        let s = x + rest;
        assert(s[0] == x[0]);
        assert(!starts_with(s, from)) by {
            if starts_with(s, from) {
                assert(s.take(from.len() as int)[0] == from[0]);
            }
        }
        lemma_replace_unmatched_head(s, from, to);
        assert(s.skip(1) =~= x.skip(1) + rest);
        lemma_replace_no_amp_prefix(x.skip(1), rest, from, to);
        assert(x =~= seq![x[0]] + x.skip(1));
    } else {
        assert(x + rest =~= rest);
    }
}

/// An entity whose second character differs from the pattern's passes
/// unchanged.
proof fn lemma_replace_other_entity(e: Seq<char>, rest: Seq<char>, from: Seq<char>, to: Seq<char>)
    requires
        from.len() >= 2,
        from[0] == '&',
        e.len() >= 2,
        e[0] == '&',
        e[1] != from[1],
        forall|i: int| 1 <= i < e.len() ==> e[i] != '&',
    ensures
        replace_spec(e + rest, from, to) == e + replace_spec(rest, from, to),
{
    let s = e + rest;
    assert(!starts_with(s, from)) by {
        if starts_with(s, from) {
            assert(s.take(from.len() as int)[1] == from[1]);
        }
    }
    lemma_replace_unmatched_head(s, from, to);
    assert(s.skip(1) =~= e.skip(1) + rest);
    lemma_replace_no_amp_prefix(e.skip(1), rest, from, to);
    assert(e =~= seq![e[0]] + e.skip(1));
}

/// Replacement commutes with a character-wise map when it does so for
/// every single character followed by any text.
proof fn lemma_replace_flat_map(
    f: spec_fn(char) -> Seq<char>,
    g: spec_fn(char) -> Seq<char>,
    s: Seq<char>,
    from: Seq<char>,
    to: Seq<char>,
)
    requires
        forall|i: int, rest: Seq<char>|
            0 <= i < s.len() ==> #[trigger] replace_spec(f(s[i]) + rest, from, to) == g(s[i])
                + replace_spec(rest, from, to),
    ensures
        replace_spec(flat_map(f, s), from, to) == flat_map(g, s),
    decreases s.len(),
{
    if s.len() > 0 {
        let tail = flat_map(f, s.skip(1));
        assert(replace_spec(f(s[0]) + tail, from, to) == g(s[0]) + replace_spec(tail, from, to));
        assert forall|i: int, rest: Seq<char>|
            0 <= i < s.skip(1).len() implies #[trigger] replace_spec(
            f(s.skip(1)[i]) + rest,
            from,
            to,
        ) == g(s.skip(1)[i]) + replace_spec(rest, from, to) by {
            assert(s.skip(1)[i] == s[i + 1]);
            assert(replace_spec(f(s[i + 1]) + rest, from, to) == g(s[i + 1]) + replace_spec(
                rest,
                from,
                to,
            ));
        }
        lemma_replace_flat_map(f, g, s.skip(1), from, to);
    } else {
        assert(replace_spec(Seq::<char>::empty(), from, to) == Seq::<char>::empty());
    }
}

proof fn lemma_flat_map_identity(s: Seq<char>)
    ensures
        flat_map(identity_fn(), s) == s,
    decreases s.len(),
{
    if s.len() > 0 {
        lemma_flat_map_identity(s.skip(1));
        assert(s =~= seq![s[0]] + s.skip(1));
    }
}

proof fn lemma_flat_map_append(f: spec_fn(char) -> Seq<char>, a: Seq<char>, b: Seq<char>)
    ensures
        flat_map(f, a + b) == flat_map(f, a) + flat_map(f, b),
    decreases a.len(),
{
    if a.len() > 0 {
        assert((a + b).skip(1) =~= a.skip(1) + b);
        assert((a + b)[0] == a[0]);
        lemma_flat_map_append(f, a.skip(1), b);
        assert(f(a[0]) + (flat_map(f, a.skip(1)) + flat_map(f, b)) =~= (f(a[0]) + flat_map(
            f,
            a.skip(1),
        )) + flat_map(f, b));
    } else {
        assert(a + b =~= b);
    }
}

// ---------------------------------------------------------------------------
// The escaping law
// ---------------------------------------------------------------------------

pub open spec fn amp_restored_fn() -> spec_fn(char) -> Seq<char> {
    |c: char| if c == '&' { seq![c] } else { escape_char(c) }
}

pub open spec fn amp_lt_restored_fn() -> spec_fn(char) -> Seq<char> {
    |c: char| if c == '&' || c == '<' { seq![c] } else { escape_char(c) }
}

pub open spec fn amp_lt_gt_restored_fn() -> spec_fn(char) -> Seq<char> {
    |c: char| if c == '&' || c == '<' || c == '>' { seq![c] } else { escape_char(c) }
}

pub open spec fn identity_fn() -> spec_fn(char) -> Seq<char> {
    |c: char| seq![c]
}

/// The text holds none of the entities `&lt;`, `&gt;` and `&quot;`.
pub open spec fn no_entity(s: Seq<char>) -> bool {
    forall|i: int|
        0 <= i <= s.len() ==> !starts_with(#[trigger] s.skip(i), lt_entity()) && !starts_with(
            s.skip(i),
            gt_entity(),
        ) && !starts_with(s.skip(i), quot_entity())
}

/// Each character maps to itself or to a text that starts with `&`.
pub open spec fn self_or_entity(g: spec_fn(char) -> Seq<char>) -> bool {
    forall|c: char| #[trigger] g(c).len() > 0 && (g(c)[0] == '&' || g(c) == seq![c])
}

/// Where every character maps to itself or to an entity, a mapped text
/// starts with a pattern free of `&` only where the text does.
proof fn lemma_flat_map_starts(g: spec_fn(char) -> Seq<char>, t: Seq<char>, p: Seq<char>)
    requires
        self_or_entity(g),
        forall|k: int| 0 <= k < p.len() ==> p[k] != '&',
        starts_with(flat_map(g, t), p),
    ensures
        starts_with(t, p),
    decreases p.len(),
{
    if p.len() == 0 {
        assert(t.take(0) =~= p);
    } else {
        if t.len() == 0 {
            assert(flat_map(g, t).len() == 0);
        } else {
            let ft = flat_map(g, t);
            assert(ft.take(p.len() as int)[0] == ft[0]);
            assert(ft[0] == g(t[0])[0]);
            assert(g(t[0]) == seq![t[0]]);
            let rest = flat_map(g, t.skip(1));
            assert(ft =~= seq![t[0]] + rest);
            assert(rest.take(p.len() - 1) =~= ft.take(p.len() as int).skip(1));
            assert(starts_with(rest, p.skip(1)));
            lemma_flat_map_starts(g, t.skip(1), p.skip(1));
            assert(t.take(p.len() as int) =~= seq![t[0]] + t.skip(1).take(p.len() - 1));
            assert(p =~= seq![p[0]] + p.skip(1));
        }
    }
}

/// Replacement commutes with a character-wise map when it does so for
/// every character followed by the map of the characters after it.
proof fn lemma_replace_flat_map_ctx(
    f: spec_fn(char) -> Seq<char>,
    g: spec_fn(char) -> Seq<char>,
    s: Seq<char>,
    from: Seq<char>,
    to: Seq<char>,
)
    requires
        forall|i: int|
            0 <= i < s.len() ==> #[trigger] replace_spec(f(s[i]) + flat_map(f, s.skip(i + 1)), from, to)
                == g(s[i]) + replace_spec(flat_map(f, s.skip(i + 1)), from, to),
    ensures
        replace_spec(flat_map(f, s), from, to) == flat_map(g, s),
    decreases s.len(),
{
    if s.len() > 0 {
        let t = s.skip(1);
        assert(replace_spec(f(s[0]) + flat_map(f, s.skip(1)), from, to) == g(s[0]) + replace_spec(
            flat_map(f, s.skip(1)),
            from,
            to,
        ));
        assert forall|i: int| 0 <= i < t.len() implies #[trigger] replace_spec(
            f(t[i]) + flat_map(f, t.skip(i + 1)),
            from,
            to,
        ) == g(t[i]) + replace_spec(flat_map(f, t.skip(i + 1)), from, to) by {
            let j = i + 1;
            assert(t[i] == s[j]);
            assert(t.skip(i + 1) =~= s.skip(j + 1));
            assert(replace_spec(f(s[j]) + flat_map(f, s.skip(j + 1)), from, to) == g(s[j])
                + replace_spec(flat_map(f, s.skip(j + 1)), from, to));
        }
        lemma_replace_flat_map_ctx(f, g, t, from, to);
    } else {
        assert(replace_spec(Seq::<char>::empty(), from, to) == Seq::<char>::empty());
    }
}

/// A `&` of the text, restored, stays where the text does not go on with
/// the rest of the pattern.
proof fn lemma_restored_amp(
    f: spec_fn(char) -> Seq<char>,
    s: Seq<char>,
    i: int,
    from: Seq<char>,
    to: Seq<char>,
)
    requires
        self_or_entity(f),
        0 <= i < s.len(),
        s[i] == '&',
        f('&') == seq!['&'],
        from.len() >= 2,
        from[0] == '&',
        forall|k: int| 1 <= k < from.len() ==> from[k] != '&',
        !starts_with(s.skip(i), from),
    ensures
        replace_spec(seq!['&'] + flat_map(f, s.skip(i + 1)), from, to) == seq!['&'] + replace_spec(
            flat_map(f, s.skip(i + 1)),
            from,
            to,
        ),
{
    let tail = s.skip(i + 1);
    let t = flat_map(f, tail);
    let x = seq!['&'] + t;
    assert(!starts_with(x, from)) by {
        if starts_with(x, from) {
            assert(t.take(from.len() - 1) =~= x.take(from.len() as int).skip(1));
            assert(starts_with(t, from.skip(1)));
            lemma_flat_map_starts(f, tail, from.skip(1));
            assert(s.skip(i).take(from.len() as int) =~= seq![s[i]] + tail.take(from.len() - 1));
            assert(from =~= seq![from[0]] + from.skip(1));
        }
    }
    lemma_replace_unmatched_head(x, from, to);
    assert(x.skip(1) =~= t);
}

proof fn lemma_entity_literals()
    ensures
        forall|k: int| 1 <= k < 5 ==> amp_entity()[k] != '&',
        forall|k: int| 1 <= k < 4 ==> lt_entity()[k] != '&',
        forall|k: int| 1 <= k < 4 ==> gt_entity()[k] != '&',
        forall|k: int| 1 <= k < 6 ==> quot_entity()[k] != '&',
{
}

proof fn lemma_fns_self_or_entity()
    ensures
        self_or_entity(escape_fn()),
        self_or_entity(amp_restored_fn()),
        self_or_entity(amp_lt_restored_fn()),
        self_or_entity(amp_lt_gt_restored_fn()),
{
}

proof fn lemma_pass_amp(s: Seq<char>)
    ensures
        replace_spec(flat_map(escape_fn(), s), amp_entity(), seq!['&']) == flat_map(amp_restored_fn(), s),
{
    let f = escape_fn();
    let g = amp_restored_fn();
    assert forall|i: int, rest: Seq<char>| 0 <= i < s.len() implies #[trigger] replace_spec(
        f(s[i]) + rest,
        amp_entity(),
        seq!['&'],
    ) == g(s[i]) + replace_spec(rest, amp_entity(), seq!['&']) by {
        let c = s[i];
        if c == '&' {
            lemma_replace_matched_head(amp_entity(), rest, seq!['&']);
        } else if c == '<' || c == '>' || c == '"' {
            lemma_replace_other_entity(f(c), rest, amp_entity(), seq!['&']);
        } else {
            lemma_replace_no_amp_prefix(f(c), rest, amp_entity(), seq!['&']);
        }
    }
    lemma_replace_flat_map(f, g, s, amp_entity(), seq!['&']);
}

proof fn lemma_pass_lt(s: Seq<char>)
    requires
        no_entity(s),
    ensures
        replace_spec(flat_map(amp_restored_fn(), s), lt_entity(), seq!['<']) == flat_map(
            amp_lt_restored_fn(),
            s,
        ),
{
    let f = amp_restored_fn();
    let g = amp_lt_restored_fn();
    lemma_entity_literals();
    lemma_fns_self_or_entity();
    assert forall|i: int| 0 <= i < s.len() implies #[trigger] replace_spec(
        f(s[i]) + flat_map(f, s.skip(i + 1)),
        lt_entity(),
        seq!['<'],
    ) == g(s[i]) + replace_spec(flat_map(f, s.skip(i + 1)), lt_entity(), seq!['<']) by {
        let c = s[i];
        let rest = flat_map(f, s.skip(i + 1));
        if c == '&' {
            assert(!starts_with(s.skip(i), lt_entity()));
            lemma_restored_amp(f, s, i, lt_entity(), seq!['<']);
        } else if c == '<' {
            lemma_replace_matched_head(lt_entity(), rest, seq!['<']);
        } else if c == '>' || c == '"' {
            lemma_replace_other_entity(f(c), rest, lt_entity(), seq!['<']);
        } else {
            lemma_replace_no_amp_prefix(f(c), rest, lt_entity(), seq!['<']);
        }
    }
    lemma_replace_flat_map_ctx(f, g, s, lt_entity(), seq!['<']);
}

proof fn lemma_pass_gt(s: Seq<char>)
    requires
        no_entity(s),
    ensures
        replace_spec(flat_map(amp_lt_restored_fn(), s), gt_entity(), seq!['>']) == flat_map(
            amp_lt_gt_restored_fn(),
            s,
        ),
{
    let f = amp_lt_restored_fn();
    let g = amp_lt_gt_restored_fn();
    lemma_entity_literals();
    lemma_fns_self_or_entity();
    assert forall|i: int| 0 <= i < s.len() implies #[trigger] replace_spec(
        f(s[i]) + flat_map(f, s.skip(i + 1)),
        gt_entity(),
        seq!['>'],
    ) == g(s[i]) + replace_spec(flat_map(f, s.skip(i + 1)), gt_entity(), seq!['>']) by {
        let c = s[i];
        let rest = flat_map(f, s.skip(i + 1));
        if c == '&' {
            assert(!starts_with(s.skip(i), gt_entity()));
            lemma_restored_amp(f, s, i, gt_entity(), seq!['>']);
        } else if c == '>' {
            lemma_replace_matched_head(gt_entity(), rest, seq!['>']);
        } else if c == '"' {
            lemma_replace_other_entity(f(c), rest, gt_entity(), seq!['>']);
        } else {
            lemma_replace_no_amp_prefix(f(c), rest, gt_entity(), seq!['>']);
        }
    }
    lemma_replace_flat_map_ctx(f, g, s, gt_entity(), seq!['>']);
}

proof fn lemma_pass_quot(s: Seq<char>)
    requires
        no_entity(s),
    ensures
        replace_spec(flat_map(amp_lt_gt_restored_fn(), s), quot_entity(), seq!['"']) == flat_map(
            identity_fn(),
            s,
        ),
{
    let f = amp_lt_gt_restored_fn();
    let g = identity_fn();
    lemma_entity_literals();
    lemma_fns_self_or_entity();
    assert forall|i: int| 0 <= i < s.len() implies #[trigger] replace_spec(
        f(s[i]) + flat_map(f, s.skip(i + 1)),
        quot_entity(),
        seq!['"'],
    ) == g(s[i]) + replace_spec(flat_map(f, s.skip(i + 1)), quot_entity(), seq!['"']) by {
        let c = s[i];
        let rest = flat_map(f, s.skip(i + 1));
        if c == '&' {
            assert(!starts_with(s.skip(i), quot_entity()));
            lemma_restored_amp(f, s, i, quot_entity(), seq!['"']);
        } else if c == '"' {
            lemma_replace_matched_head(quot_entity(), rest, seq!['"']);
        } else {
            lemma_replace_no_amp_prefix(f(c), rest, quot_entity(), seq!['"']);
        }
    }
    lemma_replace_flat_map_ctx(f, g, s, quot_entity(), seq!['"']);
}

/// Unescaping undoes escaping for every text that holds none of the
/// entities `&lt;`, `&gt;` and `&quot;` (unescaping reads those back as
/// characters once `&amp;` has become `&`).
pub proof fn lemma_unescape_escape(s: Seq<char>)
    requires
        no_entity(s),
    ensures
        unescape_html_spec(escape_html_spec(s)) == s,
{
    lemma_pass_amp(s);
    lemma_pass_lt(s);
    lemma_pass_gt(s);
    lemma_pass_quot(s);
    lemma_flat_map_identity(s);
}

// ---------------------------------------------------------------------------
// Executable functions
// ---------------------------------------------------------------------------

/// Appends one character to a string (`String::push`).
#[verifier::external_body]
pub(crate) fn push_char(s: &mut String, c: char)
    ensures
        final(s)@ == old(s)@.push(c),
{
    s.push(c);
}

/// The characters of `s`, in order.
pub fn chars_of(s: &str) -> (v: Vec<char>)
    ensures
        v@ == s@,
{
    let mut v: Vec<char> = Vec::new();
    for c in it: s.chars()
        invariant
            v@ == it.seq().take(it.index() as int),
    {
        v.push(c);
    }
    v
}

/// Whether `pat` occurs in `v` at position `i`.
pub(crate) fn matches_at(v: &Vec<char>, i: usize, pat: &Vec<char>) -> (b: bool)
    requires
        i <= v.len(),
    ensures
        b == starts_with(v@.skip(i as int), pat@),
{
    if pat.len() > v.len() - i {
        return false;
    }
    let mut j: usize = 0;
    while j < pat.len()
        invariant
            i + pat.len() <= v.len(),
            j <= pat.len(),
            forall|k: int| 0 <= k < j ==> v@[i + k] == pat@[k],
        decreases pat.len() - j,
    {
        if v[i + j] != pat[j] {
            assert(v@.skip(i as int).take(pat.len() as int)[j as int] != pat@[j as int]);
            return false;
        }
        j = j + 1;
    }
    assert(v@.skip(i as int).take(pat.len() as int) =~= pat@);
    true
}

/// Replaces every occurrence of the non-empty pattern `from` in `text` by
/// `to`, scanning left to right without overlaps.
/// `to` before every character of `s` and at its end, as replacing the
/// empty pattern does.
pub open spec fn insert_everywhere(s: Seq<char>, to: Seq<char>) -> Seq<char>
    decreases s.len(),
{
    if s.len() == 0 {
        to
    } else {
        to + seq![s[0]] + insert_everywhere(s.skip(1), to)
    }
}

/// Every occurrence of `from` in `s` replaced by `to`, left to right and
/// without overlaps; an empty `from` puts `to` before every character and
/// at the end.
pub open spec fn replace_text_spec(s: Seq<char>, from: Seq<char>, to: Seq<char>) -> Seq<char> {
    if from.len() == 0 {
        insert_everywhere(s, to)
    } else {
        replace_spec(s, from, to)
    }
}

/// Replaces every occurrence of `from` in `text` by `to`, as
/// `str::replace` does.
pub fn replace_all(text: &str, from: &str, to: &str) -> (res: String)
    ensures
        res@ == replace_text_spec(text@, from@, to@),
{
    let pat0 = chars_of(from);
    if pat0.len() == 0 {
        let v = chars_of(text);
        let mut out = String::new();
        out.append(to);
        let mut i: usize = 0;
        assert(v@.skip(0) =~= v@);
        while i < v.len()
            invariant
                v@ == text@,
                i <= v.len(),
                out@ + insert_everywhere(v@.skip(i as int), to@).skip(to@.len() as int)
                    == insert_everywhere(v@, to@),
                insert_everywhere(v@.skip(i as int), to@).len() >= to@.len(),
                insert_everywhere(v@.skip(i as int), to@).take(to@.len() as int) == to@,
            decreases v.len() - i,
        {
            let ghost rest = v@.skip(i as int);
            assert(rest[0] == v@[i as int]);
            assert(rest.skip(1) =~= v@.skip(i + 1));
            let ghost tail = insert_everywhere(v@.skip(i + 1), to@);
            assert(insert_everywhere(rest, to@) == to@ + seq![v@[i as int]] + tail);
            assert((to@ + seq![v@[i as int]] + tail).skip(to@.len() as int) =~= seq![v@[i as int]] + tail);
            push_char(&mut out, v[i]);
            out.append(to);
            proof {
                lemma_insert_everywhere_starts(v@.skip(i + 1), to@);
                assert(tail =~= to@ + tail.skip(to@.len() as int));
            }
            assert(out@ + tail.skip(to@.len() as int) =~= insert_everywhere(v@, to@));
            i = i + 1;
        }
        assert(v@.skip(i as int) =~= Seq::<char>::empty());
        assert(insert_everywhere(Seq::<char>::empty(), to@).skip(to@.len() as int) =~= Seq::<char>::empty());
        assert(out@ + Seq::<char>::empty() =~= out@);
        return out;
    }
    let v = chars_of(text);
    let pat = chars_of(from);
    let mut out = String::new();
    let mut i: usize = 0;
    assert(v@.skip(0) =~= v@);
    assert(out@ + replace_spec(v@.skip(0), pat@, to@) =~= replace_spec(v@, pat@, to@));
    while i < v.len()
        invariant
            v@ == text@,
            pat@ == from@,
            pat@.len() > 0,
            i <= v.len(),
            out@ + replace_spec(v@.skip(i as int), pat@, to@) == replace_spec(v@, pat@, to@),
        decreases v.len() - i,
    {
        let ghost rest = v@.skip(i as int);
        if matches_at(&v, i, &pat) {
            assert(rest.skip(pat@.len() as int) =~= v@.skip(i + pat@.len()));
            assert(replace_spec(rest, pat@, to@) == to@ + replace_spec(
                rest.skip(pat@.len() as int),
                pat@,
                to@,
            ));
            out.append(to);
            assert(out@ + replace_spec(v@.skip(i + pat@.len()), pat@, to@) =~= (out@.subrange(
                0,
                out@.len() - to@.len(),
            )) + (to@ + replace_spec(rest.skip(pat@.len() as int), pat@, to@)));
            i = i + pat.len();
        } else {
            assert(rest[0] == v@[i as int]);
            assert(rest.skip(1) =~= v@.skip(i + 1));
            push_char(&mut out, v[i]);
            i = i + 1;
        }
    }
    assert(v@.skip(i as int) =~= Seq::<char>::empty());
    out
}

proof fn lemma_insert_everywhere_starts(s: Seq<char>, to: Seq<char>)
    ensures
        insert_everywhere(s, to).len() >= to.len(),
        insert_everywhere(s, to).take(to.len() as int) == to,
{
    if s.len() == 0 {
        assert(to.take(to.len() as int) =~= to);
    } else {
        assert((to + seq![s[0]] + insert_everywhere(s.skip(1), to)).take(to.len() as int) =~= to);
    }
}

/// Escapes `&`, `<`, `>` and `"` as HTML entities.
pub fn escape_html(text: &str) -> (res: String)
    ensures
        res@ == escape_html_spec(text@),
{
    let v = chars_of(text);
    let mut out = String::new();
    let mut i: usize = 0;
    while i < v.len()
        invariant
            v@ == text@,
            i <= v.len(),
            out@ == escape_html_spec(v@.take(i as int)),
        decreases v.len() - i,
    {
        let c = v[i];
        proof {
            assert(v@.take(i + 1) =~= v@.take(i as int) + seq![c]);
            lemma_flat_map_append(escape_fn(), v@.take(i as int), seq![c]);
            assert(flat_map(escape_fn(), seq![c]) =~= escape_char(c)) by {
                assert(seq![c].skip(1) =~= Seq::<char>::empty());
                assert(flat_map(escape_fn(), seq![c].skip(1)) == Seq::<char>::empty());
                assert(seq![c][0] == c);
            }
        }
        if c == '&' {
            out.append("&amp;");
            proof { reveal_strlit("&amp;"); }
        } else if c == '<' {
            out.append("&lt;");
            proof { reveal_strlit("&lt;"); }
        } else if c == '>' {
            out.append("&gt;");
            proof { reveal_strlit("&gt;"); }
        } else if c == '"' {
            out.append("&quot;");
            proof { reveal_strlit("&quot;"); }
        } else {
            push_char(&mut out, c);
        }
        assert(out@ =~= escape_html_spec(v@.take(i + 1)));
        i = i + 1;
    }
    assert(v@.take(i as int) =~= v@);
    out
}

/// Replaces the entities `&amp;`, `&lt;`, `&gt;` and `&quot;` by the
/// characters they stand for, one full pass per entity in this order.
pub fn unescape_html(text: &str) -> (res: String)
    ensures
        res@ == unescape_html_spec(text@),
{
    proof {
        reveal_strlit("&amp;");
        reveal_strlit("&");
        reveal_strlit("&lt;");
        reveal_strlit("<");
        reveal_strlit("&gt;");
        reveal_strlit(">");
        reveal_strlit("&quot;");
        reveal_strlit("\"");
    }
    assert("&amp;"@ =~= amp_entity());
    assert("&lt;"@ =~= lt_entity());
    assert("&gt;"@ =~= gt_entity());
    assert("&quot;"@ =~= quot_entity());
    assert("&"@ =~= seq!['&']);
    assert("<"@ =~= seq!['<']);
    assert(">"@ =~= seq!['>']);
    assert("\""@ =~= seq!['"']);
    let a = replace_all(text, "&amp;", "&");
    let b = replace_all(a.as_str(), "&lt;", "<");
    let c = replace_all(b.as_str(), "&gt;", ">");
    replace_all(c.as_str(), "&quot;", "\"")
}


// ---------------------------------------------------------------------------
// Splitting on and joining with single spaces
// ---------------------------------------------------------------------------

/// The views of a sequence of strings.
pub open spec fn strings_view(v: Seq<String>) -> Seq<Seq<char>> {
    v.map_values(|s: String| s@)
}

/// No character of `s` is a space.
pub open spec fn has_no_space(s: Seq<char>) -> bool {
    forall|i: int| 0 <= i < s.len() ==> s[i] != ' '
}

/// The pieces between single spaces, empty pieces included
/// (the behaviour of `str::split(" ")`).
pub open spec fn split_spec(s: Seq<char>) -> Seq<Seq<char>>
    decreases s.len(),
{
    if s.len() == 0 {
        seq![Seq::<char>::empty()]
    } else {
        let r = split_spec(s.drop_last());
        if s.last() == ' ' {
            r.push(Seq::<char>::empty())
        } else {
            r.update(r.len() - 1, r.last().push(s.last()))
        }
    }
}

/// The pieces joined with single spaces (the behaviour of `join(" ")`).
pub open spec fn join_spec(p: Seq<Seq<char>>) -> Seq<char>
    decreases p.len(),
{
    if p.len() == 0 {
        Seq::<char>::empty()
    } else if p.len() == 1 {
        p[0]
    } else {
        join_spec(p.drop_last()) + seq![' '] + p.last()
    }
}

proof fn lemma_split_nonempty(s: Seq<char>)
    ensures
        split_spec(s).len() >= 1,
    decreases s.len(),
{
    if s.len() > 0 {
        lemma_split_nonempty(s.drop_last());
    }
}

proof fn lemma_split_no_space(b: Seq<char>)
    requires
        has_no_space(b),
    ensures
        split_spec(b) == seq![b],
    decreases b.len(),
{
    if b.len() > 0 {
        lemma_split_no_space(b.drop_last());
        assert(b.drop_last().push(b.last()) =~= b);
        assert(seq![b.drop_last()].update(0, b.drop_last().push(b.last())) =~= seq![b]);
    } else {
        assert(b =~= Seq::<char>::empty());
    }
}

proof fn lemma_split_after_space(x: Seq<char>, b: Seq<char>)
    requires
        has_no_space(b),
    ensures
        split_spec(x + seq![' '] + b) == split_spec(x).push(b),
    decreases b.len(),
{
    let s = x + seq![' '] + b;
    if b.len() == 0 {
        assert(s.drop_last() =~= x);
        assert(b =~= Seq::<char>::empty());
    } else {
        assert(s.drop_last() =~= x + seq![' '] + b.drop_last());
        lemma_split_after_space(x, b.drop_last());
        lemma_split_nonempty(x);
        assert(b.drop_last().push(b.last()) =~= b);
        assert(split_spec(x).push(b.drop_last()).update(
            split_spec(x).len() as int,
            b.drop_last().push(b.last()),
        ) =~= split_spec(x).push(b));
    }
}

/// Splitting a space-joined list gives the list back when no piece holds a
/// space.
pub proof fn lemma_split_join(p: Seq<Seq<char>>)
    requires
        p.len() > 0,
        forall|i: int| 0 <= i < p.len() ==> has_no_space(#[trigger] p[i]),
    ensures
        split_spec(join_spec(p)) == p,
    decreases p.len(),
{
    if p.len() == 1 {
        lemma_split_no_space(p[0]);
        assert(seq![p[0]] =~= p);
    } else {
        let q = p.drop_last();
        assert forall|i: int| 0 <= i < q.len() implies has_no_space(#[trigger] q[i]) by {
            assert(q[i] == p[i]);
        }
        lemma_split_join(q);
        lemma_split_after_space(join_spec(q), p.last());
        assert(q.push(p.last()) =~= p);
    }
}

/// Whether two texts are equal.
pub fn text_eq(a: &str, b: &str) -> (res: bool)
    ensures
        res == (a@ == b@),
{
    let x = chars_of(a);
    let y = chars_of(b);
    if x.len() != y.len() {
        return false;
    }
    let mut i: usize = 0;
    while i < x.len()
        invariant
            x@ == a@,
            y@ == b@,
            x.len() == y.len(),
            i <= x.len(),
            forall|k: int| 0 <= k < i ==> x@[k] == y@[k],
        decreases x.len() - i,
    {
        if x[i] != y[i] {
            return false;
        }
        i = i + 1;
    }
    assert(x@ =~= y@);
    true
}

/// Splits `s` at every single space, keeping empty pieces.
pub fn split_on_space(s: &str) -> (res: Vec<String>)
    ensures
        strings_view(res@) == split_spec(s@),
{
    let v = chars_of(s);
    let mut parts: Vec<String> = Vec::new();
    let mut cur = String::new();
    let mut i: usize = 0;
    assert(v@.take(0) =~= Seq::<char>::empty());
    assert(strings_view(parts@).push(cur@) =~= split_spec(v@.take(0)));
    while i < v.len()
        invariant
            v@ == s@,
            i <= v.len(),
            strings_view(parts@).push(cur@) == split_spec(v@.take(i as int)),
        decreases v.len() - i,
    {
        let c = v[i];
        assert(v@.take(i + 1).drop_last() =~= v@.take(i as int));
        assert(v@.take(i + 1).last() == c);
        if c == ' ' {
            let done = cur;
            parts.push(done);
            cur = String::new();
            assert(strings_view(parts@) =~= strings_view(parts@.drop_last()).push(done@));
        } else {
            push_char(&mut cur, c);
        }
        assert(strings_view(parts@).push(cur@) =~= split_spec(v@.take(i + 1)));
        i = i + 1;
    }
    assert(v@.take(i as int) =~= v@);
    parts.push(cur);
    assert(strings_view(parts@) =~= split_spec(s@));
    parts
}

/// Joins the pieces with single spaces.
pub fn join_with_space(parts: &Vec<String>) -> (res: String)
    ensures
        res@ == join_spec(strings_view(parts@)),
{
    let mut out = String::new();
    let mut i: usize = 0;
    while i < parts.len()
        invariant
            i <= parts.len(),
            out@ == join_spec(strings_view(parts@.take(i as int))),
        decreases parts.len() - i,
    {
        let ghost before = strings_view(parts@.take(i as int));
        assert(strings_view(parts@.take(i + 1)) =~= before.push(parts@[i as int]@));
        if i > 0 {
            out.append(" ");
            proof { reveal_strlit(" "); }
        } else {
            assert(before =~= Seq::<Seq<char>>::empty());
        }
        out.append(parts[i].as_str());
        assert(before.push(parts@[i as int]@).drop_last() =~= before);
        i = i + 1;
    }
    assert(parts@.take(i as int) =~= parts@);
    out
}

} // verus!

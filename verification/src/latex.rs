//! LaTeX imports: before conversion, citation commands are replaced by
//! numbered marks that survive the converter (and endnotes become
//! footnotes); after conversion, the marks become citation elements.
use vstd::prelude::*;
use crate::html::citation_tag;
use crate::storage::{all_digits, digit_value, digits_value, is_digit, parse_u64_spec};
use crate::text::{chars_of, push_char, replace_all, replace_spec};
use crate::wordpress::{decimal, decimal_text, digit_char};

verus! {

// ---------------------------------------------------------------------------
// Citation commands
// ---------------------------------------------------------------------------

/// The citation commands, in the order in which they are tried.
pub open spec fn cite_names() -> Seq<Seq<char>> {
    seq!["cite"@, "footcite"@, "footcitetext"@, "fullcite"@, "footfullcite"@]
}

/// `n` occurs in `s` at position `p`.
pub open spec fn name_at(s: Seq<char>, p: int, n: Seq<char>) -> bool {
    0 <= p && p + n.len() <= s.len() && s.subrange(p, p + n.len()) == n
}

/// The first position from `p` on that holds `]`.
pub open spec fn first_close_bracket(s: Seq<char>, p: int) -> Option<int>
    decreases s.len() - p,
{
    if p < 0 || p >= s.len() {
        None
    } else if s[p] == ']' {
        Some(p)
    } else {
        first_close_bracket(s, p + 1)
    }
}

/// The position after an optional option group `[…]` at `p`.
pub open spec fn option_group_end(s: Seq<char>, p: int) -> int {
    if 0 <= p < s.len() && s[p] == '[' {
        match first_close_bracket(s, p + 1) {
            Some(q) => q + 1,
            None => p,
        }
    } else {
        p
    }
}

/// The first `}` from `p` on, when no line break comes before it.
pub open spec fn key_end(s: Seq<char>, p: int) -> Option<int>
    decreases s.len() - p,
{
    if p < 0 || p >= s.len() {
        None
    } else if s[p] == '}' {
        Some(p)
    } else if s[p] == '\n' {
        None
    } else {
        key_end(s, p + 1)
    }
}

/// The key of a command whose name ends at `p`: after at most two option
/// groups, a key in braces; `(start, end)` of the key.
pub open spec fn command_key(s: Seq<char>, p: int) -> Option<(int, int)> {
    let q = option_group_end(s, option_group_end(s, p));
    if 0 <= q < s.len() && s[q] == '{' {
        match key_end(s, q + 1) {
            Some(e) => Some((q + 1, e)),
            None => None,
        }
    } else {
        None
    }
}

/// The key of the citation command at `i` (a backslash followed by a
/// command name), trying the names from number `k` on in order.
pub open spec fn command_from(s: Seq<char>, i: int, k: int) -> Option<(int, int)>
    decreases 5 - k,
{
    if k < 0 || k >= 5 {
        None
    } else {
        let n = cite_names()[k];
        if name_at(s, i + 1, n) && command_key(s, i + 1 + n.len()) is Some {
            command_key(s, i + 1 + n.len())
        } else {
            command_from(s, i, k + 1)
        }
    }
}

/// The key of a citation command at `i`.
pub open spec fn citation_at(s: Seq<char>, i: int) -> Option<(int, int)> {
    if 0 <= i < s.len() && s[i] == '\\' {
        command_from(s, i, 0)
    } else {
        None
    }
}

proof fn lemma_first_close_bracket(s: Seq<char>, p: int)
    ensures
        first_close_bracket(s, p) matches Some(q) ==> p <= q < s.len() && s[q] == ']',
    decreases s.len() - p,
{
    if 0 <= p < s.len() && s[p] != ']' {
        lemma_first_close_bracket(s, p + 1);
    }
}

proof fn lemma_key_end(s: Seq<char>, p: int)
    ensures
        key_end(s, p) matches Some(e) ==> p <= e < s.len() && s[e] == '}' && forall|k: int|
            p <= k < e ==> s[k] != '\n' && s[k] != '}',
    decreases s.len() - p,
{
    if 0 <= p < s.len() && s[p] != '}' && s[p] != '\n' {
        lemma_key_end(s, p + 1);
    }
}

proof fn lemma_command_key(s: Seq<char>, p: int)
    requires
        0 <= p,
    ensures
        command_key(s, p) matches Some((a, e)) ==> p < a <= e < s.len(),
{
    lemma_first_close_bracket(s, p + 1);
    let p1 = option_group_end(s, p);
    lemma_first_close_bracket(s, p1 + 1);
    let q = option_group_end(s, p1);
    lemma_key_end(s, q + 1);
}

proof fn lemma_command_from(s: Seq<char>, i: int, k: int)
    requires
        0 <= i,
    ensures
        command_from(s, i, k) matches Some((a, e)) ==> i < a <= e < s.len(),
    decreases 5 - k,
{
    if 0 <= k < 5 {
        let n = cite_names()[k];
        lemma_command_key(s, i + 1 + n.len());
        lemma_command_from(s, i, k + 1);
    }
}

/// A citation command ends after its key.
pub proof fn lemma_citation_bounds(s: Seq<char>, i: int)
    ensures
        citation_at(s, i) matches Some((a, e)) ==> i < a <= e < s.len(),
{
    if 0 <= i < s.len() && s[i] == '\\' {
        lemma_command_from(s, i, 0);
    }
}

/// The text from `i` on with each citation command replaced by the mark
/// `vb-cite-N` (N counting from `n`), and the keys of the commands in
/// order.
pub open spec fn marks_from(s: Seq<char>, i: int, n: nat) -> (Seq<char>, Seq<Seq<char>>)
    decreases s.len() - i,
{
    if i < 0 || i >= s.len() {
        (Seq::empty(), Seq::empty())
    } else {
        match citation_at(s, i) {
            Some((a, e)) => {
                proof {
                    lemma_citation_bounds(s, i);
                }
                let r = marks_from(s, e + 1, n + 1);
                ("vb-cite-"@ + decimal(n) + r.0, seq![s.subrange(a, e)] + r.1)
            },
            None => {
                let r = marks_from(s, i + 1, n);
                (seq![s[i]] + r.0, r.1)
            },
        }
    }
}

/// The converter input made from LaTeX: citation commands replaced by
/// marks, then every `\endnote` by `\footnote`; and the keys of the marks.
pub open spec fn preprocess_latex_spec(s: Seq<char>) -> (Seq<char>, Seq<Seq<char>>) {
    let r = marks_from(s, 0, 0);
    (replace_spec(r.0, "\\endnote"@, "\\footnote"@), r.1)
}

fn first_close_bracket_exec(v: &Vec<char>, p: usize) -> (r: Option<usize>)
    ensures
        match r {
            Some(q) => first_close_bracket(v@, p as int) == Some(q as int),
            None => first_close_bracket(v@, p as int) is None,
        },
{
    let mut q = p;
    while q < v.len()
        invariant
            p <= q,
            first_close_bracket(v@, q as int) == first_close_bracket(v@, p as int),
        decreases v.len() - q,
    {
        if v[q] == ']' {
            return Some(q);
        }
        q = q + 1;
    }
    None
}

fn option_group_end_exec(v: &Vec<char>, p: usize) -> (r: usize)
    requires
        p <= v.len(),
    ensures
        r as int == option_group_end(v@, p as int),
        p <= r <= v.len(),
{
    if p < v.len() && v[p] == '[' {
        proof {
            lemma_first_close_bracket(v@, p + 1);
        }
        match first_close_bracket_exec(v, p + 1) {
            Some(q) => q + 1,
            None => p,
        }
    } else {
        p
    }
}

fn key_end_exec(v: &Vec<char>, p: usize) -> (r: Option<usize>)
    ensures
        match r {
            Some(e) => key_end(v@, p as int) == Some(e as int),
            None => key_end(v@, p as int) is None,
        },
{
    let mut q = p;
    while q < v.len()
        invariant
            p <= q,
            key_end(v@, q as int) == key_end(v@, p as int),
        decreases v.len() - q,
    {
        if v[q] == '}' {
            return Some(q);
        }
        if v[q] == '\n' {
            return None;
        }
        q = q + 1;
    }
    None
}

fn command_key_exec(v: &Vec<char>, p: usize) -> (r: Option<(usize, usize)>)
    requires
        p <= v.len(),
    ensures
        match r {
            Some((a, e)) => command_key(v@, p as int) == Some((a as int, e as int)),
            None => command_key(v@, p as int) is None,
        },
{
    let p1 = option_group_end_exec(v, p);
    let q = option_group_end_exec(v, p1);
    if q < v.len() && v[q] == '{' {
        match key_end_exec(v, q + 1) {
            Some(e) => Some((q + 1, e)),
            None => None,
        }
    } else {
        None
    }
}

fn name_at_exec(v: &Vec<char>, p: usize, n: &Vec<char>) -> (b: bool)
    ensures
        b == name_at(v@, p as int, n@),
{
    if p > v.len() || n.len() > v.len() - p {
        return false;
    }
    let mut j: usize = 0;
    while j < n.len()
        invariant
            p + n.len() <= v.len(),
            j <= n.len(),
            forall|k: int| 0 <= k < j ==> v@[p + k] == n@[k],
        decreases n.len() - j,
    {
        if v[p + j] != n[j] {
            assert(v@.subrange(p as int, p + n.len())[j as int] != n@[j as int]);
            return false;
        }
        j = j + 1;
    }
    assert(v@.subrange(p as int, p + n.len()) =~= n@);
    true
}

fn cite_names_exec() -> (r: Vec<Vec<char>>)
    ensures
        r@.len() == 5,
        forall|k: int| 0 <= k < 5 ==> (#[trigger] r@[k])@ == cite_names()[k],
{
    let mut r: Vec<Vec<char>> = Vec::new();
    r.push(chars_of("cite"));
    r.push(chars_of("footcite"));
    r.push(chars_of("footcitetext"));
    r.push(chars_of("fullcite"));
    r.push(chars_of("footfullcite"));
    r
}

fn citation_at_exec(v: &Vec<char>, i: usize, names: &Vec<Vec<char>>) -> (r: Option<(usize, usize)>)
    requires
        names@.len() == 5,
        forall|k: int| 0 <= k < 5 ==> (#[trigger] names@[k])@ == cite_names()[k],
    ensures
        match r {
            Some((a, e)) => citation_at(v@, i as int) == Some((a as int, e as int)),
            None => citation_at(v@, i as int) is None,
        },
{
    if i >= v.len() || v[i] != '\\' {
        return None;
    }
    let mut k: usize = 0;
    while k < 5
        invariant
            i < v.len(),
            v@[i as int] == '\\',
            k <= 5,
            names@.len() == 5,
            forall|j: int| 0 <= j < 5 ==> (#[trigger] names@[j])@ == cite_names()[j],
            command_from(v@, i as int, k as int) == command_from(v@, i as int, 0),
        decreases 5 - k,
    {
        let n = &names[k];
        assert(n@ == cite_names()[k as int]);
        if name_at_exec(v, i + 1, n) {
            let p = i + 1 + n.len();
            let c = command_key_exec(v, p);
            if c.is_some() {
                return c;
            }
        }
        k = k + 1;
    }
    None
}

/// Replaces the citation commands of a LaTeX text by numbered marks and
/// `\endnote` by `\footnote`, and lists the keys of the marks.
pub fn preprocess_latex(input: String) -> (r: (String, Vec<String>))
    ensures
        r.0@ == preprocess_latex_spec(input@).0,
        crate::text::strings_view(r.1@) == preprocess_latex_spec(input@).1,
{
    let v = chars_of(input.as_str());
    let names = cite_names_exec();
    let mut out = String::new();
    let mut marks: Vec<String> = Vec::new();
    let mut i: usize = 0;
    while i < v.len()
        invariant
            v@ == input@,
            names@.len() == 5,
            forall|j: int| 0 <= j < 5 ==> (#[trigger] names@[j])@ == cite_names()[j],
            i <= v.len(),
            out@ + marks_from(v@, i as int, marks@.len() as nat).0 == marks_from(v@, 0, 0).0,
            crate::text::strings_view(marks@) + marks_from(v@, i as int, marks@.len() as nat).1
                == marks_from(v@, 0, 0).1,
        decreases v.len() - i,
    {
        let ghost n = marks@.len() as nat;
        match citation_at_exec(&v, i, &names) {
            Some((a, e)) => {
                proof {
                    lemma_citation_bounds(v@, i as int);
                }
                let ghost rest = marks_from(v@, e + 1, n + 1);
                let ghost before_out = out@;
                let ghost before_marks = crate::text::strings_view(marks@);
                out.append("vb-cite-");
                let num = decimal_text(marks.len());
                out.append(num.as_str());
                let mut key = String::new();
                let mut k = a;
                while k < e
                    invariant
                        a <= k <= e,
                        e < v.len(),
                        key@ == v@.subrange(a as int, k as int),
                    decreases e - k,
                {
                    push_char(&mut key, v[k]);
                    assert(v@.subrange(a as int, k + 1) =~= v@.subrange(a as int, k as int).push(
                        v@[k as int],
                    ));
                    k = k + 1;
                }
                marks.push(key);
                proof {
                    assert(crate::text::strings_view(marks@) =~= before_marks.push(
                        v@.subrange(a as int, e as int),
                    ));
                    assert(before_marks + (seq![v@.subrange(a as int, e as int)] + rest.1)
                        =~= before_marks.push(v@.subrange(a as int, e as int)) + rest.1);
                }
                i = e + 1;
            },
            None => {
                push_char(&mut out, v[i]);
                i = i + 1;
            },
        }
    }
    proof {
        assert(marks_from(v@, i as int, marks@.len() as nat).0 == Seq::<char>::empty());
        assert(out@ + Seq::<char>::empty() =~= out@);
        assert(crate::text::strings_view(marks@) + Seq::<Seq<char>>::empty() =~= crate::text::strings_view(marks@));
        reveal_strlit("\\endnote");
        assert("\\endnote"@.len() > 0);
    }
    let replaced = replace_all(out.as_str(), "\\endnote", "\\footnote");
    (replaced, marks)
}

// ---------------------------------------------------------------------------
// Marks back to citations
// ---------------------------------------------------------------------------

/// Whether a character is a decimal digit in Unicode's sense (general
/// category Nd), as `\d` of the `regex` crate matches it.
pub uninterp spec fn is_nd_digit(c: char) -> bool;

/// `regex::Regex::is_match` of the pattern `^\d$` on the character: whether
/// it is a Unicode decimal digit; the name is `is_nd_digit`. The ASCII
/// digits are such digits, as the crate documents.
#[verifier::external_body]
fn nd_digit(c: char) -> (b: bool)
    ensures
        b == is_nd_digit(c),
        48 <= (c as u32) <= 57 ==> b,
{
    let mut buf = [0u8; 4];
    regex::Regex::new(r"^\d$").unwrap().is_match(c.encode_utf8(&mut buf))
}

/// The end of the run of digits starting at `p`.
pub open spec fn digits_end(s: Seq<char>, p: int) -> int
    decreases s.len() - p,
{
    if 0 <= p < s.len() && is_nd_digit(s[p]) {
        digits_end(s, p + 1)
    } else {
        p
    }
}

proof fn lemma_digits_end(s: Seq<char>, p: int)
    requires
        0 <= p <= s.len(),
    ensures
        p <= digits_end(s, p) <= s.len(),
    decreases s.len() - p,
{
    if p < s.len() && is_nd_digit(s[p]) {
        lemma_digits_end(s, p + 1);
    }
}

/// A mark ends after its digits, within the text.
pub proof fn lemma_mark_bounds(s: Seq<char>, i: int)
    ensures
        mark_at(s, i) matches Some(e) ==> i + 8 < e <= s.len(),
{
    if name_at(s, i, "vb-cite-"@) {
        reveal_strlit("vb-cite-");
        lemma_digits_end(s, i + 8);
    }
}

/// The end of the number of a mark `vb-cite-` followed by digits at `i`.
pub open spec fn mark_at(s: Seq<char>, i: int) -> Option<int> {
    if name_at(s, i, "vb-cite-"@) && digits_end(s, i + 8) > i + 8 {
        Some(digits_end(s, i + 8))
    } else {
        None
    }
}

/// What a mark with these digits becomes: the citation of its key (an
/// empty key when there is no such mark), or `invalid-citation!` when the
/// digits are no number.
pub open spec fn mark_replacement(digits: Seq<char>, marks: Seq<Seq<char>>) -> Seq<char> {
    match parse_u64_spec(digits) {
        Some(n) => if n <= usize::MAX {
            citation_tag(
                if n < marks.len() {
                    marks[n as int]
                } else {
                    Seq::empty()
                },
            )
        } else {
            "invalid-citation!"@
        },
        None => "invalid-citation!"@,
    }
}

/// The text from `i` on with each mark replaced.
pub open spec fn restore_from(s: Seq<char>, i: int, marks: Seq<Seq<char>>) -> Seq<char>
    decreases s.len() - i,
{
    if i < 0 || i >= s.len() {
        Seq::empty()
    } else {
        match mark_at(s, i) {
            Some(e) => {
                proof {
                    lemma_mark_bounds(s, i);
                }
                mark_replacement(s.subrange(i + 8, e), marks) + restore_from(s, e, marks)
            },
            None => seq![s[i]] + restore_from(s, i + 1, marks),
        }
    }
}

fn digits_end_exec(v: &Vec<char>, p: usize) -> (r: usize)
    requires
        p <= v.len(),
    ensures
        r as int == digits_end(v@, p as int),
        p <= r <= v.len(),
{
    let mut q = p;
    while q < v.len() && nd_digit(v[q])
        invariant
            p <= q <= v.len(),
            digits_end(v@, q as int) == digits_end(v@, p as int),
        decreases v.len() - q,
    {
        q = q + 1;
    }
    q
}

/// Replaces the citation marks in converted HTML by citation elements for
/// the keys they stand for.
pub fn postprocess_latex(input: String, marks: &Vec<String>) -> (r: String)
    ensures
        r@ == restore_from(input@, 0, crate::text::strings_view(marks@)),
{
    let ghost mv = crate::text::strings_view(marks@);
    let v = chars_of(input.as_str());
    let prefix = chars_of("vb-cite-");
    proof {
        reveal_strlit("vb-cite-");
    }
    let mut out = String::new();
    let mut i: usize = 0;
    while i < v.len()
        invariant
            v@ == input@,
            prefix@ == "vb-cite-"@,
            mv == crate::text::strings_view(marks@),
            i <= v.len(),
            out@ + restore_from(v@, i as int, mv) == restore_from(v@, 0, mv),
        decreases v.len() - i,
    {
        proof {
            reveal_strlit("vb-cite-");
            lemma_mark_bounds(v@, i as int);
        }
        let mut e: usize = i;
        let found = if name_at_exec(&v, i, &prefix) {
            e = digits_end_exec(&v, i + 8);
            e > i + 8
        } else {
            false
        };
        if found {
            let mut digits = String::new();
            let mut k = i + 8;
            while k < e
                invariant
                    i + 8 <= k <= e,
                    e <= v.len(),
                    digits@ == v@.subrange(i + 8, k as int),
                decreases e - k,
            {
                push_char(&mut digits, v[k]);
                assert(v@.subrange(i + 8, k + 1) =~= v@.subrange(i + 8, k as int).push(
                    v@[k as int],
                ));
                k = k + 1;
            }
            let ghost rep = mark_replacement(v@.subrange(i + 8, e as int), mv);
            match crate::storage::parse_version(digits.as_str()) {
                Some(n) => {
                    if n <= usize::MAX as u64 {
                        let idx = n as usize;
                        out.append("<citation data-key=\"");
                        if idx < marks.len() {
                            out.append(marks[idx].as_str());
                        }
                        out.append("\">C</citation>");
                    } else {
                        out.append("invalid-citation!");
                    }
                },
                None => {
                    out.append("invalid-citation!");
                },
            }
            i = e;
        } else {
            push_char(&mut out, v[i]);
            i = i + 1;
        }
    }
    proof {
        assert(out@ + Seq::<char>::empty() =~= out@);
    }
    out
}


// ---------------------------------------------------------------------------
// Marks and their restoration
// ---------------------------------------------------------------------------

/// The text from `i` on with each citation command replaced by the citation
/// element of its key.
pub open spec fn cited_from(s: Seq<char>, i: int) -> Seq<char>
    decreases s.len() - i,
{
    if i < 0 || i >= s.len() {
        Seq::empty()
    } else {
        match citation_at(s, i) {
            Some((a, e)) => {
                proof {
                    lemma_citation_bounds(s, i);
                }
                citation_tag(s.subrange(a, e)) + cited_from(s, e + 1)
            },
            None => seq![s[i]] + cited_from(s, i + 1),
        }
    }
}

/// Among the ASCII characters, the Unicode decimal digits are `0` to `9`
/// (what `\d` of the `regex` crate matches there).
pub open spec fn ascii_digits_only() -> bool {
    forall|c: char| #![trigger is_nd_digit(c)] (c as u32) < 128 ==> (is_nd_digit(c) <==> 48 <= (c as u32) <= 57)
}

/// The text holds no `vb-cite-` and no citation command in it is directly
/// followed by a decimal digit.
pub open spec fn marks_unambiguous(s: Seq<char>) -> bool {
    &&& forall|j: int| !#[trigger] name_at(s, j, "vb-cite-"@)
    &&& forall|j: int|
        #![trigger citation_at(s, j)]
        citation_at(s, j) matches Some((a, e)) ==> (e + 1 < s.len() ==> !is_nd_digit(s[e + 1]))
}

proof fn lemma_digit_char(d: nat)
    requires
        d < 10,
    ensures
        is_digit(digit_char(d)),
        digit_value(digit_char(d)) == d,
{
}

proof fn lemma_decimal(n: nat)
    ensures
        decimal(n).len() > 0,
        all_digits(decimal(n)),
        digits_value(decimal(n)) == n,
    decreases n,
{
    let d = decimal(n);
    if n < 10 {
        lemma_digit_char(n);
        assert(d.drop_last() =~= Seq::<char>::empty());
        assert(digits_value(d) == digits_value(d.drop_last()) * 10 + digit_value(d.last()));
    } else {
        lemma_decimal(n / 10);
        lemma_digit_char(n % 10);
        assert(d.drop_last() =~= decimal(n / 10));
        assert(d.last() == digit_char(n % 10));
        assert(digits_value(d) == digits_value(d.drop_last()) * 10 + digit_value(d.last()));
        let q = n / 10;
        assert(q * 10 + n % 10 == n) by (nonlinear_arith)
            requires
                q == n / 10,
        ;
        assert forall|k: int| 0 <= k < d.len() implies is_digit(#[trigger] d[k]) by {
            if k < d.len() - 1 {
                assert(d[k] == decimal(n / 10)[k]);
            }
        }
    }
}

proof fn lemma_parse_decimal(n: nat)
    requires
        n <= u64::MAX,
    ensures
        parse_u64_spec(decimal(n)) == Some(n as u64),
{
    lemma_decimal(n);
    let d = decimal(n);
    assert(is_digit(d[0]));
}

proof fn lemma_digits_run(x: Seq<char>, p: int, q: int)
    requires
        0 <= p <= q <= x.len(),
        forall|k: int| p <= k < q ==> is_nd_digit(#[trigger] x[k]),
        q == x.len() || !is_nd_digit(x[q]),
    ensures
        digits_end(x, p) == q,
    decreases q - p,
{
    if p < q {
        lemma_digits_run(x, p + 1, q);
    }
}

proof fn lemma_digits_end_skip(x: Seq<char>, k: int, q: int)
    requires
        0 <= k <= q,
        k <= x.len(),
    ensures
        digits_end(x, q) == digits_end(x.skip(k), q - k) + k,
    decreases x.len() - q,
{
    if q < x.len() {
        assert(x.skip(k)[q - k] == x[q]);
        if is_nd_digit(x[q]) {
            lemma_digits_end_skip(x, k, q + 1);
        }
    }
}

proof fn lemma_restore_skip(x: Seq<char>, k: int, j: int, m: Seq<Seq<char>>)
    requires
        0 <= k <= j,
        k <= x.len(),
    ensures
        restore_from(x, j, m) == restore_from(x.skip(k), j - k, m),
    decreases x.len() - j,
{
    let y = x.skip(k);
    if j < x.len() {
        reveal_strlit("vb-cite-");
        assert("vb-cite-"@.len() == 8);
        lemma_digits_end_skip(x, k, j + 8);
        if j + 8 <= x.len() {
            assert(y.subrange(j - k, j - k + 8) =~= x.subrange(j, j + 8));
        }
        assert(name_at(x, j, "vb-cite-"@) == name_at(y, j - k, "vb-cite-"@));
        lemma_mark_bounds(x, j);
        lemma_mark_bounds(y, j - k);
        assert(y[j - k] == x[j]);
        match mark_at(x, j) {
            Some(e) => {
                assert(mark_at(y, j - k) == Some(e - k));
                assert(y.subrange(j - k + 8, e - k) =~= x.subrange(j + 8, e));
                lemma_restore_skip(x, k, e, m);
            },
            None => {
                assert(mark_at(y, j - k) is None);
                lemma_restore_skip(x, k, j + 1, m);
            },
        }
    }
}

proof fn lemma_marks_first(s: Seq<char>, j: int, n: nat)
    requires
        0 <= j < s.len(),
    ensures
        marks_from(s, j, n).0.len() > 0,
        citation_at(s, j) is Some ==> marks_from(s, j, n).0[0] == 'v',
        citation_at(s, j) is None ==> marks_from(s, j, n).0[0] == s[j],
{
    reveal_strlit("vb-cite-");
}

proof fn lemma_marks_copy(s: Seq<char>, j: int, n: nat, pat: Seq<char>)
    requires
        0 <= j <= s.len(),
        forall|k: int| 0 <= k < pat.len() ==> pat[k] != 'v',
        marks_from(s, j, n).0.len() >= pat.len(),
        marks_from(s, j, n).0.take(pat.len() as int) == pat,
    ensures
        j + pat.len() <= s.len(),
        s.subrange(j, j + pat.len()) == pat,
    decreases pat.len(),
{
    let t = marks_from(s, j, n).0;
    if pat.len() == 0 {
        assert(s.subrange(j, j) =~= pat);
    } else {
        assert(t.take(pat.len() as int)[0] == t[0]);
        if j == s.len() {
            assert(t.len() == 0);
        }
        lemma_marks_first(s, j, n);
        let r = marks_from(s, j + 1, n);
        assert(t == seq![s[j]] + r.0);
        assert(r.0.take(pat.len() - 1) =~= pat.drop_first()) by {
            assert forall|k: int| 0 <= k < pat.len() - 1 implies r.0[k] == pat.drop_first()[k] by {
                assert(t[k + 1] == r.0[k]);
                assert(t.take(pat.len() as int)[k + 1] == pat[k + 1]);
            }
        }
        lemma_marks_copy(s, j + 1, n, pat.drop_first());
        assert(s.subrange(j, j + pat.len()) =~= seq![s[j]] + s.subrange(j + 1, j + pat.len()));
        assert(pat =~= seq![pat[0]] + pat.drop_first());
    }
}

proof fn lemma_marks_keys_len(s: Seq<char>, i: int, n: nat)
    ensures
        marks_from(s, i, n).1.len() <= if i < s.len() {
            s.len() - i
        } else {
            0
        },
    decreases s.len() - i,
{
    if 0 <= i < s.len() {
        lemma_citation_bounds(s, i);
        match citation_at(s, i) {
            Some((a, e)) => lemma_marks_keys_len(s, e + 1, n + 1),
            None => lemma_marks_keys_len(s, i + 1, n),
        }
    }
}

proof fn lemma_restore_marks(s: Seq<char>, i: int, n: nat, m: Seq<Seq<char>>)
    requires
        ascii_digits_only(),
        marks_unambiguous(s),
        0 <= i,
        n + marks_from(s, i, n).1.len() <= m.len(),
        m.len() <= usize::MAX,
        forall|k: int|
            0 <= k < marks_from(s, i, n).1.len() ==> m[n + k] == #[trigger] marks_from(s, i, n).1[k],
    ensures
        restore_from(marks_from(s, i, n).0, 0, m) == cited_from(s, i),
    decreases s.len() - i,
{
    let t = marks_from(s, i, n).0;
    if i >= s.len() {
        assert(t.len() == 0);
    } else {
        reveal_strlit("vb-cite-");
        lemma_citation_bounds(s, i);
        match citation_at(s, i) {
            Some((a, e)) => {
                let r = marks_from(s, e + 1, n + 1);
                let dn = decimal(n);
                lemma_decimal(n);
                let d = dn.len() as int;
                assert(t == "vb-cite-"@ + dn + r.0);
                assert(t.subrange(0, 8) =~= "vb-cite-"@);
                assert forall|k: int| 8 <= k < 8 + d implies is_nd_digit(#[trigger] t[k]) by {
                    assert(t[k] == dn[k - 8]);
                    assert(is_digit(dn[k - 8]));
                    assert((dn[k - 8] as u32) < 128);
                }
                if 8 + d < t.len() {
                    assert(t[8 + d] == r.0[0]);
                    lemma_marks_first(s, e + 1, n + 1);
                    if citation_at(s, e + 1) is None {
                        assert(citation_at(s, i) matches Some((a, e)));
                    } else {
                        assert(('v' as u32) < 128);
                    }
                }
                lemma_digits_run(t, 8, 8 + d);
                assert(mark_at(t, 0) == Some(8 + d));
                assert(t.subrange(8, 8 + d) =~= dn);
                assert(marks_from(s, i, n).1 == seq![s.subrange(a, e)] + r.1);
                assert(m[n as int] == marks_from(s, i, n).1[0]);
                lemma_parse_decimal(n);
                assert(mark_replacement(dn, m) == citation_tag(s.subrange(a, e)));
                lemma_restore_skip(t, 8 + d, 8 + d, m);
                assert(t.skip(8 + d) =~= r.0);
                assert forall|k: int| 0 <= k < r.1.len() implies m[(n + 1) + k] == #[trigger] r.1[k] by {
                    assert(marks_from(s, i, n).1[k + 1] == r.1[k]);
                }
                lemma_restore_marks(s, e + 1, n + 1, m);
            },
            None => {
                let r = marks_from(s, i + 1, n);
                assert(t == seq![s[i]] + r.0);
                if name_at(t, 0, "vb-cite-"@) {
                    assert(t.subrange(0, 8)[0] == t[0]);
                    assert(t[0] == 'v');
                    reveal_strlit("b-cite-");
                    let pat = "b-cite-"@;
                    assert(pat =~= "vb-cite-"@.drop_first());
                    assert(r.0.take(7) =~= pat) by {
                        assert forall|k: int| 0 <= k < 7 implies r.0[k] == pat[k] by {
                            assert(t[k + 1] == r.0[k]);
                            assert(t.subrange(0, 8)[k + 1] == "vb-cite-"@[k + 1]);
                        }
                    }
                    lemma_marks_copy(s, i + 1, n, pat);
                    assert(s[i] == t[0]);
                    assert forall|k: int| 0 <= k < 8 implies s.subrange(i, i + 8)[k] == "vb-cite-"@[k] by {
                        if k > 0 {
                            assert(s.subrange(i + 1, i + 8)[k - 1] == pat[k - 1]);
                        }
                    }
                    assert(s.subrange(i, i + 8) =~= "vb-cite-"@);
                    assert(name_at(s, i, "vb-cite-"@));
                }
                assert(mark_at(t, 0) is None);
                lemma_restore_skip(t, 1, 1, m);
                assert(t.skip(1) =~= r.0);
                lemma_restore_marks(s, i + 1, n, m);
            },
        }
    }
}

/// Marking the citations of a LaTeX text and restoring the marks gives the
/// text with each citation command replaced by the citation element of its
/// key, where the text holds no `vb-cite-`, no citation command in it is
/// directly followed by a decimal digit, and, among ASCII characters, only
/// `0` to `9` are decimal digits.
pub proof fn lemma_citations_restored(s: Seq<char>)
    requires
        ascii_digits_only(),
        marks_unambiguous(s),
        s.len() <= usize::MAX,
    ensures
        restore_from(marks_from(s, 0, 0).0, 0, marks_from(s, 0, 0).1) == cited_from(s, 0),
{
    lemma_marks_keys_len(s, 0, 0);
    lemma_restore_marks(s, 0, 0, marks_from(s, 0, 0).1);
}

} // verus!

//! Soft hyphenation of text for export: the text split into runs of white
//! space and runs of other characters; each word that is no piece of markup
//! broken into the segments a hyphenation dictionary finds, joined with
//! soft hyphens; white space kept as it is.
use vstd::prelude::*;
use crate::html::{is_space, is_white_space};
use crate::languages::{hyphenation_segments, HyphenationDictionary};
use crate::text::{chars_of, push_char, starts_with, strings_view};

verus! {

/// The soft hyphen, U+00AD.
pub open spec fn soft_hyphen() -> char {
    '\u{ad}'
}

// ---------------------------------------------------------------------------
// Runs
// ---------------------------------------------------------------------------

/// The maximal runs of white space and of other characters, in order.
pub open spec fn runs_spec(s: Seq<char>) -> Seq<Seq<char>>
    decreases s.len(),
{
    if s.len() == 0 {
        Seq::empty()
    } else {
        let r = runs_spec(s.drop_last());
        if s.len() > 1 && is_white_space(s[s.len() - 2]) == is_white_space(s.last()) {
            r.update(r.len() - 1, r.last().push(s.last()))
        } else {
            r.push(seq![s.last()])
        }
    }
}

/// A run of characters other than white space.
pub open spec fn is_word(run: Seq<char>) -> bool {
    run.len() > 0 && !is_white_space(run[0])
}

proof fn lemma_runs(s: Seq<char>)
    ensures
        s.len() > 0 ==> runs_spec(s).len() > 0,
        concat(runs_spec(s)) == s,
        forall|i: int| 0 <= i < runs_spec(s).len() ==> #[trigger] runs_spec(s)[i].len() > 0,
    decreases s.len(),
{
    if s.len() > 0 {
        let p = s.drop_last();
        let r = runs_spec(p);
        lemma_runs(p);
        if s.len() > 1 && is_white_space(s[s.len() - 2]) == is_white_space(s.last()) {
            let u = r.update(r.len() - 1, r.last().push(s.last()));
            assert(u.drop_last() =~= r.drop_last());
            assert(concat(r) == concat(r.drop_last()) + r.last());
            assert(concat(u) == concat(u.drop_last()) + u.last());
            assert(s =~= p.push(s.last()));
            assert(concat(u) =~= concat(r) + seq![s.last()]);
        } else {
            let u = r.push(seq![s.last()]);
            assert(u.drop_last() =~= r);
            assert(concat(u) == concat(r) + seq![s.last()]);
            assert(s =~= p + seq![s.last()]);
        }
    }
}

/// Splits a text into its runs of white space and of other characters.
pub fn runs_of(text: &str) -> (r: Vec<String>)
    ensures
        strings_view(r@) == runs_spec(text@),
{
    let v = chars_of(text);
    let mut runs: Vec<String> = Vec::new();
    let mut cur = String::new();
    let mut cur_ws = false;
    let mut i: usize = 0;
    while i < v.len()
        invariant
            v@ == text@,
            i <= v.len(),
            i == 0 ==> cur@.len() == 0 && runs@.len() == 0,
            i > 0 ==> cur@.len() > 0 && strings_view(runs@).push(cur@) == runs_spec(v@.take(i as int))
                && cur_ws == is_white_space(v@[i - 1]),
        decreases v.len() - i,
    {
        let c = v[i];
        let ws = is_space(c);
        assert(v@.take(i + 1).drop_last() =~= v@.take(i as int));
        assert(v@.take(i + 1).last() == c);
        if i > 0 {
            assert(v@.take(i + 1)[i - 1] == v@[i - 1]);
        }
        if i > 0 && ws == cur_ws {
            let ghost had = cur@;
            push_char(&mut cur, c);
            proof {
                let w = runs_spec(v@.take(i as int));
                assert(strings_view(runs@).push(cur@) =~= w.update(w.len() - 1, w.last().push(c)));
                assert(runs_spec(v@.take(i + 1)) == w.update(w.len() - 1, w.last().push(c)));
            }
        } else {
            if i > 0 {
                let done = cur;
                let ghost before = strings_view(runs@);
                runs.push(done);
                assert(strings_view(runs@) =~= before.push(done@));
            } else {
                assert(v@.take(0) =~= Seq::<char>::empty());
                assert(strings_view(runs@) =~= Seq::<Seq<char>>::empty());
            }
            cur = String::new();
            push_char(&mut cur, c);
            assert(cur@ =~= seq![c]);
            assert(runs_spec(v@.take(i + 1)) == runs_spec(v@.take(i as int)).push(seq![c]));
            cur_ws = ws;
        }
        i = i + 1;
    }
    assert(v@.take(i as int) =~= v@);
    if i > 0 {
        let ghost before = strings_view(runs@);
        runs.push(cur);
        assert(strings_view(runs@) =~= before.push(cur@));
    } else {
        assert(strings_view(runs@) =~= Seq::<Seq<char>>::empty());
    }
    runs
}

// ---------------------------------------------------------------------------
// Hyphenation of words
// ---------------------------------------------------------------------------

/// A word that is left whole: a piece of a class attribute, or a word with
/// `<`, `>`, `=` or `&` in it.
pub open spec fn is_markup(w: Seq<char>) -> bool {
    starts_with(w, "class=\""@) || w.contains('<') || w.contains('>') || w.contains('=')
        || w.contains('&')
}

/// The segments joined with soft hyphens.
pub open spec fn join_soft(segs: Seq<Seq<char>>) -> Seq<char>
    decreases segs.len(),
{
    if segs.len() == 0 {
        Seq::empty()
    } else if segs.len() == 1 {
        segs[0]
    } else {
        join_soft(segs.drop_last()) + seq![soft_hyphen()] + segs.last()
    }
}

/// The segments concatenated.
pub open spec fn concat(segs: Seq<Seq<char>>) -> Seq<char>
    decreases segs.len(),
{
    if segs.len() == 0 {
        Seq::empty()
    } else {
        concat(segs.drop_last()) + segs.last()
    }
}

/// The output for one run: a word that is no markup as its segments joined
/// with soft hyphens; white space and markup as they are.
pub open spec fn piece(run: Seq<char>, segs: Seq<Seq<char>>) -> Seq<char> {
    if is_word(run) && !is_markup(run) {
        join_soft(segs)
    } else {
        run
    }
}

/// The output for the first `n` runs.
pub open spec fn hyphenated_upto(runs: Seq<Seq<char>>, segs: Seq<Seq<Seq<char>>>, n: int) -> Seq<char>
    decreases n,
{
    if n <= 0 {
        Seq::empty()
    } else {
        hyphenated_upto(runs, segs, n - 1) + piece(runs[n - 1], segs[n - 1])
    }
}

/// The hyphenated text of the runs, given the segments of each word.
pub open spec fn hyphenated(runs: Seq<Seq<char>>, segs: Seq<Seq<Seq<char>>>) -> Seq<char> {
    hyphenated_upto(runs, segs, runs.len() as int)
}

/// The segments that the dictionary with this code gives each word of the
/// runs that is no markup (none for the other runs).
pub open spec fn named_segments(code: Seq<char>, runs: Seq<Seq<char>>) -> Seq<Seq<Seq<char>>> {
    runs.map_values(
        |run: Seq<char>|
            if is_word(run) && !is_markup(run) {
                hyphenation_segments(code, run)
            } else {
                Seq::empty()
            },
    )
}

/// `text` hyphenated with the dictionary of this code.
pub open spec fn hyphenated_text(code: Seq<char>, text: Seq<char>) -> Seq<char> {
    hyphenated(runs_spec(text), named_segments(code, runs_spec(text)))
}

fn is_markup_exec(w: &str) -> (b: bool)
    ensures
        b == is_markup(w@),
{
    let v = chars_of(w);
    let mut has_special = false;
    let mut i: usize = 0;
    while i < v.len()
        invariant
            v@ == w@,
            i <= v.len(),
            has_special == (exists|k: int|
                0 <= k < i && (v@[k] == '<' || v@[k] == '>' || v@[k] == '=' || v@[k] == '&')),
        decreases v.len() - i,
    {
        let c = v[i];
        if c == '<' || c == '>' || c == '=' || c == '&' {
            has_special = true;
        }
        i = i + 1;
    }
    proof {
        if w@.contains('<') {
            let k = choose|k: int| 0 <= k < w@.len() && w@[k] == '<';
            assert(v@[k] == '<');
        }
        if w@.contains('>') {
            let k = choose|k: int| 0 <= k < w@.len() && w@[k] == '>';
            assert(v@[k] == '>');
        }
        if w@.contains('=') {
            let k = choose|k: int| 0 <= k < w@.len() && w@[k] == '=';
            assert(v@[k] == '=');
        }
        if w@.contains('&') {
            let k = choose|k: int| 0 <= k < w@.len() && w@[k] == '&';
            assert(v@[k] == '&');
        }
        if has_special {
            let k = choose|k: int|
                0 <= k < i && (v@[k] == '<' || v@[k] == '>' || v@[k] == '=' || v@[k] == '&');
            assert(w@[k] == v@[k]);
        }
    }
    let p = chars_of("class=\"");
    proof {
        reveal_strlit("class=\"");
    }
    let mut starts = v.len() >= p.len();
    let mut j: usize = 0;
    while starts && j < p.len()
        invariant
            v@ == w@,
            p@ == "class=\""@,
            j <= p.len(),
            starts ==> v.len() >= p.len(),
            starts ==> forall|k: int| 0 <= k < j ==> v@[k] == p@[k],
            !starts ==> !starts_with(w@, "class=\""@),
        decreases p.len() - j,
    {
        if v[j] != p[j] {
            assert(w@.take(p@.len() as int)[j as int] != p@[j as int]);
            starts = false;
            j = p.len();
        } else {
            j = j + 1;
        }
    }
    if starts {
        assert(w@.take(p@.len() as int) =~= p@);
    }
    starts || has_special
}

/// The segments joined with soft hyphens.
fn join_soft_exec(segs: &Vec<String>) -> (r: String)
    ensures
        r@ == join_soft(strings_view(segs@)),
{
    let mut out = String::new();
    let mut i: usize = 0;
    while i < segs.len()
        invariant
            i <= segs.len(),
            out@ == join_soft(strings_view(segs@.take(i as int))),
        decreases segs.len() - i,
    {
        let ghost before = strings_view(segs@.take(i as int));
        assert(strings_view(segs@.take(i + 1)) =~= before.push(segs@[i as int]@));
        if i > 0 {
            push_char(&mut out, '\u{ad}');
        } else {
            assert(before =~= Seq::<Seq<char>>::empty());
        }
        out.append(segs[i].as_str());
        assert(before.push(segs@[i as int]@).drop_last() =~= before);
        i = i + 1;
    }
    assert(segs@.take(i as int) =~= segs@);
    out
}

// ---------------------------------------------------------------------------
// Hyphenating a text
// ---------------------------------------------------------------------------

/// `r` is `text` hyphenated with some segmentation of its words: soft
/// hyphens between the segments of each word that is no markup, the
/// segments of each such word making up the word; white space and markup
/// kept as they are.
pub open spec fn soft_hyphenated(text: Seq<char>, r: Seq<char>) -> bool {
    exists|segs: Seq<Seq<Seq<char>>>|
        segs.len() == runs_spec(text).len() && (forall|i: int|
            0 <= i < segs.len() && is_word(runs_spec(text)[i]) && !is_markup(runs_spec(text)[i])
                ==> concat(#[trigger] segs[i]) == runs_spec(text)[i]) && r == hyphenated(
            runs_spec(text),
            segs,
        )
}

/// Hyphenates every word of a text with the dictionary: the segments the
/// dictionary finds for each word that is no markup, joined with soft
/// hyphens; white space between, before and after the words, and markup
/// words, kept as they are.
pub fn hyphenate_text(text: String, dict: &HyphenationDictionary) -> (r: String)
    ensures
        r@ == hyphenated_text(dict.code(), text@),
        soft_hyphenated(text@, r@),
{
    let runs = runs_of(text.as_str());
    let ghost rv = strings_view(runs@);
    let ghost gs = named_segments(dict.code(), rv);
    let mut out = String::new();
    let mut i: usize = 0;
    while i < runs.len()
        invariant
            rv == strings_view(runs@),
            rv == runs_spec(text@),
            gs == named_segments(dict.code(), rv),
            i <= runs.len(),
            out@ == hyphenated_upto(rv, gs, i as int),
            forall|k: int|
                0 <= k < i && is_word(rv[k]) && !is_markup(rv[k]) ==> concat(#[trigger] gs[k])
                    == rv[k],
        decreases runs.len() - i,
    {
        assert(rv[i as int] == runs@[i as int]@);
        let run = runs[i].as_str();
        let word = is_word_exec(run);
        if word && !is_markup_exec(run) {
            let segs = dict.segments_of(run);
            let joined = join_soft_exec(&segs);
            out.append(joined.as_str());
        } else {
            out.append(run);
        }
        i = i + 1;
    }
    proof {
        assert(gs.len() == rv.len());
    }
    out
}

fn is_word_exec(run: &str) -> (b: bool)
    ensures
        b == is_word(run@),
{
    let v = chars_of(run);
    v.len() > 0 && !is_space(v[0])
}

// ---------------------------------------------------------------------------
// Laws
// ---------------------------------------------------------------------------

/// The text without soft hyphens.
pub open spec fn strip_soft(s: Seq<char>) -> Seq<char> {
    s.filter(not_soft())
}

pub open spec fn not_soft() -> spec_fn(char) -> bool {
    |c: char| c != soft_hyphen()
}

pub open spec fn no_soft(s: Seq<char>) -> bool {
    !s.contains(soft_hyphen())
}

proof fn lemma_strip_append(a: Seq<char>, b: Seq<char>)
    ensures
        strip_soft(a + b) == strip_soft(a) + strip_soft(b),
{
    Seq::filter_distributes_over_add(a, b, not_soft());
}

proof fn lemma_strip_plain(s: Seq<char>)
    requires
        no_soft(s),
    ensures
        strip_soft(s) == s,
    decreases s.len(),
{
    reveal(Seq::filter);
    if s.len() > 0 {
        assert(s.drop_last().len() < s.len());
        assert forall|i: int| 0 <= i < s.drop_last().len() implies s.drop_last()[i] != soft_hyphen() by {
            assert(s[i] != soft_hyphen());
        }
        assert(!s.drop_last().contains(soft_hyphen()));
        lemma_strip_plain(s.drop_last());
        assert(s.last() != soft_hyphen()) by {
            assert(s[s.len() - 1] == s.last());
        }
        assert(s.drop_last().push(s.last()) =~= s);
    } else {
        assert(s.filter(not_soft()) =~= s);
    }
}

proof fn lemma_strip_join(segs: Seq<Seq<char>>)
    requires
        forall|i: int| 0 <= i < segs.len() ==> no_soft(#[trigger] segs[i]),
    ensures
        strip_soft(join_soft(segs)) == concat(segs),
    decreases segs.len(),
{
    if segs.len() == 0 {
        reveal(Seq::filter);
        assert(strip_soft(Seq::<char>::empty()) =~= Seq::<char>::empty());
    } else if segs.len() == 1 {
        assert(segs[0] == segs.last());
        assert(segs.drop_last() =~= Seq::<Seq<char>>::empty());
        lemma_strip_plain(segs[0]);
        assert(concat(segs) == concat(segs.drop_last()) + segs.last());
        assert(concat(segs.drop_last()) == Seq::<char>::empty());
        assert(concat(segs) =~= segs[0]);
    } else {
        let p = segs.drop_last();
        assert forall|i: int| 0 <= i < p.len() implies no_soft(#[trigger] p[i]) by {
            assert(p[i] == segs[i]);
        }
        lemma_strip_join(p);
        assert(segs.last() == segs[segs.len() - 1]);
        lemma_strip_plain(segs.last());
        lemma_strip_append(join_soft(p) + seq![soft_hyphen()], segs.last());
        lemma_strip_append(join_soft(p), seq![soft_hyphen()]);
        reveal(Seq::filter);
        assert(strip_soft(seq![soft_hyphen()]) =~= Seq::<char>::empty()) by {
            assert(seq![soft_hyphen()].drop_last() =~= Seq::<char>::empty());
            assert(Seq::<char>::empty().filter(not_soft()) =~= Seq::<char>::empty());
            assert(seq![soft_hyphen()].last() == soft_hyphen());
        }
        assert(strip_soft(join_soft(p)) + Seq::<char>::empty() =~= strip_soft(join_soft(p)));
    }
}

proof fn lemma_concat_no_soft(segs: Seq<Seq<char>>)
    requires
        no_soft(concat(segs)),
    ensures
        forall|j: int| 0 <= j < segs.len() ==> no_soft(#[trigger] segs[j]),
    decreases segs.len(),
{
    if segs.len() > 0 {
        let p = segs.drop_last();
        assert(concat(segs) == concat(p) + segs.last());
        assert forall|k: int| 0 <= k < concat(p).len() implies concat(p)[k] != soft_hyphen() by {
            assert(concat(segs)[k] == concat(p)[k]);
        }
        assert forall|k: int| 0 <= k < segs.last().len() implies segs.last()[k] != soft_hyphen() by {
            assert(concat(segs)[concat(p).len() + k] == segs.last()[k]);
        }
        lemma_concat_no_soft(p);
        assert forall|j: int| 0 <= j < segs.len() implies no_soft(#[trigger] segs[j]) by {
            if j < p.len() {
                assert(segs[j] == p[j]);
            }
        }
    }
}

proof fn lemma_strip_upto(runs: Seq<Seq<char>>, segs: Seq<Seq<Seq<char>>>, n: int)
    requires
        0 <= n <= runs.len(),
        segs.len() == runs.len(),
        forall|i: int| 0 <= i < runs.len() ==> no_soft(#[trigger] runs[i]),
        forall|i: int|
            0 <= i < runs.len() && is_word(runs[i]) && !is_markup(runs[i]) ==> concat(#[trigger] segs[i])
                == runs[i],
    ensures
        strip_soft(hyphenated_upto(runs, segs, n)) == concat(runs.take(n)),
    decreases n,
{
    if n == 0 {
        reveal(Seq::filter);
        assert(runs.take(0) =~= Seq::<Seq<char>>::empty());
        assert(strip_soft(Seq::<char>::empty()) =~= Seq::<char>::empty());
    } else {
        let i = n - 1;
        lemma_strip_upto(runs, segs, i);
        assert(runs.take(n).drop_last() =~= runs.take(i));
        assert(runs.take(n).last() == runs[i]);
        lemma_strip_append(hyphenated_upto(runs, segs, i), piece(runs[i], segs[i]));
        if is_word(runs[i]) && !is_markup(runs[i]) {
            lemma_concat_no_soft(segs[i]);
            lemma_strip_join(segs[i]);
        } else {
            lemma_strip_plain(runs[i]);
        }
    }
}

/// Hyphenation only adds soft hyphens: a text without soft hyphens,
/// hyphenated with any segmentation whose segments make up each word, gives
/// the text back when the soft hyphens are removed, white space included.
pub proof fn lemma_hyphenation_adds_only_soft_hyphens(text: Seq<char>, r: Seq<char>)
    requires
        no_soft(text),
        soft_hyphenated(text, r),
    ensures
        strip_soft(r) == text,
{
    let runs = runs_spec(text);
    let segs = choose|segs: Seq<Seq<Seq<char>>>|
        segs.len() == runs.len() && (forall|i: int|
            0 <= i < segs.len() && is_word(runs[i]) && !is_markup(runs[i]) ==> concat(#[trigger] segs[i])
                == runs[i]) && r == hyphenated(runs, segs);
    lemma_runs(text);
    assert(runs.take(runs.len() as int) =~= runs);
    lemma_concat_no_soft(runs);
    lemma_strip_upto(runs, segs, runs.len() as int);
}

/// The output of each run, in order.
pub open spec fn pieces(runs: Seq<Seq<char>>, segs: Seq<Seq<Seq<char>>>) -> Seq<Seq<char>> {
    Seq::new(runs.len(), |i: int| piece(runs[i], segs[i]))
}

proof fn lemma_pieces_upto(runs: Seq<Seq<char>>, segs: Seq<Seq<Seq<char>>>, n: int)
    requires
        0 <= n <= runs.len(),
    ensures
        concat(pieces(runs, segs).take(n)) == hyphenated_upto(runs, segs, n),
    decreases n,
{
    if n == 0 {
        assert(pieces(runs, segs).take(0) =~= Seq::<Seq<char>>::empty());
    } else {
        lemma_pieces_upto(runs, segs, n - 1);
        assert(pieces(runs, segs).take(n).drop_last() =~= pieces(runs, segs).take(n - 1));
    }
}

/// Hyphenation changes nothing but words: the result is the outputs of the
/// runs in order, where white space and every word with markup in it
/// (`<`, `>`, `=`, `&`, or a start `class="`) come out as they are, and
/// every other word comes out with soft hyphens added and nothing else.
pub proof fn lemma_hyphenation_keeps_markup(text: Seq<char>, r: Seq<char>) -> (outs: Seq<Seq<char>>)
    requires
        no_soft(text),
        soft_hyphenated(text, r),
    ensures
        outs.len() == runs_spec(text).len(),
        concat(outs) == r,
        forall|i: int|
            0 <= i < outs.len() && !(is_word(runs_spec(text)[i]) && !is_markup(runs_spec(text)[i]))
                ==> #[trigger] outs[i] == runs_spec(text)[i],
        forall|i: int| 0 <= i < outs.len() ==> strip_soft(#[trigger] outs[i]) == runs_spec(text)[i],
{
    let runs = runs_spec(text);
    let segs = choose|segs: Seq<Seq<Seq<char>>>|
        segs.len() == runs.len() && (forall|i: int|
            0 <= i < segs.len() && is_word(runs[i]) && !is_markup(runs[i]) ==> concat(#[trigger] segs[i])
                == runs[i]) && r == hyphenated(runs, segs);
    lemma_runs(text);
    lemma_concat_no_soft(runs);
    let outs = pieces(runs, segs);
    lemma_pieces_upto(runs, segs, runs.len() as int);
    assert(outs.take(runs.len() as int) =~= outs);
    assert forall|i: int| 0 <= i < outs.len() implies strip_soft(#[trigger] outs[i]) == runs[i] by {
        if is_word(runs[i]) && !is_markup(runs[i]) {
            assert(concat(segs[i]) == runs[i]);
            lemma_concat_no_soft(segs[i]);
            lemma_strip_join(segs[i]);
        } else {
            lemma_strip_plain(runs[i]);
        }
    }
    outs
}

} // verus!

//! Language tags: the hyphenation dictionary that a language's tag chooses
//! among those that `hyphenation` builds in, and the tag of a language that
//! detection found.
use vstd::prelude::*;
use crate::text::text_eq;
use crate::hyphen::{concat, hyphenate_text, hyphenated_text, soft_hyphenated};
use crate::content::owned;
use crate::text::strings_view;

verus! {

// ---------------------------------------------------------------------------
// The table of languages
// ---------------------------------------------------------------------------

/// For each language tag that has a hyphenation dictionary, the code under
/// which `hyphenation` keeps that dictionary. Tags are written as BCP 47
/// writes them (`de-DE`, `fr-029`, `mn-Mong-MN`); codes as `hyphenation`
/// names its languages (`de-1996`, `en-us`).
pub open spec fn dictionary_table() -> Seq<(Seq<char>, Seq<char>)> {
    seq![
        ("af-ZA"@, "af"@),
        ("sq-AL"@, "sq"@),
        ("hy-AM"@, "hy"@),
        ("as-IN"@, "as"@),
        ("eu-ES"@, "eu"@),
        ("be-BY"@, "be"@),
        ("bn-BD"@, "bn"@),
        ("bn-IN"@, "bn"@),
        ("ca-ES"@, "ca"@),
        ("ca-ES-valencia"@, "ca"@),
        ("zh-CN"@, "zh-latn-pinyin"@),
        ("zh-HK"@, "zh-latn-pinyin"@),
        ("zh-MO"@, "zh-latn-pinyin"@),
        ("zh-SG"@, "zh-latn-pinyin"@),
        ("zh-TW"@, "zh-latn-pinyin"@),
        ("hr-BA"@, "hr"@),
        ("hr-HR"@, "hr"@),
        ("cs-CZ"@, "cs"@),
        ("da-DK"@, "da"@),
        ("nl-NL"@, "nl"@),
        ("nl-BE"@, "nl"@),
        ("en-GB"@, "en-gb"@),
        ("en-US"@, "en-us"@),
        ("et-EE"@, "et"@),
        ("fi-FI"@, "fi"@),
        ("fr-029"@, "fr"@),
        ("fr-BE"@, "fr"@),
        ("fr-CA"@, "fr"@),
        ("fr-CD"@, "fr"@),
        ("fr-CH"@, "fr"@),
        ("fr-CI"@, "fr"@),
        ("fr-CM"@, "fr"@),
        ("fr-FR"@, "fr"@),
        ("fr-HT"@, "fr"@),
        ("fr-LU"@, "fr"@),
        ("fr-MA"@, "fr"@),
        ("fr-MC"@, "fr"@),
        ("fr-ML"@, "fr"@),
        ("fr-RE"@, "fr"@),
        ("fr-SN"@, "fr"@),
        ("gl-ES"@, "gl"@),
        ("ka-GE"@, "ka"@),
        ("de-DE"@, "de-1996"@),
        ("de-AT"@, "de-1996"@),
        ("de-LI"@, "de-1996"@),
        ("de-LU"@, "de-1996"@),
        ("de-CH"@, "de-ch-1901"@),
        ("gu-IN"@, "gu"@),
        ("hi-IN"@, "hi"@),
        ("hu-HU"@, "hu"@),
        ("is-IS"@, "is"@),
        ("id-ID"@, "id"@),
        ("ga-IE"@, "ga"@),
        ("it-CH"@, "it"@),
        ("it-IT"@, "it"@),
        ("kn-IN"@, "kn"@),
        ("la-VA"@, "la"@),
        ("lv-LV"@, "lv"@),
        ("lt-LT"@, "lt"@),
        ("mk-MK"@, "mk"@),
        ("ml-IN"@, "ml"@),
        ("mr-IN"@, "mr"@),
        ("mn-MN"@, "mn-cyrl"@),
        ("mn-Mong-MN"@, "mn-cyrl"@),
        ("nb-NO"@, "nb"@),
        ("nn-NO"@, "nn"@),
        ("oc-FR"@, "oc"@),
        ("or-IN"@, "or"@),
        ("pa-IN"@, "pa"@),
        ("pa-Arab-PK"@, "pa"@),
        ("pl-PL"@, "pl"@),
        ("pt-PT"@, "pt"@),
        ("pt-BR"@, "pt"@),
        ("ro-MD"@, "ro"@),
        ("ro-RO"@, "ro"@),
        ("rm-CH"@, "rm"@),
        ("ru-MD"@, "ru"@),
        ("ru-RU"@, "ru"@),
        ("sa-IN"@, "sa"@),
        ("sr-Cyrl-BA"@, "sr-cyrl"@),
        ("sr-Cyrl-ME"@, "sr-cyrl"@),
        ("sr-Cyrl-RS"@, "sr-cyrl"@),
        ("sk-SK"@, "sk"@),
        ("sl-SI"@, "sl"@),
        ("es-419"@, "es"@),
        ("es-AR"@, "es"@),
        ("es-BO"@, "es"@),
        ("es-CL"@, "es"@),
        ("es-CO"@, "es"@),
        ("es-CR"@, "es"@),
        ("es-CU"@, "es"@),
        ("es-DO"@, "es"@),
        ("es-EC"@, "es"@),
        ("es-ES"@, "es"@),
        ("es-GT"@, "es"@),
        ("es-HN"@, "es"@),
        ("es-MX"@, "es"@),
        ("es-NI"@, "es"@),
        ("es-PA"@, "es"@),
        ("es-PE"@, "es"@),
        ("es-PR"@, "es"@),
        ("es-PY"@, "es"@),
        ("es-SV"@, "es"@),
        ("es-US"@, "es"@),
        ("es-UY"@, "es"@),
        ("es-VE"@, "es"@),
        ("sv-FI"@, "sv"@),
        ("sv-SE"@, "sv"@),
        ("ta-IN"@, "ta"@),
        ("ta-LK"@, "ta"@),
        ("te-IN"@, "te"@),
        ("th-TH"@, "th"@),
        ("tr-TR"@, "tr"@),
        ("tk-TM"@, "tk"@),
        ("uk-UA"@, "uk"@),
        ("hsb-DE"@, "hsb"@),
        ("cy-GB"@, "cy"@),
    ]
}

/// The code paired with the first occurrence of `tag` in `t`.
pub open spec fn table_lookup(t: Seq<(Seq<char>, Seq<char>)>, tag: Seq<char>) -> Option<Seq<char>>
    decreases t.len(),
{
    if t.len() == 0 {
        None
    } else if t[0].0 == tag {
        Some(t[0].1)
    } else {
        table_lookup(t.drop_first(), tag)
    }
}

/// The code of the dictionary for a language tag, if there is one.
pub open spec fn dictionary_code(tag: Seq<char>) -> Option<Seq<char>> {
    table_lookup(dictionary_table(), tag)
}

/// Whether `code` is the code of some dictionary of the table.
pub open spec fn is_table_code(code: Seq<char>) -> bool {
    exists|i: int| 0 <= i < dictionary_table().len() && #[trigger] dictionary_table()[i].1 == code
}

/// The views of a table of text pairs.
pub open spec fn pairs_view(v: Seq<(&str, &str)>) -> Seq<(Seq<char>, Seq<char>)> {
    v.map_values(|p: (&str, &str)| (p.0@, p.1@))
}

/// The table as text pairs.
fn dictionary_pairs() -> (r: Vec<(&'static str, &'static str)>)
    ensures
        pairs_view(r@) == dictionary_table(),
{
    let r = vec![
        ("af-ZA", "af"),
        ("sq-AL", "sq"),
        ("hy-AM", "hy"),
        ("as-IN", "as"),
        ("eu-ES", "eu"),
        ("be-BY", "be"),
        ("bn-BD", "bn"),
        ("bn-IN", "bn"),
        ("ca-ES", "ca"),
        ("ca-ES-valencia", "ca"),
        ("zh-CN", "zh-latn-pinyin"),
        ("zh-HK", "zh-latn-pinyin"),
        ("zh-MO", "zh-latn-pinyin"),
        ("zh-SG", "zh-latn-pinyin"),
        ("zh-TW", "zh-latn-pinyin"),
        ("hr-BA", "hr"),
        ("hr-HR", "hr"),
        ("cs-CZ", "cs"),
        ("da-DK", "da"),
        ("nl-NL", "nl"),
        ("nl-BE", "nl"),
        ("en-GB", "en-gb"),
        ("en-US", "en-us"),
        ("et-EE", "et"),
        ("fi-FI", "fi"),
        ("fr-029", "fr"),
        ("fr-BE", "fr"),
        ("fr-CA", "fr"),
        ("fr-CD", "fr"),
        ("fr-CH", "fr"),
        ("fr-CI", "fr"),
        ("fr-CM", "fr"),
        ("fr-FR", "fr"),
        ("fr-HT", "fr"),
        ("fr-LU", "fr"),
        ("fr-MA", "fr"),
        ("fr-MC", "fr"),
        ("fr-ML", "fr"),
        ("fr-RE", "fr"),
        ("fr-SN", "fr"),
        ("gl-ES", "gl"),
        ("ka-GE", "ka"),
        ("de-DE", "de-1996"),
        ("de-AT", "de-1996"),
        ("de-LI", "de-1996"),
        ("de-LU", "de-1996"),
        ("de-CH", "de-ch-1901"),
        ("gu-IN", "gu"),
        ("hi-IN", "hi"),
        ("hu-HU", "hu"),
        ("is-IS", "is"),
        ("id-ID", "id"),
        ("ga-IE", "ga"),
        ("it-CH", "it"),
        ("it-IT", "it"),
        ("kn-IN", "kn"),
        ("la-VA", "la"),
        ("lv-LV", "lv"),
        ("lt-LT", "lt"),
        ("mk-MK", "mk"),
        ("ml-IN", "ml"),
        ("mr-IN", "mr"),
        ("mn-MN", "mn-cyrl"),
        ("mn-Mong-MN", "mn-cyrl"),
        ("nb-NO", "nb"),
        ("nn-NO", "nn"),
        ("oc-FR", "oc"),
        ("or-IN", "or"),
        ("pa-IN", "pa"),
        ("pa-Arab-PK", "pa"),
        ("pl-PL", "pl"),
        ("pt-PT", "pt"),
        ("pt-BR", "pt"),
        ("ro-MD", "ro"),
        ("ro-RO", "ro"),
        ("rm-CH", "rm"),
        ("ru-MD", "ru"),
        ("ru-RU", "ru"),
        ("sa-IN", "sa"),
        ("sr-Cyrl-BA", "sr-cyrl"),
        ("sr-Cyrl-ME", "sr-cyrl"),
        ("sr-Cyrl-RS", "sr-cyrl"),
        ("sk-SK", "sk"),
        ("sl-SI", "sl"),
        ("es-419", "es"),
        ("es-AR", "es"),
        ("es-BO", "es"),
        ("es-CL", "es"),
        ("es-CO", "es"),
        ("es-CR", "es"),
        ("es-CU", "es"),
        ("es-DO", "es"),
        ("es-EC", "es"),
        ("es-ES", "es"),
        ("es-GT", "es"),
        ("es-HN", "es"),
        ("es-MX", "es"),
        ("es-NI", "es"),
        ("es-PA", "es"),
        ("es-PE", "es"),
        ("es-PR", "es"),
        ("es-PY", "es"),
        ("es-SV", "es"),
        ("es-US", "es"),
        ("es-UY", "es"),
        ("es-VE", "es"),
        ("sv-FI", "sv"),
        ("sv-SE", "sv"),
        ("ta-IN", "ta"),
        ("ta-LK", "ta"),
        ("te-IN", "te"),
        ("th-TH", "th"),
        ("tr-TR", "tr"),
        ("tk-TM", "tk"),
        ("uk-UA", "uk"),
        ("hsb-DE", "hsb"),
        ("cy-GB", "cy"),
    ];
    assert(pairs_view(r@) =~= dictionary_table());
    r
}

/// The lookup from position `i` on looks at the pair there first.
proof fn lemma_lookup_step(t: Seq<(Seq<char>, Seq<char>)>, tag: Seq<char>, i: int)
    requires
        0 <= i < t.len(),
    ensures
        table_lookup(t.skip(i), tag) == (if t[i].0 == tag {
            Some(t[i].1)
        } else {
            table_lookup(t.skip(i + 1), tag)
        }),
{
    assert(t.skip(i)[0] == t[i]);
    assert(t.skip(i).drop_first() =~= t.skip(i + 1));
}

/// A code found by the lookup is a code of the table.
proof fn lemma_lookup_in_table(tag: Seq<char>, i: int)
    requires
        0 <= i <= dictionary_table().len(),
        table_lookup(dictionary_table().skip(i), tag) is Some,
    ensures
        is_table_code(table_lookup(dictionary_table().skip(i), tag)->0),
    decreases dictionary_table().len() - i,
{
    let t = dictionary_table();
    if i == t.len() {
        assert(t.skip(i).len() == 0);
    } else {
        lemma_lookup_step(t, tag, i);
        if t[i].0 != tag {
            lemma_lookup_in_table(tag, i + 1);
        }
    }
}

// ---------------------------------------------------------------------------
// The language of the chosen dictionary
// ---------------------------------------------------------------------------

/// `n` is the length of the language subtag of `s`: its characters before
/// the first hyphen (all of them where there is none), at least one.
pub open spec fn language_length(s: Seq<char>, n: int) -> bool {
    &&& 0 < n <= s.len()
    &&& (n == s.len() || s[n] == '-')
    &&& forall|k: int| 0 <= k < n ==> s[k] != '-'
}

/// `tag` and `code` name the same language: their language subtags, the
/// characters before the first hyphen, are the same.
pub open spec fn same_language(tag: Seq<char>, code: Seq<char>) -> bool {
    exists|n: int| language_length(tag, n) && language_length(code, n) && #[trigger] tag.take(n) == code.take(n)
}

proof fn lemma_same_language_at(tag: Seq<char>, code: Seq<char>, n: int)
    requires
        language_length(tag, n),
        language_length(code, n),
        forall|k: int| 0 <= k < n ==> tag[k] == code[k],
    ensures
        same_language(tag, code),
{
    assert(tag.take(n) =~= code.take(n));
}

proof fn lemma_table_languages_0()
    ensures
        forall|i: int| 0 <= i < 20 ==> same_language(#[trigger] dictionary_table()[i].0, dictionary_table()[i].1),
{
    let t = dictionary_table();
    reveal_strlit("af-ZA");
    reveal_strlit("af");
    assert(t[0] == ("af-ZA"@, "af"@));
    lemma_same_language_at("af-ZA"@, "af"@, 2);
    reveal_strlit("sq-AL");
    reveal_strlit("sq");
    assert(t[1] == ("sq-AL"@, "sq"@));
    lemma_same_language_at("sq-AL"@, "sq"@, 2);
    reveal_strlit("hy-AM");
    reveal_strlit("hy");
    assert(t[2] == ("hy-AM"@, "hy"@));
    lemma_same_language_at("hy-AM"@, "hy"@, 2);
    reveal_strlit("as-IN");
    reveal_strlit("as");
    assert(t[3] == ("as-IN"@, "as"@));
    lemma_same_language_at("as-IN"@, "as"@, 2);
    reveal_strlit("eu-ES");
    reveal_strlit("eu");
    assert(t[4] == ("eu-ES"@, "eu"@));
    lemma_same_language_at("eu-ES"@, "eu"@, 2);
    reveal_strlit("be-BY");
    reveal_strlit("be");
    assert(t[5] == ("be-BY"@, "be"@));
    lemma_same_language_at("be-BY"@, "be"@, 2);
    reveal_strlit("bn-BD");
    reveal_strlit("bn");
    assert(t[6] == ("bn-BD"@, "bn"@));
    lemma_same_language_at("bn-BD"@, "bn"@, 2);
    reveal_strlit("bn-IN");
    reveal_strlit("bn");
    assert(t[7] == ("bn-IN"@, "bn"@));
    lemma_same_language_at("bn-IN"@, "bn"@, 2);
    reveal_strlit("ca-ES");
    reveal_strlit("ca");
    assert(t[8] == ("ca-ES"@, "ca"@));
    lemma_same_language_at("ca-ES"@, "ca"@, 2);
    reveal_strlit("ca-ES-valencia");
    reveal_strlit("ca");
    assert(t[9] == ("ca-ES-valencia"@, "ca"@));
    lemma_same_language_at("ca-ES-valencia"@, "ca"@, 2);
    reveal_strlit("zh-CN");
    reveal_strlit("zh-latn-pinyin");
    assert(t[10] == ("zh-CN"@, "zh-latn-pinyin"@));
    lemma_same_language_at("zh-CN"@, "zh-latn-pinyin"@, 2);
    reveal_strlit("zh-HK");
    reveal_strlit("zh-latn-pinyin");
    assert(t[11] == ("zh-HK"@, "zh-latn-pinyin"@));
    lemma_same_language_at("zh-HK"@, "zh-latn-pinyin"@, 2);
    reveal_strlit("zh-MO");
    reveal_strlit("zh-latn-pinyin");
    assert(t[12] == ("zh-MO"@, "zh-latn-pinyin"@));
    lemma_same_language_at("zh-MO"@, "zh-latn-pinyin"@, 2);
    reveal_strlit("zh-SG");
    reveal_strlit("zh-latn-pinyin");
    assert(t[13] == ("zh-SG"@, "zh-latn-pinyin"@));
    lemma_same_language_at("zh-SG"@, "zh-latn-pinyin"@, 2);
    reveal_strlit("zh-TW");
    reveal_strlit("zh-latn-pinyin");
    assert(t[14] == ("zh-TW"@, "zh-latn-pinyin"@));
    lemma_same_language_at("zh-TW"@, "zh-latn-pinyin"@, 2);
    reveal_strlit("hr-BA");
    reveal_strlit("hr");
    assert(t[15] == ("hr-BA"@, "hr"@));
    lemma_same_language_at("hr-BA"@, "hr"@, 2);
    reveal_strlit("hr-HR");
    reveal_strlit("hr");
    assert(t[16] == ("hr-HR"@, "hr"@));
    lemma_same_language_at("hr-HR"@, "hr"@, 2);
    reveal_strlit("cs-CZ");
    reveal_strlit("cs");
    assert(t[17] == ("cs-CZ"@, "cs"@));
    lemma_same_language_at("cs-CZ"@, "cs"@, 2);
    reveal_strlit("da-DK");
    reveal_strlit("da");
    assert(t[18] == ("da-DK"@, "da"@));
    lemma_same_language_at("da-DK"@, "da"@, 2);
    reveal_strlit("nl-NL");
    reveal_strlit("nl");
    assert(t[19] == ("nl-NL"@, "nl"@));
    lemma_same_language_at("nl-NL"@, "nl"@, 2);
    assert forall|i: int| 0 <= i < 20 implies same_language(#[trigger] t[i].0, t[i].1) by {
        if i == 0 {
        } else if i == 1 {
        } else if i == 2 {
        } else if i == 3 {
        } else if i == 4 {
        } else if i == 5 {
        } else if i == 6 {
        } else if i == 7 {
        } else if i == 8 {
        } else if i == 9 {
        } else if i == 10 {
        } else if i == 11 {
        } else if i == 12 {
        } else if i == 13 {
        } else if i == 14 {
        } else if i == 15 {
        } else if i == 16 {
        } else if i == 17 {
        } else if i == 18 {
        } else if i == 19 {
        }
    }
}

proof fn lemma_table_languages_1()
    ensures
        forall|i: int| 20 <= i < 40 ==> same_language(#[trigger] dictionary_table()[i].0, dictionary_table()[i].1),
{
    let t = dictionary_table();
    reveal_strlit("nl-BE");
    reveal_strlit("nl");
    assert(t[20] == ("nl-BE"@, "nl"@));
    lemma_same_language_at("nl-BE"@, "nl"@, 2);
    reveal_strlit("en-GB");
    reveal_strlit("en-gb");
    assert(t[21] == ("en-GB"@, "en-gb"@));
    lemma_same_language_at("en-GB"@, "en-gb"@, 2);
    reveal_strlit("en-US");
    reveal_strlit("en-us");
    assert(t[22] == ("en-US"@, "en-us"@));
    lemma_same_language_at("en-US"@, "en-us"@, 2);
    reveal_strlit("et-EE");
    reveal_strlit("et");
    assert(t[23] == ("et-EE"@, "et"@));
    lemma_same_language_at("et-EE"@, "et"@, 2);
    reveal_strlit("fi-FI");
    reveal_strlit("fi");
    assert(t[24] == ("fi-FI"@, "fi"@));
    lemma_same_language_at("fi-FI"@, "fi"@, 2);
    reveal_strlit("fr-029");
    reveal_strlit("fr");
    assert(t[25] == ("fr-029"@, "fr"@));
    lemma_same_language_at("fr-029"@, "fr"@, 2);
    reveal_strlit("fr-BE");
    reveal_strlit("fr");
    assert(t[26] == ("fr-BE"@, "fr"@));
    lemma_same_language_at("fr-BE"@, "fr"@, 2);
    reveal_strlit("fr-CA");
    reveal_strlit("fr");
    assert(t[27] == ("fr-CA"@, "fr"@));
    lemma_same_language_at("fr-CA"@, "fr"@, 2);
    reveal_strlit("fr-CD");
    reveal_strlit("fr");
    assert(t[28] == ("fr-CD"@, "fr"@));
    lemma_same_language_at("fr-CD"@, "fr"@, 2);
    reveal_strlit("fr-CH");
    reveal_strlit("fr");
    assert(t[29] == ("fr-CH"@, "fr"@));
    lemma_same_language_at("fr-CH"@, "fr"@, 2);
    reveal_strlit("fr-CI");
    reveal_strlit("fr");
    assert(t[30] == ("fr-CI"@, "fr"@));
    lemma_same_language_at("fr-CI"@, "fr"@, 2);
    reveal_strlit("fr-CM");
    reveal_strlit("fr");
    assert(t[31] == ("fr-CM"@, "fr"@));
    lemma_same_language_at("fr-CM"@, "fr"@, 2);
    reveal_strlit("fr-FR");
    reveal_strlit("fr");
    assert(t[32] == ("fr-FR"@, "fr"@));
    lemma_same_language_at("fr-FR"@, "fr"@, 2);
    reveal_strlit("fr-HT");
    reveal_strlit("fr");
    assert(t[33] == ("fr-HT"@, "fr"@));
    lemma_same_language_at("fr-HT"@, "fr"@, 2);
    reveal_strlit("fr-LU");
    reveal_strlit("fr");
    assert(t[34] == ("fr-LU"@, "fr"@));
    lemma_same_language_at("fr-LU"@, "fr"@, 2);
    reveal_strlit("fr-MA");
    reveal_strlit("fr");
    assert(t[35] == ("fr-MA"@, "fr"@));
    lemma_same_language_at("fr-MA"@, "fr"@, 2);
    reveal_strlit("fr-MC");
    reveal_strlit("fr");
    assert(t[36] == ("fr-MC"@, "fr"@));
    lemma_same_language_at("fr-MC"@, "fr"@, 2);
    reveal_strlit("fr-ML");
    reveal_strlit("fr");
    assert(t[37] == ("fr-ML"@, "fr"@));
    lemma_same_language_at("fr-ML"@, "fr"@, 2);
    reveal_strlit("fr-RE");
    reveal_strlit("fr");
    assert(t[38] == ("fr-RE"@, "fr"@));
    lemma_same_language_at("fr-RE"@, "fr"@, 2);
    reveal_strlit("fr-SN");
    reveal_strlit("fr");
    assert(t[39] == ("fr-SN"@, "fr"@));
    lemma_same_language_at("fr-SN"@, "fr"@, 2);
    assert forall|i: int| 20 <= i < 40 implies same_language(#[trigger] t[i].0, t[i].1) by {
        if i == 20 {
        } else if i == 21 {
        } else if i == 22 {
        } else if i == 23 {
        } else if i == 24 {
        } else if i == 25 {
        } else if i == 26 {
        } else if i == 27 {
        } else if i == 28 {
        } else if i == 29 {
        } else if i == 30 {
        } else if i == 31 {
        } else if i == 32 {
        } else if i == 33 {
        } else if i == 34 {
        } else if i == 35 {
        } else if i == 36 {
        } else if i == 37 {
        } else if i == 38 {
        } else if i == 39 {
        }
    }
}

proof fn lemma_table_languages_2()
    ensures
        forall|i: int| 40 <= i < 60 ==> same_language(#[trigger] dictionary_table()[i].0, dictionary_table()[i].1),
{
    let t = dictionary_table();
    reveal_strlit("gl-ES");
    reveal_strlit("gl");
    assert(t[40] == ("gl-ES"@, "gl"@));
    lemma_same_language_at("gl-ES"@, "gl"@, 2);
    reveal_strlit("ka-GE");
    reveal_strlit("ka");
    assert(t[41] == ("ka-GE"@, "ka"@));
    lemma_same_language_at("ka-GE"@, "ka"@, 2);
    reveal_strlit("de-DE");
    reveal_strlit("de-1996");
    assert(t[42] == ("de-DE"@, "de-1996"@));
    lemma_same_language_at("de-DE"@, "de-1996"@, 2);
    reveal_strlit("de-AT");
    reveal_strlit("de-1996");
    assert(t[43] == ("de-AT"@, "de-1996"@));
    lemma_same_language_at("de-AT"@, "de-1996"@, 2);
    reveal_strlit("de-LI");
    reveal_strlit("de-1996");
    assert(t[44] == ("de-LI"@, "de-1996"@));
    lemma_same_language_at("de-LI"@, "de-1996"@, 2);
    reveal_strlit("de-LU");
    reveal_strlit("de-1996");
    assert(t[45] == ("de-LU"@, "de-1996"@));
    lemma_same_language_at("de-LU"@, "de-1996"@, 2);
    reveal_strlit("de-CH");
    reveal_strlit("de-ch-1901");
    assert(t[46] == ("de-CH"@, "de-ch-1901"@));
    lemma_same_language_at("de-CH"@, "de-ch-1901"@, 2);
    reveal_strlit("gu-IN");
    reveal_strlit("gu");
    assert(t[47] == ("gu-IN"@, "gu"@));
    lemma_same_language_at("gu-IN"@, "gu"@, 2);
    reveal_strlit("hi-IN");
    reveal_strlit("hi");
    assert(t[48] == ("hi-IN"@, "hi"@));
    lemma_same_language_at("hi-IN"@, "hi"@, 2);
    reveal_strlit("hu-HU");
    reveal_strlit("hu");
    assert(t[49] == ("hu-HU"@, "hu"@));
    lemma_same_language_at("hu-HU"@, "hu"@, 2);
    reveal_strlit("is-IS");
    reveal_strlit("is");
    assert(t[50] == ("is-IS"@, "is"@));
    lemma_same_language_at("is-IS"@, "is"@, 2);
    reveal_strlit("id-ID");
    reveal_strlit("id");
    assert(t[51] == ("id-ID"@, "id"@));
    lemma_same_language_at("id-ID"@, "id"@, 2);
    reveal_strlit("ga-IE");
    reveal_strlit("ga");
    assert(t[52] == ("ga-IE"@, "ga"@));
    lemma_same_language_at("ga-IE"@, "ga"@, 2);
    reveal_strlit("it-CH");
    reveal_strlit("it");
    assert(t[53] == ("it-CH"@, "it"@));
    lemma_same_language_at("it-CH"@, "it"@, 2);
    reveal_strlit("it-IT");
    reveal_strlit("it");
    assert(t[54] == ("it-IT"@, "it"@));
    lemma_same_language_at("it-IT"@, "it"@, 2);
    reveal_strlit("kn-IN");
    reveal_strlit("kn");
    assert(t[55] == ("kn-IN"@, "kn"@));
    lemma_same_language_at("kn-IN"@, "kn"@, 2);
    reveal_strlit("la-VA");
    reveal_strlit("la");
    assert(t[56] == ("la-VA"@, "la"@));
    lemma_same_language_at("la-VA"@, "la"@, 2);
    reveal_strlit("lv-LV");
    reveal_strlit("lv");
    assert(t[57] == ("lv-LV"@, "lv"@));
    lemma_same_language_at("lv-LV"@, "lv"@, 2);
    reveal_strlit("lt-LT");
    reveal_strlit("lt");
    assert(t[58] == ("lt-LT"@, "lt"@));
    lemma_same_language_at("lt-LT"@, "lt"@, 2);
    reveal_strlit("mk-MK");
    reveal_strlit("mk");
    assert(t[59] == ("mk-MK"@, "mk"@));
    lemma_same_language_at("mk-MK"@, "mk"@, 2);
    assert forall|i: int| 40 <= i < 60 implies same_language(#[trigger] t[i].0, t[i].1) by {
        if i == 40 {
        } else if i == 41 {
        } else if i == 42 {
        } else if i == 43 {
        } else if i == 44 {
        } else if i == 45 {
        } else if i == 46 {
        } else if i == 47 {
        } else if i == 48 {
        } else if i == 49 {
        } else if i == 50 {
        } else if i == 51 {
        } else if i == 52 {
        } else if i == 53 {
        } else if i == 54 {
        } else if i == 55 {
        } else if i == 56 {
        } else if i == 57 {
        } else if i == 58 {
        } else if i == 59 {
        }
    }
}

proof fn lemma_table_languages_3()
    ensures
        forall|i: int| 60 <= i < 80 ==> same_language(#[trigger] dictionary_table()[i].0, dictionary_table()[i].1),
{
    let t = dictionary_table();
    reveal_strlit("ml-IN");
    reveal_strlit("ml");
    assert(t[60] == ("ml-IN"@, "ml"@));
    lemma_same_language_at("ml-IN"@, "ml"@, 2);
    reveal_strlit("mr-IN");
    reveal_strlit("mr");
    assert(t[61] == ("mr-IN"@, "mr"@));
    lemma_same_language_at("mr-IN"@, "mr"@, 2);
    reveal_strlit("mn-MN");
    reveal_strlit("mn-cyrl");
    assert(t[62] == ("mn-MN"@, "mn-cyrl"@));
    lemma_same_language_at("mn-MN"@, "mn-cyrl"@, 2);
    reveal_strlit("mn-Mong-MN");
    reveal_strlit("mn-cyrl");
    assert(t[63] == ("mn-Mong-MN"@, "mn-cyrl"@));
    lemma_same_language_at("mn-Mong-MN"@, "mn-cyrl"@, 2);
    reveal_strlit("nb-NO");
    reveal_strlit("nb");
    assert(t[64] == ("nb-NO"@, "nb"@));
    lemma_same_language_at("nb-NO"@, "nb"@, 2);
    reveal_strlit("nn-NO");
    reveal_strlit("nn");
    assert(t[65] == ("nn-NO"@, "nn"@));
    lemma_same_language_at("nn-NO"@, "nn"@, 2);
    reveal_strlit("oc-FR");
    reveal_strlit("oc");
    assert(t[66] == ("oc-FR"@, "oc"@));
    lemma_same_language_at("oc-FR"@, "oc"@, 2);
    reveal_strlit("or-IN");
    reveal_strlit("or");
    assert(t[67] == ("or-IN"@, "or"@));
    lemma_same_language_at("or-IN"@, "or"@, 2);
    reveal_strlit("pa-IN");
    reveal_strlit("pa");
    assert(t[68] == ("pa-IN"@, "pa"@));
    lemma_same_language_at("pa-IN"@, "pa"@, 2);
    reveal_strlit("pa-Arab-PK");
    reveal_strlit("pa");
    assert(t[69] == ("pa-Arab-PK"@, "pa"@));
    lemma_same_language_at("pa-Arab-PK"@, "pa"@, 2);
    reveal_strlit("pl-PL");
    reveal_strlit("pl");
    assert(t[70] == ("pl-PL"@, "pl"@));
    lemma_same_language_at("pl-PL"@, "pl"@, 2);
    reveal_strlit("pt-PT");
    reveal_strlit("pt");
    assert(t[71] == ("pt-PT"@, "pt"@));
    lemma_same_language_at("pt-PT"@, "pt"@, 2);
    reveal_strlit("pt-BR");
    reveal_strlit("pt");
    assert(t[72] == ("pt-BR"@, "pt"@));
    lemma_same_language_at("pt-BR"@, "pt"@, 2);
    reveal_strlit("ro-MD");
    reveal_strlit("ro");
    assert(t[73] == ("ro-MD"@, "ro"@));
    lemma_same_language_at("ro-MD"@, "ro"@, 2);
    reveal_strlit("ro-RO");
    reveal_strlit("ro");
    assert(t[74] == ("ro-RO"@, "ro"@));
    lemma_same_language_at("ro-RO"@, "ro"@, 2);
    reveal_strlit("rm-CH");
    reveal_strlit("rm");
    assert(t[75] == ("rm-CH"@, "rm"@));
    lemma_same_language_at("rm-CH"@, "rm"@, 2);
    reveal_strlit("ru-MD");
    reveal_strlit("ru");
    assert(t[76] == ("ru-MD"@, "ru"@));
    lemma_same_language_at("ru-MD"@, "ru"@, 2);
    reveal_strlit("ru-RU");
    reveal_strlit("ru");
    assert(t[77] == ("ru-RU"@, "ru"@));
    lemma_same_language_at("ru-RU"@, "ru"@, 2);
    reveal_strlit("sa-IN");
    reveal_strlit("sa");
    assert(t[78] == ("sa-IN"@, "sa"@));
    lemma_same_language_at("sa-IN"@, "sa"@, 2);
    reveal_strlit("sr-Cyrl-BA");
    reveal_strlit("sr-cyrl");
    assert(t[79] == ("sr-Cyrl-BA"@, "sr-cyrl"@));
    lemma_same_language_at("sr-Cyrl-BA"@, "sr-cyrl"@, 2);
    assert forall|i: int| 60 <= i < 80 implies same_language(#[trigger] t[i].0, t[i].1) by {
        if i == 60 {
        } else if i == 61 {
        } else if i == 62 {
        } else if i == 63 {
        } else if i == 64 {
        } else if i == 65 {
        } else if i == 66 {
        } else if i == 67 {
        } else if i == 68 {
        } else if i == 69 {
        } else if i == 70 {
        } else if i == 71 {
        } else if i == 72 {
        } else if i == 73 {
        } else if i == 74 {
        } else if i == 75 {
        } else if i == 76 {
        } else if i == 77 {
        } else if i == 78 {
        } else if i == 79 {
        }
    }
}

proof fn lemma_table_languages_4()
    ensures
        forall|i: int| 80 <= i < 100 ==> same_language(#[trigger] dictionary_table()[i].0, dictionary_table()[i].1),
{
    let t = dictionary_table();
    reveal_strlit("sr-Cyrl-ME");
    reveal_strlit("sr-cyrl");
    assert(t[80] == ("sr-Cyrl-ME"@, "sr-cyrl"@));
    lemma_same_language_at("sr-Cyrl-ME"@, "sr-cyrl"@, 2);
    reveal_strlit("sr-Cyrl-RS");
    reveal_strlit("sr-cyrl");
    assert(t[81] == ("sr-Cyrl-RS"@, "sr-cyrl"@));
    lemma_same_language_at("sr-Cyrl-RS"@, "sr-cyrl"@, 2);
    reveal_strlit("sk-SK");
    reveal_strlit("sk");
    assert(t[82] == ("sk-SK"@, "sk"@));
    lemma_same_language_at("sk-SK"@, "sk"@, 2);
    reveal_strlit("sl-SI");
    reveal_strlit("sl");
    assert(t[83] == ("sl-SI"@, "sl"@));
    lemma_same_language_at("sl-SI"@, "sl"@, 2);
    reveal_strlit("es-419");
    reveal_strlit("es");
    assert(t[84] == ("es-419"@, "es"@));
    lemma_same_language_at("es-419"@, "es"@, 2);
    reveal_strlit("es-AR");
    reveal_strlit("es");
    assert(t[85] == ("es-AR"@, "es"@));
    lemma_same_language_at("es-AR"@, "es"@, 2);
    reveal_strlit("es-BO");
    reveal_strlit("es");
    assert(t[86] == ("es-BO"@, "es"@));
    lemma_same_language_at("es-BO"@, "es"@, 2);
    reveal_strlit("es-CL");
    reveal_strlit("es");
    assert(t[87] == ("es-CL"@, "es"@));
    lemma_same_language_at("es-CL"@, "es"@, 2);
    reveal_strlit("es-CO");
    reveal_strlit("es");
    assert(t[88] == ("es-CO"@, "es"@));
    lemma_same_language_at("es-CO"@, "es"@, 2);
    reveal_strlit("es-CR");
    reveal_strlit("es");
    assert(t[89] == ("es-CR"@, "es"@));
    lemma_same_language_at("es-CR"@, "es"@, 2);
    reveal_strlit("es-CU");
    reveal_strlit("es");
    assert(t[90] == ("es-CU"@, "es"@));
    lemma_same_language_at("es-CU"@, "es"@, 2);
    reveal_strlit("es-DO");
    reveal_strlit("es");
    assert(t[91] == ("es-DO"@, "es"@));
    lemma_same_language_at("es-DO"@, "es"@, 2);
    reveal_strlit("es-EC");
    reveal_strlit("es");
    assert(t[92] == ("es-EC"@, "es"@));
    lemma_same_language_at("es-EC"@, "es"@, 2);
    reveal_strlit("es-ES");
    reveal_strlit("es");
    assert(t[93] == ("es-ES"@, "es"@));
    lemma_same_language_at("es-ES"@, "es"@, 2);
    reveal_strlit("es-GT");
    reveal_strlit("es");
    assert(t[94] == ("es-GT"@, "es"@));
    lemma_same_language_at("es-GT"@, "es"@, 2);
    reveal_strlit("es-HN");
    reveal_strlit("es");
    assert(t[95] == ("es-HN"@, "es"@));
    lemma_same_language_at("es-HN"@, "es"@, 2);
    reveal_strlit("es-MX");
    reveal_strlit("es");
    assert(t[96] == ("es-MX"@, "es"@));
    lemma_same_language_at("es-MX"@, "es"@, 2);
    reveal_strlit("es-NI");
    reveal_strlit("es");
    assert(t[97] == ("es-NI"@, "es"@));
    lemma_same_language_at("es-NI"@, "es"@, 2);
    reveal_strlit("es-PA");
    reveal_strlit("es");
    assert(t[98] == ("es-PA"@, "es"@));
    lemma_same_language_at("es-PA"@, "es"@, 2);
    reveal_strlit("es-PE");
    reveal_strlit("es");
    assert(t[99] == ("es-PE"@, "es"@));
    lemma_same_language_at("es-PE"@, "es"@, 2);
    assert forall|i: int| 80 <= i < 100 implies same_language(#[trigger] t[i].0, t[i].1) by {
        if i == 80 {
        } else if i == 81 {
        } else if i == 82 {
        } else if i == 83 {
        } else if i == 84 {
        } else if i == 85 {
        } else if i == 86 {
        } else if i == 87 {
        } else if i == 88 {
        } else if i == 89 {
        } else if i == 90 {
        } else if i == 91 {
        } else if i == 92 {
        } else if i == 93 {
        } else if i == 94 {
        } else if i == 95 {
        } else if i == 96 {
        } else if i == 97 {
        } else if i == 98 {
        } else if i == 99 {
        }
    }
}

proof fn lemma_table_languages_5()
    ensures
        forall|i: int| 100 <= i < 117 ==> same_language(#[trigger] dictionary_table()[i].0, dictionary_table()[i].1),
{
    let t = dictionary_table();
    reveal_strlit("es-PR");
    reveal_strlit("es");
    assert(t[100] == ("es-PR"@, "es"@));
    lemma_same_language_at("es-PR"@, "es"@, 2);
    reveal_strlit("es-PY");
    reveal_strlit("es");
    assert(t[101] == ("es-PY"@, "es"@));
    lemma_same_language_at("es-PY"@, "es"@, 2);
    reveal_strlit("es-SV");
    reveal_strlit("es");
    assert(t[102] == ("es-SV"@, "es"@));
    lemma_same_language_at("es-SV"@, "es"@, 2);
    reveal_strlit("es-US");
    reveal_strlit("es");
    assert(t[103] == ("es-US"@, "es"@));
    lemma_same_language_at("es-US"@, "es"@, 2);
    reveal_strlit("es-UY");
    reveal_strlit("es");
    assert(t[104] == ("es-UY"@, "es"@));
    lemma_same_language_at("es-UY"@, "es"@, 2);
    reveal_strlit("es-VE");
    reveal_strlit("es");
    assert(t[105] == ("es-VE"@, "es"@));
    lemma_same_language_at("es-VE"@, "es"@, 2);
    reveal_strlit("sv-FI");
    reveal_strlit("sv");
    assert(t[106] == ("sv-FI"@, "sv"@));
    lemma_same_language_at("sv-FI"@, "sv"@, 2);
    reveal_strlit("sv-SE");
    reveal_strlit("sv");
    assert(t[107] == ("sv-SE"@, "sv"@));
    lemma_same_language_at("sv-SE"@, "sv"@, 2);
    reveal_strlit("ta-IN");
    reveal_strlit("ta");
    assert(t[108] == ("ta-IN"@, "ta"@));
    lemma_same_language_at("ta-IN"@, "ta"@, 2);
    reveal_strlit("ta-LK");
    reveal_strlit("ta");
    assert(t[109] == ("ta-LK"@, "ta"@));
    lemma_same_language_at("ta-LK"@, "ta"@, 2);
    reveal_strlit("te-IN");
    reveal_strlit("te");
    assert(t[110] == ("te-IN"@, "te"@));
    lemma_same_language_at("te-IN"@, "te"@, 2);
    reveal_strlit("th-TH");
    reveal_strlit("th");
    assert(t[111] == ("th-TH"@, "th"@));
    lemma_same_language_at("th-TH"@, "th"@, 2);
    reveal_strlit("tr-TR");
    reveal_strlit("tr");
    assert(t[112] == ("tr-TR"@, "tr"@));
    lemma_same_language_at("tr-TR"@, "tr"@, 2);
    reveal_strlit("tk-TM");
    reveal_strlit("tk");
    assert(t[113] == ("tk-TM"@, "tk"@));
    lemma_same_language_at("tk-TM"@, "tk"@, 2);
    reveal_strlit("uk-UA");
    reveal_strlit("uk");
    assert(t[114] == ("uk-UA"@, "uk"@));
    lemma_same_language_at("uk-UA"@, "uk"@, 2);
    reveal_strlit("hsb-DE");
    reveal_strlit("hsb");
    assert(t[115] == ("hsb-DE"@, "hsb"@));
    lemma_same_language_at("hsb-DE"@, "hsb"@, 3);
    reveal_strlit("cy-GB");
    reveal_strlit("cy");
    assert(t[116] == ("cy-GB"@, "cy"@));
    lemma_same_language_at("cy-GB"@, "cy"@, 2);
    assert forall|i: int| 100 <= i < 117 implies same_language(#[trigger] t[i].0, t[i].1) by {
        if i == 100 {
        } else if i == 101 {
        } else if i == 102 {
        } else if i == 103 {
        } else if i == 104 {
        } else if i == 105 {
        } else if i == 106 {
        } else if i == 107 {
        } else if i == 108 {
        } else if i == 109 {
        } else if i == 110 {
        } else if i == 111 {
        } else if i == 112 {
        } else if i == 113 {
        } else if i == 114 {
        } else if i == 115 {
        } else if i == 116 {
        }
    }
}

/// Every pair of the table pairs a tag with a dictionary of its language.
proof fn lemma_table_languages()
    ensures
        forall|i: int| 0 <= i < dictionary_table().len() ==> same_language(#[trigger] dictionary_table()[i].0, dictionary_table()[i].1),
{
    lemma_table_languages_0();
    lemma_table_languages_1();
    lemma_table_languages_2();
    lemma_table_languages_3();
    lemma_table_languages_4();
    lemma_table_languages_5();
    assert(dictionary_table().len() == 117);
}

/// The lookup finds a pair of the table with the tag.
proof fn lemma_lookup_pair(tag: Seq<char>, i: int)
    requires
        0 <= i <= dictionary_table().len(),
    ensures
        table_lookup(dictionary_table().skip(i), tag) matches Some(c) ==> exists|j: int|
            i <= j < dictionary_table().len() && #[trigger] dictionary_table()[j] == (tag, c),
    decreases dictionary_table().len() - i,
{
    let t = dictionary_table();
    if i == t.len() {
        assert(t.skip(i).len() == 0);
    } else {
        lemma_lookup_step(t, tag, i);
        if t[i].0 != tag {
            lemma_lookup_pair(tag, i + 1);
        }
    }
}

/// The dictionary chosen for a language tag is one of that tag's language:
/// the code and the tag have the same language subtag (`it-IT` and `it-CH`
/// are hyphenated with `it`, `de-AT` with `de-1996`, `hsb-DE` with `hsb`).
pub proof fn lemma_dictionary_of_same_language(tag: Seq<char>)
    ensures
        dictionary_code(tag) matches Some(c) ==> same_language(tag, c),
{
    lemma_lookup_pair(tag, 0);
    assert(dictionary_table().skip(0) =~= dictionary_table());
    lemma_table_languages();
    if dictionary_code(tag) is Some {
        let c = dictionary_code(tag)->0;
        let j = choose|j: int| 0 <= j < dictionary_table().len() && #[trigger] dictionary_table()[j] == (tag, c);
        assert(same_language(dictionary_table()[j].0, dictionary_table()[j].1));
    }
}

/// The code of the dictionary for a language tag, if there is one.
pub fn dictionary_code_for(tag: &str) -> (r: Option<&'static str>)
    ensures
        match r {
            Some(c) => dictionary_code(tag@) == Some(c@),
            None => dictionary_code(tag@) is None,
        },
{
    let table = dictionary_pairs();
    let ghost t = dictionary_table();
    assert(t.skip(0) =~= t);
    let mut i: usize = 0;
    while i < table.len()
        invariant
            pairs_view(table@) == t,
            t == dictionary_table(),
            i <= table.len(),
            table_lookup(t, tag@) == table_lookup(t.skip(i as int), tag@),
        decreases table.len() - i,
    {
        proof {
            lemma_lookup_step(t, tag@, i as int);
            assert(t[i as int] == (table@[i as int].0@, table@[i as int].1@));
        }
        if text_eq(table[i].0, tag) {
            return Some(table[i].1);
        }
        i = i + 1;
    }
    assert(t.skip(i as int).len() == 0);
    None
}

// ---------------------------------------------------------------------------
// The dictionaries
// ---------------------------------------------------------------------------

/// The standard dictionary that `hyphenation` builds in for the language
/// with this code.
pub uninterp spec fn embedded_dictionary(code: Seq<char>) -> hyphenation::Standard;

/// `hyphenation::Language::try_from_code` on `code`, then
/// `Standard::from_embedded` for that language. The codes of the table are
/// codes that `try_from_code` knows, and with the `embed_all` feature the
/// crate's build script packages the standard dictionary of every language,
/// so neither step fails for them. The result is the dictionary named by
/// the code.
#[verifier::external_body]
fn load_embedded_dictionary(code: &str) -> (r: hyphenation::Standard)
    requires
        is_table_code(code@),
    ensures
        r == embedded_dictionary(code@),
{
    let language = hyphenation::Language::try_from_code(code).unwrap();
    <hyphenation::Standard as hyphenation::Load>::from_embedded(language).unwrap()
}

/// `hyphenation::Standard`, a hyphenation dictionary.
#[verifier::external_type_specification]
#[verifier::external_body]
pub struct ExStandard(hyphenation::Standard);

/// A built-in hyphenation dictionary together with the code of its
/// language.
pub struct HyphenationDictionary {
    code: String,
    dict: hyphenation::Standard,
}

/// The segments that the built-in dictionary of the language with this
/// code finds for a word.
pub uninterp spec fn hyphenation_segments(code: Seq<char>, word: Seq<char>) -> Seq<Seq<char>>;

/// `hyphenation::Hyphenator::hyphenate` of the word with the dictionary,
/// then its segments (`Word::into_iter().segments()`): the slices of the
/// word between its breaks, so that together, in order, they are the word.
/// The dictionary is the built-in one of `code`, so the segments are those
/// named by code and word.
#[verifier::external_body]
fn word_segments(dict: &hyphenation::Standard, code: &str, word: &str) -> (r: Vec<String>)
    requires
        *dict == embedded_dictionary(code@),
    ensures
        strings_view(r@) == hyphenation_segments(code@, word@),
        concat(strings_view(r@)) == word@,
{
    hyphenation::Hyphenator::hyphenate(dict, word).into_iter().segments().map(|s| s.to_string()).collect()
}

impl HyphenationDictionary {
    #[verifier::type_invariant]
    spec fn well_formed(self) -> bool {
        self.dict == embedded_dictionary(self.code@)
    }

    /// The code of the dictionary's language.
    pub closed spec fn code(self) -> Seq<char> {
        self.code@
    }

    /// The segments the dictionary finds for a word.
    pub fn segments_of(&self, word: &str) -> (r: Vec<String>)
        ensures
            strings_view(r@) == hyphenation_segments(self.code(), word@),
            concat(strings_view(r@)) == word@,
    {
        proof {
            use_type_invariant(self);
        }
        word_segments(&self.dict, self.code.as_str(), word)
    }

    /// The built-in dictionary of a code of the table.
    fn load(code: &str) -> (r: HyphenationDictionary)
        requires
            is_table_code(code@),
        ensures
            r.code() == code@,
    {
        let dict = load_embedded_dictionary(code);
        HyphenationDictionary { code: owned(code), dict }
    }
}

/// The dictionary for a language tag, where one is built in.
pub fn get_hyphenation_dict(tag: &str) -> (r: Option<HyphenationDictionary>)
    ensures
        match dictionary_code(tag@) {
            Some(c) => r matches Some(d) && d.code() == c,
            None => r is None,
        },
{
    match dictionary_code_for(tag) {
        Some(code) => {
            proof {
                assert(dictionary_table().skip(0) =~= dictionary_table());
                lemma_lookup_in_table(tag@, 0);
            }
            Some(HyphenationDictionary::load(code))
        },
        None => None,
    }
}

/// The code of the dictionary used for a section in this language: the
/// language's own where there is one, US English otherwise or where no
/// language is set.
pub open spec fn section_dictionary_code(lang: Option<Seq<char>>) -> Seq<char> {
    match lang {
        Some(tag) => match dictionary_code(tag) {
            Some(c) => c,
            None => "en-us"@,
        },
        None => "en-us"@,
    }
}

/// A section is hyphenated with a dictionary of its own language where its
/// language tag has one (Italian text with the Italian patterns), and with
/// the US English one otherwise.
pub proof fn lemma_section_dictionary_language(lang: Option<Seq<char>>)
    ensures
        match lang {
            Some(tag) => match dictionary_code(tag) {
                Some(_) => same_language(tag, section_dictionary_code(lang)),
                None => section_dictionary_code(lang) == "en-us"@,
            },
            None => section_dictionary_code(lang) == "en-us"@,
        },
{
    if let Some(tag) = lang {
        lemma_dictionary_of_same_language(tag);
    }
}

pub open spec fn opt_text(o: Option<String>) -> Option<Seq<char>> {
    match o {
        Some(t) => Some(t@),
        None => None,
    }
}

/// The dictionary used for a section in this language: the language's own
/// where there is one, US English otherwise or where no language is set.
pub fn section_dictionary(lang: &Option<String>) -> (r: HyphenationDictionary)
    ensures
        r.code() == section_dictionary_code(opt_text(*lang)),
{
    let found = match lang {
        Some(tag) => get_hyphenation_dict(tag.as_str()),
        None => None,
    };
    match found {
        Some(dict) => dict,
        None => {
            proof {
                assert(dictionary_table()[22].1 == "en-us"@);
            }
            HyphenationDictionary::load("en-us")
        },
    }
}

// ---------------------------------------------------------------------------
// Section titles
// ---------------------------------------------------------------------------

/// The title and subtitle of a section as they are exported: where soft
/// hyphens are asked for, hyphenated with the dictionary for the section's
/// language; otherwise unchanged.
pub fn prepare_titles(title: String, subtitle: Option<String>, lang: &Option<String>, add_soft_hyphens: bool) -> (r: (
    String,
    Option<String>,
))
    ensures
        add_soft_hyphens ==> r.0@ == hyphenated_text(section_dictionary_code(opt_text(*lang)), title@),
        add_soft_hyphens ==> soft_hyphenated(title@, r.0@),
        !add_soft_hyphens ==> r.0 == title,
        subtitle is None <==> r.1 is None,
        subtitle is Some && add_soft_hyphens ==> r.1->0@ == hyphenated_text(
            section_dictionary_code(opt_text(*lang)),
            subtitle->0@,
        ),
        subtitle is Some && add_soft_hyphens ==> soft_hyphenated(subtitle->0@, r.1->0@),
        !add_soft_hyphens ==> r.1 == subtitle,
{
    let dict = section_dictionary(lang);
    let subtitle = match subtitle {
        Some(s) => {
            if add_soft_hyphens {
                Some(hyphenate_text(s, &dict))
            } else {
                Some(s)
            }
        },
        None => None,
    };
    let title = if add_soft_hyphens {
        hyphenate_text(title, &dict)
    } else {
        title
    };
    (title, subtitle)
}

// ---------------------------------------------------------------------------
// Detected languages
// ---------------------------------------------------------------------------

/// A language that detection of the language of a text can report, by the
/// name the detector gives it; `Other` stands for each language it can
/// report that has no tag here.
#[derive(Clone, Copy, Debug, PartialEq, Eq, Structural)]
pub enum DetectedLanguage {
    Afrikaans,
    Albanian,
    Arabic,
    Armenian,
    Azerbaijani,
    Basque,
    Belarusian,
    Bokmal,
    Bosnian,
    Bulgarian,
    Catalan,
    Chinese,
    Croatian,
    Czech,
    Danish,
    Dutch,
    English,
    Estonian,
    Finnish,
    French,
    Georgian,
    German,
    Greek,
    Gujarati,
    Hebrew,
    Hindi,
    Hungarian,
    Icelandic,
    Indonesian,
    Irish,
    Italian,
    Japanese,
    Kazakh,
    Korean,
    Latvian,
    Lithuanian,
    Macedonian,
    Malay,
    Maori,
    Marathi,
    Mongolian,
    Nynorsk,
    Persian,
    Polish,
    Portuguese,
    Punjabi,
    Romanian,
    Russian,
    Serbian,
    Slovak,
    Slovene,
    Somali,
    Sotho,
    Spanish,
    Swahili,
    Swedish,
    Tamil,
    Telugu,
    Thai,
    Tsonga,
    Tswana,
    Turkish,
    Ukrainian,
    Urdu,
    Vietnamese,
    Welsh,
    Xhosa,
    Yoruba,
    Zulu,
    Other,
}

/// The tag (BCP 47, with a region) of a detected language, where it has one.
pub open spec fn detected_tag(l: DetectedLanguage) -> Option<Seq<char>> {
    match l {
        DetectedLanguage::Afrikaans => Some("af-ZA"@),
        DetectedLanguage::Albanian => Some("sq-AL"@),
        DetectedLanguage::Arabic => Some("ar-SA"@),
        DetectedLanguage::Armenian => Some("hy-AM"@),
        DetectedLanguage::Azerbaijani => Some("az-Latn-AZ"@),
        DetectedLanguage::Basque => Some("eu-ES"@),
        DetectedLanguage::Belarusian => Some("be-BY"@),
        DetectedLanguage::Bokmal => Some("nb-NO"@),
        DetectedLanguage::Bosnian => Some("bs-Latn-BA"@),
        DetectedLanguage::Bulgarian => Some("bg-BG"@),
        DetectedLanguage::Catalan => Some("ca-ES"@),
        DetectedLanguage::Chinese => Some("zh-CN"@),
        DetectedLanguage::Croatian => Some("hr-HR"@),
        DetectedLanguage::Czech => Some("cs-CZ"@),
        DetectedLanguage::Danish => Some("da-DK"@),
        DetectedLanguage::Dutch => Some("nl-NL"@),
        DetectedLanguage::English => Some("en-US"@),
        DetectedLanguage::Estonian => Some("et-EE"@),
        DetectedLanguage::Finnish => Some("fi-FI"@),
        DetectedLanguage::French => Some("fr-FR"@),
        DetectedLanguage::Georgian => Some("ka-GE"@),
        DetectedLanguage::German => Some("de-DE"@),
        DetectedLanguage::Greek => Some("el-GR"@),
        DetectedLanguage::Gujarati => Some("gu-IN"@),
        DetectedLanguage::Hebrew => Some("he-IL"@),
        DetectedLanguage::Hindi => Some("hi-IN"@),
        DetectedLanguage::Hungarian => Some("hu-HU"@),
        DetectedLanguage::Icelandic => Some("is-IS"@),
        DetectedLanguage::Indonesian => Some("id-ID"@),
        DetectedLanguage::Irish => Some("ga-IE"@),
        DetectedLanguage::Italian => Some("it-IT"@),
        DetectedLanguage::Japanese => Some("ja-JP"@),
        DetectedLanguage::Kazakh => Some("kk-KZ"@),
        DetectedLanguage::Korean => Some("ko-KR"@),
        DetectedLanguage::Latvian => Some("lv-LV"@),
        DetectedLanguage::Lithuanian => Some("lt-LT"@),
        DetectedLanguage::Macedonian => Some("mk-MK"@),
        DetectedLanguage::Malay => Some("ms-MY"@),
        DetectedLanguage::Maori => Some("mi-NZ"@),
        DetectedLanguage::Marathi => Some("mr-IN"@),
        DetectedLanguage::Mongolian => Some("mn-MN"@),
        DetectedLanguage::Nynorsk => Some("nn-NO"@),
        DetectedLanguage::Persian => Some("fa-IR"@),
        DetectedLanguage::Polish => Some("pl-PL"@),
        DetectedLanguage::Portuguese => Some("pt-PT"@),
        DetectedLanguage::Punjabi => Some("pa-IN"@),
        DetectedLanguage::Romanian => Some("ro-RO"@),
        DetectedLanguage::Russian => Some("ru-RU"@),
        DetectedLanguage::Serbian => Some("sr-Latn-RS"@),
        DetectedLanguage::Slovak => Some("sk-SK"@),
        DetectedLanguage::Slovene => Some("sl-SI"@),
        DetectedLanguage::Somali => Some("so-SO"@),
        DetectedLanguage::Sotho => Some("st-ZA"@),
        DetectedLanguage::Spanish => Some("es-ES"@),
        DetectedLanguage::Swahili => Some("sw-KE"@),
        DetectedLanguage::Swedish => Some("sv-SE"@),
        DetectedLanguage::Tamil => Some("ta-IN"@),
        DetectedLanguage::Telugu => Some("te-IN"@),
        DetectedLanguage::Thai => Some("th-TH"@),
        DetectedLanguage::Tsonga => Some("ts-ZA"@),
        DetectedLanguage::Tswana => Some("tn-ZA"@),
        DetectedLanguage::Turkish => Some("tr-TR"@),
        DetectedLanguage::Ukrainian => Some("uk-UA"@),
        DetectedLanguage::Urdu => Some("ur-PK"@),
        DetectedLanguage::Vietnamese => Some("vi-VN"@),
        DetectedLanguage::Welsh => Some("cy-GB"@),
        DetectedLanguage::Xhosa => Some("xh-ZA"@),
        DetectedLanguage::Yoruba => Some("yo-NG"@),
        DetectedLanguage::Zulu => Some("zu-ZA"@),
        DetectedLanguage::Other => None,
    }
}

/// The tag (BCP 47, with a region) of a detected language, where it has one.
pub fn language_to_bcp47(l: DetectedLanguage) -> (r: Option<&'static str>)
    ensures
        match r {
            Some(t) => detected_tag(l) == Some(t@),
            None => detected_tag(l) is None,
        },
{
    match l {
        DetectedLanguage::Afrikaans => Some("af-ZA"),
        DetectedLanguage::Albanian => Some("sq-AL"),
        DetectedLanguage::Arabic => Some("ar-SA"),
        DetectedLanguage::Armenian => Some("hy-AM"),
        DetectedLanguage::Azerbaijani => Some("az-Latn-AZ"),
        DetectedLanguage::Basque => Some("eu-ES"),
        DetectedLanguage::Belarusian => Some("be-BY"),
        DetectedLanguage::Bokmal => Some("nb-NO"),
        DetectedLanguage::Bosnian => Some("bs-Latn-BA"),
        DetectedLanguage::Bulgarian => Some("bg-BG"),
        DetectedLanguage::Catalan => Some("ca-ES"),
        DetectedLanguage::Chinese => Some("zh-CN"),
        DetectedLanguage::Croatian => Some("hr-HR"),
        DetectedLanguage::Czech => Some("cs-CZ"),
        DetectedLanguage::Danish => Some("da-DK"),
        DetectedLanguage::Dutch => Some("nl-NL"),
        DetectedLanguage::English => Some("en-US"),
        DetectedLanguage::Estonian => Some("et-EE"),
        DetectedLanguage::Finnish => Some("fi-FI"),
        DetectedLanguage::French => Some("fr-FR"),
        DetectedLanguage::Georgian => Some("ka-GE"),
        DetectedLanguage::German => Some("de-DE"),
        DetectedLanguage::Greek => Some("el-GR"),
        DetectedLanguage::Gujarati => Some("gu-IN"),
        DetectedLanguage::Hebrew => Some("he-IL"),
        DetectedLanguage::Hindi => Some("hi-IN"),
        DetectedLanguage::Hungarian => Some("hu-HU"),
        DetectedLanguage::Icelandic => Some("is-IS"),
        DetectedLanguage::Indonesian => Some("id-ID"),
        DetectedLanguage::Irish => Some("ga-IE"),
        DetectedLanguage::Italian => Some("it-IT"),
        DetectedLanguage::Japanese => Some("ja-JP"),
        DetectedLanguage::Kazakh => Some("kk-KZ"),
        DetectedLanguage::Korean => Some("ko-KR"),
        DetectedLanguage::Latvian => Some("lv-LV"),
        DetectedLanguage::Lithuanian => Some("lt-LT"),
        DetectedLanguage::Macedonian => Some("mk-MK"),
        DetectedLanguage::Malay => Some("ms-MY"),
        DetectedLanguage::Maori => Some("mi-NZ"),
        DetectedLanguage::Marathi => Some("mr-IN"),
        DetectedLanguage::Mongolian => Some("mn-MN"),
        DetectedLanguage::Nynorsk => Some("nn-NO"),
        DetectedLanguage::Persian => Some("fa-IR"),
        DetectedLanguage::Polish => Some("pl-PL"),
        DetectedLanguage::Portuguese => Some("pt-PT"),
        DetectedLanguage::Punjabi => Some("pa-IN"),
        DetectedLanguage::Romanian => Some("ro-RO"),
        DetectedLanguage::Russian => Some("ru-RU"),
        DetectedLanguage::Serbian => Some("sr-Latn-RS"),
        DetectedLanguage::Slovak => Some("sk-SK"),
        DetectedLanguage::Slovene => Some("sl-SI"),
        DetectedLanguage::Somali => Some("so-SO"),
        DetectedLanguage::Sotho => Some("st-ZA"),
        DetectedLanguage::Spanish => Some("es-ES"),
        DetectedLanguage::Swahili => Some("sw-KE"),
        DetectedLanguage::Swedish => Some("sv-SE"),
        DetectedLanguage::Tamil => Some("ta-IN"),
        DetectedLanguage::Telugu => Some("te-IN"),
        DetectedLanguage::Thai => Some("th-TH"),
        DetectedLanguage::Tsonga => Some("ts-ZA"),
        DetectedLanguage::Tswana => Some("tn-ZA"),
        DetectedLanguage::Turkish => Some("tr-TR"),
        DetectedLanguage::Ukrainian => Some("uk-UA"),
        DetectedLanguage::Urdu => Some("ur-PK"),
        DetectedLanguage::Vietnamese => Some("vi-VN"),
        DetectedLanguage::Welsh => Some("cy-GB"),
        DetectedLanguage::Xhosa => Some("xh-ZA"),
        DetectedLanguage::Yoruba => Some("yo-NG"),
        DetectedLanguage::Zulu => Some("zu-ZA"),
        DetectedLanguage::Other => None,
    }
}

} // verus!

//! Counting syllables with the pronouncing dictionary: every dictionary word of
//! the text contributes the number of stress markers (digits) in its first
//! pronunciation.

use vstd::prelude::*;
use crate::cmudict::{lemma_key_index_range, CmuDict, CmuModel, dict_keys_repr, key_index, model_keys};
use crate::text::{CharClass, chars_to_string, seq_contains, split_words, str_contains,
    str_to_chars, str_to_lowercase, str_to_uppercase, trim, trim_chars, unicode_lowercase,
    unicode_uppercase, words, char_views, lemma_words_join, class_has, trim_start, trim_end};

verus! {

/// `s` with every `-` replaced by a space.
pub open spec fn dashes_to_spaces(s: Seq<char>) -> Seq<char> {
    s.map_values(|c: char| if c == '-' { ' ' } else { c })
}

/// `w` without a trailing possessive `'s` (or `’s`).
pub open spec fn strip_possessive(w: Seq<char>) -> Seq<char> {
    if w.len() >= 2 && w.last() == 's' && (w[w.len() - 2] == '\'' || w[w.len() - 2] == '\u{2019}') {
        w.take(w.len() - 2)
    } else {
        w
    }
}

/// The number of ASCII digits in `s`.
pub open spec fn count_digits(s: Seq<char>) -> nat
    decreases s.len(),
{
    if s.len() == 0 {
        0
    } else {
        count_digits(s.drop_last()) + if '0' <= s.last() && s.last() <= '9' { 1nat } else { 0nat }
    }
}

/// The syllables one token contributes: its punctuation trimmed and possessive
/// dropped, it is upper-cased; if that text occurs anywhere in the key listing
/// `repr` and is a key, the digits of its first pronunciation are counted.
pub open spec fn token_syllables(m: CmuModel, repr: Seq<char>, token: Seq<char>) -> nat {
    let w = unicode_uppercase(strip_possessive(trim(token, CharClass::Punctuation)));
    let i = key_index(model_keys(m), w);
    if seq_contains(repr, w) && i >= 0 && m[i].1.len() > 0 {
        count_digits(m[i].1[0])
    } else {
        0
    }
}

/// The syllables of a sequence of tokens.
pub open spec fn tokens_syllables(m: CmuModel, repr: Seq<char>, tokens: Seq<Seq<char>>) -> nat
    decreases tokens.len(),
{
    if tokens.len() == 0 {
        0
    } else {
        tokens_syllables(m, repr, tokens.drop_last()) + token_syllables(m, repr, tokens.last())
    }
}

/// The syllable count of `text`: dashes become spaces, the text is lower-cased
/// and split on white space, and each token counts as [`token_syllables`] says.
pub open spec fn syllables(m: CmuModel, text: Seq<char>) -> nat {
    tokens_syllables(
        m,
        dict_keys_repr(model_keys(m)),
        words(unicode_lowercase(dashes_to_spaces(text)), CharClass::PySpace),
    )
}

pub proof fn lemma_tokens_add(m: CmuModel, repr: Seq<char>, t1: Seq<Seq<char>>, t2: Seq<Seq<char>>)
    ensures
        tokens_syllables(m, repr, t1 + t2) == tokens_syllables(m, repr, t1) + tokens_syllables(m, repr, t2),
    decreases t2.len(),
{
    if t2.len() == 0 {
        assert(t1 + t2 =~= t1);
    } else {
        lemma_tokens_add(m, repr, t1, t2.drop_last());
        assert((t1 + t2).drop_last() =~= t1 + t2.drop_last());
        assert((t1 + t2).last() == t2.last());
    }
}

/// The syllables of two texts joined by a space are the sum of theirs: each
/// white-space separated token counts on its own. Stated for texts whose
/// lower-casing is that of the two texts joined by the space.
pub proof fn law_syllables_add(m: CmuModel, a: Seq<char>, b: Seq<char>)
    requires
        unicode_lowercase(dashes_to_spaces(a) + seq![' '] + dashes_to_spaces(b))
            == unicode_lowercase(dashes_to_spaces(a)) + seq![' '] + unicode_lowercase(dashes_to_spaces(b)),
    ensures
        syllables(m, a + seq![' '] + b) == syllables(m, a) + syllables(m, b),
{
    assert(dashes_to_spaces(a + seq![' '] + b) =~= dashes_to_spaces(a) + seq![' '] + dashes_to_spaces(b));
    let la = unicode_lowercase(dashes_to_spaces(a));
    let lb = unicode_lowercase(dashes_to_spaces(b));
    assert(class_has(CharClass::PySpace, ' '));
    lemma_words_join(la, lb, CharClass::PySpace);
    lemma_tokens_add(m, dict_keys_repr(model_keys(m)), words(la, CharClass::PySpace), words(lb, CharClass::PySpace));
}

/// Leading punctuation goes the same way before any suffix, as long as `w` has a
/// character that is not punctuation.
pub proof fn lemma_trim_start_append(w: Seq<char>, x: Seq<char>)
    requires
        exists|i: int| 0 <= i < w.len() && !class_has(CharClass::Punctuation, #[trigger] w[i]),
    ensures
        trim_start(w + x, CharClass::Punctuation) == trim_start(w, CharClass::Punctuation) + x,
        trim_start(w, CharClass::Punctuation).len() > 0,
        trim_start(w, CharClass::Punctuation).last() == w.last(),
    decreases w.len(),
{
    assert((w + x)[0] == w[0]);
    if class_has(CharClass::Punctuation, w[0]) {
        let i = choose|i: int| 0 <= i < w.len() && !class_has(CharClass::Punctuation, #[trigger] w[i]);
        assert(w.drop_first()[i - 1] == w[i]);
        lemma_trim_start_append(w.drop_first(), x);
        assert((w + x).drop_first() =~= w.drop_first() + x);
        assert(w.drop_first().last() == w.last());
    }
}

/// A token ending in a possessive counts as the token before it, for the
/// possessive written with the ASCII apostrophe or with U+2019: both spellings of
/// the possessive count the same.
pub proof fn law_possessive_spellings(m: CmuModel, repr: Seq<char>, w: Seq<char>)
    requires
        exists|i: int| 0 <= i < w.len() && !class_has(CharClass::Punctuation, #[trigger] w[i]),
    ensures
        token_syllables(m, repr, w + "\u{2019}s"@) == token_syllables(m, repr, w + "'s"@),
{
    reveal_strlit("\u{2019}s");
    reveal_strlit("'s");
    assert("'s"@ =~= seq!['\'', 's']);
    assert("\u{2019}s"@ =~= seq!['\u{2019}', 's']);
    lemma_possessive_dropped(w, "\u{2019}s"@);
    lemma_possessive_dropped(w, "'s"@);
}

/// Appending a possessive (`'s` or `’s`) to a token with a character that is not
/// punctuation leaves the word looked up as the token's own, leading punctuation
/// trimmed.
pub proof fn lemma_possessive_dropped(w: Seq<char>, p: Seq<char>)
    requires
        exists|i: int| 0 <= i < w.len() && !class_has(CharClass::Punctuation, #[trigger] w[i]),
        p == seq!['\'', 's'] || p == seq!['\u{2019}', 's'],
    ensures
        strip_possessive(trim(w + p, CharClass::Punctuation)) == trim_start(w, CharClass::Punctuation),
{
    lemma_trim_start_append(w, p);
    let t = trim_start(w, CharClass::Punctuation) + p;
    assert(t.last() == 's');
    assert(!class_has(CharClass::Punctuation, 's'));
    assert(trim_end(t, CharClass::Punctuation) == t);
    assert(t.take(t.len() - 2) =~= trim_start(w, CharClass::Punctuation));
}

/// With the ASCII apostrophe, the possessive of a token that does not itself end
/// in `s` or punctuation counts as the token.
pub proof fn law_possessive_counts_as_word(m: CmuModel, repr: Seq<char>, w: Seq<char>)
    requires
        w.len() > 0,
        !class_has(CharClass::Punctuation, w.last()),
        w.last() != 's',
    ensures
        token_syllables(m, repr, w + "'s"@) == token_syllables(m, repr, w),
        token_syllables(m, repr, w + "\u{2019}s"@) == token_syllables(m, repr, w),
{
    reveal_strlit("\u{2019}s");
    reveal_strlit("'s");
    assert("'s"@ =~= seq!['\'', 's']);
    assert("\u{2019}s"@ =~= seq!['\u{2019}', 's']);
    assert(!class_has(CharClass::Punctuation, w[w.len() - 1]));
    lemma_possessive_dropped(w, "'s"@);
    lemma_possessive_dropped(w, "\u{2019}s"@);
    lemma_trim_start_append(w, Seq::empty());
    assert(w + Seq::<char>::empty() =~= w);
    let t = trim_start(w, CharClass::Punctuation);
    assert(trim_end(t, CharClass::Punctuation) == t);
    assert(strip_possessive(t) == t);
}

/// The number of ASCII digits in `s`.
pub fn digits_in(s: &str) -> (n: u64)
    ensures
        n == count_digits(s@),
{
    let v = str_to_chars(s);
    let mut n: u64 = 0;
    let mut i: usize = 0;
    while i < v.len()
        invariant
            i <= v.len(),
            n == count_digits(v@.take(i as int)),
            n <= i,
        decreases v.len() - i,
    {
        assert(v@.take(i as int + 1).drop_last() == v@.take(i as int));
        if '0' <= v[i] && v[i] <= '9' {
            n += 1;
        }
        i += 1;
    }
    assert(v@.take(v.len() as int) == v@);
    n
}

/// The syllables one token contributes (see [`token_syllables`]).
pub fn syllables_of_token(cmu: &CmuDict, token: &[char]) -> (n: u64)
    ensures
        n == token_syllables(cmu.model(), dict_keys_repr(model_keys(cmu.model())), token@),
{
    let mut w = trim_chars(token, &CharClass::Punctuation);
    let len = w.len();
    if len >= 2 && w[len - 1] == 's' && (w[len - 2] == '\'' || w[len - 2] == '\u{2019}') {
        w.truncate(len - 2);
        assert(w@ =~= strip_possessive(trim(token@, CharClass::Punctuation)));
    } else {
        assert(w@ == strip_possessive(trim(token@, CharClass::Punctuation)));
    }
    proof {
        lemma_key_index_range(model_keys(cmu.model()), unicode_uppercase(w@));
    }
    let ws = chars_to_string(w.as_slice());
    let upper = str_to_uppercase(ws.as_str());
    if !str_contains(cmu.keys_repr().as_str(), upper.as_str()) {
        return 0;
    }
    let ghost m = cmu.model();
    let ghost wk = unicode_uppercase(strip_possessive(trim(token@, CharClass::Punctuation)));
    assert(upper@ == wk);
    match cmu.find(upper.as_str()) {
        Some(i) => {
            let prons = cmu.prons(i);
            assert(key_index(model_keys(m), wk) == i);
            if prons.len() > 0 {
                assert(m[i as int].1[0] == prons@[0]@);
                digits_in(prons[0].as_str())
            } else {
                assert(m[i as int].1.len() == 0);
                0
            }
        },
        None => {
            assert(key_index(model_keys(m), wk) < 0);
            0
        },
    }
}

/// `count_syllables(words)`: the number of syllables the dictionary gives the
/// words of `text` (see [`syllables`]), capped at `i64::MAX`.
pub fn count_syllables(cmu: &CmuDict, text: &str) -> (n: i64)
    ensures
        n == (if syllables(cmu.model(), text@) <= i64::MAX { syllables(cmu.model(), text@) as int } else { i64::MAX as int }),
{
    let v = str_to_chars(text);
    let mut replaced: Vec<char> = Vec::new();
    let mut i: usize = 0;
    while i < v.len()
        invariant
            i <= v.len(),
            replaced@ == dashes_to_spaces(v@.take(i as int)),
        decreases v.len() - i,
    {
        replaced.push(if v[i] == '-' { ' ' } else { v[i] });
        assert(dashes_to_spaces(v@.take(i as int + 1)) =~= dashes_to_spaces(v@.take(i as int)).push(if v@[i as int] == '-' { ' ' } else { v@[i as int] }));
        i += 1;
    }
    assert(v@.take(v.len() as int) == v@);
    let rs = chars_to_string(replaced.as_slice());
    let lowered = str_to_lowercase(rs.as_str());
    let lv = str_to_chars(lowered.as_str());
    let tokens = split_words(lv.as_slice(), &CharClass::PySpace);
    let ghost repr = dict_keys_repr(model_keys(cmu.model()));
    let ghost toks = char_views(tokens@);
    let mut total: u64 = 0;
    let mut capped = false;
    let mut k: usize = 0;
    while k < tokens.len()
        invariant
            k <= tokens.len(),
            toks == char_views(tokens@),
            !capped ==> total == tokens_syllables(cmu.model(), repr, toks.take(k as int)),
            !capped ==> total <= i64::MAX,
            capped ==> tokens_syllables(cmu.model(), repr, toks.take(k as int)) > i64::MAX,
            repr == dict_keys_repr(model_keys(cmu.model())),
        decreases tokens.len() - k,
    {
        assert(toks.take(k as int + 1).drop_last() == toks.take(k as int));
        assert(toks.take(k as int + 1).last() == tokens@[k as int]@);
        let c = syllables_of_token(cmu, tokens[k].as_slice());
        if !capped {
            if c > (i64::MAX as u64) - total {
                capped = true;
            } else {
                total = total + c;
            }
        }
        k += 1;
    }
    assert(toks.take(tokens.len() as int) == toks);
    if capped {
        i64::MAX
    } else {
        total as i64
    }
}

} // verus!

//! Finding rhymes in the pronouncing dictionary: words whose pronunciation,
//! stress digits removed, ends with the final sounds of the given word.

use vstd::prelude::*;
use crate::cmudict::{CmuDict, CmuModel, key_index, model_keys};
use crate::text::{chars_eq, chars_to_string, char_views, join, join_chars, push_str,
    split_chars, split_on, str_to_chars, str_to_uppercase, string_views, unicode_uppercase};

verus! {

// ---------------------------------------------------------------------------
// Specification
// ---------------------------------------------------------------------------

/// Whether `s` holds an ASCII digit (a phoneme with a stress marker is a vowel).
pub open spec fn has_digit(s: Seq<char>) -> bool {
    exists|i: int| 0 <= i < s.len() && '0' <= #[trigger] s[i] && s[i] <= '9'
}

/// The positions in `ph` whose phoneme has a digit (`want`) or has none (`!want`),
/// in increasing order.
pub open spec fn positions(ph: Seq<Seq<char>>, want: bool) -> Seq<int>
    decreases ph.len(),
{
    if ph.len() == 0 {
        Seq::empty()
    } else if has_digit(ph.last()) == want {
        positions(ph.drop_last(), want).push(ph.len() - 1)
    } else {
        positions(ph.drop_last(), want)
    }
}

/// `get_phoneme_count_to_rhyme`: how many trailing phonemes to match for each
/// rhyming strength. Empty when every phoneme is a vowel; otherwise the distance
/// from the end to the last consonant, then to the last, second-last and
/// third-last vowels, as far as there are vowels.
pub open spec fn phoneme_targets(ph: Seq<Seq<char>>) -> Seq<int> {
    let vowels = positions(ph, true);
    let others = positions(ph, false);
    let n = ph.len() as int;
    if others.len() == 0 {
        Seq::empty()
    } else {
        let first = seq![n - others.last()];
        let k = if vowels.len() < 3 { vowels.len() as int } else { 3 };
        first + Seq::new(k as nat, |j: int| n - vowels[vowels.len() - 1 - j])
    }
}

/// Python's `v[i]` with negative indices counting from the end; `None` where
/// Python raises `IndexError`.
pub open spec fn py_index_spec(v: Seq<int>, i: int) -> Option<int> {
    let idx = if i < 0 { v.len() + i } else { i };
    if 0 <= idx < v.len() { Some(v[idx]) } else { None }
}

/// Python's `v[start:]`.
pub open spec fn py_slice_from_spec<A>(v: Seq<A>, start: int) -> Seq<A> {
    let eff = if start < 0 {
        if v.len() + start < 0 { 0 } else { v.len() + start }
    } else if start > v.len() {
        v.len() as int
    } else {
        start
    };
    v.skip(eff)
}

/// `s` without its ASCII digits.
pub open spec fn strip_digits_spec(s: Seq<char>) -> Seq<char> {
    s.filter(|c: char| !('0' <= c && c <= '9'))
}

pub open spec fn ends_with(s: Seq<char>, t: Seq<char>) -> bool {
    t.len() <= s.len() && s.skip(s.len() - t.len()) == t
}

/// Which entry of the targets a rhyming strength picks (`None`: `IndexError`).
pub open spec fn rhyme_target(targets: Seq<int>, rt: int) -> Option<int> {
    if rt == 0 {
        py_index_spec(targets, -1)
    } else if targets.len() >= rt - 1 {
        py_index_spec(targets, rt - 1)
    } else {
        py_index_spec(targets, -1)
    }
}

/// The sounds a rhyme must end with: the last `target` phonemes, joined by spaces,
/// digits removed.
pub open spec fn target_sounds(ph: Seq<Seq<char>>, target: int) -> Seq<char> {
    strip_digits_spec(join(py_slice_from_spec(ph, ph.len() - target), " "@))
}

/// The matches one dictionary entry gives: the word once for every variation that
/// ends with `sounds`, unless the word is `upper` or `upper` followed by `E`.
pub open spec fn entry_matches(word: Seq<char>, vars: Seq<Seq<char>>, upper: Seq<char>, sounds: Seq<char>) -> Seq<Seq<char>>
    decreases vars.len(),
{
    if vars.len() == 0 {
        Seq::empty()
    } else {
        let prev = entry_matches(word, vars.drop_last(), upper, sounds);
        if ends_with(strip_digits_spec(vars.last()), sounds) && word != upper && word != upper.push('E') {
            prev.push(word)
        } else {
            prev
        }
    }
}

/// The matches of the whole dictionary, in dictionary order.
pub open spec fn dict_matches(m: CmuModel, upper: Seq<char>, sounds: Seq<char>) -> Seq<Seq<char>>
    decreases m.len(),
{
    if m.len() == 0 {
        Seq::empty()
    } else {
        dict_matches(m.drop_last(), upper, sounds) + entry_matches(m.last().0, m.last().1, upper, sounds)
    }
}

/// The search for one pronunciation, starting at strength `rt`: matches are
/// collected for the target the strength picks; with no match the strength
/// drops by one and the search repeats, until strength 1 or a match. Returns the
/// matches and the final strength, or `None` where an index is out of range.
pub open spec fn pron_search(m: CmuModel, upper: Seq<char>, ph: Seq<Seq<char>>, rt: int) -> Option<(Seq<Seq<char>>, int)>
    decreases rt + phoneme_targets(ph).len(),
{
    let targets = phoneme_targets(ph);
    match rhyme_target(targets, rt) {
        None => None,
        Some(t) => {
            let found = dict_matches(m, upper, target_sounds(ph, t));
            if rt == 1 || found.len() > 0 {
                Some((found, rt))
            } else if rt + targets.len() >= 1 {
                match pron_search(m, upper, ph, rt - 1) {
                    None => None,
                    Some(r) => Some((found + r.0, r.1)),
                }
            } else {
                None
            }
        },
    }
}

/// The search over the pronunciations `prons` in order, the strength carrying
/// over from one to the next.
pub open spec fn prons_search(m: CmuModel, upper: Seq<char>, prons: Seq<Seq<char>>, rt: int) -> Option<(Seq<Seq<char>>, int)>
    decreases prons.len(),
{
    if prons.len() == 0 {
        Some((Seq::empty(), rt))
    } else {
        match prons_search(m, upper, prons.drop_last(), rt) {
            None => None,
            Some(r) => match pron_search(m, upper, split_on(prons.last(), ' '), r.1) {
                None => None,
                Some(s) => Some((r.0 + s.0, s.1)),
            },
        }
    }
}

/// What `rhyme` gives back.
pub enum RhymeResult {
    /// `{WORD: [matches]}`.
    Dict { word: String, matches: Vec<String> },
    /// `[]`: an index ran out of range during the search.
    Empty,
}

/// The outcome of `rhyme(word, rt)`: `Err` with Python's `KeyError('WORD')` text
/// when the upper-cased word is not a key; otherwise the matches of the search
/// over its pronunciations, or `None` for the empty result.
pub open spec fn rhyme_spec(m: CmuModel, word: Seq<char>, rt: int) -> Result<Option<(Seq<char>, Seq<Seq<char>>)>, Seq<char>> {
    let upper = unicode_uppercase(word);
    let i = key_index(model_keys(m), upper);
    if i < 0 {
        Err("KeyError('"@ + upper + "')"@)
    } else {
        match prons_search(m, upper, m[i].1, rt) {
            None => Ok(None),
            Some(r) => Ok(Some((upper, r.0))),
        }
    }
}

// ---------------------------------------------------------------------------
// Implementation
// ---------------------------------------------------------------------------

pub open spec fn ints(v: Seq<i128>) -> Seq<int> {
    v.map_values(|x: i128| x as int)
}

/// Python `v[i]` (negative `i` counts from the end); `None` for `IndexError`.
pub fn py_index(v: &Vec<i128>, i: i128) -> (r: Option<i128>)
    ensures
        r matches Some(x) ==> py_index_spec(ints(v@), i as int) == Some(x as int),
        r is None ==> py_index_spec(ints(v@), i as int) is None,
        r matches Some(x) ==> v@.contains(x),
{
    let len = v.len() as i128;
    let idx: i128 = if i < 0 { len + i } else { i };
    if idx < 0 || idx >= len {
        None
    } else {
        Some(v[idx as usize])
    }
}

/// Python `v[start:]` (negative `start` counts from the end).
pub fn py_slice_from(v: &Vec<Vec<char>>, start: i128) -> (r: Vec<Vec<char>>)
    ensures
        char_views(r@) == py_slice_from_spec(char_views(v@), start as int),
{
    let len = v.len() as i128;
    let eff: usize = if start < 0 {
        if len + start < 0 { 0 } else { (len + start) as usize }
    } else if start > len {
        v.len()
    } else {
        start as usize
    };
    let mut r: Vec<Vec<char>> = Vec::new();
    let mut k = eff;
    while k < v.len()
        invariant
            eff <= k <= v.len(),
            char_views(r@) == char_views(v@).subrange(eff as int, k as int),
        decreases v.len() - k,
    {
        let mut c: Vec<char> = Vec::new();
        crate::text::append_chars(&mut c, v[k].as_slice());
        let ghost r0 = r@;
        r.push(c);
        assert(char_views(r@) =~= char_views(r0).push(v@[k as int]@));
        assert(char_views(v@).subrange(eff as int, k as int + 1) =~= char_views(v@).subrange(eff as int, k as int).push(v@[k as int]@));
        k += 1;
    }
    assert(char_views(v@).subrange(eff as int, v.len() as int) =~= char_views(v@).skip(eff as int));
    r
}

/// `s` without its ASCII digits.
pub fn strip_digits(s: &[char]) -> (r: Vec<char>)
    ensures
        r@ == strip_digits_spec(s@),
{
    let mut r: Vec<char> = Vec::new();
    let mut i: usize = 0;
    while i < s.len()
        invariant
            i <= s.len(),
            r@ == strip_digits_spec(s@.take(i as int)),
        decreases s.len() - i,
    {
        proof {
            assert(s@.take(i as int + 1).drop_last() == s@.take(i as int));
            reveal_with_fuel(Seq::filter, 1);
        }
        if !('0' <= s[i] && s[i] <= '9') {
            r.push(s[i]);
        }
        i += 1;
    }
    assert(s@.take(s.len() as int) == s@);
    r
}

pub fn ends_with_chars(s: &[char], t: &[char]) -> (r: bool)
    ensures
        r == ends_with(s@, t@),
{
    if t.len() > s.len() {
        return false;
    }
    let off = s.len() - t.len();
    let mut i: usize = 0;
    while i < t.len()
        invariant
            off + t.len() == s.len(),
            i <= t.len(),
            forall|k: int| 0 <= k < i ==> s@[off + k] == t@[k],
        decreases t.len() - i,
    {
        if s[off + i] != t[i] {
            assert(s@.skip(off as int)[i as int] != t@[i as int]);
            return false;
        }
        i += 1;
    }
    assert(s@.skip(off as int) =~= t@);
    true
}


/// Whether `s` holds an ASCII digit.
pub fn has_digit_chars(s: &[char]) -> (r: bool)
    ensures
        r == has_digit(s@),
{
    let mut i: usize = 0;
    while i < s.len()
        invariant
            i <= s.len(),
            forall|k: int| 0 <= k < i ==> !('0' <= #[trigger] s@[k] && s@[k] <= '9'),
        decreases s.len() - i,
    {
        if '0' <= s[i] && s[i] <= '9' {
            return true;
        }
        i += 1;
    }
    false
}

/// `get_phoneme_count_to_rhyme` (see [`phoneme_targets`]).
pub fn phoneme_count_to_rhyme(ph: &Vec<Vec<char>>) -> (r: Vec<i128>)
    ensures
        ints(r@) == phoneme_targets(char_views(ph@)),
        forall|k: int| 0 <= k < r@.len() ==> 0 <= #[trigger] r@[k] <= ph@.len(),
{
    let ghost all = char_views(ph@);
    let mut vowels: Vec<usize> = Vec::new();
    let mut others: Vec<usize> = Vec::new();
    let mut i: usize = 0;
    while i < ph.len()
        invariant
            i <= ph.len(),
            all == char_views(ph@),
            vowels@.map_values(|x: usize| x as int) == positions(all.take(i as int), true),
            others@.map_values(|x: usize| x as int) == positions(all.take(i as int), false),
            forall|k: int| 0 <= k < vowels@.len() ==> vowels@[k] < i,
            forall|k: int| 0 <= k < others@.len() ==> others@[k] < i,
        decreases ph.len() - i,
    {
        assert(all.take(i as int + 1).drop_last() == all.take(i as int));
        assert(all.take(i as int + 1).last() == ph@[i as int]@);
        if has_digit_chars(ph[i].as_slice()) {
            vowels.push(i);
        } else {
            others.push(i);
        }
        assert(vowels@.map_values(|x: usize| x as int) =~= positions(all.take(i as int + 1), true));
        assert(others@.map_values(|x: usize| x as int) =~= positions(all.take(i as int + 1), false));
        i += 1;
    }
    assert(all.take(ph.len() as int) == all);
    let mut r: Vec<i128> = Vec::new();
    let n = ph.len() as i128;
    let ghost vs = positions(all, true);
    let ghost os = positions(all, false);
    if others.len() == 0 {
        assert(ints(r@) =~= phoneme_targets(all));
        return r;
    }
    assert(others@[others@.len() - 1] < n);
    r.push(n - others[others.len() - 1] as i128);
    let k: usize = if vowels.len() < 3 { vowels.len() } else { 3 };
    let mut j: usize = 0;
    while j < k
        invariant
            j <= k <= vowels.len(),
            k == (if vowels.len() < 3 { vowels.len() } else { 3 }),
            n == ph.len() as i128,
            vs == positions(all, true),
            vowels@.map_values(|x: usize| x as int) == vs,
            r@.len() == j + 1,
            r@[0] == n - os.last(),
            os.len() > 0,
            forall|t: int| 0 <= t < r@.len() ==> 0 <= #[trigger] r@[t] <= n,
            forall|t: int| 0 <= t < vowels@.len() ==> vowels@[t] < n,
            forall|t: int| 0 < t <= j ==> r@[t] as int == n - vs[vs.len() - 1 - (t - 1)],
        decreases k - j,
    {
        r.push(n - vowels[vowels.len() - 1 - j] as i128);
        j += 1;
    }
    let ghost first = seq![n as int - os.last()];
    let ghost rest = Seq::new(k as nat, |jj: int| n as int - vs[vs.len() - 1 - jj]);
    assert(ints(r@) =~= first + rest);
    r
}

/// `strip_digits(s).endswith(sounds)` for every variation of one entry.
fn entry_matches_exec(word: &String, vars: &Vec<String>, upper: &[char], upper_e: &[char], sounds: &[char], out: &mut Vec<String>)
    requires
        upper_e@ == upper@.push('E'),
    ensures
        string_views(final(out)@) == string_views(old(out)@) + entry_matches(word@, string_views(vars@), upper@, sounds@),
{
    let w = str_to_chars(word.as_str());
    let excluded = chars_eq(w.as_slice(), upper) || chars_eq(w.as_slice(), upper_e);
    let ghost vv = string_views(vars@);
    let ghost o = string_views(out@);
    let mut j: usize = 0;
    while j < vars.len()
        invariant
            j <= vars.len(),
            vv == string_views(vars@),
            w@ == word@,
            excluded == (word@ == upper@ || word@ == upper_e@),
            upper_e@ == upper@.push('E'),
            string_views(out@) == o + entry_matches(word@, vv.take(j as int), upper@, sounds@),
        decreases vars.len() - j,
    {
        assert(vv.take(j as int + 1).drop_last() == vv.take(j as int));
        assert(vv.take(j as int + 1).last() == vars@[j as int]@);
        let v = str_to_chars(vars[j].as_str());
        let stripped = strip_digits(v.as_slice());
        if ends_with_chars(stripped.as_slice(), sounds) && !excluded {
            let ghost before = string_views(out@);
            let copy = chars_to_string(w.as_slice());
            out.push(copy);
            assert(string_views(out@) =~= before.push(word@));
        }
        j += 1;
    }
    assert(vv.take(vars.len() as int) == vv);
}

/// Every dictionary word with a variation ending in `sounds` (see [`dict_matches`]).
fn dict_matches_exec(cmu: &CmuDict, upper: &[char], upper_e: &[char], sounds: &[char]) -> (r: Vec<String>)
    requires
        upper_e@ == upper@.push('E'),
    ensures
        string_views(r@) == dict_matches(cmu.model(), upper@, sounds@),
{
    let ghost m = cmu.model();
    let mut out: Vec<String> = Vec::new();
    let mut i: usize = 0;
    let n = cmu.len();
    while i < n
        invariant
            i <= n,
            n == m.len(),
            m == cmu.model(),
            upper_e@ == upper@.push('E'),
            string_views(out@) == dict_matches(m.take(i as int), upper@, sounds@),
        decreases n - i,
    {
        assert(m.take(i as int + 1).drop_last() == m.take(i as int));
        assert(m.take(i as int + 1).last() == m[i as int]);
        entry_matches_exec(cmu.word(i), cmu.prons(i), upper, upper_e, sounds, &mut out);
        i += 1;
    }
    assert(m.take(n as int) == m);
    out
}

/// How many vowels (phonemes with a stress digit) `ph` holds.
pub open spec fn vowel_count(ph: Seq<Seq<char>>) -> nat {
    ph.filter(|p: Seq<char>| has_digit(p)).len()
}

/// Every word of `found` is a dictionary word with a pronunciation that, stress
/// digits removed, ends with `sounds`.
pub open spec fn all_rhyme(m: CmuModel, found: Seq<Seq<char>>, sounds: Seq<char>) -> bool {
    forall|k: int| 0 <= k < found.len() ==> exists|i: int, j: int|
        0 <= i < m.len() && 0 <= j < m[i].1.len() && m[i].0 == #[trigger] found[k]
        && ends_with(strip_digits_spec(m[i].1[j]), sounds)
}

pub proof fn lemma_vowel_count_push(ph: Seq<Seq<char>>, x: Seq<char>)
    ensures
        vowel_count(ph.push(x)) == vowel_count(ph) + (if has_digit(x) { 1int } else { 0int }),
{
    ph.lemma_filter_len_push(|p: Seq<char>| has_digit(p), x);
}

/// The vowel positions are vowels, in order: from the `idx`-th of them on, the
/// pronunciation holds as many vowels as there are positions from `idx` on.
pub proof fn lemma_vowel_positions(ph: Seq<Seq<char>>)
    ensures
        positions(ph, true).len() == vowel_count(ph),
        forall|idx: int| 0 <= idx < positions(ph, true).len() ==> {
            let p = #[trigger] positions(ph, true)[idx];
            &&& 0 <= p < ph.len()
            &&& has_digit(ph[p])
            &&& vowel_count(ph.skip(p)) == positions(ph, true).len() - idx
        },
        (exists|i: int| 0 <= i < ph.len() && !has_digit(#[trigger] ph[i])) ==> positions(ph, false).len() > 0,
    decreases ph.len(),
{
    if ph.len() == 0 {
        assert(ph.filter(|p: Seq<char>| has_digit(p)).len() == 0) by {
            ph.lemma_filter_len(|p: Seq<char>| has_digit(p));
        }
    } else {
        let q = ph.drop_last();
        let x = ph.last();
        assert(q.push(x) == ph);
        lemma_vowel_positions(q);
        lemma_vowel_count_push(q, x);
        let pq = positions(q, true);
        let pp = positions(ph, true);
        assert forall|idx: int| 0 <= idx < pp.len() implies {
            let p = #[trigger] pp[idx];
            &&& 0 <= p < ph.len()
            &&& has_digit(ph[p])
            &&& vowel_count(ph.skip(p)) == pp.len() - idx
        } by {
            if idx < pq.len() {
                let p = pq[idx];
                assert(pp[idx] == p);
                assert(ph[p] == q[p]);
                assert(ph.skip(p) == q.skip(p).push(x));
                lemma_vowel_count_push(q.skip(p), x);
            } else {
                assert(has_digit(x));
                assert(pp[idx] == ph.len() - 1);
                assert(ph.skip(ph.len() - 1) == Seq::<Seq<char>>::empty().push(x));
                lemma_vowel_count_push(Seq::<Seq<char>>::empty(), x);
                Seq::<Seq<char>>::empty().lemma_filter_len(|p: Seq<char>| has_digit(p));
            }
        }
        if exists|i: int| 0 <= i < ph.len() && !has_digit(#[trigger] ph[i]) {
            let i = choose|i: int| 0 <= i < ph.len() && !has_digit(#[trigger] ph[i]);
            if i < q.len() {
                assert(q[i] == ph[i]);
            }
        }
    }
}

/// The matches of the dictionary are dictionary words with a pronunciation that
/// ends with the sounds.
pub proof fn lemma_dict_matches_rhyme(m: CmuModel, upper: Seq<char>, sounds: Seq<char>)
    ensures
        all_rhyme(m, dict_matches(m, upper, sounds), sounds),
    decreases m.len(),
{
    if m.len() > 0 {
        let q = m.drop_last();
        lemma_dict_matches_rhyme(q, upper, sounds);
        let a = dict_matches(q, upper, sounds);
        let b = entry_matches(m.last().0, m.last().1, upper, sounds);
        lemma_entry_matches_rhyme(m.last().0, m.last().1, upper, sounds);
        assert forall|k: int| 0 <= k < (a + b).len() implies exists|i: int, j: int|
            0 <= i < m.len() && 0 <= j < m[i].1.len() && m[i].0 == #[trigger] (a + b)[k]
            && ends_with(strip_digits_spec(m[i].1[j]), sounds) by {
            if k < a.len() {
                assert((a + b)[k] == a[k]);
                let (i, j) = choose|i: int, j: int| 0 <= i < q.len() && 0 <= j < q[i].1.len() && q[i].0 == #[trigger] a[k]
                    && ends_with(strip_digits_spec(q[i].1[j]), sounds);
                assert(m[i] == q[i]);
            } else {
                assert((a + b)[k] == b[k - a.len()]);
                let j = choose|j: int| 0 <= j < m.last().1.len() && ends_with(strip_digits_spec(#[trigger] m.last().1[j]), sounds);
                assert(m[m.len() - 1] == m.last());
            }
        }
    }
}

pub proof fn lemma_entry_matches_rhyme(word: Seq<char>, vars: Seq<Seq<char>>, upper: Seq<char>, sounds: Seq<char>)
    ensures
        forall|k: int| 0 <= k < entry_matches(word, vars, upper, sounds).len() ==>
            #[trigger] entry_matches(word, vars, upper, sounds)[k] == word,
        entry_matches(word, vars, upper, sounds).len() > 0 ==>
            exists|j: int| 0 <= j < vars.len() && ends_with(strip_digits_spec(#[trigger] vars[j]), sounds),
    decreases vars.len(),
{
    if vars.len() > 0 {
        lemma_entry_matches_rhyme(word, vars.drop_last(), upper, sounds);
        let prev = entry_matches(word, vars.drop_last(), upper, sounds);
        if prev.len() > 0 {
            let j = choose|j: int| 0 <= j < vars.drop_last().len() && ends_with(strip_digits_spec(#[trigger] vars.drop_last()[j]), sounds);
            assert(vars[j] == vars.drop_last()[j]);
        }
        if ends_with(strip_digits_spec(vars.last()), sounds) {
            assert(vars[vars.len() - 1] == vars.last());
        }
    }
}

/// The search never ends at a strength above the one it starts at.
pub proof fn lemma_pron_search_strength(m: CmuModel, upper: Seq<char>, ph: Seq<Seq<char>>, rt: int)
    ensures
        pron_search(m, upper, ph, rt) matches Some(r) ==> r.1 <= rt,
    decreases rt + phoneme_targets(ph).len(),
{
    let targets = phoneme_targets(ph);
    match rhyme_target(targets, rt) {
        None => {},
        Some(t) => {
            let found = dict_matches(m, upper, target_sounds(ph, t));
            if !(rt == 1 || found.len() > 0) && rt + targets.len() >= 1 {
                lemma_pron_search_strength(m, upper, ph, rt - 1);
            }
        },
    }
}

/// The strongest rhyme (strength 0): for a pronunciation with a vowel and a
/// consonant, the matches the search finds at strength 0 are dictionary words
/// whose pronunciation ends with the word's phonemes from a vowel on, with as
/// many vowels as the word has, up to three: for a one-vowel word such as CAT
/// (K AE1 T), the vowel and what follows it (AE T).
pub proof fn law_strongest_rhyme(m: CmuModel, upper: Seq<char>, ph: Seq<Seq<char>>)
    requires
        exists|i: int| 0 <= i < ph.len() && has_digit(#[trigger] ph[i]),
        exists|i: int| 0 <= i < ph.len() && !has_digit(#[trigger] ph[i]),
    ensures
        exists|s: int| #![trigger ph.skip(s)]
            0 <= s < ph.len() && has_digit(ph[s])
            && vowel_count(ph.skip(s)) == (if vowel_count(ph) < 3 { vowel_count(ph) } else { 3 })
            && (pron_search(m, upper, ph, 0) matches Some(r) ==> r.1 == 0
                ==> all_rhyme(m, r.0, strip_digits_spec(join(ph.skip(s), " "@)))),
{
    lemma_vowel_positions(ph);
    let vs = positions(ph, true);
    let n = ph.len() as int;
    let i0 = choose|i: int| 0 <= i < ph.len() && has_digit(#[trigger] ph[i]);
    assert(vowel_count(ph) > 0) by {
        let f = |p: Seq<char>| has_digit(p);
        assert(ph.filter(f).contains(ph[i0])) by {
            ph.lemma_filter_contains(f, i0);
        }
    }
    let k: int = if vs.len() < 3 { vs.len() as int } else { 3 };
    let s = vs[vs.len() - k];
    let targets = phoneme_targets(ph);
    assert(targets.len() == k + 1);
    assert(targets[k] == n - s);
    assert(rhyme_target(targets, 0) == Some(n - s));
    assert(py_slice_from_spec(ph, n - (n - s)) == ph.skip(s));
    let sounds = strip_digits_spec(join(ph.skip(s), " "@));
    assert(target_sounds(ph, n - s) == sounds);
    let found = dict_matches(m, upper, sounds);
    lemma_dict_matches_rhyme(m, upper, sounds);
    if found.len() == 0 {
        lemma_pron_search_strength(m, upper, ph, -1);
    }
    assert(pron_search(m, upper, ph, 0) matches Some(r) ==> r.1 == 0 ==> r.0 == found);
    assert(vowel_count(ph.skip(s)) == k);
}

/// Once the search over a prefix of the pronunciations fails, so does the search
/// over all of them.
pub proof fn lemma_prons_search_none(m: CmuModel, upper: Seq<char>, ps: Seq<Seq<char>>, k: int, rt: int)
    requires
        0 <= k <= ps.len(),
        prons_search(m, upper, ps.take(k), rt) is None,
    ensures
        prons_search(m, upper, ps, rt) is None,
    decreases ps.len() - k,
{
    if k == ps.len() {
        assert(ps.take(k) == ps);
    } else {
        assert(ps.take(k + 1).drop_last() == ps.take(k));
        lemma_prons_search_none(m, upper, ps, k + 1, rt);
    }
}

/// A successful target pick at a strength other than 1 leaves room to lower it.
pub proof fn lemma_target_room(targets: Seq<int>, rt: int)
    requires
        rt != 1,
        rhyme_target(targets, rt) is Some,
    ensures
        rt + targets.len() >= 1,
{
}

/// The search for one pronunciation (see [`pron_search`]).
fn pron_search_exec(cmu: &CmuDict, upper: &[char], upper_e: &[char], ph: &Vec<Vec<char>>, rt0: i128) -> (r: Option<(Vec<String>, i128)>)
    requires
        upper_e@ == upper@.push('E'),
        rt0 < 0x1_0000_0000_0000_0000,
        rt0 > -0x1_0000_0000_0000_0000,
    ensures
        r matches Some(x) ==> x.1 <= rt0 && (x.1 == rt0 || x.1 >= -4),
        match r {
            None => pron_search(cmu.model(), upper@, char_views(ph@), rt0 as int) is None,
            Some(x) => pron_search(cmu.model(), upper@, char_views(ph@), rt0 as int) == Some((string_views(x.0@), x.1 as int)),
        },
{
    let ghost m = cmu.model();
    let ghost phs = char_views(ph@);
    let targets = phoneme_count_to_rhyme(ph);
    let ghost ts = phoneme_targets(phs);
    let count = ph.len() as i128;
    let mut rt = rt0;
    let mut acc: Vec<String> = Vec::new();
    loop
        invariant
            upper_e@ == upper@.push('E'),
            ints(targets@) == ts,
            ts == phoneme_targets(phs),
            phs == char_views(ph@),
            m == cmu.model(),
            count == ph.len(),
            rt <= rt0,
            rt > -0x1_0000_0000_0000_0000 - 0x1_0000_0000_0000_0000,
            rt < rt0 ==> rt + ts.len() >= 0,
            ts.len() <= 4,
            forall|k: int| 0 <= k < targets@.len() ==> 0 <= #[trigger] targets@[k] <= ph@.len(),
            pron_search(m, upper@, phs, rt0 as int) == match pron_search(m, upper@, phs, rt as int) {
                None => None,
                Some(x) => Some((string_views(acc@) + x.0, x.1)),
            },
        decreases rt + ts.len() + 1,
    {
        let tlen = targets.len() as i128;
        let picked = if rt == 0 {
            py_index(&targets, -1)
        } else if tlen >= rt - 1 {
            py_index(&targets, rt - 1)
        } else {
            py_index(&targets, -1)
        };
        let target = match picked {
            None => {
                return None;
            },
            Some(t) => t,
        };
        let slice = py_slice_from(ph, count - target);
        let sp: Vec<char> = str_to_chars(" ");
        let joined = join_chars(&slice, sp.as_slice());
        let sounds = strip_digits(joined.as_slice());
        let found = dict_matches_exec(cmu, upper, upper_e, sounds.as_slice());
        let ghost acc0 = string_views(acc@);
        let mut k: usize = 0;
        let nf = found.len();
        while k < nf
            invariant
                k <= nf,
                nf == found.len(),
                string_views(acc@) == acc0 + string_views(found@).take(k as int),
            decreases nf - k,
        {
            let c = str_to_chars(found[k].as_str());
            let s2 = chars_to_string(c.as_slice());
            let ghost b = string_views(acc@);
            acc.push(s2);
            assert(string_views(acc@) =~= b.push(found@[k as int]@));
            assert(string_views(found@).take(k as int + 1) =~= string_views(found@).take(k as int).push(found@[k as int]@));
            k += 1;
        }
        assert(string_views(found@).take(nf as int) == string_views(found@));
        if rt == 1 || nf > 0 {
            assert(string_views(acc@) =~= acc0 + string_views(found@));
            return Some((acc, rt));
        }
        proof {
            lemma_target_room(ts, rt as int);
        }
        assert(acc0 + string_views(found@) =~= acc0);
        rt = rt - 1;
    }
}

/// `rhyme(word, rhyming_type)` (see [`rhyme_spec`]): the dictionary words that
/// rhyme with `word`, `RhymeResult::Empty` when the search runs out of range, or
/// `Err` with Python's `KeyError('WORD')` text for a word not in the dictionary.
pub fn rhyme(cmu: &CmuDict, word: &str, rhyming_type: i64) -> (r: Result<RhymeResult, String>)
    ensures
        match r {
            Err(e) => rhyme_spec(cmu.model(), word@, rhyming_type as int) == Err::<Option<(Seq<char>, Seq<Seq<char>>)>, Seq<char>>(e@),
            Ok(RhymeResult::Empty) => rhyme_spec(cmu.model(), word@, rhyming_type as int) == Ok::<Option<(Seq<char>, Seq<Seq<char>>)>, Seq<char>>(None),
            Ok(RhymeResult::Dict { word: w, matches }) => rhyme_spec(cmu.model(), word@, rhyming_type as int) == Ok::<Option<(Seq<char>, Seq<Seq<char>>)>, Seq<char>>(Some((w@, string_views(matches@)))),
        },
{
    let ghost m = cmu.model();
    let upper = str_to_uppercase(word);
    let found = cmu.find(upper.as_str());
    let i = match found {
        None => {
            let mut e = String::new();
            push_str(&mut e, "KeyError('");
            push_str(&mut e, upper.as_str());
            push_str(&mut e, "')");
            assert(e@ =~= "KeyError('"@ + upper@ + "')"@);
            return Err(e);
        },
        Some(i) => i,
    };
    let uv = str_to_chars(upper.as_str());
    let mut ue = str_to_chars(upper.as_str());
    ue.push('E');
    let prons = cmu.prons(i);
    let ghost ps = string_views(prons@);
    let mut rt: i128 = rhyming_type as i128;
    let mut matches: Vec<String> = Vec::new();
    let mut j: usize = 0;
    while j < prons.len()
        invariant
            j <= prons.len(),
            ps == string_views(prons@),
            ps == m[i as int].1,
            m == cmu.model(),
            key_index(model_keys(m), upper@) == i as int,
            upper@ == unicode_uppercase(word@),
            uv@ == upper@,
            ue@ == upper@.push('E'),
            rt <= rhyming_type,
            rt > -0x1_0000_0000_0000_0000,
            prons_search(m, upper@, ps.take(j as int), rhyming_type as int) == Some((string_views(matches@), rt as int)),
        decreases prons.len() - j,
    {
        assert(ps.take(j as int + 1).drop_last() == ps.take(j as int));
        assert(ps.take(j as int + 1).last() == prons@[j as int]@);
        let pv = str_to_chars(prons[j].as_str());
        let ph = split_chars(pv.as_slice(), ' ');
        match pron_search_exec(cmu, uv.as_slice(), ue.as_slice(), &ph, rt) {
            None => {
                proof {
                    assert(prons_search(m, upper@, ps.take(j as int + 1), rhyming_type as int) is None);
                    lemma_prons_search_none(m, upper@, ps, j as int + 1, rhyming_type as int);
                }
                return Ok(RhymeResult::Empty);
            },
            Some((more, rt2)) => {
                let ghost before = string_views(matches@);
                let mut k: usize = 0;
                while k < more.len()
                    invariant
                        k <= more.len(),
                        string_views(matches@) == before + string_views(more@).take(k as int),
                    decreases more.len() - k,
                {
                    let c = str_to_chars(more[k].as_str());
                    let s2 = chars_to_string(c.as_slice());
                    let ghost b = string_views(matches@);
                    matches.push(s2);
                    assert(string_views(matches@) =~= b.push(more@[k as int]@));
                    assert(string_views(more@).take(k as int + 1) =~= string_views(more@).take(k as int).push(more@[k as int]@));
                    k += 1;
                }
                assert(string_views(more@).take(more.len() as int) == string_views(more@));
                rt = rt2;
            },
        }
        j += 1;
    }
    assert(ps.take(prons.len() as int) == ps);
    Ok(RhymeResult::Dict { word: upper, matches })
}

} // verus!

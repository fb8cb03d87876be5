//! Markov-chain haiku: a corpus of dictionary words is turned into first- and
//! second-order successor maps, from which three lines of 5, 7 and 5 syllables
//! are drawn at random.

use vstd::prelude::*;
use crate::cmudict::{CmuDict, CmuModel, dict_keys_repr, key_index, model_keys,
    lemma_key_index_found, lemma_key_index_range, keys_distinct};
use crate::count_syllables::{count_syllables, syllables};
use crate::random::random_below;
use crate::rhymes::{py_slice_from, py_slice_from_spec};
use crate::text::{CharClass, char_views, chars_eq, chars_to_string, seq_contains, split_words,
    str_contains, str_to_chars, str_to_lowercase, string_views, unicode_lowercase, words,
    append_chars};

verus! {

// ---------------------------------------------------------------------------
// The corpus
// ---------------------------------------------------------------------------

/// The training text with line breaks turned into spaces and `.`, `,`, `/` removed.
pub open spec fn clean_training(s: Seq<char>) -> Seq<char> {
    s.map_values(|c: char| if c == '\n' { ' ' } else { c }).filter(|c: char| c != '.' && c != ',' && c != '/')
}

/// `prep_training`: the lower-cased words of the cleaned text that occur somewhere
/// in the lower-cased key listing of the dictionary.
pub open spec fn corpus_of(m: CmuModel, raw: Seq<char>) -> Seq<Seq<char>> {
    words(unicode_lowercase(clean_training(raw)), CharClass::Whitespace).filter(
        |w: Seq<char>| seq_contains(unicode_lowercase(dict_keys_repr(model_keys(m))), w),
    )
}

/// Builds the training corpus from the raw text (see [`corpus_of`]).
pub fn prep_training(cmu: &CmuDict, raw: &str) -> (r: Vec<Vec<char>>)
    ensures
        char_views(r@) == corpus_of(cmu.model(), raw@),
{
    let v = str_to_chars(raw);
    let mut cleaned: Vec<char> = Vec::new();
    let ghost mapped = v@.map_values(|c: char| if c == '\n' { ' ' } else { c });
    let mut i: usize = 0;
    while i < v.len()
        invariant
            i <= v.len(),
            mapped == v@.map_values(|c: char| if c == '\n' { ' ' } else { c }),
            cleaned@ == mapped.take(i as int).filter(|c: char| c != '.' && c != ',' && c != '/'),
        decreases v.len() - i,
    {
        proof {
            assert(mapped.take(i as int + 1).drop_last() == mapped.take(i as int));
            reveal_with_fuel(Seq::filter, 1);
        }
        let c = if v[i] == '\n' { ' ' } else { v[i] };
        if c != '.' && c != ',' && c != '/' {
            cleaned.push(c);
        }
        i += 1;
    }
    assert(mapped.take(v.len() as int) == mapped);
    let cs = chars_to_string(cleaned.as_slice());
    let lowered = str_to_lowercase(cs.as_str());
    let lv = str_to_chars(lowered.as_str());
    let all = split_words(lv.as_slice(), &CharClass::Whitespace);
    let hay = cmu.keys_repr_lower();
    let ghost ws = char_views(all@);
    let ghost keep = |w: Seq<char>| seq_contains(unicode_lowercase(dict_keys_repr(model_keys(cmu.model()))), w);
    let mut r: Vec<Vec<char>> = Vec::new();
    let mut k: usize = 0;
    while k < all.len()
        invariant
            k <= all.len(),
            ws == char_views(all@),
            hay@ == unicode_lowercase(dict_keys_repr(model_keys(cmu.model()))),
            keep == (|w: Seq<char>| seq_contains(unicode_lowercase(dict_keys_repr(model_keys(cmu.model()))), w)),
            char_views(r@) == ws.take(k as int).filter(keep),
        decreases all.len() - k,
    {
        proof {
            assert(ws.take(k as int + 1).drop_last() == ws.take(k as int));
            reveal_with_fuel(Seq::filter, 1);
        }
        let w = chars_to_string(all[k].as_slice());
        if str_contains(hay.as_str(), w.as_str()) {
            let mut copy: Vec<char> = Vec::new();
            append_chars(&mut copy, all[k].as_slice());
            let ghost before = char_views(r@);
            r.push(copy);
            assert(char_views(r@) =~= before.push(all@[k as int]@));
        }
        k += 1;
    }
    assert(ws.take(all.len() as int) == ws);
    r
}

// ---------------------------------------------------------------------------
// Successor maps
// ---------------------------------------------------------------------------

/// The words that follow `w` among the first `n` positions of the corpus.
pub open spec fn followers1(c: Seq<Seq<char>>, w: Seq<char>, n: int) -> Seq<Seq<char>>
    decreases n,
{
    if n <= 0 {
        Seq::empty()
    } else {
        let prev = followers1(c, w, n - 1);
        if n < c.len() && c[n - 1] == w {
            prev.push(c[n])
        } else {
            prev
        }
    }
}

/// `a` and `b` joined by one space.
pub open spec fn pair_key(a: Seq<char>, b: Seq<char>) -> Seq<char> {
    a + seq![' '] + b
}

/// The words that follow the two-word key `k` among the first `n` positions.
pub open spec fn followers2(c: Seq<Seq<char>>, k: Seq<char>, n: int) -> Seq<Seq<char>>
    decreases n,
{
    if n <= 0 {
        Seq::empty()
    } else {
        let prev = followers2(c, k, n - 1);
        if n + 1 < c.len() && pair_key(c[n - 1], c[n]) == k {
            prev.push(c[n + 1])
        } else {
            prev
        }
    }
}

/// A map from keys to lists of successor words.
pub struct SuffixMap {
    keys: Vec<Vec<char>>,
    vals: Vec<Vec<Vec<char>>>,
}

pub open spec fn lookup_in(keys: Seq<Seq<char>>, vals: Seq<Seq<Seq<char>>>, k: Seq<char>) -> Seq<Seq<char>> {
    let i = key_index(keys, k);
    if i >= 0 { vals[i] } else { Seq::empty() }
}

impl SuffixMap {
    /// The successors stored for key `k` (empty when `k` is absent).
    pub closed spec fn get(self, k: Seq<char>) -> Seq<Seq<char>> {
        lookup_in(char_views(self.keys@), self.vals@.map_values(|v: Vec<Vec<char>>| char_views(v@)), k)
    }

    /// Keys and value lists line up, and no key repeats.
    pub closed spec fn wf(self) -> bool {
        &&& self.keys@.len() == self.vals@.len()
        &&& keys_distinct(char_views(self.keys@))
    }

    pub closed spec fn keys_model(self) -> Seq<Seq<char>> {
        char_views(self.keys@)
    }

    pub closed spec fn vals_model(self) -> Seq<Seq<Seq<char>>> {
        self.vals@.map_values(|v: Vec<Vec<char>>| char_views(v@))
    }

    fn empty() -> (m: SuffixMap)
        ensures
            m.wf(),
            forall|k: Seq<char>| #[trigger] m.get(k) == Seq::<Seq<char>>::empty(),
    {
        let m = SuffixMap { keys: Vec::new(), vals: Vec::new() };
        assert forall|k: Seq<char>| #[trigger] m.get(k) == Seq::<Seq<char>>::empty() by {
            assert(char_views(m.keys@).len() == 0);
        }
        m
    }

    /// The position of `k` among the keys.
    fn position(&self, k: &[char]) -> (r: Option<usize>)
        requires
            self.wf(),
        ensures
            match r {
                Some(i) => i < self.keys_model().len() && key_index(self.keys_model(), k@) == i as int,
                None => key_index(self.keys_model(), k@) == -1,
            },
    {
        proof {
            lemma_key_index_range(self.keys_model(), k@);
        }
        let mut i: usize = 0;
        while i < self.keys.len()
            invariant
                i <= self.keys@.len(),
                forall|t: int| 0 <= t < i ==> self.keys_model()[t] != k@,
                keys_distinct(self.keys_model()),
            decreases self.keys.len() - i,
        {
            if chars_eq(self.keys[i].as_slice(), k) {
                proof {
                    lemma_key_index_found(self.keys_model(), k@, i as int);
                }
                return Some(i);
            }
            i += 1;
        }
        proof {
            crate::cmudict::lemma_key_index_absent(self.keys_model(), k@);
        }
        None
    }

    /// The successors stored for `k`.
    pub fn lookup(&self, k: &[char]) -> (r: Vec<Vec<char>>)
        requires
            self.wf(),
        ensures
            char_views(r@) == self.get(k@),
    {
        match self.position(k) {
            None => Vec::new(),
            Some(i) => {
                let src = &self.vals[i];
                let mut r: Vec<Vec<char>> = Vec::new();
                let mut j: usize = 0;
                while j < src.len()
                    invariant
                        j <= src.len(),
                        char_views(r@) == char_views(src@).take(j as int),
                    decreases src.len() - j,
                {
                    let mut c: Vec<char> = Vec::new();
                    append_chars(&mut c, src[j].as_slice());
                    let ghost b = char_views(r@);
                    r.push(c);
                    assert(c@ == src@[j as int]@);
                    assert(char_views(r@) =~= b.push(src@[j as int]@));
                    assert(char_views(src@).take(j as int + 1) =~= char_views(src@).take(j as int).push(src@[j as int]@));
                    assert(char_views(r@) =~= char_views(src@).take(j as int + 1));
                    j += 1;
                }
                assert(char_views(src@).take(src.len() as int) == char_views(src@));
                r
            },
        }
    }

    /// Appends `v` to the successors of `k`.
    fn add(&mut self, k: Vec<char>, v: Vec<char>)
        requires
            old(self).wf(),
        ensures
            final(self).wf(),
            final(self).get(k@) == old(self).get(k@).push(v@),
            forall|w: Seq<char>| w != k@ ==> #[trigger] final(self).get(w) == old(self).get(w),
    {
        let ghost keys0 = self.keys_model();
        let ghost vals0 = self.vals_model();
        match self.position(k.as_slice()) {
            Some(i) => {
                let ghost raw0 = self.vals@;
                let ghost vv = v@;
                self.vals[i].push(v);
                assert(self.vals@ == raw0.update(i as int, self.vals@[i as int]));
                assert(self.vals@[i as int]@.len() == raw0[i as int]@.len() + 1);
                assert(self.vals@[i as int]@ == raw0[i as int]@.push(self.vals@[i as int]@.last()));
                assert(self.vals@[i as int]@.last()@ == vv);
                assert(char_views(self.vals@[i as int]@) =~= char_views(raw0[i as int]@).push(vv));
                assert(self.keys_model() == keys0);
                assert(self.vals_model() =~= vals0.update(i as int, vals0[i as int].push(v@)));
                assert forall|w: Seq<char>| w != k@ implies #[trigger] self.get(w) == lookup_in(keys0, vals0, w) by {
                    lemma_key_index_range(keys0, w);
                    lemma_key_index_range(keys0, k@);
                    if key_index(keys0, w) >= 0 {
                        assert(keys0[i as int] == k@);
                        assert(key_index(keys0, w) != i as int);
                    }
                }
            },
            None => {
                let ghost vv = v@;
                let mut bucket: Vec<Vec<char>> = Vec::new();
                bucket.push(v);
                assert(char_views(bucket@) =~= seq![vv]);
                self.keys.push(k);
                self.vals.push(bucket);
                assert(self.keys_model() =~= keys0.push(k@));
                assert(self.vals_model() =~= vals0.push(seq![vv]));
                proof {
                    lemma_key_index_range(keys0, k@);
                    assert forall|a: int, b: int| 0 <= a < b < keys0.len() + 1 implies self.keys_model()[a] != self.keys_model()[b] by {
                        if b == keys0.len() {
                            assert(keys0[a] != k@);
                        }
                    }
                }
                assert forall|w: Seq<char>| w != k@ implies #[trigger] self.get(w) == lookup_in(keys0, vals0, w) by {
                    assert(self.keys_model().drop_last() == keys0);
                    lemma_key_index_range(keys0, w);
                }
            },
        }
    }
}

/// `map_word_to_word`: each word mapped to the words that follow it.
pub fn map_word_to_word(corpus: &Vec<Vec<char>>) -> (m: SuffixMap)
    ensures
        m.wf(),
        forall|w: Seq<char>| #[trigger] m.get(w) == followers1(char_views(corpus@), w, corpus@.len() as int),
{
    let ghost c = char_views(corpus@);
    let mut m = SuffixMap::empty();
    if corpus.len() == 0 {
        return m;
    }
    let mut i: usize = 0;
    while i + 1 < corpus.len()
        invariant
            i + 1 <= corpus.len(),
            c == char_views(corpus@),
            m.wf(),
            forall|w: Seq<char>| #[trigger] m.get(w) == followers1(c, w, i as int),
        decreases corpus.len() - i,
    {
        let mut k: Vec<char> = Vec::new();
        append_chars(&mut k, corpus[i].as_slice());
        let mut v: Vec<char> = Vec::new();
        append_chars(&mut v, corpus[i + 1].as_slice());
        m.add(k, v);
        i += 1;
        assert forall|w: Seq<char>| #[trigger] m.get(w) == followers1(c, w, i as int) by {}
    }
    assert forall|w: Seq<char>| #[trigger] m.get(w) == followers1(c, w, corpus@.len() as int) by {
        assert(followers1(c, w, corpus@.len() as int) == followers1(c, w, corpus@.len() - 1));
    }
    m
}

/// `map_2_words_to_word`: each pair of neighbouring words, joined by a space,
/// mapped to the words that follow the pair.
pub fn map_2_words_to_word(corpus: &Vec<Vec<char>>) -> (m: SuffixMap)
    ensures
        m.wf(),
        forall|k: Seq<char>| #[trigger] m.get(k) == followers2(char_views(corpus@), k, corpus@.len() as int),
{
    let ghost c = char_views(corpus@);
    let mut m = SuffixMap::empty();
    if corpus.len() < 2 {
        assert forall|k: Seq<char>| #[trigger] m.get(k) == followers2(c, k, corpus@.len() as int) by {
            lemma_followers2_short(c, k, corpus@.len() as int);
        }
        return m;
    }
    let mut i: usize = 0;
    while i + 2 < corpus.len()
        invariant
            i + 2 <= corpus.len(),
            c == char_views(corpus@),
            m.wf(),
            forall|k: Seq<char>| #[trigger] m.get(k) == followers2(c, k, i as int),
        decreases corpus.len() - i,
    {
        let mut k: Vec<char> = Vec::new();
        append_chars(&mut k, corpus[i].as_slice());
        k.push(' ');
        append_chars(&mut k, corpus[i + 1].as_slice());
        assert(k@ =~= pair_key(c[i as int], c[i + 1]));
        let mut v: Vec<char> = Vec::new();
        append_chars(&mut v, corpus[i + 2].as_slice());
        m.add(k, v);
        i += 1;
        assert forall|kk: Seq<char>| #[trigger] m.get(kk) == followers2(c, kk, i as int) by {}
    }
    assert forall|k: Seq<char>| #[trigger] m.get(k) == followers2(c, k, corpus@.len() as int) by {
        assert(followers2(c, k, corpus@.len() as int) == followers2(c, k, corpus@.len() - 1));
        assert(followers2(c, k, corpus@.len() - 1) == followers2(c, k, corpus@.len() - 2));
    }
    m
}

pub proof fn lemma_followers2_short(c: Seq<Seq<char>>, k: Seq<char>, n: int)
    requires
        c.len() < 2,
    ensures
        followers2(c, k, n) == Seq::<Seq<char>>::empty(),
    decreases n,
{
    if n > 0 {
        lemma_followers2_short(c, k, n - 1);
    }
}


// ---------------------------------------------------------------------------
// Drawing lines
// ---------------------------------------------------------------------------

/// The syllables `count_syllables` gives a single word.
pub open spec fn word_syls(m: CmuModel, w: Seq<char>) -> int {
    if syllables(m, w) <= i64::MAX { syllables(m, w) as int } else { i64::MAX as int }
}

/// The syllables of a line of words.
pub open spec fn line_syllables(m: CmuModel, line: Seq<Seq<char>>) -> int
    decreases line.len(),
{
    if line.len() == 0 {
        0
    } else {
        line_syllables(m, line.drop_last()) + word_syls(m, line.last())
    }
}

/// Every word of `ws` is a word of the corpus `c`.
pub open spec fn all_in(ws: Seq<Seq<char>>, c: Seq<Seq<char>>) -> bool {
    forall|i: int| 0 <= i < ws.len() ==> c.contains(#[trigger] ws[i])
}

/// The text `random.choice([])` raises.
pub open spec fn empty_choice_error() -> Seq<char> {
    "IndexError('Cannot choose from an empty sequence')"@
}

/// The text `random.randint(0, -1)` raises.
pub open spec fn empty_range_error() -> Seq<char> {
    "ValueError('empty range for randrange()')"@
}

/// The text of giving up after too many fruitless draws.
pub open spec fn recursion_error() -> Seq<char> {
    "RecursionError('maximum recursion depth exceeded')"@
}

/// How many fruitless random draws are made before giving up.
pub const DRAW_LIMIT: u32 = 1000;

pub proof fn lemma_followers1_in(c: Seq<Seq<char>>, w: Seq<char>, n: int)
    ensures
        all_in(followers1(c, w, n), c),
    decreases n,
{
    if n > 0 {
        lemma_followers1_in(c, w, n - 1);
        let prev = followers1(c, w, n - 1);
        if n < c.len() && c[n - 1] == w {
            assert forall|i: int| 0 <= i < prev.push(c[n]).len() implies c.contains(#[trigger] prev.push(c[n])[i]) by {
                if i == prev.len() {
                    assert(c[n] == prev.push(c[n])[i]);
                } else {
                    assert(prev.push(c[n])[i] == prev[i]);
                }
            }
        }
    }
}

pub proof fn lemma_followers2_in(c: Seq<Seq<char>>, k: Seq<char>, n: int)
    ensures
        all_in(followers2(c, k, n), c),
    decreases n,
{
    if n > 0 {
        lemma_followers2_in(c, k, n - 1);
        let prev = followers2(c, k, n - 1);
        if n + 1 < c.len() && pair_key(c[n - 1], c[n]) == k {
            assert forall|i: int| 0 <= i < prev.push(c[n + 1]).len() implies c.contains(#[trigger] prev.push(c[n + 1])[i]) by {
                if i == prev.len() {
                    assert(c[n + 1] == prev.push(c[n + 1])[i]);
                } else {
                    assert(prev.push(c[n + 1])[i] == prev[i]);
                }
            }
        }
    }
}

/// The words of `s` whose syllables, added to `current`, stay within `target`.
pub open spec fn fitting(m: CmuModel, s: Seq<Seq<char>>, current: int, target: int) -> Seq<Seq<char>> {
    s.filter(|x: Seq<char>| current + word_syls(m, x) <= target)
}

/// The syllables of one word.
fn syllables_of(cmu: &CmuDict, w: &[char]) -> (n: i64)
    ensures
        n == word_syls(cmu.model(), w@),
        n >= 0,
{
    let s = chars_to_string(w);
    count_syllables(cmu, s.as_str())
}

/// `word_after`: the successors of `prefix` whose syllables still fit the line.
pub fn word_after(cmu: &CmuDict, prefix: &[char], map: &SuffixMap, current: i64, target: i64) -> (r: Vec<Vec<char>>)
    requires
        map.wf(),
    ensures
        char_views(r@) == fitting(cmu.model(), map.get(prefix@), current as int, target as int),
{
    let cands = map.lookup(prefix);
    let ghost cs = char_views(cands@);
    let ghost keep = |c: Seq<char>| current + word_syls(cmu.model(), c) <= target;
    let mut r: Vec<Vec<char>> = Vec::new();
    let mut i: usize = 0;
    while i < cands.len()
        invariant
            i <= cands.len(),
            cs == char_views(cands@),
            keep == (|c: Seq<char>| current + word_syls(cmu.model(), c) <= target),
            char_views(r@) == cs.take(i as int).filter(keep),
        decreases cands.len() - i,
    {
        proof {
            assert(cs.take(i as int + 1).drop_last() == cs.take(i as int));
            reveal_with_fuel(Seq::filter, 1);
        }
        let n = syllables_of(cmu, cands[i].as_slice());
        if (current as i128) + (n as i128) <= (target as i128) {
            let mut c: Vec<char> = Vec::new();
            append_chars(&mut c, cands[i].as_slice());
            let ghost b = char_views(r@);
            r.push(c);
            assert(char_views(r@) =~= b.push(cands@[i as int]@));
        }
        i += 1;
    }
    assert(cs.take(cands.len() as int) == cs);
    r
}

/// The last `n` elements of `v` (all of it when shorter), like Python's `v[-n:]`.
pub fn last_n(v: &Vec<Vec<char>>, n: usize) -> (r: Vec<Vec<char>>)
    ensures
        char_views(r@) == char_views(v@).skip(if v@.len() >= n { v@.len() - n } else { 0 }),
{
    let start: usize = if v.len() >= n { v.len() - n } else { 0 };
    let mut r: Vec<Vec<char>> = Vec::new();
    let mut k = start;
    while k < v.len()
        invariant
            start <= k <= v.len(),
            char_views(r@) == char_views(v@).subrange(start as int, k as int),
        decreases v.len() - k,
    {
        let mut c: Vec<char> = Vec::new();
        append_chars(&mut c, v[k].as_slice());
        let ghost b = char_views(r@);
        r.push(c);
        assert(char_views(r@) =~= b.push(v@[k as int]@));
        assert(char_views(v@).subrange(start as int, k as int + 1) =~= char_views(v@).subrange(start as int, k as int).push(v@[k as int]@));
        k += 1;
    }
    assert(char_views(v@).subrange(start as int, v.len() as int) =~= char_views(v@).skip(start as int));
    r
}

fn copy_chars(v: &[char]) -> (r: Vec<char>)
    ensures
        r@ == v@,
{
    let mut r: Vec<char> = Vec::new();
    append_chars(&mut r, v);
    r
}


// ---------------------------------------------------------------------------
// What the draws can give
// ---------------------------------------------------------------------------

/// The successor lists of a map, as a function of the key.
pub open spec fn succ_of(map: SuffixMap) -> spec_fn(Seq<char>) -> Seq<Seq<char>> {
    |k: Seq<char>| map.get(k)
}

/// The successor lists of single words in the corpus `c`.
pub open spec fn succ1(c: Seq<Seq<char>>) -> spec_fn(Seq<char>) -> Seq<Seq<char>> {
    |w: Seq<char>| followers1(c, w, c.len() as int)
}

/// The successor lists of two-word keys in the corpus `c`.
pub open spec fn succ2(c: Seq<Seq<char>>) -> spec_fn(Seq<char>) -> Seq<Seq<char>> {
    |k: Seq<char>| followers2(c, k, c.len() as int)
}

/// The keys of the neighbouring pairs of the corpus, by position.
pub open spec fn pair_keys(c: Seq<Seq<char>>) -> Seq<Seq<char>> {
    Seq::new(if c.len() >= 2 { (c.len() - 1) as nat } else { 0nat }, |j: int| pair_key(c[j], c[j + 1]))
}

/// The key of the last two words of `s`.
pub open spec fn last_key(s: Seq<Seq<char>>) -> Seq<char> {
    pair_key(s[s.len() - 2], s[s.len() - 1])
}

/// The last two words of `s` (all of it when shorter).
pub open spec fn last_two(s: Seq<Seq<char>>) -> Seq<Seq<char>> {
    s.skip(if s.len() >= 2 { s.len() - 2 } else { 0 })
}

/// `w` is a word that the draws can give after the key `k` with `current`
/// syllables used: one of the fitting successors of `k` when there are any, else
/// a fitting successor of one of the keys in `redraw`, which a redraw picks from.
pub open spec fn drawable(
    m: CmuModel,
    succ: spec_fn(Seq<char>) -> Seq<Seq<char>>,
    redraw: Seq<Seq<char>>,
    k: Seq<char>,
    current: int,
    target: int,
    w: Seq<char>,
) -> bool {
    if fitting(m, succ(k), current, target).len() > 0 {
        fitting(m, succ(k), current, target).contains(w)
    } else {
        exists|j: int| 0 <= j < redraw.len() && #[trigger] fitting(m, succ(redraw[j]), current, target).contains(w)
    }
}

/// From position 2 on, each word of `full` is one the draws can give after the
/// two words before it, with the syllables of `full[base..i]` used.
pub open spec fn chained(
    m: CmuModel,
    succ2: spec_fn(Seq<char>) -> Seq<Seq<char>>,
    c: Seq<Seq<char>>,
    full: Seq<Seq<char>>,
    base: int,
    target: int,
) -> bool {
    forall|i: int| 2 <= i < full.len() ==> drawable(m, succ2, pair_keys(c), last_key(full.take(i)),
        line_syllables(m, full.subrange(base, i)), target, #[trigger] full[i])
}

/// How a first line opens: a corpus word of at most four syllables, then a word
/// the draws can give after it.
pub open spec fn opening(
    m: CmuModel,
    succ1: spec_fn(Seq<char>) -> Seq<Seq<char>>,
    c: Seq<Seq<char>>,
    line: Seq<Seq<char>>,
    target: int,
) -> bool {
    &&& line.len() >= 2
    &&& c.contains(line[0])
    &&& word_syls(m, line[0]) <= 4
    &&& drawable(m, succ1, c, line[0], word_syls(m, line[0]), target, line[1])
}

/// `line` is a line of `target` syllables that the draws can give after `ctx`, the
/// last two words of the line before (nothing for a first line). The words of
/// `ctx` are not part of `line`.
pub open spec fn drawn_line(
    m: CmuModel,
    succ1: spec_fn(Seq<char>) -> Seq<Seq<char>>,
    succ2: spec_fn(Seq<char>) -> Seq<Seq<char>>,
    c: Seq<Seq<char>>,
    ctx: Seq<Seq<char>>,
    line: Seq<Seq<char>>,
    target: int,
) -> bool {
    &&& line_syllables(m, line) == target
    &&& if ctx.len() == 0 { opening(m, succ1, c, line, target) } else { line.len() >= 1 }
    &&& chained(m, succ2, c, ctx + line, ctx.len() as int, target)
}

/// Three lines of 5, 7 and 5 syllables that the draws can give from the corpus
/// `c`, the second and third each continuing from the last two words before it.
pub open spec fn drawn_haiku(m: CmuModel, c: Seq<Seq<char>>, l1: Seq<Seq<char>>, l2: Seq<Seq<char>>, l3: Seq<Seq<char>>) -> bool {
    &&& drawn_line(m, succ1(c), succ2(c), c, Seq::empty(), l1, 5)
    &&& drawn_line(m, succ1(c), succ2(c), c, last_two(l1), l2, 7)
    &&& drawn_line(m, succ1(c), succ2(c), c, last_two(last_two(l1) + l2), l3, 5)
}

pub proof fn lemma_fitting_contains(m: CmuModel, s: Seq<Seq<char>>, current: int, target: int, w: Seq<char>)
    requires
        fitting(m, s, current, target).contains(w),
    ensures
        s.contains(w),
        current + word_syls(m, w) <= target,
{
    let f = s.filter(|x: Seq<char>| current + word_syls(m, x) <= target);
    s.lemma_filter_contains_rev(|x: Seq<char>| current + word_syls(m, x) <= target, w);
    let i = choose|i: int| 0 <= i < f.len() && f[i] == w;
    s.lemma_filter_pred(|x: Seq<char>| current + word_syls(m, x) <= target, i);
}

/// A drawable word fits the line and is a successor of the key or of a redraw key.
pub proof fn lemma_drawable(
    m: CmuModel,
    succ: spec_fn(Seq<char>) -> Seq<Seq<char>>,
    redraw: Seq<Seq<char>>,
    k: Seq<char>,
    current: int,
    target: int,
    w: Seq<char>,
)
    requires
        drawable(m, succ, redraw, k, current, target, w),
    ensures
        current + word_syls(m, w) <= target,
        succ(k).contains(w) || exists|j: int| 0 <= j < redraw.len() && #[trigger] succ(redraw[j]).contains(w),
{
    if fitting(m, succ(k), current, target).len() > 0 {
        lemma_fitting_contains(m, succ(k), current, target, w);
    } else {
        let j = choose|j: int| 0 <= j < redraw.len() && #[trigger] fitting(m, succ(redraw[j]), current, target).contains(w);
        lemma_fitting_contains(m, succ(redraw[j]), current, target, w);
    }
}

pub proof fn lemma_succ_in(succ: spec_fn(Seq<char>) -> Seq<Seq<char>>, redraw: Seq<Seq<char>>, k: Seq<char>, c: Seq<Seq<char>>, w: Seq<char>)
    requires
        forall|x: Seq<char>| all_in(#[trigger] succ(x), c),
        succ(k).contains(w) || exists|j: int| 0 <= j < redraw.len() && #[trigger] succ(redraw[j]).contains(w),
    ensures
        c.contains(w),
{
    let key = if succ(k).contains(w) { k } else {
        let j = choose|j: int| 0 <= j < redraw.len() && #[trigger] succ(redraw[j]).contains(w);
        redraw[j]
    };
    assert(succ(key).contains(w));
    assert(all_in(succ(key), c));
    let t = choose|t: int| 0 <= t < succ(key).len() && #[trigger] succ(key)[t] == w;
    assert(c.contains(succ(key)[t]));
}

/// Every word of a drawn line is a corpus word when every successor list holds
/// corpus words only.
pub proof fn lemma_drawn_line_in(
    m: CmuModel,
    s1: spec_fn(Seq<char>) -> Seq<Seq<char>>,
    s2: spec_fn(Seq<char>) -> Seq<Seq<char>>,
    c: Seq<Seq<char>>,
    ctx: Seq<Seq<char>>,
    line: Seq<Seq<char>>,
    target: int,
)
    requires
        drawn_line(m, s1, s2, c, ctx, line, target),
        ctx.len() == 0 || ctx.len() == 2,
        forall|k: Seq<char>| all_in(#[trigger] s1(k), c),
        forall|k: Seq<char>| all_in(#[trigger] s2(k), c),
    ensures
        all_in(line, c),
{
    let full = ctx + line;
    assert forall|i: int| 0 <= i < line.len() implies c.contains(#[trigger] line[i]) by {
        if ctx.len() == 0 && i < 2 {
            if i == 1 {
                lemma_drawable(m, s1, c, line[0], word_syls(m, line[0]), target, line[1]);
                lemma_succ_in(s1, c, line[0], c, line[1]);
            }
        } else {
            let j = ctx.len() + i;
            assert(full[j] == line[i]);
            lemma_drawable(m, s2, pair_keys(c), last_key(full.take(j)),
                line_syllables(m, full.subrange(ctx.len() as int, j)), target, full[j]);
            lemma_succ_in(s2, pair_keys(c), last_key(full.take(j)), c, full[j]);
        }
    }
}

// ---------------------------------------------------------------------------
// Steps of a draw
// ---------------------------------------------------------------------------

/// The corpus word at the drawn position `idx` with its syllables, when it has at
/// most four.
pub fn first_word_at(cmu: &CmuDict, corpus: &Vec<Vec<char>>, idx: usize) -> (r: Option<(Vec<char>, i64)>)
    requires
        idx < corpus@.len(),
    ensures
        match r {
            Some((w, n)) => w@ == corpus@[idx as int]@ && n == word_syls(cmu.model(), w@) && 0 <= n <= 4,
            None => word_syls(cmu.model(), corpus@[idx as int]@) > 4,
        },
{
    let n = syllables_of(cmu, corpus[idx].as_slice());
    if n <= 4 {
        Some((copy_chars(corpus[idx].as_slice()), n))
    } else {
        None
    }
}

/// The fitting successors of the corpus word at the drawn position `idx`.
pub fn redraw_word_choices(cmu: &CmuDict, map1: &SuffixMap, corpus: &Vec<Vec<char>>, idx: usize, current: i64, target: i64) -> (r: Vec<Vec<char>>)
    requires
        map1.wf(),
        idx < corpus@.len(),
    ensures
        char_views(r@) == fitting(cmu.model(), map1.get(corpus@[idx as int]@), current as int, target as int),
{
    let k = copy_chars(corpus[idx].as_slice());
    word_after(cmu, k.as_slice(), map1, current, target)
}

/// The fitting successors of the neighbouring pair at the drawn position `idx`.
pub fn redraw_pair_choices(cmu: &CmuDict, map2: &SuffixMap, corpus: &Vec<Vec<char>>, idx: usize, current: i64, target: i64) -> (r: Vec<Vec<char>>)
    requires
        map2.wf(),
        idx + 1 < corpus@.len(),
    ensures
        char_views(r@) == fitting(cmu.model(), map2.get(pair_keys(char_views(corpus@))[idx as int]), current as int, target as int),
{
    let n = corpus.len();
    let mut k: Vec<char> = Vec::new();
    append_chars(&mut k, corpus[idx].as_slice());
    k.push(' ');
    append_chars(&mut k, corpus[idx + 1].as_slice());
    assert(k@ =~= pair_key(corpus@[idx as int]@, corpus@[idx + 1]@));
    assert(pair_keys(char_views(corpus@))[idx as int] == pair_key(corpus@[idx as int]@, corpus@[idx + 1]@));
    word_after(cmu, k.as_slice(), map2, current, target)
}

/// What adding a drawn word does to a line.
pub enum LineStep {
    /// The word would pass the target; the line is unchanged.
    Skip,
    /// The word was added; the line now has this many syllables, still short.
    Grow(i64),
    /// The word was added and the line has exactly the target.
    Complete,
}

/// Adds the drawn word `w` to `line` when its syllables fit (see [`LineStep`]).
pub fn extend_line(cmu: &CmuDict, line: &mut Vec<Vec<char>>, line_syls: i64, target: i64, w: Vec<char>) -> (r: LineStep)
    requires
        0 <= line_syls < target,
    ensures
        line_syls + word_syls(cmu.model(), w@) > target ==> r == LineStep::Skip && final(line)@ == old(line)@,
        line_syls + word_syls(cmu.model(), w@) < target ==> r == LineStep::Grow((line_syls + word_syls(cmu.model(), w@)) as i64)
            && char_views(final(line)@) == char_views(old(line)@).push(w@),
        line_syls + word_syls(cmu.model(), w@) == target ==> r == LineStep::Complete
            && char_views(final(line)@) == char_views(old(line)@).push(w@),
{
    let n = syllables_of(cmu, w.as_slice());
    if (line_syls as i128) + (n as i128) > (target as i128) {
        return LineStep::Skip;
    }
    let ghost before = char_views(line@);
    let ghost wv = w@;
    line.push(w);
    assert(char_views(line@) =~= before.push(wv));
    if (line_syls as i128) + (n as i128) < (target as i128) {
        LineStep::Grow(line_syls + n)
    } else {
        LineStep::Complete
    }
}

// ---------------------------------------------------------------------------
// When a draw succeeds, and how it gives up
// ---------------------------------------------------------------------------

/// The words `ws` follow `pre`, each a fitting successor of the two words before
/// it, with no redraw; syllables are counted from position `base` of `pre + ws`.
pub open spec fn direct_chain(
    m: CmuModel,
    succ2: spec_fn(Seq<char>) -> Seq<Seq<char>>,
    pre: Seq<Seq<char>>,
    base: int,
    ws: Seq<Seq<char>>,
    target: int,
) -> bool {
    forall|i: int| 0 <= i < ws.len() ==> fitting(m, succ2(last_key(pre + ws.take(i))),
        line_syllables(m, (pre + ws.take(i)).skip(base)), target).contains(#[trigger] ws[i])
}

/// The key of the last two words of `cur` has fitting successors, each of at least
/// one syllable.
pub open spec fn fits_onward(m: CmuModel, succ2: spec_fn(Seq<char>) -> Seq<Seq<char>>, cur: Seq<Seq<char>>, syls: int, target: int) -> bool {
    let f = fitting(m, succ2(last_key(cur)), syls, target);
    &&& f.len() > 0
    &&& forall|i: int| 0 <= i < f.len() ==> word_syls(m, #[trigger] f[i]) >= 1
}

/// From `pre`, every line the draws can build without a redraw finds fitting
/// successors of at least one syllable until it is complete: no redraw is ever
/// needed and the line cannot stall.
#[verifier::opaque]
pub open spec fn never_stuck(m: CmuModel, succ2: spec_fn(Seq<char>) -> Seq<Seq<char>>, pre: Seq<Seq<char>>, base: int, target: int) -> bool {
    forall|ws: Seq<Seq<char>>| #[trigger] direct_chain(m, succ2, pre, base, ws, target)
        && line_syllables(m, (pre + ws).skip(base)) < target
        ==> fits_onward(m, succ2, pre + ws, line_syllables(m, (pre + ws).skip(base)), target)
}

/// A first line opening with `w` needs no redraw: `w` has at most four syllables
/// and fitting successors, and after each of them the line is complete or never
/// stuck.
pub open spec fn opens_from(
    m: CmuModel,
    succ1: spec_fn(Seq<char>) -> Seq<Seq<char>>,
    succ2: spec_fn(Seq<char>) -> Seq<Seq<char>>,
    w: Seq<char>,
    target: int,
) -> bool {
    let f = fitting(m, succ1(w), word_syls(m, w), target);
    &&& word_syls(m, w) <= 4
    &&& f.len() > 0
    &&& forall|i: int| 0 <= i < f.len() ==> word_syls(m, w) + word_syls(m, #[trigger] f[i]) == target
        || never_stuck(m, succ2, seq![w, f[i]], 0, target)
}

/// Whatever corpus word a first line opens with, no redraw is needed.
pub open spec fn opening_owed(
    m: CmuModel,
    succ1: spec_fn(Seq<char>) -> Seq<Seq<char>>,
    succ2: spec_fn(Seq<char>) -> Seq<Seq<char>>,
    c: Seq<Seq<char>>,
    target: int,
) -> bool {
    &&& c.len() > 0
    &&& forall|j: int| 0 <= j < c.len() ==> opens_from(m, succ1, succ2, #[trigger] c[j], target)
}

/// No line of a haiku from the corpus `c` ever needs a redraw, whatever the lines
/// before it.
pub open spec fn haiku_owed(m: CmuModel, c: Seq<Seq<char>>) -> bool {
    &&& opening_owed(m, succ1(c), succ2(c), c, 5)
    &&& forall|l1: Seq<Seq<char>>| #[trigger] drawn_line(m, succ1(c), succ2(c), c, Seq::empty(), l1, 5) ==> {
        &&& never_stuck(m, succ2(c), last_two(l1), 2, 7)
        &&& forall|l2: Seq<Seq<char>>| #[trigger] drawn_line(m, succ1(c), succ2(c), c, last_two(l1), l2, 7)
            ==> never_stuck(m, succ2(c), last_two(last_two(l1) + l2), 2, 5)
    }
}

/// `draws` are [`DRAW_LIMIT`] positions below `bound`.
pub open spec fn full_batch(draws: Seq<usize>, bound: int) -> bool {
    &&& draws.len() == DRAW_LIMIT
    &&& forall|k: int| 0 <= k < draws.len() ==> #[trigger] draws[k] < bound
}

/// A full batch of drawn corpus words, each of more than four syllables.
pub open spec fn long_words(m: CmuModel, c: Seq<Seq<char>>, draws: Seq<usize>) -> bool {
    &&& full_batch(draws, c.len() as int)
    &&& forall|k: int| 0 <= k < draws.len() ==> word_syls(m, c[#[trigger] draws[k] as int]) > 4
}

/// A full batch of drawn corpus words, none with a fitting successor.
pub open spec fn fruitless_words(
    m: CmuModel,
    succ1: spec_fn(Seq<char>) -> Seq<Seq<char>>,
    c: Seq<Seq<char>>,
    draws: Seq<usize>,
    current: int,
    target: int,
) -> bool {
    &&& full_batch(draws, c.len() as int)
    &&& forall|k: int| 0 <= k < draws.len() ==> fitting(m, succ1(c[#[trigger] draws[k] as int]), current, target).len() == 0
}

/// A full batch of drawn neighbouring pairs, none with a fitting successor.
pub open spec fn fruitless_pairs(
    m: CmuModel,
    succ2: spec_fn(Seq<char>) -> Seq<Seq<char>>,
    c: Seq<Seq<char>>,
    draws: Seq<usize>,
    current: int,
    target: int,
) -> bool {
    &&& full_batch(draws, pair_keys(c).len() as int)
    &&& forall|k: int| 0 <= k < draws.len() ==> fitting(m, succ2(pair_keys(c)[#[trigger] draws[k] as int]), current, target).len() == 0
}

/// `cur` is a state the line reaches: the previous line's last two words `ctx`
/// (for a first line, an opening pair drawn as a first line opens), then words
/// each a draw can give after the two before it, still short of `target`.
pub open spec fn line_state(
    m: CmuModel,
    succ1: spec_fn(Seq<char>) -> Seq<Seq<char>>,
    succ2: spec_fn(Seq<char>) -> Seq<Seq<char>>,
    c: Seq<Seq<char>>,
    ctx: Seq<Seq<char>>,
    cur: Seq<Seq<char>>,
    target: int,
) -> bool {
    &&& cur.len() >= 2
    &&& if ctx.len() == 0 { opening(m, succ1, c, cur.take(2), target) } else { cur.take(2) == ctx }
    &&& chained(m, succ2, c, cur, ctx.len() as int, target)
    &&& line_syllables(m, cur.skip(ctx.len() as int)) < target
}

/// How drawing a line after `ctx` (nothing for a first line) can give up, each
/// time at the state the line has reached: for a first line, a batch of
/// [`DRAW_LIMIT`] opening words all too long, or an opening word without a fitting
/// successor and a batch of redrawn words none of which has one; at a state the
/// line reaches whose last two words have no fitting successor, a batch of
/// [`DRAW_LIMIT`] redrawn pairs none of which has one, at that state's syllables;
/// or the line reaching [`DRAW_LIMIT`] words past its first two.
pub open spec fn gave_up(
    m: CmuModel,
    succ1: spec_fn(Seq<char>) -> Seq<Seq<char>>,
    succ2: spec_fn(Seq<char>) -> Seq<Seq<char>>,
    c: Seq<Seq<char>>,
    ctx: Seq<Seq<char>>,
    target: int,
) -> bool {
    ||| ctx.len() == 0 && exists|ds: Seq<usize>| #[trigger] long_words(m, c, ds)
    ||| ctx.len() == 0 && exists|w: Seq<char>, ds: Seq<usize>| c.contains(w) && word_syls(m, w) <= 4
        && fitting(m, succ1(w), word_syls(m, w), target).len() == 0
        && #[trigger] fruitless_words(m, succ1, c, ds, word_syls(m, w), target)
    ||| exists|cur: Seq<Seq<char>>, ds: Seq<usize>| line_state(m, succ1, succ2, c, ctx, cur, target)
        && fitting(m, succ2(last_key(cur)), line_syllables(m, cur.skip(ctx.len() as int)), target).len() == 0
        && #[trigger] fruitless_pairs(m, succ2, c, ds, line_syllables(m, cur.skip(ctx.len() as int)), target)
    ||| exists|cur: Seq<Seq<char>>| #[trigger] line_state(m, succ1, succ2, c, ctx, cur, target)
        && cur.len() >= DRAW_LIMIT + 2
}

/// How drawing a haiku from the corpus `c` can give up: its first line gives up,
/// or its second after some first line the draws can give, or its third after
/// some first and second.
pub open spec fn haiku_gave_up(m: CmuModel, c: Seq<Seq<char>>) -> bool {
    ||| gave_up(m, succ1(c), succ2(c), c, Seq::empty(), 5)
    ||| exists|l1: Seq<Seq<char>>| #[trigger] drawn_line(m, succ1(c), succ2(c), c, Seq::empty(), l1, 5) && {
        ||| gave_up(m, succ1(c), succ2(c), c, last_two(l1), 7)
        ||| exists|l2: Seq<Seq<char>>| #[trigger] drawn_line(m, succ1(c), succ2(c), c, last_two(l1), l2, 7)
            && gave_up(m, succ1(c), succ2(c), c, last_two(last_two(l1) + l2), 5)
    }
}

pub proof fn lemma_fitting_len(m: CmuModel, s: Seq<Seq<char>>, current: int, target: int)
    ensures
        fitting(m, s, current, target).len() <= s.len(),
{
    s.lemma_filter_len(|x: Seq<char>| current + word_syls(m, x) <= target);
}

pub proof fn lemma_followers1_short(c: Seq<Seq<char>>, w: Seq<char>, n: int)
    requires
        c.len() < 2,
    ensures
        followers1(c, w, n) == Seq::<Seq<char>>::empty(),
    decreases n,
{
    if n > 0 {
        lemma_followers1_short(c, w, n - 1);
    }
}

pub proof fn lemma_errors_differ()
    ensures
        empty_choice_error() != empty_range_error(),
        empty_choice_error() != recursion_error(),
        empty_range_error() != recursion_error(),
{
    reveal_strlit("IndexError('Cannot choose from an empty sequence')");
    reveal_strlit("ValueError('empty range for randrange()')");
    reveal_strlit("RecursionError('maximum recursion depth exceeded')");
    assert(empty_choice_error()[0] != empty_range_error()[0]);
    assert(empty_choice_error()[0] != recursion_error()[0]);
    assert(empty_range_error()[0] != recursion_error()[0]);
}

/// Where no redraw is ever needed, a line drawn so far without one can go on.
pub proof fn lemma_never_stuck_step(
    m: CmuModel,
    s2: spec_fn(Seq<char>) -> Seq<Seq<char>>,
    pre: Seq<Seq<char>>,
    base: int,
    ws: Seq<Seq<char>>,
    target: int,
)
    requires
        never_stuck(m, s2, pre, base, target),
        direct_chain(m, s2, pre, base, ws, target),
        line_syllables(m, (pre + ws).skip(base)) < target,
    ensures
        fits_onward(m, s2, pre + ws, line_syllables(m, (pre + ws).skip(base)), target),
{
    reveal(never_stuck);
}

/// Only the first two words of a line decide how it opens.
pub proof fn lemma_opening_prefix(
    m: CmuModel,
    s1: spec_fn(Seq<char>) -> Seq<Seq<char>>,
    c: Seq<Seq<char>>,
    first: Seq<Seq<char>>,
    line: Seq<Seq<char>>,
    target: int,
)
    requires
        opening(m, s1, c, first, target),
        first.len() == 2,
        line.len() >= 2,
        line.take(2) == first,
    ensures
        opening(m, s1, c, line, target),
{
    assert(line[0] == line.take(2)[0]);
    assert(line[1] == line.take(2)[1]);
}

/// A drawn word added to a chained line keeps it chained.
pub proof fn lemma_chained_push(
    m: CmuModel,
    s2: spec_fn(Seq<char>) -> Seq<Seq<char>>,
    c: Seq<Seq<char>>,
    cur0: Seq<Seq<char>>,
    start: int,
    target: int,
    w: Seq<char>,
)
    requires
        cur0.len() >= 2,
        0 <= start <= 2,
        chained(m, s2, c, cur0, start, target),
        drawable(m, s2, pair_keys(c), last_key(cur0), line_syllables(m, cur0.skip(start)), target, w),
    ensures
        chained(m, s2, c, cur0.push(w), start, target),
{
    let cur = cur0.push(w);
    assert forall|i: int| 2 <= i < cur.len() implies drawable(m, s2, pair_keys(c), last_key(cur.take(i)),
        line_syllables(m, cur.subrange(start, i)), target, #[trigger] cur[i]) by {
        if i < cur0.len() {
            assert(cur.take(i) =~= cur0.take(i));
            assert(cur.subrange(start, i) =~= cur0.subrange(start, i));
            assert(cur[i] == cur0[i]);
        } else {
            assert(cur.take(i) =~= cur0);
            assert(cur.subrange(start, i) =~= cur0.skip(start));
        }
    }
}

/// A fitting successor of the last key extends a chain drawn without redraws.
pub proof fn lemma_direct_push(
    m: CmuModel,
    s2: spec_fn(Seq<char>) -> Seq<Seq<char>>,
    pre: Seq<Seq<char>>,
    base: int,
    ws: Seq<Seq<char>>,
    target: int,
    w: Seq<char>,
)
    requires
        direct_chain(m, s2, pre, base, ws, target),
        fitting(m, s2(last_key(pre + ws)), line_syllables(m, (pre + ws).skip(base)), target).contains(w),
    ensures
        direct_chain(m, s2, pre, base, ws.push(w), target),
{
    let ws2 = ws.push(w);
    assert forall|i: int| 0 <= i < ws2.len() implies fitting(m, s2(last_key(pre + ws2.take(i))),
        line_syllables(m, (pre + ws2.take(i)).skip(base)), target).contains(#[trigger] ws2[i]) by {
        if i < ws.len() {
            assert(ws2.take(i) =~= ws.take(i));
            assert(ws2[i] == ws[i]);
        } else {
            assert(ws2.take(i) =~= ws);
        }
    }
}

// ---------------------------------------------------------------------------
// Batches of draws
// ---------------------------------------------------------------------------

/// [`DRAW_LIMIT`] positions below `bound`, drawn at random.
fn draw_batch(bound: usize) -> (r: Vec<usize>)
    requires
        bound > 0,
    ensures
        full_batch(r@, bound as int),
{
    let mut r: Vec<usize> = Vec::new();
    let mut k: u32 = 0;
    while k < DRAW_LIMIT
        invariant
            k <= DRAW_LIMIT,
            r@.len() == k,
            bound > 0,
            forall|j: int| 0 <= j < r@.len() ==> #[trigger] r@[j] < bound,
        decreases DRAW_LIMIT - k,
    {
        let d = random_below(bound);
        r.push(d);
        k += 1;
    }
    r
}

/// The first of the drawn corpus positions `draws` whose word has at most four
/// syllables, with that word and its syllables; `None` when there is none.
pub fn first_short_word(cmu: &CmuDict, corpus: &Vec<Vec<char>>, draws: &Vec<usize>) -> (r: Option<(Vec<char>, i64)>)
    requires
        forall|k: int| 0 <= k < draws@.len() ==> #[trigger] draws@[k] < corpus@.len(),
    ensures
        match r {
            Some((w, n)) => exists|k: int| 0 <= k < draws@.len() && w@ == corpus@[#[trigger] draws@[k] as int]@
                && n == word_syls(cmu.model(), w@) && 0 <= n <= 4
                && forall|j: int| 0 <= j < k ==> word_syls(cmu.model(), corpus@[draws@[j] as int]@) > 4,
            None => forall|k: int| 0 <= k < draws@.len() ==> word_syls(cmu.model(), corpus@[#[trigger] draws@[k] as int]@) > 4,
        },
{
    let mut k: usize = 0;
    while k < draws.len()
        invariant
            k <= draws@.len(),
            forall|t: int| 0 <= t < draws@.len() ==> #[trigger] draws@[t] < corpus@.len(),
            forall|j: int| 0 <= j < k ==> word_syls(cmu.model(), corpus@[#[trigger] draws@[j] as int]@) > 4,
        decreases draws.len() - k,
    {
        match first_word_at(cmu, corpus, draws[k]) {
            Some(x) => {
                return Some(x);
            },
            None => {},
        }
        k += 1;
    }
    None
}

/// The fitting successors of the word at the first of the drawn corpus positions
/// `draws` that has any; `None` when none has.
pub fn first_fruitful_word(cmu: &CmuDict, map1: &SuffixMap, corpus: &Vec<Vec<char>>, draws: &Vec<usize>, current: i64, target: i64) -> (r: Option<Vec<Vec<char>>>)
    requires
        map1.wf(),
        forall|k: int| 0 <= k < draws@.len() ==> #[trigger] draws@[k] < corpus@.len(),
    ensures
        match r {
            Some(cs) => cs@.len() > 0 && exists|k: int| 0 <= k < draws@.len()
                && char_views(cs@) == fitting(cmu.model(), map1.get(corpus@[#[trigger] draws@[k] as int]@), current as int, target as int)
                && forall|j: int| 0 <= j < k ==> fitting(cmu.model(), map1.get(corpus@[draws@[j] as int]@), current as int, target as int).len() == 0,
            None => forall|k: int| 0 <= k < draws@.len()
                ==> fitting(cmu.model(), map1.get(corpus@[#[trigger] draws@[k] as int]@), current as int, target as int).len() == 0,
        },
{
    let mut k: usize = 0;
    while k < draws.len()
        invariant
            k <= draws@.len(),
            map1.wf(),
            forall|t: int| 0 <= t < draws@.len() ==> #[trigger] draws@[t] < corpus@.len(),
            forall|j: int| 0 <= j < k ==> fitting(cmu.model(), map1.get(corpus@[#[trigger] draws@[j] as int]@), current as int, target as int).len() == 0,
        decreases draws.len() - k,
    {
        let cs = redraw_word_choices(cmu, map1, corpus, draws[k], current, target);
        if cs.len() > 0 {
            return Some(cs);
        }
        k += 1;
    }
    None
}

/// The fitting successors of the neighbouring pair at the first of the drawn
/// positions `draws` that has any; `None` when none has.
pub fn first_fruitful_pair(cmu: &CmuDict, map2: &SuffixMap, corpus: &Vec<Vec<char>>, draws: &Vec<usize>, current: i64, target: i64) -> (r: Option<Vec<Vec<char>>>)
    requires
        map2.wf(),
        forall|k: int| 0 <= k < draws@.len() ==> #[trigger] draws@[k] + 1 < corpus@.len(),
    ensures
        match r {
            Some(cs) => cs@.len() > 0 && exists|k: int| 0 <= k < draws@.len()
                && char_views(cs@) == fitting(cmu.model(), map2.get(pair_keys(char_views(corpus@))[#[trigger] draws@[k] as int]), current as int, target as int)
                && forall|j: int| 0 <= j < k ==> fitting(cmu.model(), map2.get(pair_keys(char_views(corpus@))[draws@[j] as int]), current as int, target as int).len() == 0,
            None => forall|k: int| 0 <= k < draws@.len()
                ==> fitting(cmu.model(), map2.get(pair_keys(char_views(corpus@))[#[trigger] draws@[k] as int]), current as int, target as int).len() == 0,
        },
{
    let mut k: usize = 0;
    while k < draws.len()
        invariant
            k <= draws@.len(),
            map2.wf(),
            forall|t: int| 0 <= t < draws@.len() ==> #[trigger] draws@[t] + 1 < corpus@.len(),
            forall|j: int| 0 <= j < k ==> fitting(cmu.model(), map2.get(pair_keys(char_views(corpus@))[#[trigger] draws@[j] as int]), current as int, target as int).len() == 0,
        decreases draws.len() - k,
    {
        let cs = redraw_pair_choices(cmu, map2, corpus, draws[k], current, target);
        if cs.len() > 0 {
            return Some(cs);
        }
        k += 1;
    }
    None
}

// ---------------------------------------------------------------------------
// Drawing
// ---------------------------------------------------------------------------

/// `random_word`: a corpus word of at most four syllables, drawn at random, with
/// its syllable count: the first such word of a batch of [`DRAW_LIMIT`] draws
/// (see [`first_short_word`]), or the give-up error when the batch has none.
pub fn random_word(cmu: &CmuDict, corpus: &Vec<Vec<char>>) -> (r: Result<(Vec<char>, i64), String>)
    ensures
        match r {
            Ok((w, n)) => char_views(corpus@).contains(w@) && n == word_syls(cmu.model(), w@) && 0 <= n <= 4,
            Err(e) => (corpus@.len() == 0 && e@ == empty_choice_error())
                || (corpus@.len() > 0 && e@ == recursion_error()
                    && exists|ds: Seq<usize>| #[trigger] long_words(cmu.model(), char_views(corpus@), ds)),
        },
        corpus@.len() == 0 ==> r is Err,
        corpus@.len() > 0 && (forall|j: int| 0 <= j < corpus@.len() ==> word_syls(cmu.model(), #[trigger] char_views(corpus@)[j]) <= 4)
            ==> r is Ok,
{
    if corpus.len() == 0 {
        return Err("IndexError('Cannot choose from an empty sequence')".to_owned());
    }
    let ghost c = char_views(corpus@);
    let draws = draw_batch(corpus.len());
    match first_short_word(cmu, corpus, &draws) {
        Some(x) => {
            proof {
                let k = choose|k: int| 0 <= k < draws@.len() && x.0@ == corpus@[#[trigger] draws@[k] as int]@
                    && x.1 == word_syls(cmu.model(), x.0@) && 0 <= x.1 <= 4
                    && forall|j: int| 0 <= j < k ==> word_syls(cmu.model(), corpus@[draws@[j] as int]@) > 4;
                assert(c[draws@[k] as int] == x.0@);
            }
            Ok(x)
        },
        None => {
            proof {
                assert forall|k: int| 0 <= k < draws@.len() implies word_syls(cmu.model(), c[#[trigger] draws@[k] as int]) > 4 by {
                    assert(c[draws@[k] as int] == corpus@[draws@[k] as int]@);
                }
                assert(long_words(cmu.model(), c, draws@));
                assert(word_syls(cmu.model(), c[draws@[0] as int]) > 4);
            }
            Err("RecursionError('maximum recursion depth exceeded')".to_owned())
        },
    }
}

/// The key of the last two words of `line`.
fn last_pair(line: &Vec<Vec<char>>) -> (k: Vec<char>)
    requires
        line@.len() >= 2,
    ensures
        k@ == pair_key(line@[line@.len() - 2]@, line@[line@.len() - 1]@),
{
    let n = line.len();
    let mut k: Vec<char> = Vec::new();
    append_chars(&mut k, line[n - 2].as_slice());
    k.push(' ');
    append_chars(&mut k, line[n - 1].as_slice());
    assert(k@ =~= pair_key(line@[n - 2]@, line@[n - 1]@));
    k
}



/// The fitting successors of the two-word key `prefix`; when there are none,
/// those of the first fruitful neighbouring pair of a batch of [`DRAW_LIMIT`]
/// random draws (see [`first_fruitful_pair`]). A corpus of fewer than two words
/// has no pair to draw.
fn choices_after(cmu: &CmuDict, map2: &SuffixMap, corpus: &Vec<Vec<char>>, prefix: Vec<char>, current: i64, target: i64) -> (r: Result<Vec<Vec<char>>, String>)
    requires
        map2.wf(),
    ensures
        match r {
            Ok(cs) => cs@.len() > 0 && forall|i: int| 0 <= i < cs@.len() ==> drawable(cmu.model(), succ_of(*map2),
                pair_keys(char_views(corpus@)), prefix@, current as int, target as int, #[trigger] cs@[i]@),
            Err(e) => (e@ == empty_range_error() && corpus@.len() < 2)
                || (e@ == recursion_error() && corpus@.len() >= 2
                    && exists|ds: Seq<usize>| #[trigger] fruitless_pairs(cmu.model(), succ_of(*map2), char_views(corpus@), ds,
                        current as int, target as int)),
        },
        fitting(cmu.model(), map2.get(prefix@), current as int, target as int).len() > 0
            ==> (match r { Ok(cs) => char_views(cs@) == fitting(cmu.model(), map2.get(prefix@), current as int, target as int), Err(_) => false }),
        fitting(cmu.model(), map2.get(prefix@), current as int, target as int).len() == 0 && corpus@.len() < 2
            ==> (match r { Err(e) => e@ == empty_range_error(), Ok(_) => false }),
{
    let ghost m = cmu.model();
    let ghost c = char_views(corpus@);
    let ghost succ = succ_of(*map2);
    let first = word_after(cmu, prefix.as_slice(), map2, current, target);
    if first.len() > 0 {
        proof {
            assert forall|i: int| 0 <= i < first@.len() implies drawable(m, succ, pair_keys(c), prefix@, current as int,
                target as int, #[trigger] first@[i]@) by {
                assert(char_views(first@)[i] == first@[i]@);
                assert(fitting(m, succ(prefix@), current as int, target as int)[i] == first@[i]@);
            }
        }
        return Ok(first);
    }
    if corpus.len() < 2 {
        return Err("ValueError('empty range for randrange()')".to_owned());
    }
    let draws = draw_batch(corpus.len() - 1);
    match first_fruitful_pair(cmu, map2, corpus, &draws, current, target) {
        Some(cs) => {
            proof {
                let k = choose|k: int| 0 <= k < draws@.len()
                    && char_views(cs@) == fitting(m, map2.get(pair_keys(c)[#[trigger] draws@[k] as int]), current as int, target as int)
                    && forall|j: int| 0 <= j < k ==> fitting(m, map2.get(pair_keys(c)[draws@[j] as int]), current as int, target as int).len() == 0;
                let key = pair_keys(c)[draws@[k] as int];
                assert(0 <= draws@[k] as int && (draws@[k] as int) < pair_keys(c).len());
                assert forall|i: int| 0 <= i < cs@.len() implies drawable(m, succ, pair_keys(c), prefix@, current as int,
                    target as int, #[trigger] cs@[i]@) by {
                    assert(char_views(cs@)[i] == cs@[i]@);
                    assert(fitting(m, succ(key), current as int, target as int)[i] == cs@[i]@);
                    assert(fitting(m, succ(pair_keys(c)[draws@[k] as int]), current as int, target as int).contains(cs@[i]@));
                }
            }
            Ok(cs)
        },
        None => {
            proof {
                assert forall|k: int| 0 <= k < draws@.len() implies #[trigger] draws@[k] < pair_keys(c).len() by {}
                assert(fruitless_pairs(m, succ, c, draws@, current as int, target as int));
            }
            Err("RecursionError('maximum recursion depth exceeded')".to_owned())
        },
    }
}

/// The fitting successors of the word `prefix`; when there are none, those of
/// the first fruitful corpus word of a batch of [`DRAW_LIMIT`] random draws (see
/// [`first_fruitful_word`]).
fn choices_after1(cmu: &CmuDict, map1: &SuffixMap, corpus: &Vec<Vec<char>>, prefix: Vec<char>, current: i64, target: i64) -> (r: Result<Vec<Vec<char>>, String>)
    requires
        map1.wf(),
    ensures
        match r {
            Ok(cs) => cs@.len() > 0 && forall|i: int| 0 <= i < cs@.len() ==> drawable(cmu.model(), succ_of(*map1),
                char_views(corpus@), prefix@, current as int, target as int, #[trigger] cs@[i]@),
            Err(e) => (e@ == empty_choice_error() && corpus@.len() == 0)
                || (e@ == recursion_error() && corpus@.len() > 0
                    && exists|ds: Seq<usize>| #[trigger] fruitless_words(cmu.model(), succ_of(*map1), char_views(corpus@), ds,
                        current as int, target as int)),
        },
        fitting(cmu.model(), map1.get(prefix@), current as int, target as int).len() > 0
            ==> (match r { Ok(cs) => char_views(cs@) == fitting(cmu.model(), map1.get(prefix@), current as int, target as int), Err(_) => false }),
        corpus@.len() > 0 && (forall|k: Seq<char>| #[trigger] map1.get(k).len() == 0)
            ==> (match r { Err(e) => e@ == recursion_error(), Ok(_) => false }),
{
    let ghost m = cmu.model();
    let ghost c = char_views(corpus@);
    let ghost succ = succ_of(*map1);
    let first = word_after(cmu, prefix.as_slice(), map1, current, target);
    proof {
        lemma_fitting_len(m, map1.get(prefix@), current as int, target as int);
    }
    if first.len() > 0 {
        proof {
            assert forall|i: int| 0 <= i < first@.len() implies drawable(m, succ, c, prefix@, current as int,
                target as int, #[trigger] first@[i]@) by {
                assert(char_views(first@)[i] == first@[i]@);
                assert(fitting(m, succ(prefix@), current as int, target as int)[i] == first@[i]@);
            }
        }
        return Ok(first);
    }
    if corpus.len() == 0 {
        return Err("IndexError('Cannot choose from an empty sequence')".to_owned());
    }
    let draws = draw_batch(corpus.len());
    match first_fruitful_word(cmu, map1, corpus, &draws, current, target) {
        Some(cs) => {
            proof {
                let k = choose|k: int| 0 <= k < draws@.len()
                    && char_views(cs@) == fitting(m, map1.get(corpus@[#[trigger] draws@[k] as int]@), current as int, target as int)
                    && forall|j: int| 0 <= j < k ==> fitting(m, map1.get(corpus@[draws@[j] as int]@), current as int, target as int).len() == 0;
                let j = draws@[k] as int;
                assert(c[j] == corpus@[j]@);
                lemma_fitting_len(m, map1.get(c[j]), current as int, target as int);
                assert forall|i: int| 0 <= i < cs@.len() implies drawable(m, succ, c, prefix@, current as int,
                    target as int, #[trigger] cs@[i]@) by {
                    assert(char_views(cs@)[i] == cs@[i]@);
                    assert(fitting(m, succ(c[j]), current as int, target as int)[i] == cs@[i]@);
                    assert(fitting(m, succ(c[j]), current as int, target as int).contains(cs@[i]@));
                }
            }
            Ok(cs)
        },
        None => {
            proof {
                assert forall|k: int| 0 <= k < draws@.len() implies fitting(m, succ(c[#[trigger] draws@[k] as int]),
                    current as int, target as int).len() == 0 by {
                    assert(c[draws@[k] as int] == corpus@[draws@[k] as int]@);
                }
                assert(fruitless_words(m, succ, c, draws@, current as int, target as int));
            }
            Err("RecursionError('maximum recursion depth exceeded')".to_owned())
        },
    }
}

/// One of `cs`, drawn at random.
fn pick(cs: &Vec<Vec<char>>) -> (r: Vec<char>)
    requires
        cs@.len() > 0,
    ensures
        exists|i: int| 0 <= i < cs@.len() && r@ == #[trigger] cs@[i]@,
{
    let i = random_below(cs.len());
    copy_chars(cs[i].as_slice())
}

pub proof fn lemma_line_push(m: CmuModel, line: Seq<Seq<char>>, start: int, w: Seq<char>)
    requires
        0 <= start <= line.len(),
    ensures
        line.push(w).skip(start) == line.skip(start).push(w),
        line_syllables(m, line.push(w).skip(start)) == line_syllables(m, line.skip(start)) + word_syls(m, w),
{
    assert(line.push(w).skip(start) =~= line.skip(start).push(w));
    assert(line.skip(start).push(w).drop_last() == line.skip(start));
}


/// `haiku_line`: draws one line of exactly `target` syllables. With no previous
/// line (`end_prev` empty) it opens with a random word and a successor of it;
/// otherwise it continues from the previous line's last two words, which are not
/// part of the new line. Every further word is a successor of the two words
/// before it, or of a randomly drawn neighbouring pair when none fits. Returns the
/// line and the last two words of the chain so far, which the next line continues
/// from; or the error text of the draw that failed. It gives up (see [`gave_up`])
/// only after a full batch of [`DRAW_LIMIT`] fruitless draws at a state the line
/// has reached, or when the line runs to [`DRAW_LIMIT`] words; where no redraw is
/// ever needed it succeeds.
#[verifier::rlimit(100)]
pub fn haiku_line(
    cmu: &CmuDict,
    map1: &SuffixMap,
    map2: &SuffixMap,
    corpus: &Vec<Vec<char>>,
    end_prev: Vec<Vec<char>>,
    target: i64,
) -> (r: Result<(Vec<Vec<char>>, Vec<Vec<char>>), String>)
    requires
        map1.wf(),
        map2.wf(),
        end_prev@.len() == 0 || end_prev@.len() == 2,
        target >= 1,
    ensures
        match r {
            Ok((line, endp)) => drawn_line(cmu.model(), succ_of(*map1), succ_of(*map2), char_views(corpus@),
                char_views(end_prev@), char_views(line@), target as int)
                && char_views(endp@) == last_two(char_views(end_prev@) + char_views(line@)),
            Err(e) => (e@ == empty_choice_error() && end_prev@.len() == 0 && corpus@.len() == 0)
                || (e@ == empty_range_error() && corpus@.len() < 2)
                || (e@ == recursion_error() && gave_up(cmu.model(), succ_of(*map1), succ_of(*map2), char_views(corpus@),
                    char_views(end_prev@), target as int)),
        },
        end_prev@.len() == 0 && corpus@.len() == 0 ==> (match r { Err(e) => e@ == empty_choice_error(), Ok(_) => false }),
        end_prev@.len() == 0 && corpus@.len() == 1 && (forall|k: Seq<char>| #[trigger] map1.get(k).len() == 0)
            ==> (match r { Err(e) => e@ == recursion_error(), Ok(_) => false }),
        end_prev@.len() == 2 && corpus@.len() < 2
            && fitting(cmu.model(), map2.get(pair_key(end_prev@[0]@, end_prev@[1]@)), 0, target as int).len() == 0
            ==> (match r { Err(e) => e@ == empty_range_error(), Ok(_) => false }),
        end_prev@.len() == 0 && target <= DRAW_LIMIT
            && opening_owed(cmu.model(), succ_of(*map1), succ_of(*map2), char_views(corpus@), target as int)
            ==> r is Ok,
        end_prev@.len() == 2 && target <= DRAW_LIMIT
            && never_stuck(cmu.model(), succ_of(*map2), char_views(end_prev@), 2, target as int)
            ==> r is Ok,
{
    let ghost m = cmu.model();
    let ghost c = char_views(corpus@);
    let ghost ctx = char_views(end_prev@);
    let ghost s1 = succ_of(*map1);
    let ghost s2 = succ_of(*map2);
    let ghost owed1 = end_prev@.len() == 0 && target <= DRAW_LIMIT && opening_owed(m, s1, s2, c, target as int);
    let ghost owed2 = end_prev@.len() == 2 && target <= DRAW_LIMIT && never_stuck(m, s2, ctx, 2, target as int);
    let ghost mut owed = false;
    let mut current: Vec<Vec<char>> = Vec::new();
    let start: usize;
    let mut line_syls: i64;
    if end_prev.len() == 0 {
        proof {
            if owed1 {
                assert forall|j: int| 0 <= j < corpus@.len() implies word_syls(m, #[trigger] char_views(corpus@)[j]) <= 4 by {
                    assert(opens_from(m, s1, s2, c[j], target as int));
                }
            }
        }
        let (w, n) = match random_word(cmu, corpus) {
            Ok(x) => x,
            Err(e) => {
                return Err(e);
            },
        };
        let w0 = copy_chars(w.as_slice());
        let ghost wv = w@;
        proof {
            if owed1 {
                let j0 = choose|j: int| 0 <= j < c.len() && c[j] == wv;
                assert(opens_from(m, s1, s2, c[j0], target as int));
            }
        }
        current.push(w);
        let ch = match choices_after1(cmu, map1, corpus, w0, n, target) {
            Ok(x) => x,
            Err(e) => {
                proof {
                    if e@ == recursion_error() && corpus@.len() > 0 {
                        let ds = choose|ds: Seq<usize>| #[trigger] fruitless_words(m, s1, c, ds, n as int, target as int);
                        assert(fruitless_words(m, s1, c, ds, word_syls(m, wv), target as int));
                    }
                }
                return Err(e);
            },
        };
        let p = pick(&ch);
        let ghost pv = p@;
        proof {
            let i = choose|i: int| 0 <= i < ch@.len() && p@ == #[trigger] ch@[i]@;
            lemma_drawable(m, s1, c, wv, n as int, target as int, pv);
            if owed1 {
                assert(char_views(ch@)[i] == pv);
                let f = fitting(m, s1(wv), word_syls(m, wv), target as int);
                assert(f[i] == pv);
                assert(word_syls(m, wv) + word_syls(m, pv) == target || never_stuck(m, s2, seq![wv, pv], 0, target as int));
            }
        }
        let n2 = syllables_of(cmu, p.as_slice());
        current.push(p);
        line_syls = n + n2;
        start = 0;
        proof {
            let cur = char_views(current@);
            assert(cur =~= seq![wv, pv]);
            assert(cur.skip(0) == cur);
            assert(cur.drop_last() =~= seq![wv]);
            assert(seq![wv].drop_last() =~= Seq::<Seq<char>>::empty());
            assert(line_syllables(m, seq![wv]) == n) by {
                reveal_with_fuel(line_syllables, 2);
            }
            assert(line_syllables(m, cur) == n + n2);
            assert(opening(m, s1, c, cur, target as int));
            assert(cur.take(0) =~= ctx);
            assert(cur.take(2) =~= cur);
            assert(cur.skip(2) =~= Seq::<Seq<char>>::empty());
            owed = owed1;
            if owed {
                assert(direct_chain(m, s2, cur.take(2), 0, cur.skip(2), target as int));
            }
        }
        if line_syls == target {
            let endp = last_n(&current, 2);
            proof {
                let cur = char_views(current@);
                assert(ctx + cur =~= cur);
            }
            return Ok((current, endp));
        }
    } else {
        let a = copy_chars(end_prev[0].as_slice());
        let b = copy_chars(end_prev[1].as_slice());
        current.push(a);
        current.push(b);
        start = 2;
        line_syls = 0;
        proof {
            let cur = char_views(current@);
            assert(cur =~= ctx);
            assert(cur.skip(2) =~= Seq::<Seq<char>>::empty());
            assert(cur.take(2) =~= ctx);
            owed = owed2;
            if owed {
                assert(direct_chain(m, s2, cur.take(2), 2, cur.skip(2), target as int));
            }
        }
    }
    let ghost first2 = char_views(current@);
    proof {
        assert(first2.take(2) =~= first2);
    }
    let mut rounds: u32 = 0;
    loop
        invariant
            map1.wf(),
            map2.wf(),
            m == cmu.model(),
            c == char_views(corpus@),
            ctx == char_views(end_prev@),
            s1 == succ_of(*map1),
            s2 == succ_of(*map2),
            start == 0 || start == 2,
            ctx.len() == start,
            current@.len() >= 2,
            char_views(current@).take(start as int) == ctx,
            first2.len() == 2,
            char_views(current@).take(2) == first2,
            start == 0 ==> opening(m, s1, c, first2, target as int),
            line_syls == line_syllables(m, char_views(current@).skip(start as int)),
            0 <= line_syls < target,
            chained(m, s2, c, char_views(current@), start as int, target as int),
            rounds == 0 && start == 2 ==> char_views(current@) == ctx,
            start == 2 && corpus@.len() < 2 && fitting(m, map2.get(last_key(ctx)), 0, target as int).len() == 0 ==> rounds == 0,
            rounds <= DRAW_LIMIT,
            end_prev@.len() == 0 && target <= DRAW_LIMIT && opening_owed(m, s1, s2, c, target as int) ==> owed,
            end_prev@.len() == 2 && target <= DRAW_LIMIT && never_stuck(m, s2, ctx, 2, target as int) ==> owed,
            owed ==> target <= DRAW_LIMIT && rounds <= line_syls
                && never_stuck(m, s2, first2, start as int, target as int)
                && direct_chain(m, s2, first2, start as int, char_views(current@).skip(2), target as int),
            current@.len() == 2 + rounds,
        decreases DRAW_LIMIT - rounds,
    {
        let ghost cur0 = char_views(current@);
        proof {
            assert(cur0.take(2) == first2);
            assert(line_state(m, s1, s2, c, ctx, cur0, target as int));
        }
        if rounds >= DRAW_LIMIT {
            return Err("RecursionError('maximum recursion depth exceeded')".to_owned());
        }
        let ghost pre = first2;
        let ghost ws = cur0.skip(2);
        let prefix = last_pair(&current);
        assert(prefix@ == last_key(cur0));
        proof {
            assert(pre + ws =~= cur0);
            if owed {
                assert((pre + ws).skip(start as int) == cur0.skip(start as int));
                lemma_never_stuck_step(m, s2, pre, start as int, ws, target as int);
                assert(fits_onward(m, s2, cur0, line_syls as int, target as int));
            }
        }
        let ch = match choices_after(cmu, map2, corpus, prefix, line_syls, target) {
            Ok(x) => x,
            Err(e) => {
                proof {
                    if e@ == recursion_error() && corpus@.len() >= 2 {
                        let ds = choose|ds: Seq<usize>| #[trigger] fruitless_pairs(m, s2, c, ds, line_syls as int, target as int);
                        assert(fruitless_pairs(m, s2, c, ds, line_syllables(m, cur0.skip(ctx.len() as int)), target as int));
                    }
                }
                return Err(e);
            },
        };
        rounds += 1;
        let p = pick(&ch);
        let ghost pv = p@;
        proof {
            let i = choose|i: int| 0 <= i < ch@.len() && p@ == #[trigger] ch@[i]@;
            lemma_drawable(m, s2, pair_keys(c), last_key(cur0), line_syls as int, target as int, pv);
            lemma_line_push(m, cur0, start as int, pv);
            if owed {
                let f = fitting(m, s2(last_key(cur0)), line_syls as int, target as int);
                assert(char_views(ch@)[i] == pv);
                assert(f[i] == pv);
                assert(word_syls(m, pv) >= 1);
                assert(f.contains(pv));
                lemma_direct_push(m, s2, pre, start as int, ws, target as int, pv);
            }
            lemma_chained_push(m, s2, c, cur0, start as int, target as int, pv);
        }
        let step = extend_line(cmu, &mut current, line_syls, target, p);
        proof {
            let cur = char_views(current@);
            assert(cur == cur0.push(pv));
            assert(cur.take(start as int) =~= cur0.take(start as int));
            assert(cur.take(2) =~= cur0.take(2));
            assert(cur.skip(2) =~= ws.push(pv));
        }
        match step {
            LineStep::Skip => {},
            LineStep::Grow(s) => {
                line_syls = s;
            },
            LineStep::Complete => {
                let endp = last_n(&current, 2);
                let fin = py_slice_from(&current, start as i128);
                proof {
                    let cur = char_views(current@);
                    assert(py_slice_from_spec(cur, start as int) == cur.skip(start as int));
                    assert(ctx + cur.skip(start as int) =~= cur);
                    if start == 0 {
                        assert(cur.skip(0) =~= cur);
                        lemma_opening_prefix(m, s1, c, first2, cur, target as int);
                    }
                }
                return Ok((fin, endp));
            },
        }
    }
}

/// `gen_haiku`: three lines of 5, 7 and 5 syllables drawn from the corpus that the
/// training text gives (see [`corpus_of`]), each line after the first continuing
/// the word chain from the last two words before it; or the error text of the
/// draw that failed. An empty corpus gives the empty-choice error and a corpus of
/// one word the give-up error; otherwise only giving up at a state some line
/// reaches (see [`haiku_gave_up`]) fails, and where no line ever needs a redraw
/// (see [`haiku_owed`]) the haiku comes.
pub fn gen_haiku(cmu: &CmuDict, training: &str) -> (r: Result<Vec<Vec<String>>, String>)
    ensures
        match r {
            Ok(lines) => lines@.len() == 3
                && drawn_haiku(cmu.model(), corpus_of(cmu.model(), training@), string_views(lines@[0]@),
                    string_views(lines@[1]@), string_views(lines@[2]@))
                && forall|k: int| 0 <= k < 3 ==> all_in(string_views(#[trigger] lines@[k]@), corpus_of(cmu.model(), training@)),
            Err(e) => (e@ == empty_choice_error() && corpus_of(cmu.model(), training@).len() == 0)
                || (e@ == recursion_error() && corpus_of(cmu.model(), training@).len() > 0
                    && haiku_gave_up(cmu.model(), corpus_of(cmu.model(), training@))),
        },
        corpus_of(cmu.model(), training@).len() == 0 ==> (match r { Err(e) => e@ == empty_choice_error(), Ok(_) => false }),
        corpus_of(cmu.model(), training@).len() == 1 ==> (match r { Err(e) => e@ == recursion_error(), Ok(_) => false }),
        haiku_owed(cmu.model(), corpus_of(cmu.model(), training@)) ==> r is Ok,
{
    let ghost m = cmu.model();
    proof {
        lemma_errors_differ();
    }
    let corpus = prep_training(cmu, training);
    let ghost c = char_views(corpus@);
    let map1 = map_word_to_word(&corpus);
    let map2 = map_2_words_to_word(&corpus);
    proof {
        assert(succ_of(map1) =~= succ1(c));
        assert(succ_of(map2) =~= succ2(c));
        assert forall|k: Seq<char>| all_in(#[trigger] succ1(c)(k), c) by {
            lemma_followers1_in(c, k, c.len() as int);
        }
        assert forall|k: Seq<char>| all_in(#[trigger] succ2(c)(k), c) by {
            lemma_followers2_in(c, k, c.len() as int);
        }
        if c.len() == 1 {
            assert forall|k: Seq<char>| #[trigger] map1.get(k).len() == 0 by {
                lemma_followers1_short(c, k, c.len() as int);
            }
        }
    }
    let empty: Vec<Vec<char>> = Vec::new();
    assert(char_views(empty@) =~= Seq::<Seq<char>>::empty());
    let (l1, e1) = match haiku_line(cmu, &map1, &map2, &corpus, empty, 5) {
        Ok(x) => x,
        Err(e) => {
            return Err(e);
        },
    };
    let ghost l1c = char_views(l1@);
    proof {
        assert(Seq::<Seq<char>>::empty() + l1c =~= l1c);
        assert(drawn_line(m, succ1(c), succ2(c), c, Seq::empty(), l1c, 5));
        lemma_drawn_line_in(m, succ1(c), succ2(c), c, Seq::empty(), l1c, 5);
        assert(char_views(e1@).len() == e1@.len());
        assert(last_two(l1c).len() == 2);
        // a first line needs a successor list, which a corpus of fewer than two words lacks
        lemma_drawable(m, succ1(c), c, l1c[0], word_syls(m, l1c[0]), 5, l1c[1]);
        if c.len() < 2 {
            assert forall|k: Seq<char>| #[trigger] succ1(c)(k) == Seq::<Seq<char>>::empty() by {
                lemma_followers1_short(c, k, c.len() as int);
            }
            if succ1(c)(l1c[0]).contains(l1c[1]) {
                assert(succ1(c)(l1c[0]) == Seq::<Seq<char>>::empty());
            } else {
                let j = choose|j: int| 0 <= j < c.len() && #[trigger] succ1(c)(c[j]).contains(l1c[1]);
                assert(succ1(c)(c[j]) == Seq::<Seq<char>>::empty());
            }
        }
        assert(c.len() >= 2);
    }
    let (l2, e2) = match haiku_line(cmu, &map1, &map2, &corpus, e1, 7) {
        Ok(x) => x,
        Err(e) => {
            return Err(e);
        },
    };
    let ghost l2c = char_views(l2@);
    proof {
        assert(drawn_line(m, succ1(c), succ2(c), c, last_two(l1c), l2c, 7));
        lemma_drawn_line_in(m, succ1(c), succ2(c), c, char_views(e1@), l2c, 7);
        assert(char_views(e2@).len() == e2@.len());
        assert(last_two(char_views(e1@) + l2c).len() == 2);
    }
    let (l3, _e3) = match haiku_line(cmu, &map1, &map2, &corpus, e2, 5) {
        Ok(x) => x,
        Err(e) => {
            return Err(e);
        },
    };
    proof {
        lemma_drawn_line_in(m, succ1(c), succ2(c), c, char_views(e2@), char_views(l3@), 5);
    }
    let s1 = crate::text::to_strings(&l1);
    let s2 = crate::text::to_strings(&l2);
    let s3 = crate::text::to_strings(&l3);
    let mut lines: Vec<Vec<String>> = Vec::new();
    lines.push(s1);
    lines.push(s2);
    lines.push(s3);
    assert(lines@[0]@ == s1@);
    assert(lines@[1]@ == s2@);
    assert(lines@[2]@ == s3@);
    assert forall|k: int| 0 <= k < 3 implies all_in(string_views(#[trigger] lines@[k]@), corpus_of(cmu.model(), training@)) by {
        assert(c == corpus_of(cmu.model(), training@));
    }
    Ok(lines)
}

} // verus!

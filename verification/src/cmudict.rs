//! The CMU pronouncing dictionary: word -> list of pronunciations, in the order
//! the source file lists them, plus the text of Python's `dict.keys()` listing of
//! it, which the syllable counter and the haiku generator search as a haystack.

use vstd::prelude::*;
use std::collections::HashMap;
use crate::text::{str_to_chars, chars_to_string, split_chars, split_on, char_views, string_views,
    push_str, str_to_lowercase, unicode_lowercase, join, chars_eq};
use crate::pyrepr::{push_py_repr, py_repr_spec};

verus! {

broadcast use vstd::std_specs::hash::group_hash_axioms;

// ---------------------------------------------------------------------------
// The source format
// ---------------------------------------------------------------------------

/// Index of the first `c` in `s` at or after `from`, or `s.len()` when there is none.
pub open spec fn first_index(s: Seq<char>, c: char, from: int) -> int
    decreases s.len() - from,
{
    if from < 0 || from >= s.len() {
        s.len() as int
    } else if s[from] == c {
        from
    } else {
        first_index(s, c, from + 1)
    }
}

/// The word a dictionary line defines: the text before its first space.
pub open spec fn line_word(line: Seq<char>) -> Seq<char> {
    line.take(first_index(line, ' ', 0))
}

/// The pronunciation a dictionary line gives: the text after its second space
/// (`' '.join(line.split(' ')[2:])`), empty when the line has fewer than two spaces.
pub open spec fn line_pron(line: Seq<char>) -> Seq<char> {
    let a = first_index(line, ' ', 0);
    if a < line.len() {
        let b = first_index(line, ' ', a + 1);
        if b < line.len() {
            line.skip(b + 1)
        } else {
            Seq::empty()
        }
    } else {
        Seq::empty()
    }
}

/// The dictionary as a sequence of (word, pronunciations), in first-seen order.
pub type CmuModel = Seq<(Seq<char>, Seq<Seq<char>>)>;

pub open spec fn model_keys(m: CmuModel) -> Seq<Seq<char>> {
    m.map_values(|e: (Seq<char>, Seq<Seq<char>>)| e.0)
}

/// Position of `w` among `keys` (the last one, should it repeat), or -1.
pub open spec fn key_index(keys: Seq<Seq<char>>, w: Seq<char>) -> int
    decreases keys.len(),
{
    if keys.len() == 0 {
        -1
    } else if keys.last() == w {
        keys.len() - 1
    } else {
        key_index(keys.drop_last(), w)
    }
}

/// Adding one (word, pronunciation) pair: appended to the word's list if the word
/// is known, else a new entry at the end.
pub open spec fn model_insert(m: CmuModel, w: Seq<char>, p: Seq<char>) -> CmuModel {
    let i = key_index(model_keys(m), w);
    if i >= 0 {
        m.update(i, (w, m[i].1.push(p)))
    } else {
        m.push((w, seq![p]))
    }
}

/// The dictionary built from `lines`, first to last.
pub open spec fn model_of_lines(lines: Seq<Seq<char>>) -> CmuModel
    decreases lines.len(),
{
    if lines.len() == 0 {
        Seq::empty()
    } else {
        let l = lines.last();
        model_insert(model_of_lines(lines.drop_last()), line_word(l), line_pron(l))
    }
}

/// How many lines are read: up to and including the first empty one.
pub open spec fn lines_read(lines: Seq<Seq<char>>, from: int) -> int
    decreases lines.len() - from,
{
    if from < 0 || from >= lines.len() {
        lines.len() as int
    } else if lines[from].len() == 0 {
        from + 1
    } else {
        lines_read(lines, from + 1)
    }
}

/// The dictionary the source text defines: each line up to and including the
/// first empty one (the text's end counts as one) adds its word and pronunciation.
pub open spec fn cmu_model(text: Seq<char>) -> CmuModel {
    let lines = split_on(text, '\n');
    model_of_lines(lines.take(lines_read(lines, 0)))
}

/// Python's `str(d.keys())` for a dict with these keys.
pub open spec fn dict_keys_repr(keys: Seq<Seq<char>>) -> Seq<char> {
    "dict_keys(["@ + join(keys.map_values(|k: Seq<char>| py_repr_spec(k, true)), ", "@) + "])"@
}

/// The hash by which entries are bucketed.
pub open spec fn word_hash(s: Seq<char>) -> u64
    decreases s.len(),
{
    if s.len() == 0 {
        5381
    } else {
        vstd::wrapping::u64_specs::wrapping_add(
            vstd::wrapping::u64_specs::wrapping_mul(word_hash(s.drop_last()), 33),
            s.last() as u64,
        )
    }
}

pub fn hash_chars(v: &[char]) -> (h: u64)
    ensures
        h == word_hash(v@),
{
    let mut h: u64 = 5381;
    let mut i: usize = 0;
    while i < v.len()
        invariant
            i <= v.len(),
            h == word_hash(v@.take(i as int)),
        decreases v.len() - i,
    {
        assert(v@.take(i as int + 1).drop_last() == v@.take(i as int));
        h = h.wrapping_mul(33).wrapping_add(v[i] as u64);
        i += 1;
    }
    assert(v@.take(v.len() as int) == v@);
    h
}

// ---------------------------------------------------------------------------
// The dictionary
// ---------------------------------------------------------------------------

/// One word and its pronunciations (ARPAbet phonemes separated by spaces).
pub struct CmuEntry {
    pub word: String,
    pub prons: Vec<String>,
}

/// The pronouncing dictionary.
pub struct CmuDict {
    entries: Vec<CmuEntry>,
    index: HashMap<u64, Vec<usize>>,
    keys_repr: String,
    keys_repr_lower: String,
}

pub open spec fn entries_model(entries: Seq<CmuEntry>) -> CmuModel {
    entries.map_values(|e: CmuEntry| (e.word@, string_views(e.prons@)))
}

pub open spec fn keys_distinct(keys: Seq<Seq<char>>) -> bool {
    forall|i: int, j: int| 0 <= i < j < keys.len() ==> keys[i] != keys[j]
}

/// Every entry is listed in the bucket of its word's hash, and buckets only hold
/// entry positions.
pub open spec fn index_ok(entries: Seq<CmuEntry>, index: Map<u64, Vec<usize>>) -> bool {
    &&& forall|i: int| 0 <= i < entries.len() ==> {
        &&& #[trigger] index.contains_key(word_hash(entries[i].word@))
        &&& index[word_hash(entries[i].word@)]@.contains(i as usize)
    }
    &&& forall|h: u64, k: int| index.contains_key(h) && 0 <= k < index[h]@.len() ==> (#[trigger] index[h]@[k]) < entries.len()
}

impl CmuDict {
    /// The dictionary as (word, pronunciations) pairs, in first-seen order.
    pub closed spec fn model(self) -> CmuModel {
        entries_model(self.entries@)
    }

    #[verifier::type_invariant]
    closed spec fn wf(self) -> bool {
        &&& keys_distinct(model_keys(self.model()))
        &&& index_ok(self.entries@, self.index@)
        &&& self.keys_repr@ == dict_keys_repr(model_keys(self.model()))
        &&& self.keys_repr_lower@ == unicode_lowercase(self.keys_repr@)
    }

    /// Builds the dictionary from the text of the CMU source file: each line up to
    /// and including the first empty one contributes its word (the text before the
    /// first space) and pronunciation (the text after the second space).
    pub fn from_text(text: &str) -> (d: CmuDict)
        ensures
            d.model() == cmu_model(text@),
    {
        let chars = str_to_chars(text);
        let lines = split_chars(chars.as_slice(), '\n');
        let ghost all = char_views(lines@);
        let mut entries: Vec<CmuEntry> = Vec::new();
        let mut index: HashMap<u64, Vec<usize>> = HashMap::new();
        let mut i: usize = 0;
        let mut stop = false;
        while i < lines.len() && !stop
            invariant
                i <= lines.len(),
                all == char_views(lines@),
                all == split_on(text@, '\n'),
                !stop ==> lines_read(all, 0) == lines_read(all, i as int),
                stop ==> lines_read(all, 0) == i,
                entries_model(entries@) == model_of_lines(all.take(i as int)),
                keys_distinct(model_keys(entries_model(entries@))),
                index_ok(entries@, index@),
            decreases lines.len() - i,
        {
            let line = &lines[i];
            let (word, pron) = split_line(line.as_slice());
            let ghost m0 = entries_model(entries@);
            assert(all.take(i as int + 1).drop_last() == all.take(i as int));
            assert(all.take(i as int + 1).last() == line@);
            insert_entry(&mut entries, &mut index, word, pron);
            if line.len() == 0 {
                stop = true;
            }
            i += 1;
        }
        proof {
            if !stop {
                assert(lines_read(all, i as int) == all.len());
            }
        }
        let keys_repr = build_keys_repr(&entries);
        let keys_repr_lower = str_to_lowercase(keys_repr.as_str());
        CmuDict { entries, index, keys_repr, keys_repr_lower }
    }

    /// The number of distinct words.
    pub fn len(&self) -> (n: usize)
        ensures
            n == self.model().len(),
    {
        self.entries.len()
    }

    /// The `i`-th word, in first-seen order.
    pub fn word(&self, i: usize) -> (w: &String)
        requires
            i < self.model().len(),
        ensures
            w@ == self.model()[i as int].0,
    {
        &self.entries[i].word
    }

    /// The pronunciations of the `i`-th word.
    pub fn prons(&self, i: usize) -> (p: &Vec<String>)
        requires
            i < self.model().len(),
        ensures
            string_views(p@) == self.model()[i as int].1,
    {
        &self.entries[i].prons
    }

    /// `str(d.keys())`: the Python listing of the words.
    pub fn keys_repr(&self) -> (r: &String)
        ensures
            r@ == dict_keys_repr(model_keys(self.model())),
    {
        proof {
            use_type_invariant(self);
        }
        &self.keys_repr
    }

    /// `str(d.keys()).lower()`.
    pub fn keys_repr_lower(&self) -> (r: &String)
        ensures
            r@ == unicode_lowercase(dict_keys_repr(model_keys(self.model()))),
    {
        proof {
            use_type_invariant(self);
        }
        &self.keys_repr_lower
    }

    /// The position of `word` in the dictionary, if it is a key.
    pub fn find(&self, word: &str) -> (r: Option<usize>)
        ensures
            r == (if key_index(model_keys(self.model()), word@) >= 0 {
                Some(key_index(model_keys(self.model()), word@) as usize)
            } else {
                None
            }),
            r matches Some(j) ==> j < self.model().len() && j as int == key_index(model_keys(self.model()), word@),
            r is None ==> key_index(model_keys(self.model()), word@) == -1,
    {
        proof {
            use_type_invariant(self);
            lemma_key_index_range(model_keys(self.model()), word@);
        }
        let n = self.entries.len();
        assert(model_keys(self.model()).len() == n);
        let w = str_to_chars(word);
        find_in(&self.entries, &self.index, w.as_slice())
    }
}

// ---------------------------------------------------------------------------
// Building
// ---------------------------------------------------------------------------

/// Position of the first `c` in `v` at or after `from` (or `v.len()`).
pub fn find_char(v: &[char], c: char, from: usize) -> (r: usize)
    requires
        from <= v.len(),
    ensures
        r == first_index(v@, c, from as int),
        from <= r <= v.len(),
{
    let mut i = from;
    while i < v.len() && v[i] != c
        invariant
            from <= i <= v.len(),
            first_index(v@, c, from as int) == first_index(v@, c, i as int),
        decreases v.len() - i,
    {
        i += 1;
    }
    i
}

pub proof fn lemma_first_index_range(s: Seq<char>, c: char, from: int)
    requires
        0 <= from <= s.len(),
    ensures
        from <= first_index(s, c, from) <= s.len(),
        first_index(s, c, from) < s.len() ==> s[first_index(s, c, from)] == c,
    decreases s.len() - from,
{
    if from < s.len() && s[from] != c {
        lemma_first_index_range(s, c, from + 1);
    }
}

/// The word and the pronunciation of one dictionary line.
pub fn split_line(line: &[char]) -> (r: (Vec<char>, Vec<char>))
    ensures
        r.0@ == line_word(line@),
        r.1@ == line_pron(line@),
{
    let a = find_char(line, ' ', 0);
    let mut word: Vec<char> = Vec::new();
    let mut k: usize = 0;
    while k < a
        invariant
            a <= line.len(),
            k <= a,
            word@ == line@.take(k as int),
        decreases a - k,
    {
        word.push(line[k]);
        assert(line@.take(k as int + 1) == line@.take(k as int).push(line@[k as int]));
        k += 1;
    }
    let mut pron: Vec<char> = Vec::new();
    if a < line.len() {
        let b = find_char(line, ' ', a + 1);
        if b < line.len() {
            let mut j = b + 1;
            while j < line.len()
                invariant
                    b < line.len(),
                    b + 1 <= j <= line.len(),
                    pron@ == line@.subrange(b + 1, j as int),
                decreases line.len() - j,
            {
                pron.push(line[j]);
                assert(line@.subrange(b + 1, j as int + 1) == line@.subrange(b + 1, j as int).push(line@[j as int]));
                j += 1;
            }
            assert(pron@ =~= line@.skip(b + 1));
        }
    }
    (word, pron)
}

pub proof fn lemma_key_index_found(keys: Seq<Seq<char>>, w: Seq<char>, j: int)
    requires
        keys_distinct(keys),
        0 <= j < keys.len(),
        keys[j] == w,
    ensures
        key_index(keys, w) == j,
    decreases keys.len(),
{
    if keys.last() != w {
        assert(keys.drop_last()[j] == keys[j]);
        lemma_key_index_found(keys.drop_last(), w, j);
    } else if j != keys.len() - 1 {
        assert(keys[j] != keys[keys.len() - 1]);
    }
}

pub proof fn lemma_key_index_absent(keys: Seq<Seq<char>>, w: Seq<char>)
    requires
        forall|i: int| 0 <= i < keys.len() ==> keys[i] != w,
    ensures
        key_index(keys, w) == -1,
    decreases keys.len(),
{
    if keys.len() > 0 {
        lemma_key_index_absent(keys.drop_last(), w);
    }
}

pub proof fn lemma_key_index_range(keys: Seq<Seq<char>>, w: Seq<char>)
    ensures
        -1 <= key_index(keys, w) < keys.len(),
        key_index(keys, w) >= 0 ==> keys[key_index(keys, w)] == w,
        key_index(keys, w) == -1 ==> forall|i: int| 0 <= i < keys.len() ==> keys[i] != w,
    decreases keys.len(),
{
    if keys.len() > 0 && keys.last() != w {
        lemma_key_index_range(keys.drop_last(), w);
        assert forall|i: int| 0 <= i < keys.len() - 1 implies keys[i] == keys.drop_last()[i] by {}
    }
}

/// Looks `w` up through the hash buckets.
fn find_in(entries: &Vec<CmuEntry>, index: &HashMap<u64, Vec<usize>>, w: &[char]) -> (r: Option<usize>)
    requires
        keys_distinct(model_keys(entries_model(entries@))),
        index_ok(entries@, index@),
    ensures
        r == (if key_index(model_keys(entries_model(entries@)), w@) >= 0 {
            Some(key_index(model_keys(entries_model(entries@)), w@) as usize)
        } else {
            None
        }),
{
    let ghost keys = model_keys(entries_model(entries@));
    proof {
        lemma_key_index_range(keys, w@);
    }
    let h = hash_chars(w);
    match index.get(&h) {
        None => {
            let n = entries.len();
            proof {
                if key_index(keys, w@) >= 0 {
                    let i = key_index(keys, w@);
                    assert(keys.len() == entries@.len());
                    assert(i < n);
                    assert(keys[i] == entries@[i].word@);
                    assert(index@.contains_key(word_hash(entries@[i].word@)));
                }
            }
            None
        },
        Some(bucket) => {
            let mut k: usize = 0;
            while k < bucket.len()
                invariant
                    k <= bucket.len(),
                    index@.contains_key(h),
                    bucket@ == index@[h]@,
                    index_ok(entries@, index@),
                    keys == model_keys(entries_model(entries@)),
                    keys_distinct(keys),
                    forall|t: int| 0 <= t < k ==> keys[bucket@[t] as int] != w@,
                decreases bucket.len() - k,
            {
                let j = bucket[k];
                assert(j < entries.len());
                let wj = str_to_chars(entries[j].word.as_str());
                if chars_eq(wj.as_slice(), w) {
                    proof {
                        assert(keys[j as int] == entries@[j as int].word@);
                        lemma_key_index_found(keys, w@, j as int);
                    }
                    return Some(j);
                }
                assert(keys[j as int] == entries@[j as int].word@);
                k += 1;
            }
            let n = entries.len();
            proof {
                if key_index(keys, w@) >= 0 {
                    let i = key_index(keys, w@);
                    assert(keys.len() == entries@.len());
                    assert(i < n);
                    assert(keys[i] == entries@[i].word@);
                    assert(index@[h]@.contains(i as usize));
                    assert(word_hash(entries@[i].word@) == h);
                    assert(bucket@.contains(i as usize));
                    let t = choose|t: int| 0 <= t < bucket@.len() && bucket@[t] == i as usize;
                    assert(bucket@[t] as int == i);
                    assert(keys[bucket@[t] as int] != w@);
                    assert(false);
                }
            }
            None
        },
    }
}

/// Adds one (word, pronunciation) pair to the entries and their index.
fn insert_entry(entries: &mut Vec<CmuEntry>, index: &mut HashMap<u64, Vec<usize>>, word: Vec<char>, pron: Vec<char>)
    requires
        keys_distinct(model_keys(entries_model(old(entries)@))),
        index_ok(old(entries)@, old(index)@),
    ensures
        entries_model(final(entries)@) == model_insert(entries_model(old(entries)@), word@, pron@),
        keys_distinct(model_keys(entries_model(final(entries)@))),
        index_ok(final(entries)@, final(index)@),
{
    let ghost m0 = entries_model(entries@);
    let ghost keys0 = model_keys(m0);
    proof {
        lemma_key_index_range(keys0, word@);
    }
    let found = find_in(entries, index, word.as_slice());
    let n0 = entries.len();
    assert(keys0.len() == n0);
    let pron_s = chars_to_string(pron.as_slice());
    match found {
        Some(j) => {
            let ghost e0 = entries@;
            entries[j].prons.push(pron_s);
            assert(entries@ == e0.update(j as int, entries@[j as int]));
            assert(entries@[j as int].word == e0[j as int].word);
            assert(entries@[j as int].prons@ == e0[j as int].prons@.push(pron_s));
            assert(string_views(entries@[j as int].prons@) =~= string_views(e0[j as int].prons@).push(pron@));
            assert forall|t: int| 0 <= t < entries@.len() implies #[trigger] entries@[t].word@ == e0[t].word@ by {
                if t != j {
                    assert(entries@[t] == e0[t]);
                }
            }
            assert(keys0[j as int] == word@);
            assert(m0[j as int].0 == e0[j as int].word@);
            assert forall|t: int| 0 <= t < entries@.len() implies #[trigger] entries_model(entries@)[t] == m0.update(j as int, (word@, m0[j as int].1.push(pron@)))[t] by {
                if t != j {
                    assert(entries@[t] == e0[t]);
                } else {
                    assert(entries_model(entries@)[t] == (entries@[t].word@, string_views(entries@[t].prons@)));
                }
            }
            assert(entries_model(entries@) =~= m0.update(j as int, (word@, m0[j as int].1.push(pron@))));
            assert(model_keys(entries_model(entries@)) =~= keys0);
            assert(index_ok(entries@, index@)) by {
                assert forall|i: int| 0 <= i < entries@.len() implies {
                    &&& #[trigger] index@.contains_key(word_hash(entries@[i].word@))
                    &&& index@[word_hash(entries@[i].word@)]@.contains(i as usize)
                } by {
                    assert(entries@[i].word@ == e0[i].word@);
                }
            }
        },
        None => {
            let n = entries.len();
            let h = hash_chars(word.as_slice());
            let mut bucket: Vec<usize> = match index.get(&h) {
                Some(b) => {
                    let mut nb: Vec<usize> = Vec::new();
                    let mut k: usize = 0;
                    while k < b.len()
                        invariant
                            k <= b.len(),
                            nb@ == b@.take(k as int),
                        decreases b.len() - k,
                    {
                        nb.push(b[k]);
                        assert(b@.take(k as int + 1) == b@.take(k as int).push(b@[k as int]));
                        k += 1;
                    }
                    assert(b@.take(b.len() as int) == b@);
                    nb
                },
                None => Vec::new(),
            };
            let ghost old_bucket = bucket@;
            bucket.push(n);
            let ghost e0 = entries@;
            let ghost i0 = index@;
            let word_s = chars_to_string(word.as_slice());
            let mut prons: Vec<String> = Vec::new();
            prons.push(pron_s);
            entries.push(CmuEntry { word: word_s, prons });
            index.insert(h, bucket);
            assert(string_views(prons@) =~= seq![pron@]);
            assert(entries_model(entries@) =~= m0.push((word@, seq![pron@])));
            assert(model_keys(entries_model(entries@)) =~= keys0.push(word@));
            assert forall|i: int, j: int| 0 <= i < j < keys0.len() + 1 implies model_keys(entries_model(entries@))[i] != model_keys(entries_model(entries@))[j] by {
                if j == keys0.len() {
                    assert(keys0[i] != word@);
                }
            }
            assert(index_ok(entries@, index@)) by {
                assert forall|i: int| 0 <= i < entries@.len() implies {
                    &&& #[trigger] index@.contains_key(word_hash(entries@[i].word@))
                    &&& index@[word_hash(entries@[i].word@)]@.contains(i as usize)
                } by {
                    if i < n {
                        assert(entries@[i] == e0[i]);
                        let hi = word_hash(e0[i].word@);
                        assert(i0.contains_key(hi));
                        if hi == h {
                            assert(old_bucket == i0[h]@);
                            let t = choose|t: int| 0 <= t < i0[hi]@.len() && i0[hi]@[t] == i as usize;
                            assert(bucket@[t] == i as usize);
                        }
                    } else {
                        assert(bucket@[bucket@.len() - 1] == n);
                    }
                }
                assert forall|hh: u64, k: int| index@.contains_key(hh) && 0 <= k < index@[hh]@.len() implies (#[trigger] index@[hh]@[k]) < entries@.len() by {
                    if hh == h {
                        if k < old_bucket.len() {
                            assert(bucket@[k] == old_bucket[k]);
                            assert(i0.contains_key(h));
                        }
                    } else {
                        assert(index@[hh] == i0[hh]);
                    }
                }
            }
        },
    }
}

/// `str(d.keys())` for the given entries.
fn build_keys_repr(entries: &Vec<CmuEntry>) -> (r: String)
    ensures
        r@ == dict_keys_repr(model_keys(entries_model(entries@))),
{
    let ghost keys = model_keys(entries_model(entries@));
    let ghost reprs = keys.map_values(|k: Seq<char>| py_repr_spec(k, true));
    let mut out: Vec<char> = Vec::new();
    let mut i: usize = 0;
    while i < entries.len()
        invariant
            i <= entries.len(),
            keys == model_keys(entries_model(entries@)),
            reprs == keys.map_values(|k: Seq<char>| py_repr_spec(k, true)),
            out@ == join(reprs.take(i as int), ", "@),
        decreases entries.len() - i,
    {
        assert(reprs.take(i as int + 1).drop_last() == reprs.take(i as int));
        if i > 0 {
            let sep = str_to_chars(", ");
            crate::text::append_chars(&mut out, sep.as_slice());
        }
        let w = str_to_chars(entries[i].word.as_str());
        assert(keys[i as int] == entries@[i as int].word@);
        push_py_repr(&mut out, w.as_slice(), true);
        assert(out@ =~= join(reprs.take(i as int + 1), ", "@));
        i += 1;
    }
    assert(reprs.take(entries.len() as int) == reprs);
    let mut r = String::new();
    push_str(&mut r, "dict_keys([");
    crate::text::push_chars(&mut r, out.as_slice());
    push_str(&mut r, "])");
    r
}

} // verus!

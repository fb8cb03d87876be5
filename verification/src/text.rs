//! Character-level string plumbing shared by the rest of the library: the
//! character classes that std and Python use, trimming, splitting, joining,
//! searching and number formatting, each with its specification.

use vstd::prelude::*;

verus! {

// ---------------------------------------------------------------------------
// Trusted std string operations
// ---------------------------------------------------------------------------

/// Appends one character to a `String` (std `String::push`).
/// Claims: the string afterwards is the old contents followed by `c`.
#[verifier::external_body]
pub(crate) fn push_char(s: &mut String, c: char)
    ensures
        final(s)@ == old(s)@.push(c),
{
    s.push(c);
}

/// Unicode lower-casing of a whole string, as std `str::to_lowercase` computes it.
pub uninterp spec fn unicode_lowercase(s: Seq<char>) -> Seq<char>;

/// Unicode upper-casing of a whole string, as std `str::to_uppercase` computes it.
pub uninterp spec fn unicode_uppercase(s: Seq<char>) -> Seq<char>;

/// std `str::to_lowercase`. Claims only that the result is the Unicode lower-case
/// mapping of the argument, a function of the argument alone; the mapping itself
/// (the Unicode case tables) is not stated.
#[verifier::external_body]
pub(crate) fn str_to_lowercase(s: &str) -> (r: String)
    ensures
        r@ == unicode_lowercase(s@),
{
    s.to_lowercase()
}

/// std `str::to_uppercase`. Claims only that the result is the Unicode upper-case
/// mapping of the argument, a function of the argument alone; the mapping itself
/// (the Unicode case tables) is not stated.
#[verifier::external_body]
pub(crate) fn str_to_uppercase(s: &str) -> (r: String)
    ensures
        r@ == unicode_uppercase(s@),
{
    s.to_uppercase()
}

/// `needle` occurs as a contiguous run of characters inside `hay`.
#[verifier::opaque]
pub open spec fn seq_contains(hay: Seq<char>, needle: Seq<char>) -> bool {
    exists|i: int| 0 <= i <= hay.len() - needle.len() && #[trigger] hay.subrange(i, i + needle.len()) == needle
}

/// Whether `n` occurs in `h` at position `i`.
fn matches_at(h: &Vec<char>, n: &Vec<char>, i: usize) -> (r: bool)
    requires
        i + n@.len() <= h@.len(),
    ensures
        r == (h@.subrange(i as int, i + n@.len()) == n@),
{
    let len = h.len();
    let mut k: usize = 0;
    while k < n.len()
        invariant
            k <= n@.len(),
            len == h@.len(),
            i + n@.len() <= h@.len(),
            forall|j: int| 0 <= j < k ==> h@[i + j] == #[trigger] n@[j],
        decreases n.len() - k,
    {
        if h[i + k] != n[k] {
            assert(h@.subrange(i as int, i + n@.len())[k as int] != n@[k as int]);
            return false;
        }
        k += 1;
    }
    assert(h@.subrange(i as int, i + n@.len()) =~= n@);
    true
}

/// Whether `needle` occurs as a contiguous run of characters inside `hay`, as std
/// `str::contains` with a `&str` pattern tells (the empty needle always occurs).
pub fn str_contains(hay: &str, needle: &str) -> (r: bool)
    ensures
        r == seq_contains(hay@, needle@),
{
    proof {
        reveal(seq_contains);
    }
    let h = str_to_chars(hay);
    let n = str_to_chars(needle);
    if n.len() > h.len() {
        return false;
    }
    let last = h.len() - n.len();
    let mut i: usize = 0;
    loop
        invariant
            i <= last,
            last == h@.len() - n@.len(),
            n@.len() <= h@.len(),
            h@ == hay@,
            n@ == needle@,
            forall|j: int| 0 <= j < i ==> #[trigger] h@.subrange(j, j + n@.len()) != n@,
        decreases last - i,
    {
        if matches_at(&h, &n, i) {
            proof {
                reveal(seq_contains);
                assert(hay@.subrange(i as int, i + needle@.len()) == needle@);
            }
            return true;
        }
        if i == last {
            proof {
                reveal(seq_contains);
                assert forall|j: int| 0 <= j <= hay@.len() - needle@.len() implies
                    #[trigger] hay@.subrange(j, j + needle@.len()) != needle@ by {
                    if j < i {
                        assert(h@.subrange(j, j + n@.len()) != n@);
                    }
                }
            }
            return false;
        }
        i += 1;
    }
}

// ---------------------------------------------------------------------------
// Conversions
// ---------------------------------------------------------------------------

/// The characters of `s`, in order.
pub fn str_to_chars(s: &str) -> (v: Vec<char>)
    ensures
        v@ == s@,
{
    let mut v: Vec<char> = Vec::new();
    for c in it: s.chars()
        invariant
            v@ == it.seq().take(it.index() as int),
            it.seq() == s@,
    {
        v.push(c);
    }
    v
}

/// A `String` holding exactly the characters of `v`.
pub fn chars_to_string(v: &[char]) -> (s: String)
    ensures
        s@ == v@,
{
    let mut s = String::new();
    let mut i: usize = 0;
    while i < v.len()
        invariant
            i <= v.len(),
            s@ == v@.take(i as int),
        decreases v.len() - i,
    {
        push_char(&mut s, v[i]);
        assert(v@.take(i as int + 1) == v@.take(i as int).push(v@[i as int]));
        i += 1;
    }
    assert(v@.take(v.len() as int) == v@);
    s
}

/// Appends the characters of `v` to `s`.
pub fn push_chars(s: &mut String, v: &[char])
    ensures
        final(s)@ == old(s)@ + v@,
{
    let mut i: usize = 0;
    while i < v.len()
        invariant
            i <= v.len(),
            s@ == old(s)@ + v@.take(i as int),
        decreases v.len() - i,
    {
        push_char(s, v[i]);
        assert(v@.take(i as int + 1) == v@.take(i as int).push(v@[i as int]));
        i += 1;
    }
    assert(v@.take(v.len() as int) == v@);
}

/// Appends the characters of `t` to `s`.
pub fn push_str(s: &mut String, t: &str)
    ensures
        final(s)@ == old(s)@ + t@,
{
    let v = str_to_chars(t);
    push_chars(s, v.as_slice());
}

/// Two character sequences are equal, compared element by element.
pub fn chars_eq(a: &[char], b: &[char]) -> (r: bool)
    ensures
        r == (a@ == b@),
{
    if a.len() != b.len() {
        return false;
    }
    let mut i: usize = 0;
    while i < a.len()
        invariant
            a.len() == b.len(),
            i <= a.len(),
            forall|k: int| 0 <= k < i ==> a@[k] == b@[k],
        decreases a.len() - i,
    {
        if a[i] != b[i] {
            return false;
        }
        i += 1;
    }
    assert(a@ =~= b@);
    true
}

/// Two strings hold the same characters.
pub fn str_eq(a: &str, b: &str) -> (r: bool)
    ensures
        r == (a@ == b@),
{
    let va = str_to_chars(a);
    let vb = str_to_chars(b);
    chars_eq(va.as_slice(), vb.as_slice())
}

// ---------------------------------------------------------------------------
// Character classes
// ---------------------------------------------------------------------------

/// The Unicode `White_Space` property, which std `char::is_whitespace` tests.
pub open spec fn is_unicode_whitespace(c: char) -> bool {
    ||| ('\u{9}' <= c && c <= '\u{d}')
    ||| c == ' '
    ||| c == '\u{85}'
    ||| c == '\u{a0}'
    ||| c == '\u{1680}'
    ||| ('\u{2000}' <= c && c <= '\u{200a}')
    ||| c == '\u{2028}'
    ||| c == '\u{2029}'
    ||| c == '\u{202f}'
    ||| c == '\u{205f}'
    ||| c == '\u{3000}'
}

/// The separators of Python's argument-less `str.split()`: Unicode white space plus
/// the information separators U+001C..=U+001F.
pub open spec fn is_py_space(c: char) -> bool {
    is_unicode_whitespace(c) || ('\u{1c}' <= c && c <= '\u{1f}')
}

/// ASCII decimal digit.
pub open spec fn is_ascii_digit(c: char) -> bool {
    '0' <= c && c <= '9'
}

/// Python's `string.punctuation`: every printable ASCII character that is neither
/// a letter, a digit nor a space.
pub open spec fn is_ascii_punct(c: char) -> bool {
    ||| ('!' <= c && c <= '/')
    ||| (':' <= c && c <= '@')
    ||| ('[' <= c && c <= '`')
    ||| ('{' <= c && c <= '~')
}

/// The classes of characters the library trims and splits on.
pub enum CharClass {
    /// Unicode white space (`char::is_whitespace`).
    Whitespace,
    /// Python's `str.split()` separators.
    PySpace,
    /// Python's `string.punctuation`.
    Punctuation,
}

pub open spec fn class_has(cls: CharClass, c: char) -> bool {
    match cls {
        CharClass::Whitespace => is_unicode_whitespace(c),
        CharClass::PySpace => is_py_space(c),
        CharClass::Punctuation => is_ascii_punct(c),
    }
}

pub fn is_whitespace(c: char) -> (r: bool)
    ensures
        r == is_unicode_whitespace(c),
{
    ('\u{9}' <= c && c <= '\u{d}') || c == ' ' || c == '\u{85}' || c == '\u{a0}' || c
        == '\u{1680}' || ('\u{2000}' <= c && c <= '\u{200a}') || c == '\u{2028}' || c
        == '\u{2029}' || c == '\u{202f}' || c == '\u{205f}' || c == '\u{3000}'
}

pub fn is_digit(c: char) -> (r: bool)
    ensures
        r == is_ascii_digit(c),
{
    '0' <= c && c <= '9'
}

pub fn in_class(cls: &CharClass, c: char) -> (r: bool)
    ensures
        r == class_has(*cls, c),
{
    match cls {
        CharClass::Whitespace => is_whitespace(c),
        CharClass::PySpace => is_whitespace(c) || ('\u{1c}' <= c && c <= '\u{1f}'),
        CharClass::Punctuation => ('!' <= c && c <= '/') || (':' <= c && c <= '@') || ('['
            <= c && c <= '`') || ('{' <= c && c <= '~'),
    }
}

// ---------------------------------------------------------------------------
// Trimming
// ---------------------------------------------------------------------------

/// `s` with every leading character of class `cls` removed.
pub open spec fn trim_start(s: Seq<char>, cls: CharClass) -> Seq<char>
    decreases s.len(),
{
    if s.len() > 0 && class_has(cls, s[0]) {
        trim_start(s.drop_first(), cls)
    } else {
        s
    }
}

/// `s` with every trailing character of class `cls` removed.
pub open spec fn trim_end(s: Seq<char>, cls: CharClass) -> Seq<char>
    decreases s.len(),
{
    if s.len() > 0 && class_has(cls, s.last()) {
        trim_end(s.drop_last(), cls)
    } else {
        s
    }
}

/// `s` with leading and trailing characters of class `cls` removed
/// (std `str::trim_matches`; with `Whitespace`, `str::trim`).
pub open spec fn trim(s: Seq<char>, cls: CharClass) -> Seq<char> {
    trim_end(trim_start(s, cls), cls)
}

pub proof fn lemma_trim_start_skip(s: Seq<char>, cls: CharClass, i: int)
    requires
        0 <= i <= s.len(),
        forall|k: int| 0 <= k < i ==> class_has(cls, #[trigger] s[k]),
        i == s.len() || !class_has(cls, s[i]),
    ensures
        trim_start(s, cls) == s.skip(i),
    decreases i,
{
    if i > 0 {
        assert forall|k: int| 0 <= k < i - 1 implies class_has(cls, #[trigger] s.drop_first()[k]) by {
            assert(s.drop_first()[k] == s[k + 1]);
        }
        lemma_trim_start_skip(s.drop_first(), cls, i - 1);
        assert(s.drop_first().skip(i - 1) =~= s.skip(i));
    } else {
        assert(s.skip(0) =~= s);
    }
}

pub proof fn lemma_trim_end_take(s: Seq<char>, cls: CharClass, j: int)
    requires
        0 <= j <= s.len(),
        forall|k: int| j <= k < s.len() ==> class_has(cls, #[trigger] s[k]),
        j == 0 || !class_has(cls, s[j - 1]),
    ensures
        trim_end(s, cls) == s.take(j),
    decreases s.len() - j,
{
    if j < s.len() {
        assert forall|k: int| j <= k < s.len() - 1 implies class_has(cls, #[trigger] s.drop_last()[k]) by {
            assert(s.drop_last()[k] == s[k]);
        }
        lemma_trim_end_take(s.drop_last(), cls, j);
        assert(s.drop_last().take(j) =~= s.take(j));
    } else {
        assert(s.take(j) =~= s);
    }
}

/// The characters of `v` with leading and trailing members of `cls` removed.
pub fn trim_chars(v: &[char], cls: &CharClass) -> (r: Vec<char>)
    ensures
        r@ == trim(v@, *cls),
{
    let mut i: usize = 0;
    while i < v.len() && in_class(cls, v[i])
        invariant
            i <= v.len(),
            forall|k: int| 0 <= k < i ==> class_has(*cls, #[trigger] v@[k]),
        decreases v.len() - i,
    {
        i += 1;
    }
    proof {
        lemma_trim_start_skip(v@, *cls, i as int);
    }
    let mut j: usize = v.len();
    while j > i && in_class(cls, v[j - 1])
        invariant
            i <= j <= v.len(),
            forall|k: int| j <= k < v.len() ==> class_has(*cls, #[trigger] v@[k]),
        decreases j,
    {
        j -= 1;
    }
    let ghost t = v@.skip(i as int);
    proof {
        assert forall|k: int| j - i <= k < t.len() implies class_has(*cls, #[trigger] t[k]) by {
            assert(t[k] == v@[k + i]);
        }
        if j > i {
            assert(t[j - i - 1] == v@[j - 1]);
        }
        lemma_trim_end_take(t, *cls, j - i);
    }
    let mut r: Vec<char> = Vec::new();
    let mut k: usize = i;
    while k < j
        invariant
            i <= k <= j <= v.len(),
            r@ == v@.subrange(i as int, k as int),
        decreases j - k,
    {
        r.push(v[k]);
        assert(v@.subrange(i as int, k as int + 1) == v@.subrange(i as int, k as int).push(v@[k as int]));
        k += 1;
    }
    assert(r@ =~= t.take(j - i));
    r
}

/// std `str::trim`: `s` without leading and trailing Unicode white space.
pub fn trim_str(s: &str) -> (r: String)
    ensures
        r@ == trim(s@, CharClass::Whitespace),
{
    let v = str_to_chars(s);
    let t = trim_chars(v.as_slice(), &CharClass::Whitespace);
    chars_to_string(t.as_slice())
}


// ---------------------------------------------------------------------------
// Views of collections of strings
// ---------------------------------------------------------------------------

/// The character sequences held by a vector of character vectors.
pub open spec fn char_views(v: Seq<Vec<char>>) -> Seq<Seq<char>> {
    v.map_values(|x: Vec<char>| x@)
}

/// The character sequences held by a vector of strings.
pub open spec fn string_views(v: Seq<String>) -> Seq<Seq<char>> {
    v.map_values(|x: String| x@)
}

/// Turns character vectors into strings.
pub fn to_strings(v: &Vec<Vec<char>>) -> (r: Vec<String>)
    ensures
        string_views(r@) == char_views(v@),
{
    let mut r: Vec<String> = Vec::new();
    let mut i: usize = 0;
    while i < v.len()
        invariant
            i <= v.len(),
            string_views(r@) == char_views(v@).take(i as int),
        decreases v.len() - i,
    {
        let s = chars_to_string(v[i].as_slice());
        let ghost r0 = r@;
        r.push(s);
        assert(r@ == r0.push(s));
        assert(string_views(r0).len() == i);
        assert forall|k: int| 0 <= k < i + 1 implies #[trigger] string_views(r@)[k] == char_views(v@).take(i as int + 1)[k] by {
            if k < i {
                assert(string_views(r@)[k] == r@[k]@);
                assert(r@[k] == r0[k]);
                assert(string_views(r0)[k] == r0[k]@);
                assert(string_views(r0)[k] == char_views(v@).take(i as int)[k]);
            } else {
                assert(string_views(r@)[k] == r@[k]@);
            }
        }
        assert(string_views(r@) =~= char_views(v@).take(i as int + 1));
        i += 1;
    }
    assert(char_views(v@).take(v.len() as int) =~= char_views(v@));
    r
}

// ---------------------------------------------------------------------------
// Splitting and joining
// ---------------------------------------------------------------------------

/// std `str::split` on a single character: the pieces between occurrences of
/// `sep`, always at least one (the empty string gives one empty piece).
pub open spec fn split_on(s: Seq<char>, sep: char) -> Seq<Seq<char>>
    decreases s.len(),
{
    if s.len() == 0 {
        seq![Seq::empty()]
    } else {
        let prev = split_on(s.drop_last(), sep);
        if s.last() == sep {
            prev.push(Seq::empty())
        } else {
            prev.update(prev.len() - 1, prev.last().push(s.last()))
        }
    }
}

pub proof fn lemma_split_on_nonempty(s: Seq<char>, sep: char)
    ensures
        split_on(s, sep).len() >= 1,
    decreases s.len(),
{
    if s.len() > 0 {
        lemma_split_on_nonempty(s.drop_last(), sep);
    }
}

/// Splits `v` on every occurrence of `sep`.
pub fn split_chars(v: &[char], sep: char) -> (r: Vec<Vec<char>>)
    ensures
        char_views(r@) == split_on(v@, sep),
{
    let mut parts: Vec<Vec<char>> = Vec::new();
    let mut cur: Vec<char> = Vec::new();
    let mut i: usize = 0;
    while i < v.len()
        invariant
            i <= v.len(),
            char_views(parts@).push(cur@) == split_on(v@.take(i as int), sep),
        decreases v.len() - i,
    {
        let c = v[i];
        let ghost before = v@.take(i as int);
        assert(v@.take(i as int + 1).drop_last() == before);
        proof {
            lemma_split_on_nonempty(before, sep);
        }
        if c == sep {
            let done = cur;
            parts.push(done);
            cur = Vec::new();
            assert(char_views(parts@).push(cur@) =~= split_on(v@.take(i as int + 1), sep));
        } else {
            cur.push(c);
            assert(char_views(parts@).push(cur@) =~= split_on(v@.take(i as int + 1), sep));
        }
        i += 1;
    }
    parts.push(cur);
    assert(v@.take(v.len() as int) == v@);
    assert(char_views(parts@) =~= split_on(v@, sep));
    parts
}

/// The maximal runs of characters outside class `cls` (Python's `str.split()` for
/// `PySpace`, std `split_whitespace` for `Whitespace`).
pub open spec fn words(s: Seq<char>, cls: CharClass) -> Seq<Seq<char>>
    decreases s.len(),
{
    if s.len() == 0 {
        Seq::empty()
    } else {
        let prev = words(s.drop_last(), cls);
        if class_has(cls, s.last()) {
            prev
        } else if s.len() >= 2 && !class_has(cls, s[s.len() - 2]) {
            prev.update(prev.len() - 1, prev.last().push(s.last()))
        } else {
            prev.push(seq![s.last()])
        }
    }
}

pub proof fn lemma_words_nonempty(s: Seq<char>, cls: CharClass)
    requires
        s.len() > 0,
        !class_has(cls, s.last()),
    ensures
        words(s, cls).len() >= 1,
    decreases s.len(),
{
    if s.len() >= 2 && !class_has(cls, s[s.len() - 2]) {
        assert(s.drop_last().last() == s[s.len() - 2]);
        lemma_words_nonempty(s.drop_last(), cls);
    }
}

/// Splitting two texts joined by a separating space gives the words of the first
/// followed by the words of the second.
pub proof fn lemma_words_join(x: Seq<char>, y: Seq<char>, cls: CharClass)
    requires
        class_has(cls, ' '),
    ensures
        words(x + seq![' '] + y, cls) == words(x, cls) + words(y, cls),
    decreases y.len(),
{
    let s = x + seq![' '] + y;
    if y.len() == 0 {
        assert(s.drop_last() =~= x);
        assert(words(y, cls) == Seq::<Seq<char>>::empty());
        assert(words(x, cls) + Seq::<Seq<char>>::empty() =~= words(x, cls));
    } else {
        let y0 = y.drop_last();
        let c = y.last();
        lemma_words_join(x, y0, cls);
        assert(s.drop_last() =~= x + seq![' '] + y0);
        assert(s.last() == c);
        let prev = words(x + seq![' '] + y0, cls);
        let wx = words(x, cls);
        let wy0 = words(y0, cls);
        assert(prev == wx + wy0);
        if class_has(cls, c) {
        } else if y.len() >= 2 && !class_has(cls, y[y.len() - 2]) {
            assert(s[s.len() - 2] == y[y.len() - 2]);
            assert(y0.last() == y[y.len() - 2]);
            lemma_words_nonempty(y0, cls);
            assert(prev.update(prev.len() - 1, prev.last().push(c)) =~= wx + wy0.update(wy0.len() - 1, wy0.last().push(c)));
        } else {
            if y.len() >= 2 {
                assert(s[s.len() - 2] == y[y.len() - 2]);
            } else {
                assert(s[s.len() - 2] == ' ');
                assert(y0.len() == 0);
            }
            assert(prev.push(seq![c]) =~= wx + wy0.push(seq![c]));
        }
    }
}

/// The maximal runs of characters of `v` that lie outside class `cls`.
pub fn split_words(v: &[char], cls: &CharClass) -> (r: Vec<Vec<char>>)
    ensures
        char_views(r@) == words(v@, *cls),
{
    let mut parts: Vec<Vec<char>> = Vec::new();
    let mut cur: Vec<char> = Vec::new();
    let mut in_word = false;
    let mut i: usize = 0;
    while i < v.len()
        invariant
            i <= v.len(),
            in_word ==> i > 0 && !class_has(*cls, v@[i - 1]),
            !in_word ==> (i == 0 || class_has(*cls, v@[i - 1])),
            !in_word ==> cur@.len() == 0,
            in_word ==> char_views(parts@).push(cur@) == words(v@.take(i as int), *cls),
            !in_word ==> char_views(parts@) == words(v@.take(i as int), *cls),
        decreases v.len() - i,
    {
        let c = v[i];
        let ghost before = v@.take(i as int);
        assert(v@.take(i as int + 1).drop_last() == before);
        if in_class(cls, c) {
            if in_word {
                let done = cur;
                parts.push(done);
                cur = Vec::new();
            }
            in_word = false;
            assert(char_views(parts@) =~= words(v@.take(i as int + 1), *cls));
        } else {
            if in_word {
                assert(before[i - 1] == v@[i - 1]);
                proof {
                    lemma_words_nonempty(before, *cls);
                }
                cur.push(c);
                assert(char_views(parts@).push(cur@) =~= words(v@.take(i as int + 1), *cls));
            } else {
                cur.push(c);
                if i > 0 {
                    assert(v@.take(i as int + 1)[i - 1] == v@[i - 1]);
                }
                assert(cur@ =~= seq![c]);
                assert(char_views(parts@).push(cur@) =~= words(v@.take(i as int + 1), *cls));
            }
            in_word = true;
        }
        i += 1;
    }
    assert(v@.take(v.len() as int) == v@);
    if in_word {
        parts.push(cur);
        assert(char_views(parts@) =~= words(v@, *cls));
    }
    parts
}

/// The pieces of `parts` joined with `sep` between neighbours (Python `sep.join`).
pub open spec fn join(parts: Seq<Seq<char>>, sep: Seq<char>) -> Seq<char>
    decreases parts.len(),
{
    if parts.len() == 0 {
        Seq::empty()
    } else if parts.len() == 1 {
        parts[0]
    } else {
        join(parts.drop_last(), sep) + sep + parts.last()
    }
}

/// Joining the pieces of a split with the separator gives back the text.
pub proof fn lemma_split_on_join(s: Seq<char>, sep: char)
    ensures
        join(split_on(s, sep), seq![sep]) == s,
    decreases s.len(),
{
    if s.len() > 0 {
        lemma_split_on_join(s.drop_last(), sep);
        lemma_split_on_nonempty(s.drop_last(), sep);
        let prev = split_on(s.drop_last(), sep);
        if s.last() == sep {
            let q = prev.push(Seq::<char>::empty());
            assert(q.drop_last() == prev);
            assert(join(q, seq![sep]) == join(prev, seq![sep]) + seq![sep] + Seq::<char>::empty());
            assert(s.drop_last() + seq![sep] + Seq::<char>::empty() =~= s);
        } else {
            let q = prev.update(prev.len() - 1, prev.last().push(s.last()));
            assert(q.drop_last() =~= prev.drop_last());
            if prev.len() == 1 {
                assert(q[0] == prev.last().push(s.last()));
                assert(s =~= s.drop_last().push(s.last()));
            } else {
                assert(join(q, seq![sep]) =~= join(prev, seq![sep]).push(s.last()));
                assert(s =~= s.drop_last().push(s.last()));
            }
        }
    }
}

/// Joins character vectors with `sep` between neighbours.
pub fn join_chars(parts: &Vec<Vec<char>>, sep: &[char]) -> (r: Vec<char>)
    ensures
        r@ == join(char_views(parts@), sep@),
{
    let mut r: Vec<char> = Vec::new();
    let mut i: usize = 0;
    while i < parts.len()
        invariant
            i <= parts.len(),
            r@ == join(char_views(parts@).take(i as int), sep@),
        decreases parts.len() - i,
    {
        let ghost prev = char_views(parts@).take(i as int);
        assert(char_views(parts@).take(i as int + 1).drop_last() == prev);
        if i > 0 {
            append_chars(&mut r, sep);
        }
        append_chars(&mut r, parts[i].as_slice());
        assert(r@ =~= join(char_views(parts@).take(i as int + 1), sep@));
        i += 1;
    }
    assert(char_views(parts@).take(parts.len() as int) == char_views(parts@));
    r
}

/// Joins the strings `parts[lo..hi]` with `sep` between neighbours.
pub fn join_strings_range(parts: &Vec<String>, lo: usize, hi: usize, sep: &str) -> (r: String)
    requires
        lo <= hi <= parts@.len(),
    ensures
        r@ == join(string_views(parts@).subrange(lo as int, hi as int), sep@),
{
    let mut r = String::new();
    let mut i: usize = lo;
    while i < hi
        invariant
            lo <= i <= hi <= parts@.len(),
            r@ == join(string_views(parts@).subrange(lo as int, i as int), sep@),
        decreases hi - i,
    {
        let ghost prev = string_views(parts@).subrange(lo as int, i as int);
        assert(string_views(parts@).subrange(lo as int, i as int + 1).drop_last() == prev);
        if i > lo {
            push_str(&mut r, sep);
        }
        push_str(&mut r, parts[i].as_str());
        assert(r@ =~= join(string_views(parts@).subrange(lo as int, i as int + 1), sep@));
        i += 1;
    }
    r
}

/// Joins strings with `sep` between neighbours (Python `sep.join(parts)`).
pub fn join_strings(parts: &Vec<String>, sep: &str) -> (r: String)
    ensures
        r@ == join(string_views(parts@), sep@),
{
    let r = join_strings_range(parts, 0, parts.len(), sep);
    assert(string_views(parts@).subrange(0, parts@.len() as int) =~= string_views(parts@));
    r
}

/// Appends the characters of `v` to the vector `r`.
pub fn append_chars(r: &mut Vec<char>, v: &[char])
    ensures
        final(r)@ == old(r)@ + v@,
{
    let mut i: usize = 0;
    while i < v.len()
        invariant
            i <= v.len(),
            r@ == old(r)@ + v@.take(i as int),
        decreases v.len() - i,
    {
        r.push(v[i]);
        assert(v@.take(i as int + 1) == v@.take(i as int).push(v@[i as int]));
        i += 1;
    }
    assert(v@.take(v.len() as int) == v@);
}

// ---------------------------------------------------------------------------
// Numbers as text
// ---------------------------------------------------------------------------

/// The ASCII digit for `d < 10`.
pub open spec fn digit_char(d: nat) -> char {
    if d == 0 { '0' }
    else if d == 1 { '1' }
    else if d == 2 { '2' }
    else if d == 3 { '3' }
    else if d == 4 { '4' }
    else if d == 5 { '5' }
    else if d == 6 { '6' }
    else if d == 7 { '7' }
    else if d == 8 { '8' }
    else { '9' }
}

/// The decimal digits of `n`, most significant first, without leading zeros.
pub open spec fn decimal(n: nat) -> Seq<char>
    decreases n,
{
    if n < 10 {
        seq![digit_char(n)]
    } else {
        decimal(n / 10).push(digit_char(n % 10))
    }
}

/// Decimal text of a signed integer (`-` before negative values).
pub open spec fn decimal_int(n: int) -> Seq<char> {
    if n < 0 {
        seq!['-'] + decimal((-n) as nat)
    } else {
        decimal(n as nat)
    }
}

pub fn digit_to_char(d: u64) -> (c: char)
    requires
        d < 10,
    ensures
        c == digit_char(d as nat),
{
    if d == 0 { '0' }
    else if d == 1 { '1' }
    else if d == 2 { '2' }
    else if d == 3 { '3' }
    else if d == 4 { '4' }
    else if d == 5 { '5' }
    else if d == 6 { '6' }
    else if d == 7 { '7' }
    else if d == 8 { '8' }
    else { '9' }
}

/// The decimal digits of `n` (as `n.to_string()` writes them).
pub fn u64_decimal(n: u64) -> (r: Vec<char>)
    ensures
        r@ == decimal(n as nat),
    decreases n,
{
    if n < 10 {
        let mut r = Vec::new();
        r.push(digit_to_char(n));
        assert(r@ =~= seq![digit_char(n as nat)]);
        r
    } else {
        let mut r = u64_decimal(n / 10);
        r.push(digit_to_char(n % 10));
        r
    }
}

/// The decimal text of `n` (as `n.to_string()` writes it).
pub fn i64_decimal(n: i64) -> (r: Vec<char>)
    ensures
        r@ == decimal_int(n as int),
{
    if n < 0 {
        let m: u64 = if n == i64::MIN { 9223372036854775808u64 } else { (-n) as u64 };
        let d = u64_decimal(m);
        let mut r: Vec<char> = Vec::new();
        r.push('-');
        append_chars(&mut r, d.as_slice());
        assert(r@ =~= seq!['-'] + decimal(m as nat));
        r
    } else {
        u64_decimal(n as u64)
    }
}

} // verus!

//! Python text-mode semantics for data files: universal-newline translation and
//! `readlines()`.

use vstd::prelude::*;
use crate::text::{char_views, chars_to_string, str_to_chars, to_strings, string_views};

verus! {

/// Universal-newline translation: every `\r\n` becomes `\n`, and so does every
/// other `\r`.
pub open spec fn universal_newlines(s: Seq<char>) -> Seq<char>
    decreases s.len(),
{
    if s.len() == 0 {
        Seq::empty()
    } else if s.len() >= 2 && s[0] == '\r' && s[1] == '\n' {
        seq!['\n'] + universal_newlines(s.skip(2))
    } else if s[0] == '\r' {
        seq!['\n'] + universal_newlines(s.skip(1))
    } else {
        seq![s[0]] + universal_newlines(s.skip(1))
    }
}

/// `s.replace("\r\n", "\n").replace('\r', "\n")`: Python's universal newlines.
pub fn normalize_newlines(s: &str) -> (r: String)
    ensures
        r@ == universal_newlines(s@),
{
    let v = str_to_chars(s);
    let mut out: Vec<char> = Vec::new();
    let mut i: usize = 0;
    assert(v@.skip(0) == v@);
    assert(out@ + universal_newlines(v@.skip(0)) =~= universal_newlines(v@));
    while i < v.len()
        invariant
            i <= v.len(),
            out@ + universal_newlines(v@.skip(i as int)) == universal_newlines(v@),
        decreases v.len() - i,
    {
        let ghost rest = v@.skip(i as int);
        if v[i] == '\r' && i + 1 < v.len() && v[i + 1] == '\n' {
            out.push('\n');
            assert(rest.skip(2) =~= v@.skip(i + 2));
            i += 2;
        } else {
            if v[i] == '\r' {
                out.push('\n');
            } else {
                out.push(v[i]);
            }
            assert(rest.skip(1) =~= v@.skip(i + 1));
            i += 1;
        }
        assert(out@ + universal_newlines(v@.skip(i as int)) =~= universal_newlines(v@));
    }
    assert(v@.skip(v.len() as int) =~= Seq::<char>::empty());
    assert(out@ =~= universal_newlines(v@));
    chars_to_string(out.as_slice())
}

/// Translated text holds no carriage return.
pub proof fn law_no_carriage_return(s: Seq<char>)
    ensures
        !universal_newlines(s).contains('\r'),
    decreases s.len(),
{
    if s.len() > 0 {
        let (head, tail) = if s.len() >= 2 && s[0] == '\r' && s[1] == '\n' {
            (seq!['\n'], s.skip(2))
        } else if s[0] == '\r' {
            (seq!['\n'], s.skip(1))
        } else {
            (seq![s[0]], s.skip(1))
        };
        law_no_carriage_return(tail);
        assert(universal_newlines(s) == head + universal_newlines(tail));
        assert forall|i: int| 0 <= i < universal_newlines(s).len() implies universal_newlines(s)[i] != '\r' by {
            if i >= 1 {
                assert(universal_newlines(s)[i] == universal_newlines(tail)[i - 1]);
            }
        }
    }
}

/// Text without carriage returns is left as it is.
pub proof fn lemma_newlines_fixed(s: Seq<char>)
    requires
        !s.contains('\r'),
    ensures
        universal_newlines(s) == s,
    decreases s.len(),
{
    if s.len() > 0 {
        assert(s[0] != '\r');
        assert forall|i: int| 0 <= i < s.skip(1).len() implies s.skip(1)[i] != '\r' by {
            assert(s.skip(1)[i] == s[i + 1]);
        }
        lemma_newlines_fixed(s.skip(1));
        assert(seq![s[0]] + s.skip(1) =~= s);
    }
}

/// How many times `c` occurs in `s`.
pub open spec fn count_char(s: Seq<char>, c: char) -> nat
    decreases s.len(),
{
    if s.len() == 0 {
        0
    } else {
        (if s[0] == c { 1nat } else { 0nat }) + count_char(s.skip(1), c)
    }
}

/// How many times `\r\n` occurs in `s`.
pub open spec fn count_crlf(s: Seq<char>) -> nat
    decreases s.len(),
{
    if s.len() < 2 {
        0
    } else {
        (if s[0] == '\r' && s[1] == '\n' { 1nat } else { 0nat }) + count_crlf(s.skip(1))
    }
}

pub proof fn lemma_count_head(x: char, t: Seq<char>, c: char)
    ensures
        count_char(seq![x] + t, c) == (if x == c { 1nat } else { 0nat }) + count_char(t, c),
{
    assert((seq![x] + t).skip(1) =~= t);
    assert((seq![x] + t)[0] == x);
}

/// Every carriage return becomes a line break, except one that begins a `\r\n`
/// pair, which merges with its line break: the translated text has as many line
/// breaks as the text had carriage returns and line breaks, less its `\r\n` pairs.
pub proof fn law_newline_count(s: Seq<char>)
    ensures
        count_char(universal_newlines(s), '\n') + count_crlf(s) == count_char(s, '\r') + count_char(s, '\n'),
    decreases s.len(),
{
    if s.len() > 0 {
        let s1 = s.skip(1);
        if s.len() >= 2 && s[0] == '\r' && s[1] == '\n' {
            let s2 = s.skip(2);
            law_newline_count(s2);
            lemma_count_head('\n', universal_newlines(s2), '\n');
            assert(s1.skip(1) =~= s2);
            assert(s1[0] == '\n');
            if s1.len() >= 2 {
                assert(count_crlf(s1) == count_crlf(s2));
            } else {
                assert(s2.len() == 0);
            }
            assert(count_char(s1, '\r') == count_char(s2, '\r'));
            assert(count_char(s1, '\n') == 1 + count_char(s2, '\n'));
        } else {
            law_newline_count(s1);
            if s[0] == '\r' {
                lemma_count_head('\n', universal_newlines(s1), '\n');
            } else {
                lemma_count_head(s[0], universal_newlines(s1), '\n');
            }
            if s.len() < 2 {
                assert(s1.len() == 0);
            }
        }
    }
}

/// Translating twice is translating once.
pub proof fn law_normalize_idempotent(s: Seq<char>)
    ensures
        universal_newlines(universal_newlines(s)) == universal_newlines(s),
{
    law_no_carriage_return(s);
    lemma_newlines_fixed(universal_newlines(s));
}

/// `readlines()` on text: the lines of `s`, each keeping its `\n` (the last one
/// keeps none when the text does not end with a line break); none for empty text.
pub open spec fn lines_keepends_spec(s: Seq<char>) -> Seq<Seq<char>>
    decreases s.len(),
{
    if s.len() == 0 {
        Seq::empty()
    } else {
        let prev = lines_keepends_spec(s.drop_last());
        if prev.len() == 0 || prev.last().last() == '\n' {
            prev.push(seq![s.last()])
        } else {
            prev.update(prev.len() - 1, prev.last().push(s.last()))
        }
    }
}

/// The pieces of `parts` put back together.
pub open spec fn concat(parts: Seq<Seq<char>>) -> Seq<char>
    decreases parts.len(),
{
    if parts.len() == 0 {
        Seq::empty()
    } else {
        concat(parts.drop_last()) + parts.last()
    }
}

/// No line of `lines_keepends_spec` is empty.
pub proof fn lemma_lines_nonempty(s: Seq<char>)
    ensures
        forall|i: int| 0 <= i < lines_keepends_spec(s).len() ==> (#[trigger] lines_keepends_spec(s)[i]).len() > 0,
    decreases s.len(),
{
    if s.len() > 0 {
        lemma_lines_nonempty(s.drop_last());
        let prev = lines_keepends_spec(s.drop_last());
        let cur = lines_keepends_spec(s);
        assert forall|i: int| 0 <= i < cur.len() implies (#[trigger] cur[i]).len() > 0 by {
            if i < prev.len() && !(prev.len() == 0 || prev.last().last() == '\n') && i == prev.len() - 1 {
            } else if i < prev.len() {
                assert(cur[i] == prev[i]);
            }
        }
    }
}

/// The lines put back together are the text.
pub proof fn law_lines_concat(s: Seq<char>)
    ensures
        concat(lines_keepends_spec(s)) == s,
    decreases s.len(),
{
    if s.len() > 0 {
        law_lines_concat(s.drop_last());
        let prev = lines_keepends_spec(s.drop_last());
        if prev.len() == 0 || prev.last().last() == '\n' {
            assert(prev.push(seq![s.last()]).drop_last() == prev);
            assert(s.drop_last().push(s.last()) =~= s);
        } else {
            let cur = prev.update(prev.len() - 1, prev.last().push(s.last()));
            assert(cur.drop_last() =~= prev.drop_last());
            assert(concat(prev) == concat(prev.drop_last()) + prev.last());
            assert(concat(cur) =~= concat(prev) + seq![s.last()]);
            assert(s.drop_last().push(s.last()) =~= s);
        }
    }
}

/// `readlines()` of the text (see [`lines_keepends_spec`]).
pub fn lines_keepends(text: &str) -> (r: Vec<String>)
    ensures
        string_views(r@) == lines_keepends_spec(text@),
{
    let v = str_to_chars(text);
    let mut lines: Vec<Vec<char>> = Vec::new();
    let mut i: usize = 0;
    while i < v.len()
        invariant
            i <= v.len(),
            char_views(lines@) == lines_keepends_spec(v@.take(i as int)),
            forall|k: int| 0 <= k < lines@.len() ==> (#[trigger] lines@[k])@.len() > 0,
        decreases v.len() - i,
    {
        assert(v@.take(i as int + 1).drop_last() == v@.take(i as int));
        let n = lines.len();
        let ghost lv = char_views(lines@);
        let start_new = n == 0 || {
            let last = &lines[n - 1];
            last[last.len() - 1] == '\n'
        };
        if start_new {
            let mut l: Vec<char> = Vec::new();
            l.push(v[i]);
            lines.push(l);
            assert(char_views(lines@) =~= lv.push(seq![v@[i as int]]));
        } else {
            let ghost raw0 = lines@;
            lines[n - 1].push(v[i]);
            assert(lines@ == raw0.update(n - 1, lines@[n - 1]));
            assert(char_views(lines@) =~= lv.update(n - 1, lv.last().push(v@[i as int])));
        }
        i += 1;
    }
    assert(v@.take(v.len() as int) == v@);
    to_strings(&lines)
}

} // verus!

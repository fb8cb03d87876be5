//! Python's `repr()` of a `str`: the format the bot uses for the dictionary's key
//! listing and for SQL rows.

use vstd::prelude::*;
use crate::text::{str_to_chars, chars_to_string};

verus! {

/// The control characters (Unicode general category `Cc`), which std
/// `char::is_control` tests.
pub open spec fn is_control(c: char) -> bool {
    c <= '\u{1f}' || ('\u{7f}' <= c && c <= '\u{9f}')
}

/// Printable for the purposes of `repr`: printable ASCII, or any non-ASCII
/// character that is not a control character.
pub open spec fn is_py_printable_spec(c: char) -> bool {
    if c <= '\u{7f}' {
        ' ' <= c && c <= '~'
    } else {
        !is_control(c)
    }
}

/// Whether `repr` may show `c` as itself.
pub fn is_py_printable(c: char) -> (r: bool)
    ensures
        r == is_py_printable_spec(c),
{
    if c <= '\u{7f}' {
        ' ' <= c && c <= '~'
    } else {
        !(c <= '\u{9f}')
    }
}

/// The lower-case hexadecimal digit for `d < 16`.
pub open spec fn hex_char(d: nat) -> char {
    if d < 10 {
        crate::text::digit_char(d)
    } else if d == 10 { 'a' }
    else if d == 11 { 'b' }
    else if d == 12 { 'c' }
    else if d == 13 { 'd' }
    else if d == 14 { 'e' }
    else { 'f' }
}

/// The last `width` hexadecimal digits of `n`, zero-padded (`{:0width$x}` for
/// `n < 16^width`).
pub open spec fn hex_fixed(n: nat, width: nat) -> Seq<char>
    decreases width,
{
    if width == 0 {
        Seq::empty()
    } else {
        hex_fixed(n / 16, (width - 1) as nat).push(hex_char(n % 16))
    }
}

/// The quote character `repr` chooses: a double quote only when the text holds a
/// single quote and no double quote.
pub open spec fn repr_quote(s: Seq<char>) -> char {
    if s.contains('\'') && !s.contains('"') { '"' } else { '\'' }
}

/// How `repr` writes one character, given the chosen quote. With `full`, characters
/// that are not printable are written as `\xhh`, `\uhhhh` or `\Uhhhhhhhh`; without
/// it they are written as themselves.
pub open spec fn repr_char(c: char, quote: char, full: bool) -> Seq<char> {
    if c == '\\' {
        seq!['\\', '\\']
    } else if c == '\n' {
        seq!['\\', 'n']
    } else if c == '\r' {
        seq!['\\', 'r']
    } else if c == '\t' {
        seq!['\\', 't']
    } else if c == quote {
        seq!['\\', c]
    } else if !full || is_py_printable_spec(c) {
        seq![c]
    } else if (c as nat) < 0x100 {
        seq!['\\', 'x'] + hex_fixed(c as nat, 2)
    } else if (c as nat) < 0x10000 {
        seq!['\\', 'u'] + hex_fixed(c as nat, 4)
    } else {
        seq!['\\', 'U'] + hex_fixed(c as nat, 8)
    }
}

/// The escaped body of `s`.
pub open spec fn repr_body(s: Seq<char>, quote: char, full: bool) -> Seq<char>
    decreases s.len(),
{
    if s.len() == 0 {
        Seq::empty()
    } else {
        repr_body(s.drop_last(), quote, full) + repr_char(s.last(), quote, full)
    }
}

/// Python's `repr()` of the string `s` (with `full`, including the escapes of
/// unprintable characters).
pub open spec fn py_repr_spec(s: Seq<char>, full: bool) -> Seq<char> {
    let q = repr_quote(s);
    seq![q] + repr_body(s, q, full) + seq![q]
}

pub fn hex_digit(d: u32) -> (c: char)
    requires
        d < 16,
    ensures
        c == hex_char(d as nat),
{
    if d < 10 {
        crate::text::digit_to_char(d as u64)
    } else if d == 10 { 'a' }
    else if d == 11 { 'b' }
    else if d == 12 { 'c' }
    else if d == 13 { 'd' }
    else if d == 14 { 'e' }
    else { 'f' }
}

/// Appends the last `width` hexadecimal digits of `n` to `out`.
pub fn push_hex_fixed(out: &mut Vec<char>, n: u32, width: u32)
    ensures
        final(out)@ == old(out)@ + hex_fixed(n as nat, width as nat),
    decreases width,
{
    if width > 0 {
        push_hex_fixed(out, n / 16, width - 1);
        out.push(hex_digit(n % 16));
        assert(hex_fixed(n as nat, width as nat) == hex_fixed((n / 16) as nat, (width - 1) as nat).push(hex_char((n % 16) as nat)));
    } else {
        assert(hex_fixed(n as nat, 0) =~= Seq::<char>::empty());
    }
}

/// Appends how `repr` writes `c` to `out`.
pub fn push_repr_char(out: &mut Vec<char>, c: char, quote: char, full: bool)
    ensures
        final(out)@ == old(out)@ + repr_char(c, quote, full),
{
    let ghost o = out@;
    if c == '\\' {
        out.push('\\');
        out.push('\\');
    } else if c == '\n' {
        out.push('\\');
        out.push('n');
    } else if c == '\r' {
        out.push('\\');
        out.push('r');
    } else if c == '\t' {
        out.push('\\');
        out.push('t');
    } else if c == quote {
        out.push('\\');
        out.push(c);
    } else if !full || is_py_printable(c) {
        out.push(c);
    } else {
        let n = c as u32;
        out.push('\\');
        if n < 0x100 {
            out.push('x');
            push_hex_fixed(out, n, 2);
        } else if n < 0x10000 {
            out.push('u');
            push_hex_fixed(out, n, 4);
        } else {
            out.push('U');
            push_hex_fixed(out, n, 8);
        }
    }
    assert(out@ =~= o + repr_char(c, quote, full));
}

/// Whether `v` holds the character `c`.
pub fn chars_contain(v: &[char], c: char) -> (r: bool)
    ensures
        r == v@.contains(c),
{
    let mut i: usize = 0;
    while i < v.len()
        invariant
            i <= v.len(),
            forall|k: int| 0 <= k < i ==> v@[k] != c,
        decreases v.len() - i,
    {
        if v[i] == c {
            assert(v@[i as int] == c);
            return true;
        }
        i += 1;
    }
    false
}

/// Appends Python's `repr()` of the characters `v` to `out`.
pub fn push_py_repr(out: &mut Vec<char>, v: &[char], full: bool)
    ensures
        final(out)@ == old(out)@ + py_repr_spec(v@, full),
{
    let quote = if chars_contain(v, '\'') && !chars_contain(v, '"') { '"' } else { '\'' };
    let ghost o = out@;
    out.push(quote);
    let mut i: usize = 0;
    while i < v.len()
        invariant
            i <= v.len(),
            quote == repr_quote(v@),
            out@ == o + seq![quote] + repr_body(v@.take(i as int), quote, full),
        decreases v.len() - i,
    {
        assert(v@.take(i as int + 1).drop_last() == v@.take(i as int));
        push_repr_char(out, v[i], quote, full);
        i += 1;
    }
    assert(v@.take(v.len() as int) == v@);
    out.push(quote);
    assert(out@ =~= o + py_repr_spec(v@, full));
}

/// Python's `repr()` of a string, as the dictionary's key listing shows it:
/// quoted with `'` unless the text holds `'` and no `"`, with backslash, the
/// chosen quote, `\n`, `\r` and `\t` escaped and other unprintable characters
/// written as `\x`, `\u` or `\U` escapes.
pub fn py_repr(s: &str) -> (r: String)
    ensures
        r@ == py_repr_spec(s@, true),
{
    let v = str_to_chars(s);
    let mut out: Vec<char> = Vec::new();
    push_py_repr(&mut out, v.as_slice(), true);
    assert(out@ =~= py_repr_spec(s@, true));
    chars_to_string(out.as_slice())
}

} // verus!

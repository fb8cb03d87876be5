//! The literary quote corpora: texts cut into paragraphs or lines, and random
//! quotes drawn from them.

use vstd::prelude::*;
use crate::random::random_below;
use crate::text::{char_views, split_chars, split_on, str_eq, str_to_chars, string_views, to_strings,
    push_str};

verus! {

/// Position of the first blank-line separator (`\n\n`) at or after `from`, or `s.len()`.
pub open spec fn first_blank(s: Seq<char>, from: int) -> int
    decreases s.len() - from,
{
    if from < 0 || from + 1 >= s.len() {
        s.len() as int
    } else if s[from] == '\n' && s[from + 1] == '\n' {
        from
    } else {
        first_blank(s, from + 1)
    }
}

/// `s.split("\n\n")`: the pieces between non-overlapping `\n\n` separators, found
/// from the left.
pub open spec fn split_blank(s: Seq<char>) -> Seq<Seq<char>>
    decreases s.len(),
{
    let i = first_blank(s, 0);
    if i < s.len() && 0 <= i && i + 2 <= s.len() {
        seq![s.take(i)] + split_blank(s.skip(i + 2))
    } else {
        seq![s]
    }
}

pub proof fn lemma_first_blank(s: Seq<char>, from: int)
    requires
        0 <= from <= s.len(),
    ensures
        from <= first_blank(s, from) <= s.len(),
        first_blank(s, from) < s.len() ==> first_blank(s, from) + 1 < s.len() && s[first_blank(s, from)] == '\n' && s[first_blank(s, from) + 1] == '\n',
        forall|k: int| from <= k < first_blank(s, from) && k + 1 < s.len() ==> !(s[k] == '\n' && #[trigger] s[k + 1] == '\n'),
    decreases s.len() - from,
{
    if from + 1 < s.len() && !(s[from] == '\n' && s[from + 1] == '\n') {
        lemma_first_blank(s, from + 1);
    }
}

pub proof fn lemma_first_blank_shift(s: Seq<char>, a: int, from: int)
    requires
        0 <= a <= from <= s.len(),
    ensures
        first_blank(s.skip(a), from - a) + a == first_blank(s, from),
    decreases s.len() - from,
{
    let t = s.skip(a);
    if from + 1 < s.len() {
        assert(t[from - a] == s[from]);
        assert(t[from - a + 1] == s[from + 1]);
        if !(s[from] == '\n' && s[from + 1] == '\n') {
            lemma_first_blank_shift(s, a, from + 1);
        }
    }
}

/// Cuts text into paragraphs at blank lines (`text.split("\n\n")`).
pub fn split_paragraphs(text: &str) -> (r: Vec<String>)
    ensures
        string_views(r@) == split_blank(text@),
{
    let v = str_to_chars(text);
    let mut parts: Vec<Vec<char>> = Vec::new();
    let mut start: usize = 0;
    let mut cur: Vec<char> = Vec::new();
    let mut i: usize = 0;
    assert(v@.skip(0) == v@);
    while i < v.len()
        invariant
            start <= i <= v.len(),
            cur@ == v@.subrange(start as int, i as int),
            forall|k: int| start <= k < i && k + 1 < v.len() ==> !(v@[k] == '\n' && #[trigger] v@[k + 1] == '\n'),
            char_views(parts@) + split_blank(v@.skip(start as int)) == split_blank(v@),
        decreases v.len() - i,
    {
        if v[i] == '\n' && i + 1 < v.len() && v[i + 1] == '\n' {
            let ghost rest = v@.skip(start as int);
            proof {
                lemma_first_blank_shift(v@, start as int, start as int);
                lemma_first_blank(v@, start as int);
                lemma_first_blank_shift(v@, start as int, i as int);
                assert(first_blank(v@, i as int) == i);
                lemma_first_blank_dup(v@, start as int, i as int);
                assert(first_blank(rest, 0) == i - start);
                assert(rest.take(i - start) =~= cur@);
                assert(rest.skip(i - start + 2) =~= v@.skip(i + 2));
            }
            let ghost p0 = char_views(parts@);
            parts.push(cur);
            cur = Vec::new();
            assert(char_views(parts@) =~= p0.push(rest.take(i - start)));
            i += 2;
            start = i;
            assert(char_views(parts@) + split_blank(v@.skip(start as int)) =~= split_blank(v@));
        } else {
            cur.push(v[i]);
            assert(v@.subrange(start as int, i as int + 1) =~= v@.subrange(start as int, i as int).push(v@[i as int]));
            i += 1;
        }
    }
    proof {
        let rest = v@.skip(start as int);
        lemma_first_blank(v@, start as int);
        lemma_first_blank_shift(v@, start as int, start as int);
        if first_blank(v@, start as int) < v@.len() {
            let f = first_blank(v@, start as int);
            assert(!(v@[f] == '\n' && v@[f + 1] == '\n'));
        }
        assert(first_blank(rest, 0) >= rest.len());
        assert(rest =~= cur@);
    }
    parts.push(cur);
    assert(char_views(parts@) =~= split_blank(v@));
    to_strings(&parts)
}

pub proof fn lemma_first_blank_dup(s: Seq<char>, from: int, i: int)
    requires
        0 <= from <= i,
        i + 1 < s.len(),
        s[i] == '\n' && s[i + 1] == '\n',
        forall|k: int| from <= k < i && k + 1 < s.len() ==> !(s[k] == '\n' && #[trigger] s[k + 1] == '\n'),
    ensures
        first_blank(s, from) == i,
    decreases i - from,
{
    if from < i {
        assert(!(s[from] == '\n' && s[from + 1] == '\n'));
        lemma_first_blank_dup(s, from + 1, i);
    }
}

/// Cuts text into lines (`text.split('\n')`).
pub fn split_lines(text: &str) -> (r: Vec<String>)
    ensures
        string_views(r@) == split_on(text@, '\n'),
{
    let v = str_to_chars(text);
    let parts = split_chars(v.as_slice(), '\n');
    to_strings(&parts)
}

// ---------------------------------------------------------------------------
// The corpora
// ---------------------------------------------------------------------------

/// The quote corpora, by the names the commands use.
pub struct Corpora {
    pub dick: Vec<String>,
    pub dickens: Vec<String>,
    pub willy: Vec<String>,
    pub thomas: Vec<String>,
    pub jane: Vec<String>,
    pub yoda: Vec<String>,
    pub dwarf: Vec<String>,
}

/// The corpus a name selects, if the name is known.
pub open spec fn pool_spec(c: Corpora, name: Seq<char>) -> Option<Seq<Seq<char>>> {
    if name == "dick"@ { Some(string_views(c.dick@)) }
    else if name == "dickens"@ { Some(string_views(c.dickens@)) }
    else if name == "willy"@ { Some(string_views(c.willy@)) }
    else if name == "thomas"@ { Some(string_views(c.thomas@)) }
    else if name == "jane"@ { Some(string_views(c.jane@)) }
    else if name == "yoda"@ { Some(string_views(c.yoda@)) }
    else if name == "dwarf"@ { Some(string_views(c.dwarf@)) }
    else { None }
}

/// `pool_for(name)`: the corpus of that name (`None` for an unknown name).
pub fn pool_for<'a>(c: &'a Corpora, name: &str) -> (r: Option<&'a Vec<String>>)
    ensures
        match r {
            Some(p) => pool_spec(*c, name@) == Some(string_views(p@)),
            None => pool_spec(*c, name@) is None,
        },
{
    if str_eq(name, "dick") { Some(&c.dick) }
    else if str_eq(name, "dickens") { Some(&c.dickens) }
    else if str_eq(name, "willy") { Some(&c.willy) }
    else if str_eq(name, "thomas") { Some(&c.thomas) }
    else if str_eq(name, "jane") { Some(&c.jane) }
    else if str_eq(name, "yoda") { Some(&c.yoda) }
    else if str_eq(name, "dwarf") { Some(&c.dwarf) }
    else { None }
}

/// Line `i` of `pool`, quoted with `> `.
pub fn quoted_at(pool: &Vec<String>, i: usize) -> (r: String)
    requires
        i < pool@.len(),
    ensures
        r@ == "> "@ + pool@[i as int]@,
{
    let mut s = String::new();
    push_str(&mut s, "> ");
    push_str(&mut s, pool[i].as_str());
    assert(s@ =~= "> "@ + pool@[i as int]@);
    s
}

/// One of `pool` drawn at random, quoted with `> ` as [`quoted_at`] gives it.
fn quoted_choice(pool: &Vec<String>) -> (r: String)
    requires
        pool@.len() > 0,
    ensures
        exists|i: int| 0 <= i < pool@.len() && r@ == "> "@ + (#[trigger] pool@[i])@,
{
    let i = random_below(pool.len());
    quoted_at(pool, i)
}

/// `get_yoda_quote`: a random line of the Clone Wars quotes, quoted with `> `.
pub fn get_yoda_quote(c: &Corpora) -> (r: String)
    requires
        c.yoda@.len() > 0,
    ensures
        exists|i: int| 0 <= i < c.yoda@.len() && r@ == "> "@ + (#[trigger] c.yoda@[i])@,
{
    quoted_choice(&c.yoda)
}

/// `get_dwarf_quote`: a random line of the dwarf quotes, quoted with `> `.
pub fn get_dwarf_quote(c: &Corpora) -> (r: String)
    requires
        c.dwarf@.len() > 0,
    ensures
        exists|i: int| 0 <= i < c.dwarf@.len() && r@ == "> "@ + (#[trigger] c.dwarf@[i])@,
{
    quoted_choice(&c.dwarf)
}

/// A quote of acceptable length: 100 to 800 characters.
pub open spec fn quote_fits(q: Seq<char>) -> bool {
    100 <= q.len() <= 800
}

/// `get_random_quote(name)`: a quote of the named corpus of 100 to 800 characters,
/// drawn uniformly among those that fit (as drawing from the whole corpus until
/// one fits would give). The name must be a corpus name and the corpus must hold
/// a fitting quote, else no draw would ever fit.
pub fn get_random_quote(c: &Corpora, name: &str) -> (r: String)
    requires
        pool_spec(*c, name@) is Some,
        exists|i: int| 0 <= i < pool_spec(*c, name@)->0.len() && quote_fits(#[trigger] pool_spec(*c, name@)->0[i]),
    ensures
        exists|i: int| 0 <= i < pool_spec(*c, name@)->0.len() && r@ == #[trigger] pool_spec(*c, name@)->0[i] && quote_fits(r@),
{
    let pool = match pool_for(c, name) {
        Some(p) => p,
        None => {
            assert(false);
            return String::new();
        },
    };
    let ghost ps = string_views(pool@);
    let mut fitting: Vec<usize> = Vec::new();
    let mut i: usize = 0;
    while i < pool.len()
        invariant
            i <= pool.len(),
            ps == string_views(pool@),
            forall|k: int| 0 <= k < fitting@.len() ==> #[trigger] fitting@[k] < pool@.len() && quote_fits(ps[fitting@[k] as int]),
            forall|j: int| 0 <= j < i && quote_fits(ps[j]) ==> #[trigger] fitting@.contains(j as usize),
        decreases pool.len() - i,
    {
        let v = str_to_chars(pool[i].as_str());
        assert(v@ == ps[i as int]);
        let ghost f0 = fitting@;
        if 100 <= v.len() && v.len() <= 800 {
            fitting.push(i);
            assert(fitting@[fitting@.len() - 1] == i);
        }
        assert forall|j: int| 0 <= j < i + 1 && quote_fits(ps[j]) implies #[trigger] fitting@.contains(j as usize) by {
            if j == i {
                assert(fitting@[fitting@.len() - 1] == i);
            } else {
                assert(f0.contains(j as usize));
                let t = choose|t: int| 0 <= t < f0.len() && f0[t] == j as usize;
                assert(fitting@[t] == j as usize);
            }
        }
        i += 1;
    }
    proof {
        let j = choose|j: int| 0 <= j < ps.len() && quote_fits(#[trigger] ps[j]);
        assert(fitting@.contains(j as usize));
    }
    let k = random_below(fitting.len());
    let idx = fitting[k];
    let mut s = String::new();
    push_str(&mut s, pool[idx].as_str());
    assert(s@ =~= ps[idx as int]);
    s
}

} // verus!

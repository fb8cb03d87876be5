//! The mysterious merchant: a random merchant, described, offering six random
//! items, each word drawn from its pool without being put back.

use vstd::prelude::*;
use crate::text::{push_str, string_views, char_views, str_to_chars, split_chars, split_on, trim_chars, trim, chars_to_string, CharClass};
use crate::commands::{get_article, with_article};
use crate::random::random_below;

verus! {

/// A pool of words that draws leave without being put back.
pub struct WordPool {
    words: Vec<String>,
}

impl View for WordPool {
    type V = Seq<Seq<char>>;

    closed spec fn view(&self) -> Seq<Seq<char>> {
        string_views(self.words@)
    }
}

/// How many positions a draw chooses among: all but the last word (at least
/// one); the draw's range stops one short of the pool.
pub open spec fn draw_range(len: nat) -> nat {
    if len >= 2 { (len - 1) as nat } else { 1 }
}

impl WordPool {
    /// A pool of the given words.
    pub fn new(words: Vec<String>) -> (r: WordPool)
        ensures
            r@ == string_views(words@),
    {
        WordPool { words }
    }

    /// Draws a word at random (never the last one of a pool of two or more) and
    /// takes it out of the pool; with `article`, the word comes with its
    /// indefinite article. An empty pool gives the empty text.
    pub fn take(&mut self, article: bool) -> (r: String)
        ensures
            old(self)@.len() == 0 ==> r@.len() == 0 && final(self)@ == old(self)@,
            old(self)@.len() > 0 ==> exists|i: int| 0 <= i < draw_range(old(self)@.len()) && {
                &&& final(self)@ == old(self)@.remove(i)
                &&& r@ == (if article { with_article(old(self)@[i]) } else { old(self)@[i] })
            },
    {
        if self.words.len() == 0 {
            return String::new();
        }
        let n = if self.words.len() >= 2 { self.words.len() - 1 } else { 1 };
        let i = random_below(n);
        let ghost before = self@;
        let w = self.words.remove(i);
        assert(self@ =~= before.remove(i as int));
        if article {
            get_article(w.as_str())
        } else {
            w
        }
    }
}

/// The lines of `text` as `str::lines` gives them (no empty last line after a
/// final newline, none at all for an empty text).
pub open spec fn text_lines(text: Seq<char>) -> Seq<Seq<char>> {
    if text.len() == 0 {
        Seq::empty()
    } else if text.last() == '\n' {
        split_on(text, '\n').drop_last()
    } else {
        split_on(text, '\n')
    }
}

/// The words of a pool file: its lines, trimmed.
pub open spec fn pool_words(text: Seq<char>) -> Seq<Seq<char>> {
    text_lines(text).map_values(|l: Seq<char>| trim(l, CharClass::Whitespace))
}

/// The words of a pool file (see [`pool_words`]).
pub fn pool_lines(text: &str) -> (r: Vec<String>)
    ensures
        string_views(r@) == pool_words(text@),
{
    let v = str_to_chars(text);
    let mut r: Vec<String> = Vec::new();
    if v.len() == 0 {
        assert(string_views(r@) =~= pool_words(text@));
        return r;
    }
    let parts = split_chars(v.as_slice(), '\n');
    let ghost ps = char_views(parts@);
    let n = if v[v.len() - 1] == '\n' {
        proof { crate::text::lemma_split_on_nonempty(v@, '\n'); }
        parts.len() - 1
    } else {
        parts.len()
    };
    assert(text_lines(text@) == ps.take(n as int));
    let mut i: usize = 0;
    while i < n
        invariant
            i <= n <= parts@.len(),
            ps == char_views(parts@),
            string_views(r@) == ps.take(i as int).map_values(|l: Seq<char>| trim(l, CharClass::Whitespace)),
        decreases n - i,
    {
        let t = trim_chars(parts[i].as_slice(), &CharClass::Whitespace);
        let ghost before = string_views(r@);
        r.push(chars_to_string(t.as_slice()));
        assert(string_views(r@) =~= before.push(trim(ps[i as int], CharClass::Whitespace)));
        assert(ps.take(i as int + 1).map_values(|l: Seq<char>| trim(l, CharClass::Whitespace))
            =~= ps.take(i as int).map_values(|l: Seq<char>| trim(l, CharClass::Whitespace)).push(trim(ps[i as int], CharClass::Whitespace)));
        i += 1;
    }
    r
}

/// The merchant's pitch: the described merchant, then one line per (descriptor,
/// item) ware.
pub open spec fn merchant_text(desc: Seq<char>, merchant: Seq<char>, wares: Seq<(Seq<char>, Seq<char>)>) -> Seq<char> {
    "Your tawdry little invocation summons "@ + desc + " "@ + merchant
        + ". They stand too close to you. They offer you their paltry wares. Type /select <item> to choose an item: \n"@
        + ware_lines(wares)
}

/// One `- descriptor item` line per ware.
pub open spec fn ware_lines(wares: Seq<(Seq<char>, Seq<char>)>) -> Seq<char>
    decreases wares.len(),
{
    if wares.len() == 0 {
        Seq::empty()
    } else {
        ware_lines(wares.drop_last()) + "- "@ + wares.last().0 + " "@ + wares.last().1 + "\n"@
    }
}

/// Whether `w` is the empty text or one of `pool`.
pub open spec fn drawn_from(w: Seq<char>, pool: Seq<Seq<char>>) -> bool {
    w.len() == 0 || pool.contains(w)
}

/// The wares on offer.
pub const WARES: usize = 6;

/// The mysterious merchant's pitch, drawing the merchant's description (with
/// its article) and the merchant, then six (descriptor, item) wares, each word
/// taken out of its pool as it is drawn.
pub fn merchant_msg(descriptors: Vec<String>, items: Vec<String>, merchants: Vec<String>) -> (r: String)
    ensures
        exists|desc: Seq<char>, merchant: Seq<char>, wares: Seq<(Seq<char>, Seq<char>)>| {
            &&& r@ == merchant_text(desc, merchant, wares)
            &&& wares.len() == WARES
            &&& (desc.len() == 0 || exists|d: Seq<char>| string_views(descriptors@).contains(d) && desc == with_article(d))
            &&& drawn_from(merchant, string_views(merchants@))
            &&& forall|k: int| 0 <= k < WARES ==> drawn_from((#[trigger] wares[k]).0, string_views(descriptors@))
                && drawn_from(wares[k].1, string_views(items@))
        },
{
    let ghost d0 = string_views(descriptors@);
    let ghost i0 = string_views(items@);
    let ghost m0 = string_views(merchants@);
    let mut dp = WordPool::new(descriptors);
    let mut ip = WordPool::new(items);
    let mut mp = WordPool::new(merchants);
    let md = dp.take(true);
    let ghost desc = md@;
    proof {
        if desc.len() > 0 {
            let i = choose|i: int| 0 <= i < draw_range(d0.len()) && desc == with_article(d0[i]) && dp@ == d0.remove(i);
            assert(d0.contains(d0[i]));
        }
    }
    let m = mp.take(false);
    assert(drawn_from(m@, m0)) by {
        if m@.len() > 0 {
            let i = choose|i: int| 0 <= i < draw_range(m0.len()) && m@ == m0[i];
            assert(m0[i] == m@);
        }
    }
    let mut s = String::new();
    push_str(&mut s, "Your tawdry little invocation summons ");
    push_str(&mut s, md.as_str());
    push_str(&mut s, " ");
    push_str(&mut s, m.as_str());
    push_str(&mut s, ". They stand too close to you. They offer you their paltry wares. Type /select <item> to choose an item: \n");
    let ghost head = s@;
    let ghost mut wares: Seq<(Seq<char>, Seq<char>)> = Seq::empty();
    let mut count: usize = 0;
    while count < WARES
        invariant
            count <= WARES,
            wares.len() == count,
            s@ == head + ware_lines(wares),
            forall|x: Seq<char>| dp@.contains(x) ==> d0.contains(x),
            forall|x: Seq<char>| ip@.contains(x) ==> i0.contains(x),
            forall|k: int| 0 <= k < count ==> drawn_from((#[trigger] wares[k]).0, d0) && drawn_from(wares[k].1, i0),
        decreases WARES - count,
    {
        let ghost dbefore = dp@;
        let ghost ibefore = ip@;
        let d = dp.take(false);
        let it = ip.take(false);
        proof {
            if dbefore.len() > 0 {
                let i = choose|i: int| 0 <= i < draw_range(dbefore.len()) && dp@ == dbefore.remove(i) && d@ == dbefore[i];
                assert(dbefore.contains(dbefore[i]));
                assert forall|x: Seq<char>| dp@.contains(x) implies d0.contains(x) by {
                    let j = choose|j: int| 0 <= j < dp@.len() && dp@[j] == x;
                    if j < i { assert(dbefore[j] == x); } else { assert(dbefore[j + 1] == x); }
                }
            }
            if ibefore.len() > 0 {
                let i = choose|i: int| 0 <= i < draw_range(ibefore.len()) && ip@ == ibefore.remove(i) && it@ == ibefore[i];
                assert(ibefore.contains(ibefore[i]));
                assert forall|x: Seq<char>| ip@.contains(x) implies i0.contains(x) by {
                    let j = choose|j: int| 0 <= j < ip@.len() && ip@[j] == x;
                    if j < i { assert(ibefore[j] == x); } else { assert(ibefore[j + 1] == x); }
                }
            }
        }
        push_str(&mut s, "- ");
        push_str(&mut s, d.as_str());
        push_str(&mut s, " ");
        push_str(&mut s, it.as_str());
        push_str(&mut s, "\n");
        proof {
            let w2 = wares.push((d@, it@));
            assert(w2.drop_last() == wares);
            assert(s@ =~= head + ware_lines(w2));
            wares = w2;
        }
        count += 1;
    }
    assert(s@ =~= merchant_text(desc, m@, wares));
    s
}

} // verus!

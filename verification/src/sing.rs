//! Singing the lyrics of `data/rick.txt`, one line per call, starting over after
//! the last line.

use vstd::prelude::*;
use crate::text::{split_chars, split_on, str_to_chars, string_views, to_strings, push_str};

verus! {

/// The lyrics and the position of the next line to sing.
pub struct Singer {
    ricks: Vec<String>,
    saved_index: usize,
}

/// The position sung from a saved position: the start again after the end.
pub open spec fn sung_at(saved: nat, len: nat) -> nat {
    if saved == len { 0 } else { saved }
}

/// The saved position after `k` calls, starting from `saved`.
pub open spec fn saved_after(saved: nat, len: nat, k: nat) -> nat
    decreases k,
{
    if k == 0 {
        saved
    } else {
        sung_at(saved_after(saved, len, (k - 1) as nat), len) + 1
    }
}

/// A sung line: `🎶  *line*  🎶`.
pub open spec fn sung_line(line: Seq<char>) -> Seq<char> {
    "🎶  *"@ + line + "*  🎶"@
}

/// One call of [`Singer::sing_to_me`]: from `before` to `after`, singing `out`.
pub open spec fn sing_step(before: Singer, after: Singer, out: Seq<char>) -> bool {
    &&& after.wf()
    &&& after.lines() == before.lines()
    &&& after.saved() == sung_at(before.saved(), before.lines().len()) + 1
    &&& out == sung_line(before.lines()[sung_at(before.saved(), before.lines().len()) as int])
}

impl Singer {
    /// The lyric lines.
    pub closed spec fn lines(self) -> Seq<Seq<char>> {
        string_views(self.ricks@)
    }

    /// The saved position.
    pub closed spec fn saved(self) -> nat {
        self.saved_index as nat
    }

    /// The saved position never passes the end of the lyrics.
    pub closed spec fn wf(self) -> bool {
        self.saved_index <= self.ricks@.len()
    }

    /// The lyrics are the lines of `text` (split on `\n`, so a final line break
    /// gives a final empty line); singing starts at the first line.
    pub fn from_text(text: &str) -> (s: Singer)
        ensures
            s.wf(),
            s.lines() == split_on(text@, '\n'),
            s.saved() == 0,
    {
        let v = str_to_chars(text);
        let parts = split_chars(v.as_slice(), '\n');
        let ricks = to_strings(&parts);
        Singer { ricks, saved_index: 0 }
    }

    /// `sing_to_me`: the next line, framed as `🎶  *line*  🎶`.
    pub fn sing_to_me(&mut self) -> (r: String)
        requires
            old(self).wf(),
            old(self).lines().len() > 0,
        ensures
            final(self).wf(),
            final(self).lines() == old(self).lines(),
            final(self).saved() == sung_at(old(self).saved(), old(self).lines().len()) + 1,
            r@ == sung_line(old(self).lines()[sung_at(old(self).saved(), old(self).lines().len()) as int]),
            sing_step(*old(self), *final(self), r@),
    {
        let ghost i0 = sung_at(self.saved(), self.lines().len());
        let ghost l0 = self.lines();
        if self.saved_index == self.ricks.len() {
            self.saved_index = 0;
        }
        assert(self.saved_index == i0);
        assert(self.lines() == l0);
        let mut s = String::new();
        push_str(&mut s, "🎶  *");
        push_str(&mut s, self.ricks[self.saved_index].as_str());
        push_str(&mut s, "*  🎶");
        assert(string_views(self.ricks@)[self.saved_index as int] == self.ricks@[self.saved_index as int]@);
        assert(s@ =~= "🎶  *"@ + string_views(self.ricks@)[self.saved_index as int] + "*  🎶"@);
        self.saved_index = self.saved_index + 1;
        s
    }
}

/// From a fresh start, call `k` (counting from 0) sings line `k % len`: the
/// lyrics repeat with period `len`.
pub proof fn law_sing_cycles(len: nat, k: nat)
    requires
        len > 0,
    ensures
        sung_at(saved_after(0, len, k), len) == k % len,
        k > 0 ==> saved_after(0, len, k) == (k - 1) as nat % len + 1,
    decreases k,
{
    if k == 0 {
        assert(0nat % len == 0) by (nonlinear_arith) requires len > 0;
    }
    if k > 0 {
        law_sing_cycles(len, (k - 1) as nat);
        let j = (k - 1) as nat;
        assert(saved_after(0, len, k) == sung_at(saved_after(0, len, j), len) + 1);
        assert(sung_at(saved_after(0, len, j), len) == j % len);
        assert(j % len < len) by (nonlinear_arith) requires len > 0;
        let sk = saved_after(0, len, k);
        assert(sk == j % len + 1);
        if j % len + 1 == len {
            assert(k % len == 0) by (nonlinear_arith) requires k == j + 1, j % len + 1 == len, len > 0;
            assert(sung_at(sk, len) == 0);
        } else {
            assert(k % len == j % len + 1) by (nonlinear_arith) requires k == j + 1, j % len + 1 < len, len > 0;
            assert(sung_at(sk, len) == sk);
        }
    }
}

/// From a fresh start, the calls of [`Singer::sing_to_me`] (counted from 0) sing
/// line `j % len` at call `j`: the lyrics repeat, calls `len` apart giving the
/// same text. `states` are the singer before and after each call, `outs` what
/// each call returned.
pub proof fn law_sing_calls(states: Seq<Singer>, outs: Seq<Seq<char>>)
    requires
        states.len() == outs.len() + 1,
        states[0].wf(),
        states[0].saved() == 0,
        states[0].lines().len() > 0,
        forall|j: int| 0 <= j < outs.len() ==> sing_step(#[trigger] states[j], states[j + 1], outs[j]),
    ensures
        forall|j: int| 0 <= j < outs.len() ==> #[trigger] outs[j] == sung_line(states[0].lines()[j % states[0].lines().len() as int]),
{
    let lines = states[0].lines();
    let len = lines.len();
    assert forall|j: int| 0 <= j < outs.len() implies #[trigger] outs[j] == sung_line(lines[j % len as int]) by {
        lemma_states_follow(states, outs, j);
        assert(sing_step(states[j], states[j + 1], outs[j]));
        law_sing_cycles(len, j as nat);
    }
}

/// Before call `j` the singer holds the same lines, saved at `saved_after(0, len, j)`.
pub proof fn lemma_states_follow(states: Seq<Singer>, outs: Seq<Seq<char>>, j: int)
    requires
        states.len() == outs.len() + 1,
        states[0].saved() == 0,
        forall|i: int| 0 <= i < outs.len() ==> sing_step(#[trigger] states[i], states[i + 1], outs[i]),
        0 <= j <= outs.len(),
    ensures
        states[j].lines() == states[0].lines(),
        states[j].saved() == saved_after(0, states[0].lines().len(), j as nat),
    decreases j,
{
    if j > 0 {
        lemma_states_follow(states, outs, j - 1);
        assert(sing_step(states[j - 1], states[j], outs[j - 1]));
    }
}

} // verus!

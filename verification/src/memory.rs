//! Long-term memory: the messages addressed to the bot wait in a bounded queue
//! until they are folded by the model into a digest, which the bot keeps and is
//! given back in its prompts.

use vstd::prelude::*;
use crate::chat::keep_last;
use crate::text::{i64_decimal, push_chars, decimal_int, 
    push_str, push_char, str_to_chars, chars_to_string, trim_str, join, join_strings, string_views,
    trim, CharClass,
};

verus! {

/// Fold the pending messages in at once when this many have piled up.
pub const FLUSH_AT_PENDING: usize = 40;
/// Never hold more pending messages than this (the oldest leave first).
pub const MAX_PENDING: usize = 200;
/// Longest digest kept, in characters.
pub const MAX_MEMORY_CHARS: usize = 8000;

/// The queue of (author, content) messages waiting to be folded in, and the
/// digest so far.
pub struct MemoryState {
    pending: Vec<(String, String)>,
    digest: String,
}

/// The (author, content) messages as views.
pub open spec fn interactions_view(v: Seq<(String, String)>) -> Seq<(Seq<char>, Seq<char>)> {
    v.map_values(|m: (String, String)| (m.0@, m.1@))
}

impl View for MemoryState {
    type V = (Seq<(Seq<char>, Seq<char>)>, Seq<char>);

    closed spec fn view(&self) -> (Seq<(Seq<char>, Seq<char>)>, Seq<char>) {
        (interactions_view(self.pending@), self.digest@)
    }
}

/// Copies a list of (author, content) messages.
fn copy_interactions(v: &Vec<(String, String)>) -> (r: Vec<(String, String)>)
    ensures
        interactions_view(r@) == interactions_view(v@),
        r@.len() == v@.len(),
{
    let mut r: Vec<(String, String)> = Vec::new();
    let mut i: usize = 0;
    while i < v.len()
        invariant
            i <= v.len(),
            interactions_view(r@) == interactions_view(v@.take(i as int)),
            r@.len() == i,
        decreases v.len() - i,
    {
        let mut a = String::new();
        push_str(&mut a, v[i].0.as_str());
        let mut b = String::new();
        push_str(&mut b, v[i].1.as_str());
        let ghost before = interactions_view(r@);
        let ghost item = (a@, b@);
        r.push((a, b));
        assert(interactions_view(r@) =~= before.push(item));
        assert(interactions_view(v@.take(i as int + 1)) =~= interactions_view(v@.take(i as int)).push(item));
        i += 1;
    }
    assert(v@.take(v.len() as int) == v@);
    r
}

/// Drops the oldest messages until at most [`MAX_PENDING`] remain.
fn cap_pending(v: Vec<(String, String)>) -> (r: Vec<(String, String)>)
    ensures
        interactions_view(r@) == keep_last(interactions_view(v@), MAX_PENDING as nat),
        r@.len() <= MAX_PENDING,
{
    if v.len() <= MAX_PENDING {
        return v;
    }
    let start = v.len() - MAX_PENDING;
    let mut r: Vec<(String, String)> = Vec::new();
    let mut i: usize = start;
    while i < v.len()
        invariant
            start <= i <= v.len(),
            start == v@.len() - MAX_PENDING,
            interactions_view(r@) == interactions_view(v@).subrange(start as int, i as int),
            r@.len() == i - start,
        decreases v.len() - i,
    {
        let mut a = String::new();
        push_str(&mut a, v[i].0.as_str());
        let mut b = String::new();
        push_str(&mut b, v[i].1.as_str());
        let ghost before = interactions_view(r@);
        let ghost item = (a@, b@);
        r.push((a, b));
        assert(interactions_view(r@) =~= before.push(item));
        assert(interactions_view(v@).subrange(start as int, i as int + 1)
            =~= interactions_view(v@).subrange(start as int, i as int).push(item));
        i += 1;
    }
    assert(interactions_view(v@).subrange(start as int, v@.len() as int) =~= interactions_view(v@).skip(start as int));
    r
}

impl MemoryState {
    #[verifier::type_invariant]
    closed spec fn bounded(self) -> bool {
        self.pending@.len() <= MAX_PENDING
    }

    /// No pending messages, and the digest read back at startup (empty if none).
    pub fn new(digest: &str) -> (r: MemoryState)
        ensures
            r@.0.len() == 0,
            r@.1 == digest@,
    {
        let mut d = String::new();
        push_str(&mut d, digest);
        let r = MemoryState { pending: Vec::new(), digest: d };
        assert(r@.0 =~= Seq::empty());
        r
    }

    /// The current digest, for the conversational prompt.
    pub fn current(&self) -> (r: String)
        ensures
            r@ == self@.1,
    {
        let mut s = String::new();
        push_str(&mut s, self.digest.as_str());
        s
    }

    /// The messages waiting to be folded in, oldest first.
    pub fn pending(&self) -> (r: Vec<(String, String)>)
        ensures
            interactions_view(r@) == self@.0,
            r@.len() <= MAX_PENDING,
    {
        proof { use_type_invariant(self); }
        copy_interactions(&self.pending)
    }

    /// Records a message by `author` (blank messages are skipped), dropping the
    /// oldest beyond [`MAX_PENDING`]; says whether enough have piled up to fold
    /// them in now.
    pub fn record(&mut self, author: &str, content: &str) -> (flush: bool)
        ensures
            trim(content@, CharClass::Whitespace).len() == 0 ==> final(self)@ == old(self)@ && !flush,
            trim(content@, CharClass::Whitespace).len() > 0 ==> {
                &&& final(self)@.0 == keep_last(old(self)@.0.push((author@, content@)), MAX_PENDING as nat)
                &&& final(self)@.1 == old(self)@.1
                &&& flush == (final(self)@.0.len() >= FLUSH_AT_PENDING)
            },
    {
        let t = trim_str(content);
        if t.as_str().is_empty() {
            return false;
        }
        let mut a = String::new();
        push_str(&mut a, author);
        let mut c = String::new();
        push_str(&mut c, content);
        let mut v: Vec<(String, String)> = Vec::new();
        std::mem::swap(&mut v, &mut self.pending);
        let ghost before = interactions_view(v@);
        v.push((a, c));
        assert(interactions_view(v@) =~= before.push((author@, content@)));
        let capped = cap_pending(v);
        self.pending = capped;
        self.pending.len() >= FLUSH_AT_PENDING
    }

    /// Takes every pending message for folding in, oldest first; none when nothing
    /// is pending.
    pub fn take_batch(&mut self) -> (r: Option<Vec<(String, String)>>)
        ensures
            old(self)@.0.len() == 0 ==> r is None && final(self)@ == old(self)@,
            old(self)@.0.len() > 0 ==> r is Some && interactions_view(r->0@) == old(self)@.0
                && final(self)@.0.len() == 0 && final(self)@.1 == old(self)@.1,
    {
        if self.pending.len() == 0 {
            return None;
        }
        let mut v: Vec<(String, String)> = Vec::new();
        std::mem::swap(&mut v, &mut self.pending);
        assert(interactions_view(self.pending@) =~= Seq::empty());
        Some(v)
    }

    /// Puts a batch that could not be folded in back in front of what arrived
    /// since, dropping the oldest beyond [`MAX_PENDING`].
    pub fn requeue(&mut self, batch: Vec<(String, String)>)
        ensures
            final(self)@.0 == keep_last(interactions_view(batch@) + old(self)@.0, MAX_PENDING as nat),
            final(self)@.1 == old(self)@.1,
    {
        let mut v: Vec<(String, String)> = Vec::new();
        std::mem::swap(&mut v, &mut self.pending);
        let mut restored = batch;
        let ghost b = interactions_view(restored@);
        let ghost p = interactions_view(v@);
        let mut i: usize = 0;
        while i < v.len()
            invariant
                i <= v@.len(),
                p == interactions_view(v@),
                interactions_view(restored@) == b + p.take(i as int),
            decreases v.len() - i,
        {
            let mut a = String::new();
            push_str(&mut a, v[i].0.as_str());
            let mut c = String::new();
            push_str(&mut c, v[i].1.as_str());
            let ghost before = interactions_view(restored@);
            let ghost item = (a@, c@);
            restored.push((a, c));
            assert(interactions_view(restored@) =~= before.push(item));
            assert(p.take(i as int + 1) =~= p.take(i as int).push(item));
            i += 1;
        }
        assert(p.take(v@.len() as int) == p);
        self.pending = cap_pending(restored);
    }

    /// Replaces the digest (once the new one has been saved).
    pub fn set_digest(&mut self, digest: &str)
        ensures
            final(self)@.0 == old(self)@.0,
            final(self)@.1 == digest@,
    {
        proof { use_type_invariant(&*self); }
        let mut d = String::new();
        push_str(&mut d, digest);
        self.digest = d;
    }
}

/// The text of a message in the transcript: the content with each newline made a
/// space.
pub open spec fn one_line(s: Seq<char>) -> Seq<char> {
    s.map_values(|c: char| if c == '\n' { ' ' } else { c })
}

/// The transcript the model folds in: one `author: content` line per message.
pub open spec fn transcript_spec(batch: Seq<(Seq<char>, Seq<char>)>) -> Seq<char> {
    join(batch.map_values(|m: (Seq<char>, Seq<char>)| m.0 + ": "@ + one_line(m.1)), "\n"@)
}

/// The transcript of a batch (see [`transcript_spec`]).
pub fn transcript(batch: &Vec<(String, String)>) -> (r: String)
    ensures
        r@ == transcript_spec(interactions_view(batch@)),
{
    let ghost bv = interactions_view(batch@);
    let mut lines: Vec<String> = Vec::new();
    let mut i: usize = 0;
    while i < batch.len()
        invariant
            i <= batch.len(),
            bv == interactions_view(batch@),
            string_views(lines@) == bv.take(i as int).map_values(|m: (Seq<char>, Seq<char>)| m.0 + ": "@ + one_line(m.1)),
        decreases batch.len() - i,
    {
        let mut l = String::new();
        push_str(&mut l, batch[i].0.as_str());
        push_str(&mut l, ": ");
        let v = str_to_chars(batch[i].1.as_str());
        let ghost head = l@;
        let mut k: usize = 0;
        while k < v.len()
            invariant
                k <= v@.len(),
                l@ == head + one_line(v@.take(k as int)),
            decreases v.len() - k,
        {
            if v[k] == '\n' {
                push_char(&mut l, ' ');
            } else {
                push_char(&mut l, v[k]);
            }
            assert(one_line(v@.take(k as int + 1)) =~= one_line(v@.take(k as int)).push(if v@[k as int] == '\n' { ' ' } else { v@[k as int] }));
            k += 1;
        }
        assert(v@.take(v@.len() as int) == v@);
        let ghost before = string_views(lines@);
        let ghost lv = l@;
        lines.push(l);
        assert(string_views(lines@) =~= before.push(lv));
        assert(bv.take(i as int + 1).map_values(|m: (Seq<char>, Seq<char>)| m.0 + ": "@ + one_line(m.1))
            =~= bv.take(i as int).map_values(|m: (Seq<char>, Seq<char>)| m.0 + ": "@ + one_line(m.1)).push(lv));
        i += 1;
    }
    assert(bv.take(batch.len() as int) == bv);
    join_strings(&lines, "\n")
}

/// The digest as kept: the model's reply trimmed and cut to
/// [`MAX_MEMORY_CHARS`] characters.
pub open spec fn digest_spec(updated: Seq<char>) -> Seq<char> {
    let t = trim(updated, CharClass::Whitespace);
    if t.len() > MAX_MEMORY_CHARS { t.take(MAX_MEMORY_CHARS as int) } else { t }
}

/// The digest to keep from the model's reply (see [`digest_spec`]).
pub fn prepare_digest(updated: &str) -> (r: String)
    ensures
        r@ == digest_spec(updated@),
        r@.len() <= MAX_MEMORY_CHARS,
{
    let t = trim_str(updated);
    let v = str_to_chars(t.as_str());
    if v.len() > MAX_MEMORY_CHARS {
        let mut w: Vec<char> = Vec::new();
        let mut i: usize = 0;
        while i < MAX_MEMORY_CHARS
            invariant
                i <= MAX_MEMORY_CHARS < v@.len(),
                w@ == v@.take(i as int),
            decreases MAX_MEMORY_CHARS - i,
        {
            w.push(v[i]);
            assert(v@.take(i as int + 1) == v@.take(i as int).push(v@[i as int]));
            i += 1;
        }
        chars_to_string(w.as_slice())
    } else {
        t
    }
}

/// A batch taken for folding in and put back on failure, with nothing recorded in
/// between, leaves the queue as it was.
pub proof fn law_requeue_restores(pending: Seq<(Seq<char>, Seq<char>)>)
    requires
        pending.len() <= MAX_PENDING,
    ensures
        keep_last(pending + Seq::<(Seq<char>, Seq<char>)>::empty(), MAX_PENDING as nat) == pending,
{
    assert(pending + Seq::<(Seq<char>, Seq<char>)>::empty() =~= pending);
}

/// The queue never holds more than [`MAX_PENDING`] messages, and a recorded message
/// is the newest one held.
pub proof fn law_record_bounded(pending: Seq<(Seq<char>, Seq<char>)>, m: (Seq<char>, Seq<char>))
    ensures
        keep_last(pending.push(m), MAX_PENDING as nat).len() <= MAX_PENDING,
        keep_last(pending.push(m), MAX_PENDING as nat).last() == m,
{
}

// ---------------------------------------------------------------------------
// Folding in the saved quotes
// ---------------------------------------------------------------------------

/// Saved quotes folded into memory per summarization.
pub const BACKFILL_CHUNK: usize = 30;

/// The name a quote is filed under: the author's display name, or `user <id>`
/// when it could not be found.
pub open spec fn author_name(names: Seq<(i64, Seq<char>)>, uid: i64) -> Seq<char>
    decreases names.len(),
{
    if names.len() == 0 {
        "user "@ + decimal_int(uid as int)
    } else if names[0].0 == uid {
        names[0].1
    } else {
        author_name(names.drop_first(), uid)
    }
}

pub open spec fn names_view(names: Seq<(i64, String)>) -> Seq<(i64, Seq<char>)> {
    names.map_values(|n: (i64, String)| (n.0, n.1@))
}

/// The name a quote by `uid` is filed under (see [`author_name`]).
pub fn quote_author_name(names: &Vec<(i64, String)>, uid: i64) -> (r: String)
    ensures
        r@ == author_name(names_view(names@), uid),
{
    let ghost nv = names_view(names@);
    let mut i: usize = 0;
    assert(nv.skip(0) == nv);
    while i < names.len()
        invariant
            i <= names@.len(),
            nv == names_view(names@),
            author_name(nv, uid) == author_name(nv.skip(i as int), uid),
        decreases names.len() - i,
    {
        assert(nv.skip(i as int).drop_first() == nv.skip(i as int + 1));
        if names[i].0 == uid {
            let mut s = String::new();
            push_str(&mut s, names[i].1.as_str());
            return s;
        }
        i += 1;
    }
    let mut s = String::new();
    push_str(&mut s, "user ");
    let d = i64_decimal(uid);
    push_chars(&mut s, d.as_slice());
    s
}

/// The saved quotes (author, text), oldest first, cut into chunks of
/// [`BACKFILL_CHUNK`], each quote with the name it is filed under.
pub fn backfill_chunks(rows: &Vec<(i64, String)>, names: &Vec<(i64, String)>) -> (r: Vec<Vec<(i64, String, String)>>)
    ensures
        r@.len() == (rows@.len() + BACKFILL_CHUNK - 1) / (BACKFILL_CHUNK as int),
        forall|c: int, k: int| #![trigger r@[c]@[k]] 0 <= c < r@.len() && 0 <= k < r@[c]@.len() ==> {
            let q = c * BACKFILL_CHUNK + k;
            &&& q < rows@.len()
            &&& r@[c]@[k].0 == rows@[q].0
            &&& r@[c]@[k].1@ == author_name(names_view(names@), rows@[q].0)
            &&& r@[c]@[k].2@ == rows@[q].1@
        },
        forall|c: int| 0 <= c < r@.len() ==> (#[trigger] r@[c])@.len() == (if (c + 1) * BACKFILL_CHUNK <= rows@.len() { BACKFILL_CHUNK as int } else { rows@.len() - c * BACKFILL_CHUNK }),
{
    let mut r: Vec<Vec<(i64, String, String)>> = Vec::new();
    let mut start: usize = 0;
    while start < rows.len()
        invariant
            start <= rows@.len(),
            (r@.len() * BACKFILL_CHUNK <= rows@.len() && start == r@.len() * BACKFILL_CHUNK)
                || (start == rows@.len() && rows@.len() < r@.len() * BACKFILL_CHUNK < rows@.len() + BACKFILL_CHUNK),
            forall|c: int, k: int| #![trigger r@[c]@[k]] 0 <= c < r@.len() && 0 <= k < r@[c]@.len() ==> {
                let q = c * BACKFILL_CHUNK + k;
                &&& q < rows@.len()
                &&& r@[c]@[k].0 == rows@[q].0
                &&& r@[c]@[k].1@ == author_name(names_view(names@), rows@[q].0)
                &&& r@[c]@[k].2@ == rows@[q].1@
            },
            forall|c: int| 0 <= c < r@.len() ==> (#[trigger] r@[c])@.len() == (if (c + 1) * BACKFILL_CHUNK <= rows@.len() { BACKFILL_CHUNK as int } else { rows@.len() - c * BACKFILL_CHUNK }),
        decreases rows.len() - start,
    {
        let end = if rows.len() - start < BACKFILL_CHUNK { rows.len() } else { start + BACKFILL_CHUNK };
        let mut chunk: Vec<(i64, String, String)> = Vec::new();
        let mut k: usize = start;
        while k < end
            invariant
                start <= k <= end <= rows@.len(),
                chunk@.len() == k - start,
                forall|j: int| #![trigger chunk@[j]] 0 <= j < chunk@.len() ==> {
                    &&& chunk@[j].0 == rows@[start + j].0
                    &&& chunk@[j].1@ == author_name(names_view(names@), rows@[start + j].0)
                    &&& chunk@[j].2@ == rows@[start + j].1@
                },
            decreases end - k,
        {
            let uid = rows[k].0;
            let name = quote_author_name(names, uid);
            let mut text = String::new();
            push_str(&mut text, rows[k].1.as_str());
            chunk.push((uid, name, text));
            k += 1;
        }
        let ghost c = r@.len();
        r.push(chunk);
        assert(r@[c as int]@.len() == end - start);
        start = end;

    }
    proof {
        let n = r@.len() as int;
        let len = rows@.len() as int;
        if n * 30 <= len {
            assert(n * 30 == len);
            assert(n == (len + 29) / 30) by (nonlinear_arith)
                requires n * 30 == len;
        } else {
            assert(n == (len + 29) / 30) by (nonlinear_arith)
                requires len < n * 30 < len + 30;
        }
    }
    r
}

} // verus!

//! The channel leaderboard: per-user message and word counts over the recent
//! history, most active first, and the lines that report them.

use vstd::prelude::*;
use crate::lexical_analysis::UserInfo;
use crate::text::{string_views, char_views, push_str, push_chars, str_to_chars, split_chars, split_on, i64_decimal, decimal_int, str_eq};

verus! {

/// A user's tally: (name, messages, words).
pub type Tally = (Seq<char>, int, int);

/// Where `name` stands in the tally, or -1.
pub open spec fn name_index(t: Seq<Tally>, name: Seq<char>) -> int
    decreases t.len(),
{
    if t.len() == 0 {
        -1
    } else if name_index(t.drop_last(), name) >= 0 {
        name_index(t.drop_last(), name)
    } else if t.last().0 == name {
        t.len() - 1
    } else {
        -1
    }
}

/// The words of a message, counted as Python's `len(content.split(" "))` does.
pub open spec fn word_count(content: Seq<char>) -> int {
    split_on(content, ' ').len() as int
}

/// The tally of the (author, content) history, users in the order they first
/// appear.
pub open spec fn tally_spec(h: Seq<(Seq<char>, Seq<char>)>) -> Seq<Tally>
    decreases h.len(),
{
    if h.len() == 0 {
        Seq::empty()
    } else {
        let t = tally_spec(h.drop_last());
        let (name, content) = h.last();
        let k = name_index(t, name);
        if k >= 0 {
            t.update(k, (name, t[k].1 + 1, t[k].2 + word_count(content)))
        } else {
            t.push((name, 1, word_count(content)))
        }
    }
}

/// `x` put into `s` (sorted by messages, most first) after every entry with at
/// least as many messages.
pub open spec fn insert_desc(s: Seq<Tally>, x: Tally) -> Seq<Tally>
    decreases s.len(),
{
    if s.len() == 0 {
        seq![x]
    } else if s.last().1 >= x.1 {
        s.push(x)
    } else {
        insert_desc(s.drop_last(), x).push(s.last())
    }
}

/// `s` stably sorted by messages, most first.
pub open spec fn sort_desc(s: Seq<Tally>) -> Seq<Tally>
    decreases s.len(),
{
    if s.len() == 0 { Seq::empty() } else { insert_desc(sort_desc(s.drop_last()), s.last()) }
}

/// The words of all the messages.
pub open spec fn total_words(h: Seq<(Seq<char>, Seq<char>)>) -> int
    decreases h.len(),
{
    if h.len() == 0 { 0 } else { total_words(h.drop_last()) + word_count(h.last().1) }
}

pub open spec fn user_view(u: UserInfo) -> Tally {
    (u.name@, u.message_count as int, u.word_count as int)
}

pub open spec fn users_view(v: Seq<UserInfo>) -> Seq<Tally> {
    v.map_values(|u: UserInfo| user_view(u))
}

pub open spec fn history_view(h: Seq<(String, String)>) -> Seq<(Seq<char>, Seq<char>)> {
    h.map_values(|m: (String, String)| (m.0@, m.1@))
}

proof fn lemma_name_index(t: Seq<Tally>, name: Seq<char>)
    ensures
        -1 <= name_index(t, name) < t.len(),
        name_index(t, name) >= 0 ==> t[name_index(t, name)].0 == name,
        name_index(t, name) < 0 ==> forall|k: int| 0 <= k < t.len() ==> t[k].0 != name,
        forall|k: int| 0 <= k < name_index(t, name) ==> t[k].0 != name,
    decreases t.len(),
{
    if t.len() > 0 {
        lemma_name_index(t.drop_last(), name);
        assert forall|k: int| 0 <= k < t.len() - 1 implies t[k] == t.drop_last()[k] by {}
    }
}

proof fn lemma_total_words_nonneg(h: Seq<(Seq<char>, Seq<char>)>)
    ensures
        total_words(h) >= 0,
    decreases h.len(),
{
    if h.len() > 0 {
        lemma_total_words_nonneg(h.drop_last());
    }
}

/// Finds `name` in the tally built so far.
fn find_user(users: &Vec<UserInfo>, name: &str) -> (r: Option<usize>)
    ensures
        match r {
            Some(k) => k as int == name_index(users_view(users@), name@) && k < users@.len(),
            None => name_index(users_view(users@), name@) < 0,
        },
{
    let ghost t = users_view(users@);
    proof { lemma_name_index(t, name@); }
    let mut i: usize = 0;
    while i < users.len()
        invariant
            i <= users@.len(),
            t == users_view(users@),
            forall|k: int| 0 <= k < i ==> t[k].0 != name@,
            -1 <= name_index(t, name@) < t.len(),
            name_index(t, name@) >= 0 ==> t[name_index(t, name@)].0 == name@,
            name_index(t, name@) < 0 ==> forall|k: int| 0 <= k < t.len() ==> t[k].0 != name@,
            forall|k: int| 0 <= k < name_index(t, name@) ==> t[k].0 != name@,
        decreases users.len() - i,
    {
        if str_eq(users[i].name.as_str(), name) {
            assert(t[i as int].0 == name@);
            return Some(i);
        }
        i += 1;
    }
    None
}

/// The tally of the history (see [`tally_spec`]).
pub fn tally_users(history: &Vec<(String, String)>) -> (r: Vec<UserInfo>)
    requires
        history@.len() < i64::MAX,
        total_words(history_view(history@)) < i64::MAX,
    ensures
        users_view(r@) == tally_spec(history_view(history@)),
{
    let ghost hv = history_view(history@);
    let mut users: Vec<UserInfo> = Vec::new();
    let mut i: usize = 0;
    while i < history.len()
        invariant
            i <= history@.len(),
            hv == history_view(history@),
            history@.len() < i64::MAX,
            total_words(hv) < i64::MAX,
            users_view(users@) == tally_spec(hv.take(i as int)),
            forall|k: int| 0 <= k < users@.len() ==> 0 < (#[trigger] users@[k]).message_count <= i
                && 0 <= users@[k].word_count <= total_words(hv.take(i as int)),
        decreases history.len() - i,
    {
        assert(hv.take(i as int + 1).drop_last() == hv.take(i as int));
        assert(hv.take(i as int + 1).last() == (history@[i as int].0@, history@[i as int].1@));
        proof {
            lemma_total_words_prefix(hv, i as int + 1);
            lemma_total_words_nonneg(hv.take(i as int));
        }
        let v = str_to_chars(history[i].1.as_str());
        let words = split_chars(v.as_slice(), ' ');
        let wc = words.len() as i64;
        let ghost before = users_view(users@);
        assert(char_views(words@).len() == words@.len());
        assert(wc == word_count(history@[i as int].1@));
        proof { lemma_name_index(before, history@[i as int].0@); }
        match find_user(&users, history[i].0.as_str()) {
            Some(k) => {
                assert(0 < users@[k as int].message_count <= i);
                let mc = users[k].message_count + 1;
                let w = users[k].word_count + wc;
                let mut n = String::new();
                push_str(&mut n, users[k].name.as_str());
                users.set(k, UserInfo { name: n, message_count: mc, word_count: w });
                assert(users_view(users@) =~= before.update(k as int, (history@[i as int].0@, before[k as int].1 + 1, before[k as int].2 + word_count(history@[i as int].1@))));
            },
            None => {
                let mut n = String::new();
                push_str(&mut n, history[i].0.as_str());
                users.push(UserInfo { name: n, message_count: 1, word_count: wc });
                assert(users_view(users@) =~= before.push((history@[i as int].0@, 1, word_count(history@[i as int].1@))));
            },
        }
        i += 1;
    }
    assert(hv.take(history@.len() as int) == hv);
    users
}

/// The words of a prefix are no more than those of the whole.
proof fn lemma_total_words_prefix(h: Seq<(Seq<char>, Seq<char>)>, i: int)
    requires
        0 <= i <= h.len(),
    ensures
        total_words(h.take(i)) <= total_words(h),
    decreases h.len() - i,
{
    if i < h.len() {
        lemma_total_words_prefix(h, i + 1);
        assert(h.take(i + 1).drop_last() == h.take(i));
        assert(word_count(h[i].1) >= 0);
    } else {
        assert(h.take(i) == h);
    }
}

/// `insert_desc(s, x)` puts `x` at position `j` when the entries from `j` on have
/// fewer messages than `x` and the one before has at least as many.
proof fn lemma_insert_desc(s: Seq<Tally>, x: Tally, j: int)
    requires
        0 <= j <= s.len(),
        forall|k: int| j <= k < s.len() ==> s[k].1 < x.1,
        j == 0 || s[j - 1].1 >= x.1,
    ensures
        insert_desc(s, x) == s.take(j).push(x) + s.skip(j),
    decreases s.len(),
{
    if s.len() == 0 {
        assert(s.take(j).push(x) + s.skip(j) =~= seq![x]);
    } else if j == s.len() {
        assert(s.take(j).push(x) + s.skip(j) =~= s.push(x));
    } else {
        lemma_insert_desc(s.drop_last(), x, j);
        assert(s.drop_last().take(j).push(x) + s.drop_last().skip(j) + seq![s.last()] =~= s.take(j).push(x) + s.skip(j));
    }
}

/// Sorts the users by messages, most first, keeping the order of equals.
pub fn sort_users(users: Vec<UserInfo>) -> (r: Vec<UserInfo>)
    ensures
        users_view(r@) == sort_desc(users_view(users@)),
{
    let ghost uv = users_view(users@);
    let mut sorted: Vec<UserInfo> = Vec::new();
    let mut src = users;
    let n = src.len();
    let mut i: usize = 0;
    while src.len() > 0
        invariant
            i + src@.len() == n,
            n == uv.len(),
            users_view(src@) == uv.skip(i as int),
            users_view(sorted@) == sort_desc(uv.take(i as int)),
        decreases src.len(),
    {
        let ghost before_src = users_view(src@);
        let x = src.remove(0);
        assert(user_view(x) == before_src[0]);
        assert(users_view(src@) =~= before_src.drop_first());
        assert(uv.skip(i as int).drop_first() =~= uv.skip(i as int + 1));
        assert(uv.take(i as int + 1).drop_last() == uv.take(i as int));
        assert(uv.take(i as int + 1).last() == uv[i as int]);
        assert(uv[i as int] == uv.skip(i as int)[0]);
        let ghost s = users_view(sorted@);
        let mut j: usize = sorted.len();
        while j > 0 && sorted[j - 1].message_count < x.message_count
            invariant
                j <= sorted@.len(),
                s == users_view(sorted@),
                forall|k: int| j <= k < sorted@.len() ==> s[k].1 < x.message_count,
            decreases j,
        {
            j -= 1;
        }
        proof { lemma_insert_desc(s, user_view(x), j as int); }
        sorted.insert(j, x);
        assert(users_view(sorted@) =~= s.take(j as int).push(user_view(x)) + s.skip(j as int));
        i += 1;
    }
    assert(uv.take(n as int) == uv);
    sorted
}

/// The users of the history, most active first (ties in order of first
/// appearance).
pub fn leaderboard_users(history: &Vec<(String, String)>) -> (r: Vec<UserInfo>)
    requires
        history@.len() < i64::MAX,
        total_words(history_view(history@)) < i64::MAX,
    ensures
        users_view(r@) == sort_desc(tally_spec(history_view(history@))),
{
    let t = tally_users(history);
    sort_users(t)
}

/// The leaderboard's title line.
pub open spec fn title_line(channel: Option<Seq<char>>) -> Seq<char> {
    "**Message stats for \""@ + (match channel { Some(c) => c, None => "this channel"@ }) + "\"**"@
}

/// A user's line: messages, average words (rounded down), and brain estimate.
pub open spec fn user_line(u: Tally, grade: Seq<char>) -> Seq<char> {
    "> *"@ + u.0 + "*: **"@ + decimal_int(u.1) + "** messages, avg length: **"@ + decimal_int(u.2 / u.1)
        + "** words, :brain: estimate: **"@ + grade + "**"@
}

/// The leaderboard: the title, then a line per user with the grade given for them.
pub fn leaderboard_lines(channel: Option<&str>, users: &Vec<UserInfo>, grades: &Vec<String>) -> (r: Vec<String>)
    requires
        grades@.len() == users@.len(),
        forall|k: int| 0 <= k < users@.len() ==> (#[trigger] users@[k]).message_count > 0 && users@[k].word_count >= 0,
    ensures
        string_views(r@) == seq![title_line(match channel { Some(c) => Some(c@), None => None })]
            + users_view(users@).zip_with(string_views(grades@)).map_values(|p: (Tally, Seq<char>)| user_line(p.0, p.1)),
{
    let ghost uv = users_view(users@);
    let ghost gv = string_views(grades@);
    let mut r: Vec<String> = Vec::new();
    let mut t = String::new();
    push_str(&mut t, "**Message stats for \"");
    match channel {
        Some(c) => push_str(&mut t, c),
        None => push_str(&mut t, "this channel"),
    }
    push_str(&mut t, "\"**");
    r.push(t);
    let ghost title = r@[0]@;
    let mut i: usize = 0;
    while i < users.len()
        invariant
            i <= users@.len(),
            grades@.len() == users@.len(),
            uv == users_view(users@),
            gv == string_views(grades@),
            forall|k: int| 0 <= k < users@.len() ==> (#[trigger] users@[k]).message_count > 0 && users@[k].word_count >= 0,
            r@.len() == i + 1,
            string_views(r@) == seq![title] + uv.zip_with(gv).take(i as int).map_values(|p: (Tally, Seq<char>)| user_line(p.0, p.1)),
        decreases users.len() - i,
    {
        let u = &users[i];
        let mut l = String::new();
        push_str(&mut l, "> *");
        push_str(&mut l, u.name.as_str());
        push_str(&mut l, "*: **");
        let m = i64_decimal(u.message_count);
        push_chars(&mut l, m.as_slice());
        push_str(&mut l, "** messages, avg length: **");
        let a = i64_decimal(u.word_count / u.message_count);
        push_chars(&mut l, a.as_slice());
        push_str(&mut l, "** words, :brain: estimate: **");
        push_str(&mut l, grades[i].as_str());
        push_str(&mut l, "**");
        let ghost before = string_views(r@);
        let ghost lv = l@;
        assert(uv.zip_with(gv)[i as int] == (uv[i as int], gv[i as int]));
        assert(lv == user_line(uv[i as int], gv[i as int]));
        r.push(l);
        assert(string_views(r@) =~= before.push(lv));
        assert(uv.zip_with(gv).take(i as int + 1).map_values(|p: (Tally, Seq<char>)| user_line(p.0, p.1))
            =~= uv.zip_with(gv).take(i as int).map_values(|p: (Tally, Seq<char>)| user_line(p.0, p.1)).push(lv));
        i += 1;
    }
    assert(uv.zip_with(gv).take(users@.len() as int) =~= uv.zip_with(gv));
    r
}

/// Whether the tallies are in order of messages, most first.
pub open spec fn sorted_desc(s: Seq<Tally>) -> bool {
    forall|i: int, j: int| 0 <= i < j < s.len() ==> s[i].1 >= s[j].1
}

proof fn lemma_insert_desc_sorted(s: Seq<Tally>, x: Tally)
    requires
        sorted_desc(s),
    ensures
        sorted_desc(insert_desc(s, x)),
        insert_desc(s, x).len() == s.len() + 1,
        insert_desc(s, x).to_multiset() == s.to_multiset().insert(x),
        forall|k: int| 0 <= k < insert_desc(s, x).len() ==> #[trigger] insert_desc(s, x)[k] == x || s.contains(insert_desc(s, x)[k]),
    decreases s.len(),
{
    broadcast use vstd::multiset::group_multiset_axioms, vstd::seq_lib::group_seq_properties;
    if s.len() == 0 {
        assert(seq![x].to_multiset() =~= Seq::<Tally>::empty().to_multiset().insert(x));
        assert(insert_desc(s, x) == seq![x]);
    } else if s.last().1 >= x.1 {
        assert(s.push(x).to_multiset() =~= s.to_multiset().insert(x));
        assert forall|k: int| 0 <= k < s.len() + 1 implies #[trigger] s.push(x)[k] == x || s.contains(s.push(x)[k]) by {
            if k < s.len() { assert(s.push(x)[k] == s[k]); }
        }
    } else {
        let t = s.drop_last();
        assert(sorted_desc(t));
        lemma_insert_desc_sorted(t, x);
        let u = insert_desc(t, x);
        let w = u.push(s.last());
        assert(insert_desc(s, x) == w);
        assert(s =~= t.push(s.last()));
        assert(w.to_multiset() =~= u.to_multiset().insert(s.last()));
        assert(s.to_multiset() =~= t.to_multiset().insert(s.last()));
        assert(w.to_multiset() =~= s.to_multiset().insert(x));
        assert forall|k: int| 0 <= k < w.len() implies #[trigger] w[k] == x || s.contains(w[k]) by {
            if k < u.len() {
                assert(w[k] == u[k]);
                if u[k] != x {
                    assert(t.contains(u[k]));
                    let m = choose|m: int| 0 <= m < t.len() && t[m] == u[k];
                    assert(s[m] == t[m]);
                }
            } else {
                assert(s[s.len() - 1] == w[k]);
            }
        }
        assert forall|i: int, j: int| 0 <= i < j < w.len() implies w[i].1 >= w[j].1 by {
            assert(w[i] == u[i]);
            if j < u.len() {
                assert(w[j] == u[j]);
            } else {
                assert(w[j] == s.last());
                if u[i] != x {
                    assert(t.contains(u[i]));
                    let m = choose|m: int| 0 <= m < t.len() && t[m] == u[i];
                    assert(s[m] == t[m]);
                    assert(s[m].1 >= s[s.len() - 1].1);
                }
            }
        }
    }
}

/// The leaderboard is in order of messages, most first, and holds the tallies it
/// was given, rearranged.
pub proof fn law_sorted_leaderboard(s: Seq<Tally>)
    ensures
        sorted_desc(sort_desc(s)),
        sort_desc(s).to_multiset() == s.to_multiset(),
    decreases s.len(),
{
    broadcast use vstd::multiset::group_multiset_axioms, vstd::seq_lib::group_seq_properties;
    if s.len() == 0 {
        assert(sort_desc(s).to_multiset() =~= s.to_multiset());
    } else {
        law_sorted_leaderboard(s.drop_last());
        lemma_insert_desc_sorted(sort_desc(s.drop_last()), s.last());
        assert(s =~= s.drop_last().push(s.last()));
        assert(s.to_multiset() =~= s.drop_last().to_multiset().insert(s.last()));
    }
}

} // verus!

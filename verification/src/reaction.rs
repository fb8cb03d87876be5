//! Keyword reactions: a list of emoji to add when a message matches.

use vstd::prelude::*;
use crate::text::{seq_contains, str_contains, string_views};

verus! {

/// `listify(value)`: the value as a one-element list.
pub fn listify<T>(value: T) -> (r: Vec<T>)
    ensures
        r@ == seq![value],
{
    let mut v = Vec::new();
    v.push(value);
    v
}

/// Owned copies of the given strings.
pub fn owned_all(items: Vec<&str>) -> (r: Vec<String>)
    ensures
        string_views(r@) == items@.map_values(|s: &str| s@),
{
    let mut r: Vec<String> = Vec::new();
    let mut i: usize = 0;
    while i < items.len()
        invariant
            i <= items.len(),
            string_views(r@) == items@.map_values(|s: &str| s@).take(i as int),
        decreases items.len() - i,
    {
        let s = items[i].to_owned();
        let ghost b = string_views(r@);
        r.push(s);
        assert(string_views(r@) =~= b.push(items@[i as int]@));
        assert(items@.map_values(|s: &str| s@).take(i as int + 1) =~= items@.map_values(|s: &str| s@).take(i as int).push(items@[i as int]@));
        i += 1;
    }
    assert(items@.map_values(|s: &str| s@).take(items.len() as int) == items@.map_values(|s: &str| s@));
    r
}

/// Appends a copy of each of `reactions` to `target`.
fn push_all(reactions: &Vec<String>, target: &mut Vec<String>)
    ensures
        string_views(final(target)@) == string_views(old(target)@) + string_views(reactions@),
{
    let mut i: usize = 0;
    let ghost t0 = string_views(target@);
    while i < reactions.len()
        invariant
            i <= reactions.len(),
            string_views(target@) == t0 + string_views(reactions@).take(i as int),
        decreases reactions.len() - i,
    {
        let s = reactions[i].as_str().to_owned();
        let ghost b = string_views(target@);
        target.push(s);
        assert(string_views(target@) =~= b.push(reactions@[i as int]@));
        assert(string_views(reactions@).take(i as int + 1) =~= string_views(reactions@).take(i as int).push(reactions@[i as int]@));
        i += 1;
    }
    assert(string_views(reactions@).take(reactions.len() as int) == string_views(reactions@));
}

/// Reactions triggered by keywords.
pub struct Reaction {
    pub keywords: Vec<String>,
    pub reactions: Vec<String>,
}

impl Reaction {
    pub fn new(keywords: Vec<&str>, reactions: Vec<&str>) -> (r: Reaction)
        ensures
            string_views(r.keywords@) == keywords@.map_values(|s: &str| s@),
            string_views(r.reactions@) == reactions@.map_values(|s: &str| s@),
    {
        Reaction { keywords: owned_all(keywords), reactions: owned_all(reactions) }
    }

    /// Whether any keyword occurs in `content`.
    pub fn matches(&self, content: &str) -> (r: bool)
        ensures
            r == exists|i: int| 0 <= i < self.keywords@.len() && seq_contains(content@, (#[trigger] self.keywords@[i])@),
    {
        let mut i: usize = 0;
        while i < self.keywords.len()
            invariant
                i <= self.keywords@.len(),
                forall|k: int| 0 <= k < i ==> !seq_contains(content@, (#[trigger] self.keywords@[k])@),
            decreases self.keywords.len() - i,
        {
            if str_contains(content, self.keywords[i].as_str()) {
                return true;
            }
            i += 1;
        }
        false
    }

    /// Adds this reaction's emoji to `target`, in order.
    pub fn apply_to(&self, target: &mut Vec<String>)
        ensures
            string_views(final(target)@) == string_views(old(target)@) + string_views(self.reactions@),
    {
        push_all(&self.reactions, target);
    }
}

/// Reactions triggered by a predicate on the message text.
pub struct MatchingReaction<F: Fn(&str) -> bool> {
    pub matcher: F,
    pub reactions: Vec<String>,
}

impl<F: Fn(&str) -> bool> MatchingReaction<F> {
    pub fn new(matcher: F, reactions: Vec<&str>) -> (r: MatchingReaction<F>)
        ensures
            r.matcher == matcher,
            string_views(r.reactions@) == reactions@.map_values(|s: &str| s@),
    {
        MatchingReaction { matcher, reactions: owned_all(reactions) }
    }

    /// The predicate's verdict on `content`.
    pub fn matches(&self, content: &str) -> (r: bool)
        requires
            call_requires(self.matcher, (content,)),
        ensures
            call_ensures(self.matcher, (content,), r),
    {
        (self.matcher)(content)
    }

    /// Adds this reaction's emoji to `target`, in order.
    pub fn apply_to(&self, target: &mut Vec<String>)
        ensures
            string_views(final(target)@) == string_views(old(target)@) + string_views(self.reactions@),
    {
        push_all(&self.reactions, target);
    }
}

} // verus!

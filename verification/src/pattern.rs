//! Regular-expression matches, from the regex crate.

use vstd::prelude::*;

verus! {

/// The texts of the first three capture groups in each match of `pattern` in
/// `text`, left to right (a group that did not take part gives the empty text);
/// `None` when the regex crate rejects the pattern.
pub uninterp spec fn regex_captures(pattern: Seq<char>, text: Seq<char>) -> Option<Seq<(Seq<char>, Seq<char>, Seq<char>)>>;

/// regex `Regex::new(pattern)` then `captures_iter(text)`: the texts of groups 1
/// to 3 of every match, or `None` when the pattern does not compile. Claims only
/// that the outcome is a function of the pattern and the text (named
/// [`regex_captures`]); the regex semantics are not stated.
#[verifier::external_body]
pub(crate) fn regex_groups(pattern: &str, text: &str) -> (r: Option<Vec<(String, String, String)>>)
    ensures
        r matches Some(v) ==> regex_captures(pattern@, text@) == Some(v@.map_values(|g: (String, String, String)| (g.0@, g.1@, g.2@))),
        r is None ==> regex_captures(pattern@, text@) is None,
{
    let re = match regex::Regex::new(pattern) {
        Ok(re) => re,
        Err(_) => return None,
    };
    let mut out = Vec::new();
    for c in re.captures_iter(text) {
        let g = |i: usize| c.get(i).map_or(String::new(), |m| m.as_str().to_string());
        out.push((g(1), g(2), g(3)));
    }
    Some(out)
}

} // verus!

use wan_party_bot::reaction::{listify, MatchingReaction, Reaction};

#[test]
fn test_the_whole_dang_thing() {
    let mut reactions: Vec<String> = Vec::new();
    let reaction = Reaction::new(vec!["poop"], vec!["💩"]);
    if reaction.matches("poop") {
        reaction.apply_to(&mut reactions);
    }
    assert_eq!(vec!["💩".to_string()], reactions);
}

#[test]
fn test_the_other_whole_dang_thing() {
    let mut reactions: Vec<String> = Vec::new();
    let reaction = MatchingReaction::new(Box::new(|c: &str| c.contains("poop")), vec!["💩"]);
    if reaction.matches("poop") {
        reaction.apply_to(&mut reactions);
    }
    assert_eq!(vec!["💩".to_string()], reactions);
}

#[test]
fn reaction_ignores_text_without_its_keywords() {
    let reaction = Reaction::new(vec!["poop", "dung"], vec!["💩", "🪰"]);
    assert!(!reaction.matches("flowers"));
    assert!(reaction.matches("some dung here"));
    let mut out = vec!["👀".to_string()];
    reaction.apply_to(&mut out);
    assert_eq!(out, vec!["👀".to_string(), "💩".to_string(), "🪰".to_string()]);
}

#[test]
fn listify_wraps_one_value() {
    assert_eq!(listify(7), vec![7]);
}

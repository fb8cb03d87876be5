use wan_party_bot::botself::{bot_id, bot_id_str, bot_mention, set_bot_id, BotSelf};
use wan_party_bot::chat::{
    add_to_context, conversation, conversation_system, extract_text, get_comeback, get_conditional_prompts,
    get_personality, get_random_personality, kindness_system, no_recap_reply, order_channels, person_system,
    personalities, prompt_for, reaction_system, recap_messages, recap_prompt, recap_text, ContentBlock,
    ContextBuffer, PromptKind,
};

#[test]
fn prompts_of_the_day() {
    assert_eq!(get_conditional_prompts("06-13"), "");
    assert!(get_conditional_prompts("04-01").contains("Rick Astley"));
    assert!(get_conditional_prompts("04-20").contains("420"));
    assert!(get_conditional_prompts("04-08").starts_with(" You're obsessed with April 8"));
}

#[test]
fn the_personality_names_the_bot() {
    let mut me = BotSelf::new();
    set_bot_id(&mut me, 42);
    assert_eq!(
        get_personality(&me, "01-01"),
        "Your name is WanBot, aka <@42> and you are a helpful robot in a discord server with a keen sense of humor that does not inhibit your helpfulness "
    );
    assert!(conversation_system(&me, "01-01").ends_with("\n\nresponses absolutely cannot exceed 1800 characters"));
    assert!(reaction_system(&me, "01-01").ends_with("\n\nOnly respond with a single emoji character, nothing else."));
    assert!(kindness_system("04-01").contains("Rick Astley"));
}

#[test]
fn the_first_id_wins() {
    let mut me = BotSelf::new();
    assert_eq!(bot_id(&me), 0);
    set_bot_id(&mut me, 7);
    set_bot_id(&mut me, 9);
    assert_eq!(bot_id(&me), 7);
    assert_eq!(bot_id_str(&me), "7");
    assert_eq!(bot_mention(&me), "<@7>");
}

#[test]
fn comebacks_and_personalities() {
    let options = [
        "that's what she said 😏".to_string(),
        "your mom rocks".to_string(),
        "no you rocks".to_string(),
        "I know you are but what am I?".to_string(),
        "🙄".to_string(),
        "🤣".to_string(),
    ];
    for _ in 0..50 {
        assert!(options.contains(&get_comeback("rocks")));
        assert!(personalities().contains(&get_random_personality()));
    }
    assert_eq!(personalities().len(), 11);
}

#[test]
fn prompts() {
    assert_eq!(prompt_for(PromptKind::Comeback, "hi"), "write a short comeback to hi");
    assert_eq!(prompt_for(PromptKind::Person, "hi"), "respond to someone saying hi");
    assert_eq!(person_system("a pirate"), "You are a pirate");
    assert_eq!(no_recap_reply("Bob"), "I couldn't find any messages from Bob in the past year.");
    assert!(recap_prompt("Bob", "msgs").starts_with("Here is a collection of discord messages from user 'Bob' over"));
    assert!(recap_prompt("Bob", "msgs").ends_with("\n\nMessages:\nmsgs"));
}

#[test]
fn the_context_keeps_the_last_ten() {
    let mut buf = ContextBuffer::new();
    for i in 0..12 {
        add_to_context(&mut buf, "user", &format!("m{i}"));
    }
    let msgs = buf.messages();
    assert_eq!(msgs.len(), 10);
    assert_eq!(msgs[0].1, "m2");
    assert_eq!(msgs[9].1, "m11");
}

#[test]
fn a_conversation_ends_with_the_user_turn() {
    let mut buf = ContextBuffer::new();
    add_to_context(&mut buf, "assistant", "hello");
    let c = conversation(&buf, "what?", Some("earlier"));
    assert_eq!(c.len(), 2);
    assert_eq!(c[0], ("assistant".to_string(), "hello".to_string()));
    assert_eq!(
        c[1],
        ("user".to_string(), "what?\n\n(the previous message is responding to: earlier)".to_string())
    );
    let c = conversation(&buf, "plain", None);
    assert_eq!(c[1].1, "plain");
}

#[test]
fn the_first_text_block_is_the_reply() {
    let blocks = vec![
        ContentBlock { kind: Some("tool_use".to_string()), text: Some("no".to_string()) },
        ContentBlock { kind: Some("text".to_string()), text: Some("yes".to_string()) },
        ContentBlock { kind: Some("text".to_string()), text: Some("later".to_string()) },
    ];
    assert_eq!(extract_text(&blocks), "yes");
    assert_eq!(extract_text(&vec![]), "");
    assert_eq!(extract_text(&vec![ContentBlock { kind: Some("text".to_string()), text: None }]), "");
}

#[test]
fn recap_reads_at_most_the_limit() {
    assert_eq!(recap_text(&vec![]), None);
    assert_eq!(recap_text(&vec!["a".to_string(), "b".to_string()]), Some("a\nb".to_string()));
    let long = vec!["x".repeat(60000), "y".repeat(60000)];
    let t = recap_text(&long).unwrap();
    assert_eq!(t.chars().count(), 100000);
    assert!(t.ends_with('y'));
}

#[test]
fn recap_collects_the_users_messages() {
    let h = vec![(1, "a".to_string()), (2, "b".to_string()), (1, String::new()), (1, "c".to_string())];
    assert_eq!(recap_messages(&h, 1), vec!["a".to_string(), "c".to_string()]);
}

#[test]
fn channels_in_discord_order() {
    assert_eq!(
        order_channels(&vec![(2, 10), (1, 30), (1, 20), (0, 99)]),
        vec![(0, 99), (1, 20), (1, 30), (2, 10)]
    );
}

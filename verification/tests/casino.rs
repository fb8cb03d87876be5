use wan_party_bot::casino::{
    balance_reply, beg_outcome, bet_round, coin_flip, dev_set_reply, has_id, jail_effects, jail_report,
    rob_updates, time_until, yeet_amount, BegOutcome, BetOutcome, JailEffect,
};

fn played(o: BetOutcome) -> (bool, Option<String>, i64, String) {
    match o {
        BetOutcome::Played { new_account, too_high, new_balance, message } => (new_account, too_high, new_balance, message),
        BetOutcome::Refused => panic!("bet refused"),
    }
}

#[test]
fn a_bet_of_nothing_is_cute() {
    assert!(matches!(bet_round(0, Some(10), false, true, "heads", "<@1>"), BetOutcome::Refused));
    assert!(matches!(bet_round(-3, None, false, true, "heads", "<@1>"), BetOutcome::Refused));
    // The naughty list may bet nothing (or less).
    assert!(matches!(bet_round(0, Some(10), true, true, "heads", "<@1>"), BetOutcome::Played { .. }));
}

#[test]
fn winning_bet() {
    let (new_account, too_high, nb, msg) = played(bet_round(3, Some(10), false, true, " Heads ", "<@1>"));
    assert!(!new_account);
    assert_eq!(too_high, None);
    assert_eq!(nb, 13);
    assert_eq!(msg, "I flipped heads. You won 3 wanbux! You have 13 wanbux now.");
}

#[test]
fn newcomer_bets_too_much_and_goes_broke() {
    let (new_account, too_high, nb, msg) = played(bet_round(9, None, false, false, "heads", "<@7>"));
    assert!(new_account);
    assert_eq!(
        too_high,
        Some("Your bet is too high. I'm going to assume you're betting everything you have, which is 5 wanbux.\n".to_string())
    );
    assert_eq!(nb, 0);
    assert_eq!(
        msg,
        "Welcome to the WAN Casino <@7>. Have 5 Wanbux on the house.\nI flipped tails. You lost 5 wanbux! You have 0 wanbux now. You're broke now! Get lost, ya bum."
    );
}

#[test]
fn the_naughty_may_bet_more_than_they_have() {
    let (_, too_high, nb, _) = played(bet_round(50, Some(10), true, false, "heads", "<@1>"));
    assert_eq!(too_high, None);
    assert_eq!(nb, -40);
}

#[test]
fn coin_flips_show_both_sides() {
    let mut heads = 0;
    for _ in 0..400 {
        if coin_flip() {
            heads += 1;
        }
    }
    assert!(heads > 0 && heads < 400);
}

#[test]
fn yeet_bets_below_the_balance() {
    assert_eq!(yeet_amount(None), None);
    assert_eq!(yeet_amount(Some(1)), None);
    for _ in 0..100 {
        let a = yeet_amount(Some(5)).unwrap();
        assert!((1..5).contains(&a));
    }
    assert_eq!(yeet_amount(Some(2)), Some(1));
}

#[test]
fn begging() {
    match beg_outcome(Some(0), "<@3>") {
        BegOutcome::Gift(m) => assert_eq!(m, "Try not to spend it all in one place <@3> 😎"),
        _ => panic!("the broke get a gift"),
    }
    assert!(matches!(beg_outcome(Some(4), "<@3>"), BegOutcome::Finger));
    assert!(matches!(beg_outcome(None, "<@3>"), BegOutcome::Error));
    assert!(matches!(beg_outcome(Some(-1), "<@3>"), BegOutcome::Error));
}

#[test]
fn balances() {
    assert_eq!(balance_reply(Some(12), "<@3>"), "<@3>'s balance is 12 wanbux");
    assert_eq!(balance_reply(None, "<@3>"), "<@3> doesn't have a balance");
    assert_eq!(dev_set_reply(-4), "Your balance has been set to -4");
}

#[test]
fn robbery_empties_victims_once() {
    let r = rob_updates(1, Some(10), &vec![(2, Some(5)), (3, None), (2, Some(5))]);
    assert_eq!(r, vec![(2, 0), (3, 0), (2, 0), (1, 15)]);
    // Robbing oneself takes one's own balance again.
    assert_eq!(rob_updates(1, Some(10), &vec![(1, Some(10))]), vec![(1, 0), (1, 20)]);
}

fn says(e: &JailEffect) -> Option<String> {
    match e {
        JailEffect::Say(t) => Some(t.clone()),
        _ => None,
    }
}

#[test]
fn busting_out() {
    let (es, go_on) = jail_effects(Some("bust"), true, 1, &vec![2, 3, 2], &vec![2], Some(0), "<@1>");
    assert!(go_on);
    assert_eq!(es.len(), 4);
    assert!(matches!(es[0], JailEffect::BustOut(2)));
    assert_eq!(says(&es[1]), Some("busted out <@!2> !".to_string()));
    assert_eq!(says(&es[2]), Some("<@!3> isn't in jail!".to_string()));
    assert_eq!(says(&es[3]), Some("<@!2> isn't in jail!".to_string()));
}

#[test]
fn no_busting_from_inside_or_without_a_mention() {
    let (es, _) = jail_effects(Some("break"), true, 1, &vec![2], &vec![1, 2], None, "<@1>");
    assert_eq!(es.len(), 1);
    assert_eq!(says(&es[0]), Some("You can't break anyone out from the inside".to_string()));
    let (es, _) = jail_effects(Some("break"), false, 1, &vec![], &vec![], None, "<@1>");
    assert_eq!(says(&es[0]), Some("You gotta @someone to bust out".to_string()));
}

#[test]
fn bribes_and_mercy_and_frames() {
    let (es, go_on) = jail_effects(Some("bribe"), false, 1, &vec![], &vec![1], Some(1), "<@1>");
    assert!(!go_on && es.is_empty());
    let (es, go_on) = jail_effects(Some("bribe"), false, 1, &vec![], &vec![1], Some(9), "<@1>");
    assert!(go_on);
    match es[0] {
        JailEffect::SetBalance(a) => assert!((1..9).contains(&a)),
        _ => panic!("a bribe costs money"),
    }
    assert!(matches!(es[1], JailEffect::BustOut(1)));
    assert_eq!(says(&es[2]), Some("<@1> has been shown mercy".to_string()));

    let (es, _) = jail_effects(Some("mercy"), false, 1, &vec![], &vec![1], None, "<@1>");
    assert!(matches!(es[0], JailEffect::BegMercy));
    let (es, _) = jail_effects(Some("beg"), false, 1, &vec![], &vec![], None, "<@1>");
    assert!(es.is_empty());

    let (es, _) = jail_effects(Some("frame"), true, 1, &vec![4, 5], &vec![5], None, "<@1>");
    assert_eq!(es.len(), 2);
    assert!(matches!(es[0], JailEffect::Frame(4)));
    assert_eq!(says(&es[1]), Some("framed <@!4> !".to_string()));
    let (es, go_on) = jail_effects(None, false, 1, &vec![], &vec![], None, "<@1>");
    assert!(go_on && es.is_empty());
}

#[test]
fn ids() {
    assert!(has_id(&vec![3, 4], 4));
    assert!(!has_id(&vec![3, 4], 5));
}

#[test]
fn jail_census() {
    assert_eq!(jail_report(&vec![], &vec![], &vec![]), "Jail's empty!");
    let r = jail_report(
        &vec![(1, Some("ann".to_string())), (2, Some(String::new()))],
        &vec![(3, None, 150)],
        &vec![(4, Some("dan".to_string()), "0:59:00".to_string())],
    );
    assert_eq!(
        r,
        "\n**They've done their time, they're getting out:**\n```python\nann\n2\n```\
         \n**Caught red-handed, they're going in:**\n```python\n3: 150 wbx seized\n```\
         \n**Jailhouse Census:**\n```sql\ndan: releasing in 0:59:00\n```"
    );
}

#[test]
fn time_until_release() {
    // 2024-01-01 00:00:00 as microseconds after 1970-01-01.
    let now = 1_704_067_200_000_000;
    assert_eq!(time_until("2024-01-02 01:00:00", now), "1 day, 1:00:00");
    assert_eq!(time_until("2023-12-31 23:59:59", now), "-1 day, 23:59:59");
    assert_eq!(time_until("not a time", now), "");
}

use wan_party_bot::leaderboards::{leaderboard_lines, leaderboard_users, sort_users, tally_users};
use wan_party_bot::lexical_analysis::{gcd, grade_levels, nomenclature_grade, UserInfo};

fn history() -> Vec<(String, String)> {
    vec![
        ("ann".to_string(), "hello there".to_string()),
        ("bob".to_string(), "hi".to_string()),
        ("bob".to_string(), "one two three".to_string()),
        ("cat".to_string(), "".to_string()),
        ("cat".to_string(), "a  b".to_string()),
    ]
}

fn view(v: &[UserInfo]) -> Vec<(String, i64, i64)> {
    v.iter().map(|u| (u.name.clone(), u.message_count, u.word_count)).collect()
}

#[test]
fn tallies_in_order_of_first_message() {
    assert_eq!(
        view(&tally_users(&history())),
        vec![("ann".to_string(), 1, 2), ("bob".to_string(), 2, 4), ("cat".to_string(), 2, 4)]
    );
}

#[test]
fn most_active_first_ties_kept_in_order() {
    assert_eq!(
        view(&leaderboard_users(&history())),
        vec![("bob".to_string(), 2, 4), ("cat".to_string(), 2, 4), ("ann".to_string(), 1, 2)]
    );
    let users = vec![
        UserInfo { name: "a".to_string(), message_count: 1, word_count: 1 },
        UserInfo { name: "b".to_string(), message_count: 3, word_count: 1 },
        UserInfo { name: "c".to_string(), message_count: 1, word_count: 1 },
        UserInfo { name: "d".to_string(), message_count: 3, word_count: 1 },
    ];
    let names: Vec<String> = sort_users(users).into_iter().map(|u| u.name).collect();
    assert_eq!(names, vec!["b", "d", "a", "c"]);
}

#[test]
fn leaderboard_text() {
    let users = vec![UserInfo { name: "bob".to_string(), message_count: 2, word_count: 5 }];
    assert_eq!(
        leaderboard_lines(Some("general"), &users, &vec!["College".to_string()]),
        vec![
            "**Message stats for \"general\"**".to_string(),
            "> *bob*: **2** messages, avg length: **2** words, :brain: estimate: **College**".to_string(),
        ]
    );
    assert_eq!(leaderboard_lines(None, &vec![], &vec![]), vec!["**Message stats for \"this channel\"**".to_string()]);
}

#[test]
fn gcd_like_python() {
    assert_eq!(gcd(12, 18), 6);
    assert_eq!(gcd(-12, 18), 6);
    assert_eq!(gcd(0, 7), 7);
    assert_eq!(gcd(0, 0), 0);
    assert_eq!(gcd(100, 500), 100);
}

#[test]
fn names_that_decide_the_grade() {
    // "void": its code points sum to 434, and 434 * 16 == 6944.
    assert_eq!(nomenclature_grade("void"), Some("Brilliant".to_string()));
    assert_eq!(nomenclature_grade("ryan"), None);
    assert_eq!(nomenclature_grade(&"z".repeat(200)), Some("Brilliant".to_string()));
    let levels = grade_levels();
    assert_eq!(levels.len(), 18);
    assert_eq!(levels[17], "Brilliant");
    assert_eq!(levels[7], "7th Grade");
}

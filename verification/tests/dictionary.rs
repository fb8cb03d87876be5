//! The dictionary and the syllable counter on a small dictionary written inline:
//! a line per word, as in the CMU source file, and a final line break that leaves
//! one empty line, read as an empty word with an empty pronunciation.

use wan_party_bot::cmudict::CmuDict;
use wan_party_bot::count_syllables::count_syllables;

const SOURCE: &str = "A  AH0\n\
ANTIDISESTABLISHMENTARIANISM  AE2 N T IY0 D IH0 S IH0 S T AE2 B L IH0 SH M AH0 N T EH1 R IY0 AH0 N IH2 Z AH0 M\n\
CAT  K AE1 T\n\
DOGS  D AO1 G Z\n\
DON'T  D OW1 N T\n\
FIRE  F AY1 ER0\n\
FIRE(1)  F AY1 R\n\
FOO  F UW1\n\
HELLO  HH AH0 L OW1\n\
MISSISSIPPI  M IH2 S AH0 S IH1 P IY0\n\
PEOPLE  P IY1 P AH0 L\n\
PNEUMONIA  N UW0 M OW1 N Y AH0\n\
QUEUE  K Y UW1\n\
RHYTHM  R IH1 DH AH0 M\n\
SYLLABLE  S IH1 L AH0 B AH0 L\n\
THE  DH AH0\n\
THE  DH IY0\n\
WORLD  W ER1 L D\n";

/// The program reads the full CMU source file (123456 keys, a key listing of
/// 1416397 characters), which is data beside the program and not part of this
/// crate; this test makes the same checks (key count, the empty key and its
/// empty pronunciation, the key listing) on the inline source above.
#[test]
fn cmudict_matches_python() {
    let cmu = CmuDict::from_text(SOURCE);
    // 17 distinct words (THE twice) and the empty word of the final line break.
    assert_eq!(cmu.len(), 18, "cmudict key count");
    let empty = cmu.find("");
    assert!(empty.is_some(), "spurious empty key present");
    assert_eq!(cmu.prons(empty.unwrap()), &vec!["".to_string()], "empty key maps to ['']");
    assert_eq!(cmu.prons(cmu.find("THE").unwrap()), &vec!["DH AH0".to_string(), "DH IY0".to_string()]);
    let expected = "dict_keys(['A', 'ANTIDISESTABLISHMENTARIANISM', 'CAT', 'DOGS', \"DON'T\", 'FIRE', 'FIRE(1)', \
'FOO', 'HELLO', 'MISSISSIPPI', 'PEOPLE', 'PNEUMONIA', 'QUEUE', 'RHYTHM', 'SYLLABLE', 'THE', 'WORLD', ''])";
    assert_eq!(cmu.keys_repr(), expected);
    assert_eq!(cmu.keys_repr().chars().count(), expected.chars().count(), "dict_keys repr length");
}

/// The same words and counts as against the full CMU source file, counted with
/// the inline source above, which gives each word the full file's first
/// pronunciation.
#[test]
fn count_syllables_matches_python() {
    let cmu = CmuDict::from_text(SOURCE);
    let cases: &[(&str, i64)] = &[
        ("hello", 2),
        ("world", 1),
        ("syllable", 3),
        ("antidisestablishmentarianism", 12),
        ("the", 1),
        ("a", 1),
        ("cat's", 1),
        ("dogs", 1),
        ("rhythm", 2),
        ("queue", 1),
        ("", 0),
        ("hello world foo", 4),
        ("don't", 1),
        ("people", 2),
        ("fire", 2),
        ("Pneumonia", 3),
        ("123", 0),
        ("zzzzz", 0),
        ("Mississippi", 4),
        ("queueing", 0),
    ];
    for (input, expected) in cases {
        assert_eq!(count_syllables(&cmu, input), *expected, "count_syllables({input:?})");
    }
}

use snowman::session::{is_fully_revealed, PatternCheck, Session};
use snowman::solver::{Detail, Outcome};

fn words(list: &[&str]) -> Vec<String> {
    list.iter().map(|w| w.to_string()).collect()
}

#[test]
fn first_pattern_sets_length_and_letters() {
    let mut s = Session::new();
    assert_eq!(s.check_pattern("c_c_"), PatternCheck::Accepted);
    assert_eq!(s.length(), Some(4));
    assert_eq!(s.guessed(), &vec!['c']);
}

#[test]
fn later_patterns_are_checked() {
    let mut s = Session::new();
    assert_eq!(s.check_pattern("c__"), PatternCheck::Accepted);
    assert_eq!(s.check_pattern("c___"), PatternCheck::WrongLength);
    assert_eq!(s.check_pattern("ca_"), PatternCheck::UnguessedLetter);
    assert_eq!(s.check_pattern("c__"), PatternCheck::Accepted);
    assert_eq!(s.guessed(), &vec!['c']);
}

#[test]
fn turn_records_suggested_letter() {
    let dict = words(&["cat", "car", "can"]);
    let mut s = Session::new();
    assert_eq!(s.check_pattern("c__"), PatternCheck::Accepted);
    let r = s.play_turn(&dict, "c__");
    assert_eq!(r, Outcome::Suggestion('n', Detail::Candidates(dict.clone())));
    assert_eq!(s.guessed(), &vec!['c', 'n']);
    assert_eq!(s.check_pattern("ca_"), PatternCheck::UnguessedLetter);
    assert_eq!(s.check_pattern("c__"), PatternCheck::Accepted);
    let r = s.play_turn(&dict, "c__");
    assert_eq!(r, Outcome::Suggestion('r', Detail::Candidates(words(&["cat", "car"]))));
    assert_eq!(s.guessed(), &vec!['c', 'n', 'r']);
    let r = s.play_turn(&dict, "c__");
    assert_eq!(r, Outcome::Solved("cat".to_string()));
    assert_eq!(s.guessed(), &vec!['c', 'n', 'r']);
}

#[test]
fn revealed_patterns() {
    assert!(is_fully_revealed("cat"));
    assert!(!is_fully_revealed("c_t"));
    assert!(is_fully_revealed(""));
}

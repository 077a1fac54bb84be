use snowman::solver::{contains_char, count_containing, has_letter, is_consistent, suggest, Detail, Outcome};

fn words(list: &[&str]) -> Vec<String> {
    list.iter().map(|w| w.to_string()).collect()
}

#[test]
fn suggests_earliest_of_tied_letters() {
    let dict = words(&["cat", "car", "can"]);
    let r = suggest(&dict, "c__", &vec!['c']);
    assert_eq!(r, Outcome::Suggestion('n', Detail::Candidates(words(&["cat", "car", "can"]))));
}

#[test]
fn single_candidate_is_solved() {
    let dict = words(&["dog"]);
    assert_eq!(suggest(&dict, "d_g", &vec!['d', 'g']), Outcome::Solved("dog".to_string()));
}

#[test]
fn no_word_of_that_length_with_nothing_guessed() {
    let dict = words(&["cat", "car", "can", "dog"]);
    assert_eq!(suggest(&dict, "____", &vec![]), Outcome::Exhausted(true));
}

#[test]
fn no_candidate_after_guesses() {
    let dict = words(&["cat", "car", "can", "dog"]);
    assert_eq!(suggest(&dict, "b__", &vec!['b']), Outcome::Exhausted(false));
}

#[test]
fn same_inputs_same_outcome() {
    let dict = words(&["cat", "car", "can", "cot", "dog"]);
    let a = suggest(&dict, "c__", &vec!['c']);
    let b = suggest(&dict, "c__", &vec!['c']);
    assert_eq!(a, b);
}

#[test]
fn many_candidates_are_counted() {
    let dict = words(&["bat", "cat", "hat", "mat", "rat", "sat", "dog"]);
    let r = suggest(&dict, "_a_", &vec!['a']);
    // Every candidate ends in 't'; 'b' is the earliest letter of coverage one.
    assert_eq!(r, Outcome::Suggestion('b', Detail::Count(6)));
}

#[test]
fn letter_in_every_candidate_is_never_suggested() {
    let dict = words(&["abc", "abd", "abe", "xyz"]);
    let r = suggest(&dict, "___", &vec![]);
    // 'a' and 'b' lie in three of four candidates, more than any other letter.
    assert_eq!(r, Outcome::Suggestion('a', Detail::Candidates(words(&["abc", "abd", "abe", "xyz"]))));
    let r = suggest(&dict, "ab_", &vec!['a', 'b']);
    match r {
        Outcome::Suggestion(c, _) => {
            assert!(c != 'a' && c != 'b');
            assert_eq!(c, 'c');
        }
        other => panic!("unexpected {:?}", other),
    }
}

#[test]
fn indistinguishable_candidates_are_stuck() {
    let dict = words(&["ab", "ba"]);
    // A letter no candidate holds is still eligible.
    assert_eq!(suggest(&dict, "__", &vec![]), Outcome::Suggestion('c', Detail::Candidates(dict.clone())));
    let others: Vec<char> = "cdefghijklmnopqrstuvwxyz".chars().collect();
    assert_eq!(suggest(&dict, "__", &others), Outcome::Stuck);
}

#[test]
fn greatest_coverage_wins() {
    let dict = words(&["tree", "trap", "trip", "zone"]);
    let r = suggest(&dict, "____", &vec![]);
    // 't' and 'r' cover three of four; 'r' comes first.
    assert_eq!(r, Outcome::Suggestion('r', Detail::Candidates(words(&["tree", "trap", "trip", "zone"]))));
}

#[test]
fn blank_cannot_hide_guessed_letter() {
    let dict = words(&["cat", "cac"]);
    assert_eq!(suggest(&dict, "ca_", &vec!['c', 'a']), Outcome::Solved("cat".to_string()));
}

#[test]
fn suggested_letter_narrows_candidates() {
    let dict = words(&["cat", "car", "can", "cot"]);
    let before = suggest(&dict, "c__", &vec!['c']);
    let letter = match before {
        Outcome::Suggestion(c, _) => c,
        other => panic!("unexpected {:?}", other),
    };
    assert_eq!(letter, 'a');
    let after = suggest(&dict, "ca_", &vec!['c', 'a']);
    assert_eq!(after, Outcome::Suggestion('n', Detail::Candidates(words(&["cat", "car", "can"]))));
}

#[test]
fn consistency_checks() {
    let g = vec!['c', 'a'];
    assert!(is_consistent(&"cat".to_string(), "ca_", &g));
    assert!(!is_consistent(&"cab".to_string(), "c_t", &g));
    assert!(!is_consistent(&"cc".to_string(), "c_", &g));
    assert!(!is_consistent(&"cats".to_string(), "ca_", &g));
    assert!(is_consistent(&"dog".to_string(), "___", &vec![]));
}

#[test]
fn letter_helpers() {
    assert!(has_letter(&vec!['x', 'y'], 'y'));
    assert!(!has_letter(&vec![], 'y'));
    assert!(contains_char(&"hello".to_string(), 'l'));
    assert!(!contains_char(&"hello".to_string(), 'z'));
    assert_eq!(count_containing(&words(&["cat", "dog", "act"]), 'a'), 2);
}

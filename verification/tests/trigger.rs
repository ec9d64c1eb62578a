use leetbot::trigger::is_leet_message;

#[test]
fn bare_word_matches() {
    assert!(is_leet_message("leet"));
}

#[test]
fn word_in_sentence_matches_case_insensitively() {
    assert!(is_leet_message("1337 LEET go"));
}

#[test]
fn word_before_punctuation_matches() {
    assert!(is_leet_message("say leet!"));
}

#[test]
fn prefix_of_longer_word_does_not_match() {
    assert!(!is_leet_message("leetcode"));
}

#[test]
fn suffix_of_longer_word_does_not_match() {
    assert!(!is_leet_message("fleet"));
}

#[test]
fn empty_and_short_messages_do_not_match() {
    assert!(!is_leet_message(""));
    assert!(!is_leet_message("lee"));
}

#[test]
fn mixed_case_matches() {
    assert!(is_leet_message("LeEt"));
    assert!(is_leet_message("it is lEEt o'clock"));
}

#[test]
fn digit_boundaries_match() {
    assert!(is_leet_message("1337-leet!"));
    assert!(is_leet_message("x1leet2x"));
}

#[test]
fn non_ascii_neighbours_are_word_boundaries() {
    assert!(is_leet_message("äleetö"));
}

#[test]
fn second_occurrence_can_match() {
    assert!(is_leet_message("fleet leet"));
    assert!(!is_leet_message("fleet fleet"));
}

use scout::predicates::{
    is_a_unique_acronym, is_end_of_word, is_match, is_start_of_word, is_word_separator,
};
use scout::types::{Query, Subject};

#[test]
fn word_separator_set_test() {
    for sep in [" ", ".", "-", "_", "/", "\\"] {
        assert!(is_word_separator(sep), "{:?} should separate words", sep);
    }
    for not_sep in ["a", "Z", "0", ":"] {
        assert!(!is_word_separator(not_sep));
    }
}

#[test]
fn start_of_word_test() {
    let subject = Subject::new("helloCargofile0");
    assert!(is_start_of_word(&subject, 0));
    assert!(!is_start_of_word(&subject, 1));
    assert!(is_start_of_word(&subject, 5));
    assert!(!is_start_of_word(&subject, 6));

    let subject = Subject::new("0cargofile");
    assert!(!is_start_of_word(&subject, 1));

    let subject = Subject::new("a_b");
    assert!(is_start_of_word(&subject, 2));
}

#[test]
fn end_of_word_test() {
    let subject = Subject::new("0cargofileWorld");
    assert!(is_end_of_word(&subject, 9));
    assert!(!is_end_of_word(&subject, 8));
    assert!(is_end_of_word(&subject, 14));

    let subject = Subject::new("a_b");
    assert!(is_end_of_word(&subject, 0));
    assert!(is_end_of_word(&subject, 2));
}

#[test]
fn is_match_subsequence_test() {
    let subject = Subject::new("controller");
    assert!(is_match(&Query::new("core"), &subject));
    assert!(!is_match(&Query::new("corex"), &subject));
    assert!(is_match(&Query::new(""), &subject));
    // A space in the query costs nothing.
    assert!(is_match(&Query::new("cont roller"), &subject));
    assert!(is_match(&Query::new("controller "), &subject));
}

#[test]
fn unique_acronym_test() {
    let subject = Subject::new("FirstFactoryTest");
    assert!(is_a_unique_acronym(&subject, 3));
    assert!(!is_a_unique_acronym(&subject, 2));
    let subject = Subject::new("a_b c");
    assert!(is_a_unique_acronym(&subject, 3));
}

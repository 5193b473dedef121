use scout::fuzzy::{finder, score, Candidate};
use scout::types::{Query, Subject};
use scout::common::TextBuilder;
use std::cmp::Ordering;

#[test]
fn empty_query_never_matches_test() {
    for subject in ["", "a", "some longer subject"] {
        let query = Query::new("");
        let subject = Subject::new(subject);
        assert!(score(&query, &subject).is_none());
    }
}

#[test]
fn longer_query_than_subject_never_matches_test() {
    let cases = [("abcd", "abc"), ("a", ""), ("xyz", "xy"), ("aaaa", "aaa")];
    for (q, s) in cases {
        let query = Query::new(q);
        let subject = Subject::new(s);
        assert!(
            score(&query, &subject).is_none(),
            "Expected {:?} not to match in the shorter {:?}",
            q,
            s,
        );
    }
}

#[test]
fn non_subsequence_never_matches_test() {
    let cases = [("abc", "acb"), ("zz", "z"), ("core", "croe"), ("b", "a")];
    for (q, s) in cases {
        let query = Query::new(q);
        let subject = Subject::new(s);
        assert!(score(&query, &subject).is_none());
    }
}

#[test]
fn score_is_idempotent_test() {
    // One case per dispatch path: acronym, exact, fuzzy alignment.
    let cases = [
        ("fft", "FirstFactoryTest"),
        ("core", "0core0app.rb"),
        ("core", "controller"),
        ("acon", "applicatio_controller.rb"),
    ];
    for (q, s) in cases {
        let query = Query::new(q);
        let subject = Subject::new(s);
        let first = score(&query, &subject).unwrap();
        let second = score(&query, &subject).unwrap();
        assert_eq!(first.score, second.score);
        assert_eq!(first.matches, second.matches);
    }
}

#[test]
fn match_positions_are_increasing_and_bounded_test() {
    let cases = [
        ("fft", "FirstFactoryTest.ts"),
        ("core", "controller"),
        ("hllo", "Hello World"),
        ("a", "bca"),
        ("model core", "0/model/0core0_0.x"),
    ];
    for (q, s) in cases {
        let query = Query::new(q);
        let subject = Subject::new(s);
        let result = score(&query, &subject).unwrap();
        assert!(result.score > 0);
        assert!(result.matches.len() <= query.len);
        for w in result.matches.windows(2) {
            assert!(w[0] < w[1], "positions not increasing for {:?} in {:?}", q, s);
        }
        for &p in &result.matches {
            assert!(p < subject.len);
        }
    }
}

#[test]
fn single_grapheme_query_takes_exact_path_test() {
    // A single-letter query never takes the acronym path: it lands on the
    // first word-start occurrence as a contiguous run of one.
    let query = Query::new("f");
    let subject = Subject::new("FirstFactoryTest");
    let result = score(&query, &subject).unwrap();
    assert_eq!(result.matches, vec![0]);
}

#[test]
fn single_grapheme_subject_exact_match_test() {
    let query = Query::new("a");
    let subject = Subject::new("a");
    let result = score(&query, &subject).unwrap();
    assert!(result.score > 0);
    assert_eq!(result.matches, vec![0]);
}

#[test]
fn case_insensitive_match_through_folding_test() {
    // Fails if lowercase folding handed the graphemes back unchanged.
    let query = Query::new("FILE");
    let subject = Subject::new("file");
    assert!(score(&query, &subject).is_some());
    let query = Query::new("file");
    let subject = Subject::new("FILE");
    assert!(score(&query, &subject).is_some());
}

#[test]
fn acronym_consumes_query_separators_test() {
    // A separator inside the query is consumed for free by the acronym walk
    // and recorded among the match positions.
    let query = Query::new("f.t");
    let subject = Subject::new("first.test");
    let result = score(&query, &subject).unwrap();
    assert_eq!(result.matches, vec![0, 5, 6]);
}

#[test]
fn finder_empty_query_matches_everything_test() {
    let target = TextBuilder::build("anything at all");
    let candidate = finder("", target).unwrap();
    assert!(candidate.score_match.is_none());
}

#[test]
fn finder_full_query_test() {
    // Fails if the sublime_fuzzy boundary returned a constant.
    let found = finder("towers", TextBuilder::build("the two towers"));
    assert!(found.is_some());
    assert!(found.unwrap().score_match.is_some());
    let missing = finder("abc", TextBuilder::build("def"));
    assert!(missing.is_none());
}

#[test]
fn candidate_compare_orders_by_match_test() {
    let unscored = Candidate::new(String::from("the two towers"));
    let scored = finder("towers", TextBuilder::build("the two towers")).unwrap();
    assert_eq!(unscored.compare(&scored), Ordering::Less);
    assert_eq!(scored.compare(&unscored), Ordering::Greater);
    assert_eq!(unscored.compare(&unscored), Ordering::Equal);
}

#[test]
fn subject_reset_clears_scoring_output_test() {
    let query = Query::new("core");
    let subject = Subject::new("0core0app.rb");
    let scored = score(&query, &subject).unwrap();
    assert!(scored.score > 0);
    assert!(!scored.matches.is_empty());
    let fresh = scored.reset();
    assert_eq!(fresh.score, 0);
    assert!(fresh.matches.is_empty());
    assert_eq!(fresh.text, scored.text);
    assert_eq!(fresh.len, scored.len);
}

use scout::fuzzy::score;
use scout::types::{Query, Subject};

fn assert_scores_between_subjects(query: Query, a: Subject, b: Subject) {
    let result_a = score(&query, &a);
    let result_b = score(&query, &b);

    assert!(result_a.is_some());
    assert!(result_b.is_some());

    let result_a = result_a.unwrap();
    let result_b = result_b.unwrap();

    assert!(
        result_a.score > result_b.score,
        "Expected {:?} to have a higher score in {:?} than in {:?}. A {:?} <= B {:?}",
        query.string,
        a.text,
        b.text,
        result_a.score,
        result_b.score,
    );
}

#[test]
fn score_when_there_are_no_results_test() {
    let cases: Vec<(Query, Subject)> = vec![
        (Query::new(""), Subject::new("foo")),
        (Query::new("bar"), Subject::new("ba")),
        (Query::new("bar"), Subject::new("foo")),
    ];

    for (query, subject) in cases {
        assert!(
            score(&query, &subject).is_none(),
            "Expected {:?} to not be scored in {:?}",
            query.string,
            subject.text,
        );
    }
}

#[test]
fn score_matches_test() {
    let cases: Vec<(Query, Subject, Vec<usize>)> = vec![
        // Exact acronym
        (Query::new("fft"), Subject::new("FirstFactoryTest"), vec![0, 5, 12]),
        // Extra acronym letters
        (Query::new("fft"), Subject::new("FirstFactoryTest.ts"), vec![0, 5, 12]),
        // Exact match
        (Query::new("core"), Subject::new("0core0app.rb"), vec![1, 2, 3, 4]),
        // Exact match, second position is better
        (Query::new("core"), Subject::new("0core0app_core.rb"), vec![10, 11, 12, 13]),
        // Consecutive letters
        (Query::new("core"), Subject::new("controller"), vec![0, 1, 4, 8]),
    ];

    for (query, subject, expected) in cases {
        let result = score(&query, &subject);
        assert!(result.is_some());

        let result = result.unwrap();
        assert_eq!(
            result.matches, expected,
            "Expected {:?} to have matches {:?} inside {:?}",
            query.string, expected, subject.text,
        );
    }
}

#[test]
fn score_on_different_queries_test() {
    let cases: Vec<(Query, Query, Subject)> = vec![
        // Acronym wins
        (Query::new("psh"), Query::new("push"), Subject::new("Plus: Stage Hunk")),
        // Exact world wins
        (Query::new("Hello"), Query::new("he"), Subject::new("Hello World")),
        // More consecutive chars wins
        (Query::new("ello"), Query::new("hllo"), Subject::new("Hello World")),
    ];

    for (a, b, subject) in cases {
        let result_a = score(&a, &subject);
        let result_b = score(&b, &subject);

        assert!(result_a.is_some());
        assert!(result_b.is_some());

        let result_a = result_a.unwrap();
        let result_b = result_b.unwrap();

        assert!(
            result_a.score > result_b.score,
            "Expected {:?} to have a higher score than {:?} inside {:?}",
            a.string,
            b.string,
            subject.text,
        );
    }
}

#[test]
fn score_on_exact_match_test() {
    assert_scores_between_subjects(
        Query::new("file"),
        Subject::new("Cargofile"),
        Subject::new("filter"),
    );
}

#[test]
fn score_on_extact_match_end_word_boundaries_test() {
    let cases: Vec<(Query, Subject, Subject)> = vec![
        // End of world bonus (string limit)
        (Query::new("file"), Subject::new("0cargofile"), Subject::new("cargofile0")),
        // End of world bonus (separator limit)
        (
            Query::new("file"),
            Subject::new("0cargofile world"),
            Subject::new("hello cargofile0"),
        ),
        // End of world bonus (camelCase limit)
        (
            Query::new("file"),
            Subject::new("0cargofileWorld"),
            Subject::new("helloCargofile0"),
        ),
    ];

    for (query, a, b) in cases {
        assert_scores_between_subjects(query, a, b);
    }
}

#[test]
fn score_on_extact_match_start_word_boundaries_test() {
    let cases: Vec<(Query, Subject, Subject)> = vec![
        // Start of world bonus (string limit)
        (Query::new("cargo"), Subject::new("cargofile0"), Subject::new("0cargofile")),
        // Start of world bonus (separator limit)
        (
            Query::new("cargo"),
            Subject::new("hello cargofile0"),
            Subject::new("0cargofile world"),
        ),
        // Start of world bonus (camelCase limit)
        (
            Query::new("cargo"),
            Subject::new("helloCargofile0"),
            Subject::new("0cargofileWorld"),
        ),
    ];

    for (query, a, b) in cases {
        assert_scores_between_subjects(query, a, b);
    }
}

#[test]
fn score_on_exact_match_preference_test() {
    let cases: Vec<(Query, Subject, Subject)> = vec![
        // full-word > start-of-word
        (Query::new("core"), Subject::new("0_core_000 x"), Subject::new("0_core0_00 x")),
        // start-of-word > end-of-word
        (Query::new("core"), Subject::new("0_core0_00 x"), Subject::new("0core_0000 x")),
        // end-of-word > middle-of-word
        (Query::new("core"), Subject::new("0core_0000 x"), Subject::new("0core0_000 x")),
        // middle-of-word > split
        (Query::new("core"), Subject::new("0core0_000 x"), Subject::new("0_co_re_00 x")),
        // split > scattered letters
        (Query::new("core"), Subject::new("0_co_re_00 x"), Subject::new("controller x")),
    ];

    for (query, a, b) in cases {
        assert_scores_between_subjects(query, a, b);
    }
}

#[test]
fn score_on_exact_match_with_multi_word_preference_test() {
    let cases: Vec<(Query, Subject, Subject)> = vec![
        // full-word > start-of-word
        (Query::new("core x"), Subject::new("0_core_000 x"), Subject::new("0_core0_00 x")),
        // start-of-word > end-of-word
        (Query::new("core x"), Subject::new("0_core0_00 x"), Subject::new("0core_0000 x")),
        // end-of-word > middle-of-word
        (Query::new("core x"), Subject::new("0core_0000 x"), Subject::new("0core0_000 x")),
        // middle-of-word > split
        (Query::new("core x"), Subject::new("0core0_000 x"), Subject::new("0_co_re_00 x")),
        // split > scattered letters
        (Query::new("core x"), Subject::new("0_co_re_00 x"), Subject::new("controller x")),
    ];

    for (query, a, b) in cases {
        assert_scores_between_subjects(query, a, b);
    }
}

#[test]
fn score_on_exact_match_case_insensitive_over_complete_word_test() {
    assert_scores_between_subjects(
        Query::new("file"),
        Subject::new("ZFILEZ"),
        Subject::new("fil e"),
    );
}

#[test]
fn score_on_exact_match_prefer_smaller_haystack_test() {
    assert_scores_between_subjects(
        Query::new("core"),
        Subject::new("core"),
        Subject::new("core_"),
    );
}

#[test]
fn score_on_exact_match_prefer_match_at_start_of_string_test() {
    assert_scores_between_subjects(
        Query::new("core"),
        Subject::new("core_data"),
        Subject::new("data_core"),
    );
    assert_scores_between_subjects(
        Query::new("core"),
        Subject::new("hello_core_data"),
        Subject::new("hello_data_core"),
    );
}

#[test]
fn score_on_exact_match_prefer_single_letter_start_of_world_test() {
    assert_scores_between_subjects(
        Query::new("m"),
        Subject::new("Markdown Preview: Copy Html"),
        Subject::new("Timecop: View"),
    );
    assert_scores_between_subjects(
        Query::new("m"),
        Subject::new("Markdown Preview: Toggle Break On Newline"),
        Subject::new("Welcome: Show"),
    );
    assert_scores_between_subjects(
        Query::new("d"),
        Subject::new("doc/REAME"),
        Subject::new("TODO"),
    );
}

#[test]
fn score_on_exact_match_selects_better_occurences_test() {
    assert_scores_between_subjects(
        Query::new("es"),
        Subject::new("Test Español"),
        Subject::new("Portugues"),
    );
}

#[test]
fn score_on_consecutive_letters_preference_test() {
    let cases: Vec<(Query, Subject, Subject)> = vec![
        // full-word > start-of-word
        (
            Query::new("modelcore"),
            Subject::new("model-0-core-000.x"),
            Subject::new("model-0-core0-00.x"),
        ),
        // start-of-word > end-of-word
        (
            Query::new("modelcore"),
            Subject::new("model-0-core0-00.x"),
            Subject::new("model-0core-0000.x"),
        ),
        // end-of-word > middle-of-word
        (
            Query::new("modelcore"),
            Subject::new("model-0core-0000.x"),
            Subject::new("model-0core0-000.x"),
        ),
        // middle-of-word > scattered letters
        (
            Query::new("modelcore"),
            Subject::new("model-0core0-000.x"),
            Subject::new("model-controller.x"),
        ),
    ];

    for (query, a, b) in cases {
        assert_scores_between_subjects(query, a, b);
    }
}

#[test]
fn score_on_consecutive_letters_full_word_preference_test() {
    let cases: Vec<(Query, Subject, Subject)> = vec![
        // full-word > start-of-word
        (
            Query::new("modelcorex"),
            Subject::new("model-0-core-000.x"),
            Subject::new("model-0-core0-00.x"),
        ),
        // start-of-word > end-of-word
        (
            Query::new("modelcorex"),
            Subject::new("model-0-core0-00.x"),
            Subject::new("model-0core-0000.x"),
        ),
        // end-of-word > middle-of-word
        (
            Query::new("modelcorex"),
            Subject::new("model-0core-0000.x"),
            Subject::new("model-0core0-000.x"),
        ),
        // middle-of-word > scattered letters
        (
            Query::new("modelcorex"),
            Subject::new("model-0core0-000.x"),
            Subject::new("model-controller.x"),
        ),
    ];

    for (query, a, b) in cases {
        assert_scores_between_subjects(query, a, b);
    }
}

#[test]
fn score_on_consecutive_letters_preference_test_vs_directory_depth_test() {
    let cases: Vec<(Query, Subject, Subject)> = vec![
        // full-word > start-of-word
        (
            Query::new("model core"),
            Subject::new("0/0/0/0/model/core_000.x"),
            Subject::new("0/0/0/model/core0_00.x"),
        ),
        // start-of-word > end-of-word
        (
            Query::new("model core"),
            Subject::new("0/0/0/model/core0_00.x"),
            Subject::new("0/0/model/0core_00.x"),
        ),
        // end-of-word > middle-of-word
        (
            Query::new("model core"),
            Subject::new("0/0/model/0core_00.x"),
            Subject::new("0/model/0core0_0.x"),
        ),
        // middle-of-word > scattered letters
        (
            Query::new("model core"),
            Subject::new("0/model/0core0_0.x"),
            Subject::new("model/controller.x"),
        ),
    ];

    for (query, a, b) in cases {
        assert_scores_between_subjects(query, a, b);
    }
}

#[test]
fn score_on_consecutive_letters_score_higher_than_scattered_test() {
    assert_scores_between_subjects(
        Query::new("acon"),
        Subject::new("applicatio_controller.rb"),
        Subject::new("application.rb"),
    );
}

#[test]
fn score_prefers_larger_groups_of_consecutive_letters_test() {
    let cases: Vec<(Query, Subject, Subject)> = vec![
        (Query::new("abcdef"), Subject::new("  abcdef"), Subject::new(" abcde f")),
        (Query::new("abcdef"), Subject::new(" abcde f"), Subject::new(" abcd ef")),
        (Query::new("abcdef"), Subject::new(" abcd ef"), Subject::new(" abc def")),
        (Query::new("abcdef"), Subject::new(" abc def"), Subject::new("ab cd ef")),
    ];

    for (query, a, b) in cases {
        assert_scores_between_subjects(query, a, b);
    }
}

#[test]
fn score_prefers_larger_group_of_consecutive_letters_vs_better_context_test() {
    let cases: Vec<(Query, Subject, Subject)> = vec![
        // 2 x 3 vs 3 x 2
        (Query::new("abcdef"), Subject::new("0abc0def0"), Subject::new("ab cd ef")),
        // 1 x 4 + 2 vs 2 x 2 + 2
        (Query::new("abcdef"), Subject::new("0abcd0ef0"), Subject::new("ab cd ef")),
    ];

    for (query, a, b) in cases {
        assert_scores_between_subjects(query, a, b);
    }
}

#[test]
fn score_allows_consecutive_letter_in_path_overcome_deeper_path_test() {
    assert_scores_between_subjects(
        Query::new("core app"),
        Subject::new("controller/core/app.rb"),
        Subject::new("controller/app.rb"),
    );
}

#[test]
fn score_weighs_matches_at_the_start_of_the_string_or_base_name_higher_test() {
    let cases: Vec<(Query, Subject, Subject)> = vec![
        (Query::new("ab"), Subject::new("a_b"), Subject::new("a_b_c")),
        (Query::new("ab"), Subject::new("a_b"), Subject::new("z_a_b")),
        (Query::new("ab"), Subject::new("a_b_c"), Subject::new("c_a_b")),
    ];

    for (query, a, b) in cases {
        assert_scores_between_subjects(query, a, b);
    }
}

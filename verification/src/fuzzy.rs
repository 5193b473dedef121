use vstd::prelude::*;
use std::sync::Arc;
use std::cmp::Ordering;
use sublime_fuzzy::Match;
use crate::common::{Letters, Text};
use crate::types::{Query, Subject};
use crate::predicates::{
    is_match, is_separator_g, is_start_of_word, is_subsequence, is_word_end_at,
    is_word_start_at, lemma_embedding_is_subsequence, lemma_subsequence_len,
    lemma_word_starts_props, word_starts,
};
use crate::scoring::{
    score_acronyms, score_character, score_consecutives, score_exact_match, score_quality,
    scale_by_size, spec_acronym_of, spec_exact_pos, spec_exact_score, spec_first_occ,
    lemma_scan_follows_initials, spec_acro_empty, spec_acro_total, spec_quality,
    spec_score_pattern, AcroScan, TraceMatrix, CHAR_MAX, PATTERN_MAX, spec_count_same,
    spec_size_den, lemma_quality_monotone, lemma_pattern_start_monotone,
    lemma_pattern_end_monotone, lemma_pattern_bounds, lemma_count_same_bounds,
    lemma_first_occ_in_range, lemma_quality_size_monotone,
};
use crate::predicates::count_word_starts;

verus! {

// ---------------------------------------------------------------------------
// Candidate: the consumer-facing pairing of shared text with a match result
// computed by the sublime_fuzzy library.
// ---------------------------------------------------------------------------

#[verifier::external_type_specification]
#[verifier::external_body]
pub struct ExMatch(Match);

/// Whether sublime_fuzzy finds the whole query inside the target; a function
/// of the two strings alone.
pub uninterp spec fn best_match_found(q: Seq<char>, t: Seq<char>) -> bool;

/// Relies on sublime_fuzzy::best_match: it returns a match exactly when the
/// full query can be found in the target, and its result depends on the two
/// strings alone.
#[verifier::external_body]
fn best_match_in(query: &str, target: &Letters) -> (r: Option<Match>)
    ensures
        r is Some == best_match_found(query@, target.spec_string()),
{
    sublime_fuzzy::best_match(query, target.as_str())
}

/// Relies on Ord for Option<sublime_fuzzy::Match>, which orders matches by
/// their score, None first.
#[verifier::external_body]
fn cmp_score_match(a: &Option<Match>, b: &Option<Match>) -> Ordering {
    a.cmp(b)
}

/// One candidate string coupled with an optional externally computed match
/// result, so candidate sets can be ranked directly.
#[derive(Debug, Clone)]
pub struct Candidate {
    pub text: Text,
    pub score_match: Option<Match>,
}

impl Candidate {
    /// Wraps a raw string as an unscored candidate: the shared text holds
    /// exactly the given string.
    pub fn new(text: String) -> (r: Candidate)
        ensures
            r.score_match is None,
            r.text.wf(),
            r.text.spec_string() == text@,
    {
        Candidate { text: Arc::new(Letters::new(text)), score_match: None }
    }

    /// Total order over candidates, by their match result.
    pub fn compare(&self, other: &Candidate) -> Ordering {
        cmp_score_match(&self.score_match, &other.score_match)
    }
}

/// The secondary, simpler ranking strategy: delegates to sublime_fuzzy's
/// best match.  An empty query matches everything without evidence.
pub fn finder(query: &str, target: Text) -> (r: Option<Candidate>)
    ensures
        query@.len() == 0 ==> r is Some && r->Some_0.score_match is None,
        query@.len() > 0 ==> r is Some == best_match_found(query@, target.spec_string()),
        query@.len() > 0 && r is Some ==> r->Some_0.score_match is Some,
        r is Some ==> r->Some_0.text == target,
{
    if query.is_empty() {
        let candidate = Candidate { text: target, score_match: None };
        return Some(candidate);
    }

    match best_match_in(query, &target) {
        None => None,
        Some(score_match) => {
            let candidate = Candidate { text: target, score_match: Some(score_match) };
            Some(candidate)
        },
    }
}

// ---------------------------------------------------------------------------
// The dispatcher: acronym, then exact substring, then bounded alignment.
// ---------------------------------------------------------------------------

/// The score the acronym path reports when it explains the whole query.
pub open spec fn spec_acronym_score(q: Query, s: Subject) -> int {
    let scan = spec_acronym_of(q, s);
    spec_quality(
        q.len as int,
        s.len as int,
        spec_score_pattern(
            scan.letters,
            q.len as int,
            scan.same,
            true,
            scan.letters == q.len && scan.letters == count_word_starts(
                s.gs(),
                s.lws(),
                s.len as int,
            ),
        ),
        scan.sum,
        scan.letters,
    )
}

/// Scores one subject against one query: no match for an empty query or when
/// the query is not a case-insensitive subsequence of the subject; otherwise
/// the acronym path wins outright when it explains the whole query, then the
/// exact-substring path, then the bounded Smith-Waterman alignment.
///
/// The contract pins the result exactly on the acronym and exact paths; on
/// the alignment fallback it guarantees only the shape of the result — a
/// positive score and strictly increasing in-bounds match positions, at
/// most one per query grapheme.
pub fn score(query: &Query, subject: &Subject) -> (r: Option<Subject>)
    requires
        query.wf(),
        subject.wf(),
        query.len <= crate::MAX_QUERY_LEN,
        subject.len <= crate::MAX_SUBJECT_LEN,
    ensures
        query.len == 0 ==> r is None,
        !is_subsequence(query.lws(), subject.lws()) ==> r is None,
        query.len > subject.len && (forall|i: int|
            0 <= i < query.len ==> query.lws()[i] != " "@) ==> r is None,
        match r {
            None => true,
            Some(ns) => {
                &&& ns.wf()
                &&& ns.text@ == subject.text@
                &&& ns.gs() == subject.gs()
                &&& ns.lws() == subject.lws()
                &&& ns.len == subject.len
                &&& ns.score >= 1
                &&& ns.matches@.len() <= query.len
                &&& forall|k: int| 0 <= k < ns.matches@.len() ==> ns.matches@[k] < subject.len
                &&& forall|k1: int, k2: int|
                    0 <= k1 < k2 < ns.matches@.len() ==> ns.matches@[k1] < ns.matches@[k2]
            },
        },
        query.len >= 1 && is_subsequence(query.lws(), subject.lws()) && spec_acro_total(
            *query,
            *subject,
        ) == query.len ==> match r {
            Some(ns) => ns.score == spec_acronym_score(*query, *subject)
                && ns.matches@.map_values(|x: usize| x as int) == spec_acronym_of(
                *query,
                *subject,
            ).marks,
            None => false,
        },
        query.len >= 1 && is_subsequence(query.lws(), subject.lws()) && spec_acro_total(
            *query,
            *subject,
        ) != query.len && spec_first_occ(query.lws(), subject.lws(), 0) is Some ==> match r {
            Some(ns) => {
                let p = spec_exact_pos(query.lws(), subject.gs(), subject.lws());
                &&& p is Some
                &&& ns.score == spec_exact_score(*query, *subject, p->Some_0)
                &&& ns.matches@.len() == query.len
                &&& forall|k: int|
                    0 <= k < ns.matches@.len() ==> ns.matches@[k] == p->Some_0 + k
            },
            None => false,
        },
{
    let n = query.len;
    let m = subject.len;
    if query.is_empty() {
        return None;
    }

    // -----------------------------------------------------------------
    // Cheap reject: is the query even inside the subject?
    if !is_match(query, subject) {
        return None;
    }
    proof {
        if query.len > subject.len && (forall|i: int|
            0 <= i < query.len ==> query.lws()[i] != " "@) {
            lemma_subsequence_len(query.lws(), subject.lws(), 0, 0);
            assert(false);
        }
    }

    // An all-space query passes the subsequence test against any subject,
    // even an empty one; nothing can be aligned in an empty subject.
    if m == 0 {
        return None;
    }

    // -----------------------------------------------------------------
    // Acronym sequence: if it explains the whole query, it wins outright.
    let acronym = score_acronyms(query, subject);

    if acronym.count == n {
        let score = score_quality(n, m, acronym.score, acronym.sum_pos, acronym.count_letters);

        let mut new_subject = subject.reset();
        new_subject.score = score;
        new_subject.matches = acronym.matches;

        return Some(new_subject);
    }

    // -----------------------------------------------------------------
    // Exact contiguous occurrence.
    match score_exact_match(query, subject) {
        Some(result) => {
            let mut new_subject = subject.reset();
            new_subject.score = result.score;
            new_subject.matches = result.matches;

            return Some(new_subject);
        },
        None => {},
    }

    // -----------------------------------------------------------------
    // Individual characters: bounded Smith-Waterman alignment with a dense
    // traceback grid and a miss budget.
    let mut score_row: Vec<u64> = vec![0u64; n];
    let mut consecutive_row: Vec<u64> = vec![0u64; n];

    let mut trace = TraceMatrix::new(m, n);

    // ceil(0.75 * query length) + 5 non-improving attempts before giving up.
    let miss_budget: u64 = (3 * (n as u64) + 3) / 4 + 5;
    let mut miss_left = miss_budget;
    let mut should_rebuild = true;

    let mut subject_index: usize = 0;
    while subject_index < m
        invariant
            query.wf(),
            subject.wf(),
            n == query.len,
            m == subject.len,
            1 <= n <= crate::MAX_QUERY_LEN,
            1 <= m <= crate::MAX_SUBJECT_LEN,
            subject_index <= m,
            score_row@.len() == n,
            consecutive_row@.len() == n,
            forall|j: int| 0 <= j < n ==> score_row@[j] <= (j + 1) * CHAR_MAX,
            forall|j: int| 0 <= j < n ==> consecutive_row@[j] <= PATTERN_MAX,
            trace.wf(),
            trace.spec_rows() == n,
            trace.spec_cols() == m,
            miss_left >= 1,
            acronym.score <= PATTERN_MAX,
            miss_budget >= 1,
            is_subsequence(query.lws(), subject.lws()),
            !(query.len > subject.len && (forall|i: int|
                0 <= i < query.len ==> query.lws()[i] != " "@)),
            spec_acro_total(*query, *subject) != query.len as int,
            spec_first_occ(query.lws(), subject.lws(), 0) is None,
        decreases m - subject_index,
    {
        if query.contains(&subject.graphemes_lw[subject_index]) {
            let mut score: u64 = 0;
            let mut score_diag: u64 = 0;
            let mut consecutive_diag: u64 = 0;
            let mut record_miss = true;
            should_rebuild = true;

            let mut query_index: usize = 0;
            while query_index < n
                invariant
                    query.wf(),
                    subject.wf(),
                    n == query.len,
                    m == subject.len,
                    1 <= n <= crate::MAX_QUERY_LEN,
                    1 <= m <= crate::MAX_SUBJECT_LEN,
                    subject_index < m,
                    query_index <= n,
                    score_row@.len() == n,
                    consecutive_row@.len() == n,
                    forall|j: int| 0 <= j < n ==> score_row@[j] <= (j + 1) * CHAR_MAX,
                    forall|j: int| 0 <= j < n ==> consecutive_row@[j] <= PATTERN_MAX,
                    trace.wf(),
                    trace.spec_rows() == n,
                    trace.spec_cols() == m,
                    miss_left >= 1,
                    acronym.score <= PATTERN_MAX,
                    score <= query_index * CHAR_MAX + CHAR_MAX,
                    query_index == 0 ==> score == 0,
                    score_diag <= query_index * CHAR_MAX,
                    consecutive_diag <= PATTERN_MAX,
                    miss_budget >= 1,
                    is_subsequence(query.lws(), subject.lws()),
                    !(query.len > subject.len && (forall|i: int|
                        0 <= i < query.len ==> query.lws()[i] != " "@)),
                    spec_acro_total(*query, *subject) != query.len as int,
                    spec_first_occ(query.lws(), subject.lws(), 0) is None,
                decreases n - query_index,
            {
                let score_up = score_row[query_index];
                if score_up >= score {
                    score = score_up;
                    trace.up_at(query_index, subject_index);
                } else {
                    trace.left_at(query_index, subject_index);
                }

                let mut consecutive_score: u64 = 0;

                if query.graphemes_lw[query_index] == subject.graphemes_lw[subject_index] {
                    let is_start = is_start_of_word(subject, subject_index);

                    if consecutive_diag > 0 {
                        consecutive_score = consecutive_diag;
                    } else {
                        consecutive_score = score_consecutives(
                            query,
                            subject,
                            query_index,
                            subject_index,
                            is_start,
                        );
                    }

                    let align = score_diag + score_character(
                        subject_index,
                        is_start,
                        acronym.score,
                        consecutive_score,
                    );

                    if align > score {
                        score = align;
                        trace.diagonal_at(query_index, subject_index);
                        miss_left = miss_budget;
                    } else {
                        consecutive_score = 0;

                        if record_miss {
                            miss_left -= 1;

                            if miss_left == 0 {
                                let best = if score >= score_row[n - 1] {
                                    score
                                } else {
                                    score_row[n - 1]
                                };
                                proof {
                                    assert(n * CHAR_MAX <= 4096 * CHAR_MAX);
                                }
                                let final_score = scale_by_size(best, n, m);
                                if final_score == 0 {
                                    return None;
                                } else {
                                    let matches = trace.traceback(query_index, subject_index);
                                    let mut new_subject = subject.reset();
                                    new_subject.score = final_score;
                                    new_subject.matches = matches;

                                    return Some(new_subject);
                                }
                            }
                        }

                        record_miss = false;
                    }
                }

                score_diag = score_up;
                consecutive_diag = consecutive_row[query_index];
                consecutive_row[query_index] = consecutive_score;
                score_row[query_index] = score;

                if score == 0 {
                    trace.stop_at(query_index, subject_index);
                }

                query_index += 1;
            }
        } else {
            if should_rebuild {
                consecutive_row = vec![0u64; n];
                should_rebuild = false;
            }
        }

        subject_index += 1;
    }

    proof {
        assert(n * CHAR_MAX <= 4096 * CHAR_MAX);
    }
    let final_score = scale_by_size(score_row[n - 1], n, m);
    if final_score == 0 {
        None
    } else {
        let matches = trace.traceback(n - 1, m - 1);

        let mut new_subject = subject.reset();
        new_subject.score = final_score;
        new_subject.matches = matches;

        Some(new_subject)
    }
}

// ---------------------------------------------------------------------------
// Laws.
// ---------------------------------------------------------------------------

/// Law: a single-grapheme query never carries acronym evidence, so the
/// acronym path can never fire for it.
pub proof fn lemma_single_grapheme_never_acronym(q: Query, s: Subject)
    requires
        q.len == 1,
    ensures
        spec_acro_total(q, s) == 0,
{
}

/// Law: scoring is a pure function of the query and subject texts on every
/// path that is resolved before the alignment fallback: for an empty query,
/// for a query that is not a subsequence of the subject, and whenever the
/// acronym or the exact-substring path settles the result, two scoring calls
/// on the same pair return the same outcome, score and match positions.
pub proof fn lemma_score_deterministic(
    q: Query,
    s: Subject,
    r1: Option<Subject>,
    r2: Option<Subject>,
)
    requires
        q.wf(),
        s.wf(),
        q.len <= crate::MAX_QUERY_LEN,
        s.len <= crate::MAX_SUBJECT_LEN,
        call_ensures(score, (&q, &s), r1),
        call_ensures(score, (&q, &s), r2),
        q.len == 0 || !is_subsequence(q.lws(), s.lws()) || spec_acro_total(q, s) == q.len
            || spec_first_occ(q.lws(), s.lws(), 0) is Some,
    ensures
        r1 is Some == r2 is Some,
        match (r1, r2) {
            (Some(a), Some(b)) => a.score == b.score && a.matches@ == b.matches@,
            _ => true,
        },
{
    if q.len == 0 || !is_subsequence(q.lws(), s.lws()) {
    } else if spec_acro_total(q, s) == q.len {
        match (r1, r2) {
            (Some(a), Some(b)) => {
                let am = a.matches@.map_values(|x: usize| x as int);
                let bm = b.matches@.map_values(|x: usize| x as int);
                assert(am == bm);
                assert(a.matches@.len() == am.len());
                assert forall|k: int| 0 <= k < a.matches@.len() implies a.matches@[k]
                    == b.matches@[k] by {
                    assert(am[k] == bm[k]);
                }
                assert(a.matches@ =~= b.matches@);
            },
            _ => {},
        }
    } else {
        match (r1, r2) {
            (Some(a), Some(b)) => {
                assert forall|k: int| 0 <= k < a.matches@.len() implies a.matches@[k]
                    == b.matches@[k] by {}
                assert(a.matches@ =~= b.matches@);
            },
            _ => {},
        }
    }
}

/// Law: when the query's letters are exactly the first letters of each word
/// of a subject of at least two words, the acronym path fires: the result is
/// a match with a positive score whose positions are exactly those
/// word-start indices.
pub proof fn lemma_acronym_of_initials(q: Query, s: Subject, r: Option<Subject>)
    requires
        q.wf(),
        s.wf(),
        q.len <= crate::MAX_QUERY_LEN,
        s.len <= crate::MAX_SUBJECT_LEN,
        call_ensures(score, (&q, &s), r),
        q.len as int == word_starts(s.gs(), s.lws(), s.len as int).len(),
        q.len >= 2,
        forall|j: int|
            0 <= j < q.len ==> q.lws()[j] == s.lws()[word_starts(s.gs(), s.lws(), s.len as int)[j]],
        forall|j: int| 0 <= j < q.len ==> !is_separator_g(#[trigger] q.lws()[j]),
    ensures
        r is Some,
        match r {
            Some(ns) => {
                &&& ns.score >= 1
                &&& ns.matches@.map_values(|x: usize| x as int) == word_starts(
                    s.gs(),
                    s.lws(),
                    s.len as int,
                )
            },
            None => true,
        },
{
    let ws = word_starts(s.gs(), s.lws(), s.len as int);
    lemma_word_starts_props(s.gs(), s.lws(), s.len as int);
    assert(s.len >= 1);
    assert(spec_acro_empty().marks =~= ws.take(0));
    lemma_scan_follows_initials(q.gs(), q.lws(), s.gs(), s.lws(), ws, 0, spec_acro_empty());
    let scan = spec_acronym_of(q, s);
    assert(scan.letters == q.len && scan.seps == 0 && scan.marks == ws);
    assert(s.len >= 2) by {
        assert(ws[1] >= 1 && ws[1] < s.len);
    }
    assert(spec_acro_total(q, s) == q.len);
    lemma_embedding_is_subsequence(q.lws(), s.lws(), 0, 0, ws);
    assert(is_subsequence(q.lws(), s.lws()));
}

/// A settled exact-match position lies inside the subject with room for the
/// whole query.
proof fn lemma_exact_pos_in_range(q: Query, s: Subject, p: int)
    requires
        q.wf(),
        s.wf(),
        q.len >= 1,
        spec_exact_pos(q.lws(), s.gs(), s.lws()) == Some(p),
    ensures
        0 <= p,
        p + q.len <= s.len,
        spec_first_occ(q.lws(), s.lws(), 0) is Some,
{
    match spec_first_occ(q.lws(), s.lws(), 0) {
        None => {
            assert(false);
        },
        Some(p1) => {
            lemma_first_occ_in_range(q.lws(), s.lws(), 0, p1);
            if !is_word_start_at(s.gs(), s.lws(), p1) {
                match spec_first_occ(q.lws(), s.lws(), p1 + 1) {
                    Some(p2) => {
                        lemma_first_occ_in_range(q.lws(), s.lws(), p1 + 1, p2);
                    },
                    None => {},
                }
            }
        },
    }
}

/// Law: among two subjects holding the query as one contiguous occurrence
/// settled at the same position, with the same case agreement, the same
/// end-of-word alignment and the same length, the one whose occurrence sits
/// at a word start scores strictly higher.
pub proof fn lemma_start_boundary_preference(
    q: Query,
    a: Subject,
    b: Subject,
    ra: Option<Subject>,
    rb: Option<Subject>,
    p: int,
)
    requires
        q.wf(),
        a.wf(),
        b.wf(),
        q.len >= 1,
        q.len <= crate::MAX_QUERY_LEN,
        a.len <= crate::MAX_SUBJECT_LEN,
        b.len <= crate::MAX_SUBJECT_LEN,
        call_ensures(score, (&q, &a), ra),
        call_ensures(score, (&q, &b), rb),
        is_subsequence(q.lws(), a.lws()),
        is_subsequence(q.lws(), b.lws()),
        spec_acro_total(q, a) != q.len,
        spec_acro_total(q, b) != q.len,
        spec_exact_pos(q.lws(), a.gs(), a.lws()) == Some(p),
        spec_exact_pos(q.lws(), b.gs(), b.lws()) == Some(p),
        a.len == b.len,
        spec_count_same(q.gs(), a.gs(), p, q.len as int) == spec_count_same(
            q.gs(),
            b.gs(),
            p,
            q.len as int,
        ),
        is_word_end_at(a.gs(), a.lws(), p + q.len - 1, a.len as int) == is_word_end_at(
            b.gs(),
            b.lws(),
            p + q.len - 1,
            b.len as int,
        ),
        is_word_start_at(a.gs(), a.lws(), p),
        !is_word_start_at(b.gs(), b.lws(), p),
    ensures
        ra is Some,
        rb is Some,
        match (ra, rb) {
            (Some(x), Some(y)) => x.score > y.score,
            _ => false,
        },
{
    lemma_exact_pos_in_range(q, a, p);
    lemma_exact_pos_in_range(q, b, p);
    let n = q.len as int;
    let same = spec_count_same(q.gs(), a.gs(), p, n);
    lemma_count_same_bounds(q.gs(), a.gs(), p, n);
    let e = is_word_end_at(a.gs(), a.lws(), p + n - 1, a.len as int);
    lemma_pattern_start_monotone(n, n, same, e);
    lemma_pattern_bounds(n, n, same, true, e);
    lemma_pattern_bounds(n, n, same, false, e);
    lemma_quality_monotone(
        n,
        a.len as int,
        spec_score_pattern(n, n, same, true, e),
        spec_score_pattern(n, n, same, false, e),
        p,
        1,
    );
}

/// Law: among two subjects holding the query as one contiguous occurrence
/// settled at the same position, with the same case agreement, the same
/// start-of-word alignment and the same length, the one whose occurrence
/// ends at a word or string boundary scores strictly higher.
pub proof fn lemma_end_boundary_preference(
    q: Query,
    a: Subject,
    b: Subject,
    ra: Option<Subject>,
    rb: Option<Subject>,
    p: int,
)
    requires
        q.wf(),
        a.wf(),
        b.wf(),
        q.len >= 1,
        q.len <= crate::MAX_QUERY_LEN,
        a.len <= crate::MAX_SUBJECT_LEN,
        b.len <= crate::MAX_SUBJECT_LEN,
        call_ensures(score, (&q, &a), ra),
        call_ensures(score, (&q, &b), rb),
        is_subsequence(q.lws(), a.lws()),
        is_subsequence(q.lws(), b.lws()),
        spec_acro_total(q, a) != q.len,
        spec_acro_total(q, b) != q.len,
        spec_exact_pos(q.lws(), a.gs(), a.lws()) == Some(p),
        spec_exact_pos(q.lws(), b.gs(), b.lws()) == Some(p),
        a.len == b.len,
        spec_count_same(q.gs(), a.gs(), p, q.len as int) == spec_count_same(
            q.gs(),
            b.gs(),
            p,
            q.len as int,
        ),
        is_word_start_at(a.gs(), a.lws(), p) == is_word_start_at(b.gs(), b.lws(), p),
        is_word_end_at(a.gs(), a.lws(), p + q.len - 1, a.len as int),
        !is_word_end_at(b.gs(), b.lws(), p + q.len - 1, b.len as int),
    ensures
        ra is Some,
        rb is Some,
        match (ra, rb) {
            (Some(x), Some(y)) => x.score > y.score,
            _ => false,
        },
{
    lemma_exact_pos_in_range(q, a, p);
    lemma_exact_pos_in_range(q, b, p);
    let n = q.len as int;
    let same = spec_count_same(q.gs(), a.gs(), p, n);
    lemma_count_same_bounds(q.gs(), a.gs(), p, n);
    let st = is_word_start_at(a.gs(), a.lws(), p);
    lemma_pattern_end_monotone(n, n, same, st);
    lemma_pattern_bounds(n, n, same, st, true);
    lemma_pattern_bounds(n, n, same, st, false);
    lemma_quality_monotone(
        n,
        a.len as int,
        spec_score_pattern(n, n, same, st, true),
        spec_score_pattern(n, n, same, st, false),
        p,
        1,
    );
}

/// Law: among two subjects holding the query as equally good contiguous
/// occurrences at the same position, the shorter subject scores strictly
/// higher — the size penalty discounts extra length — as long as both
/// size-penalty denominators stay within the fixed-point resolution.
pub proof fn lemma_size_penalty_preference(
    q: Query,
    a: Subject,
    b: Subject,
    ra: Option<Subject>,
    rb: Option<Subject>,
    p: int,
)
    requires
        q.wf(),
        a.wf(),
        b.wf(),
        q.len >= 1,
        q.len <= crate::MAX_QUERY_LEN,
        a.len <= crate::MAX_SUBJECT_LEN,
        b.len <= crate::MAX_SUBJECT_LEN,
        call_ensures(score, (&q, &a), ra),
        call_ensures(score, (&q, &b), rb),
        is_subsequence(q.lws(), a.lws()),
        is_subsequence(q.lws(), b.lws()),
        spec_acro_total(q, a) != q.len,
        spec_acro_total(q, b) != q.len,
        spec_exact_pos(q.lws(), a.gs(), a.lws()) == Some(p),
        spec_exact_pos(q.lws(), b.gs(), b.lws()) == Some(p),
        a.len < b.len,
        spec_size_den(q.len as int, b.len as int) <= 143666,
        spec_count_same(q.gs(), a.gs(), p, q.len as int) == spec_count_same(
            q.gs(),
            b.gs(),
            p,
            q.len as int,
        ),
        is_word_start_at(a.gs(), a.lws(), p) == is_word_start_at(b.gs(), b.lws(), p),
        is_word_end_at(a.gs(), a.lws(), p + q.len - 1, a.len as int) == is_word_end_at(
            b.gs(),
            b.lws(),
            p + q.len - 1,
            b.len as int,
        ),
    ensures
        ra is Some,
        rb is Some,
        match (ra, rb) {
            (Some(x), Some(y)) => x.score > y.score,
            _ => false,
        },
{
    lemma_exact_pos_in_range(q, a, p);
    lemma_exact_pos_in_range(q, b, p);
    let n = q.len as int;
    let same = spec_count_same(q.gs(), a.gs(), p, n);
    lemma_count_same_bounds(q.gs(), a.gs(), p, n);
    let st = is_word_start_at(a.gs(), a.lws(), p);
    let e = is_word_end_at(a.gs(), a.lws(), p + n - 1, a.len as int);
    lemma_pattern_bounds(n, n, same, st, e);
    assert(n <= a.len);
    lemma_quality_size_monotone(
        n,
        a.len as int,
        b.len as int,
        spec_score_pattern(n, n, same, st, e),
        p,
    );
}

} // verus!

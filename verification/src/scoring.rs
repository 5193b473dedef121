use vstd::prelude::*;
use crate::types::{Query, Subject};
use crate::predicates::{is_separator_g, is_word_start_at, is_word_end_at, count_word_starts,
    is_word_separator, is_start_of_word, is_end_of_word, is_a_unique_acronym};
use vstd::arithmetic::div_mod::{lemma_div_is_ordered, lemma_div_multiples_vanish,
    lemma_fundamental_div_mod, lemma_fundamental_div_mod_converse};
use vstd::arithmetic::mul::{lemma_mul_upper_bound, lemma_mul_inequality};
use crate::MAX_QUERY_LEN;
use crate::MAX_SUBJECT_LEN;

verus! {

// ---------------------------------------------------------------------------
// Integer scoring arithmetic.
//
// Every quantity the scorers manipulate is an integer.  The one place a
// fraction appears — the size penalty TAU_SIZE / (TAU_SIZE + |m - n|) and the
// mean acronym position — is handled exactly: scores are reported in fixed
// point, scaled by SCORE_SCALE, and the division is performed last.
// ---------------------------------------------------------------------------

/// Weight of one unit of match quality against the position bonus.
pub const WM: u64 = 150;

/// Positions below this one earn a steep start-of-subject bonus.
pub const POS_BONUS: u64 = 20;

/// Subject-length difference at which the size penalty halves a score.
pub const TAU_SIZE: u64 = 150;

/// Fixed-point scale of every final score.
pub const SCORE_SCALE: u64 = 65536;

/// Largest value `spec_score_pattern` can reach under the query-length cap.
pub const PATTERN_MAX: u64 = 16850974;

/// Largest value one consumed character can contribute:
/// 500 + 150 * (PATTERN_MAX + 10).
pub const CHAR_MAX: u64 = 2527648100;

/// Largest value an accumulated alignment score can reach:
/// 4096 * CHAR_MAX.
pub const ROW_MAX: u64 = 10353246617600;

/// Shared quality formula of the acronym, exact and consecutive scorers:
/// rewards the matched span super-linearly, with bonuses for case identity,
/// start-of-word and end-of-word alignment, and for covering the full query.
pub open spec fn spec_score_pattern(count: int, len: int, same_case: int, start: bool, end: bool) -> int {
    let bonus0 = 6 + if same_case == count { 2int } else { 0int }
        + if start { 3int } else { 0int }
        + if end { 1int } else { 0int };
    let bonus = bonus0 + if count == len && end { 1int } else { 0int };
    let sz = count + if count == len && start {
        if same_case == count { 2int } else { 1int }
    } else { 0int };
    same_case + sz * (sz + bonus)
}

/// Position bonus: steep inside the first `POS_BONUS` graphemes, flat and
/// fading to nothing afterwards.
pub open spec fn spec_score_position(pos: int) -> int {
    if pos < 20 {
        100 + (20 - pos) * (20 - pos)
    } else if pos <= 120 {
        120 - pos
    } else {
        0
    }
}

/// `TAU_SIZE + |m - n|`: the denominator of the size penalty.
pub open spec fn spec_size_den(n: int, m: int) -> int {
    150 + if m >= n { m - n } else { n - m }
}

/// Position-bonus numerator for a mean position `sum / c`, multiplied by
/// `c * c` so it stays an integer.
pub open spec fn spec_pos_num(sum: int, c: int) -> int {
    if sum < 20 * c {
        100 * c * c + (20 * c - sum) * (20 * c - sum)
    } else if sum <= 120 * c {
        (120 * c - sum) * c
    } else {
        0
    }
}

/// The final fixed-point score of a match wholly explained by a quality value
/// `q` sitting at mean position `sum / c`: `2n (WM q + position bonus)`
/// scaled by the size penalty and by `SCORE_SCALE`.
pub open spec fn spec_quality(n: int, m: int, q: int, sum: int, c: int) -> int {
    (2 * n * (150 * q * c * c + spec_pos_num(sum, c)) * 150 * 65536) / (c * c * spec_size_den(n, m))
}

/// A raw alignment score scaled by the size penalty, in fixed point.
pub open spec fn spec_scale_size(raw: int, n: int, m: int) -> int {
    (raw * 150 * 65536) / spec_size_den(n, m)
}

/// Shared quality formula over a matched span.
pub fn score_pattern(count: usize, len: usize, same_case: usize, start: bool, end: bool) -> (r: u64)
    requires
        1 <= count <= len,
        same_case <= count,
        len <= MAX_QUERY_LEN,
    ensures
        r == spec_score_pattern(count as int, len as int, same_case as int, start, end),
        1 <= r <= PATTERN_MAX,
{
    let mut bonus: u64 = 6;
    if same_case == count {
        bonus += 2;
    }
    if start {
        bonus += 3;
    }
    let mut sz: u64 = count as u64;
    if end {
        bonus += 1;
    }
    if count == len {
        if start {
            if same_case == count {
                sz += 2;
            } else {
                sz += 1;
            }
        }
        if end {
            bonus += 1;
        }
    }
    proof {
        assert(sz <= 4098 && bonus <= 13);
        assert(sz * (sz + bonus) <= 4098 * 4111) by (nonlinear_arith)
            requires sz <= 4098 && bonus <= 13,
        ;
        assert(sz * (sz + bonus) >= 1) by (nonlinear_arith)
            requires sz >= 1 && bonus >= 6,
        ;
    }
    same_case as u64 + sz * (sz + bonus)
}

/// Position bonus of one subject index.
pub fn score_position(pos: usize) -> (r: u64)
    ensures
        r == spec_score_position(pos as int),
        r <= 500,
{
    if pos < POS_BONUS as usize {
        let d: u64 = (20 - pos) as u64;
        proof {
            lemma_mul_upper_bound(d as int, 20, d as int, 20);
        }
        100 + d * d
    } else if pos <= 120 {
        (120 - pos) as u64
    } else {
        0
    }
}

/// Bonus of one consumed character: its position bonus, plus the best of the
/// acronym context and the consecutive-run context, weighted by `WM`; a
/// word-start match adds a flat bonus of ten quality units.
pub open spec fn spec_score_character(pos: int, start: bool, acro: int, csc: int) -> int {
    spec_score_position(pos) + if start {
        150 * (if acro > csc { acro } else { csc } + 10)
    } else {
        150 * csc
    }
}

pub fn score_character(pos: usize, start: bool, acro_score: u64, csc_score: u64) -> (r: u64)
    requires
        acro_score <= PATTERN_MAX,
        csc_score <= PATTERN_MAX,
    ensures
        r == spec_score_character(pos as int, start, acro_score as int, csc_score as int),
        r <= CHAR_MAX,
{
    let pos_bonus = score_position(pos);
    if start {
        let best = if acro_score > csc_score {
            acro_score
        } else {
            csc_score
        };
        pos_bonus + WM * (best + 10)
    } else {
        pos_bonus + WM * csc_score
    }
}

/// The final fixed-point score of a fully explained match; used by the
/// acronym path (mean position `sum_pos / count`) and the exact path
/// (`count == 1`, `sum_pos` the occurrence index).
#[verifier::rlimit(100)]
pub fn score_quality(n: usize, m: usize, quality: u64, sum_pos: u64, count: usize) -> (r: u64)
    requires
        1 <= n <= MAX_QUERY_LEN,
        m <= MAX_SUBJECT_LEN,
        1 <= count <= n,
        quality <= PATTERN_MAX,
        sum_pos <= count * m,
    ensures
        r == spec_quality(n as int, m as int, quality as int, sum_pos as int, count as int),
        quality >= 1 ==> r >= 1,
{
    let n_w = n as u128;
    let c = count as u128;
    let q = quality as u128;
    let s = sum_pos as u128;
    proof {
        lemma_mul_upper_bound(c as int, 4096, c as int, 4096);
        lemma_mul_inequality(1, c as int, c as int);
    }
    let c2 = c * c;
    let diff: u128 = if m >= n {
        (m - n) as u128
    } else {
        (n - m) as u128
    };
    let tw = 20 * c;
    let pos_num: u128;
    if s < tw {
        let d = tw - s;
        proof {
            lemma_mul_upper_bound(d as int, 81920, d as int, 81920);
            lemma_mul_upper_bound(d as int, 20 * (c as int), d as int, 20 * (c as int));
            assert((20 * (c as int)) * (20 * (c as int)) == 400 * ((c as int) * (c as int)))
                by (nonlinear_arith);
            assert(100 * ((c as int) * (c as int)) == 100 * (c as int) * (c as int))
                by (nonlinear_arith);
        }
        pos_num = 100 * c2 + d * d;
        proof {
            assert(pos_num as int == spec_pos_num(s as int, c as int));
            assert(pos_num <= 500 * c2);
        }
    } else {
        let hc = 120 * c;
        if s <= hc {
            let d = hc - s;
            proof {
                lemma_mul_upper_bound(d as int, 120 * (c as int), c as int, c as int);
                assert((120 * (c as int)) * (c as int) == 120 * ((c as int) * (c as int)))
                    by (nonlinear_arith);
            }
            pos_num = d * c;
            proof {
                assert(pos_num as int == spec_pos_num(s as int, c as int));
                assert(pos_num <= 500 * c2);
            }
        } else {
            pos_num = 0;
            proof {
                assert(pos_num as int == spec_pos_num(s as int, c as int));
            }
        }
    }
    proof {
        lemma_mul_upper_bound(150 * (q as int), 150int * 16850974int, c2 as int, 16777216int);
        assert(150 * (q as int) * (c as int) * (c as int) == 150 * (q as int) * ((c as int) * (
        c as int))) by (nonlinear_arith);
    }
    let inner = 150 * q * c2 + pos_num;
    proof {
        lemma_mul_upper_bound(2 * (n_w as int), 8192int, inner as int, 42408048394600448int);
    }
    let num = 2 * n_w * inner * 150 * 65536;
    proof {
        lemma_mul_upper_bound(c2 as int, 16777216int, 150 + diff as int, 150int + 1048576int);
        lemma_mul_inequality(1, c2 as int, 150 + diff as int);
    }
    let den = c2 * (150 + diff);
    let wide = num / den;
    proof {
        let ni = n_w as int;
        let qi = q as int;
        let b: int = 2 * ni * (150 * qi + 500) * 65536;
        assert(inner as int <= (c2 as int) * (150 * qi + 500)) by (nonlinear_arith)
            requires
                inner as int == 150 * qi * (c2 as int) + (pos_num as int),
                pos_num as int <= 500 * (c2 as int),
                qi >= 0,
                c2 as int >= 1,
        ;
        assert(num as int <= b * (den as int)) by (nonlinear_arith)
            requires
                num as int == 2 * ni * (inner as int) * 150 * 65536,
                den as int == (c2 as int) * (150 + diff as int),
                inner as int <= (c2 as int) * (150 * qi + 500),
                b == 2 * ni * (150 * qi + 500) * 65536,
                diff as int >= 0,
                c2 as int >= 1,
                ni >= 1,
                inner as int >= 0,
                qi >= 0,
        ;
        assert(b <= 1357019935355699200int) by (nonlinear_arith)
            requires
                b == 2 * ni * (150 * qi + 500) * 65536,
                1 <= ni <= 4096,
                0 <= qi <= 16850974,
        ;
        lemma_div_is_ordered(num as int, b * (den as int), den as int);
        lemma_div_multiples_vanish(b, den as int);
        assert((den as int) * b == b * (den as int)) by (nonlinear_arith);
        assert(wide as int <= b);
        assert(wide <= 1357019935355699200u128);
        assert(num as int == 2 * (n as int) * (150 * (quality as int) * (count as int) * (
        count as int) + spec_pos_num(sum_pos as int, count as int)) * 150 * 65536)
            by (nonlinear_arith)
            requires
                num as int == 2 * (n_w as int) * (inner as int) * 150 * 65536,
                inner as int == 150 * (q as int) * (c2 as int) + (pos_num as int),
                c2 as int == (c as int) * (c as int),
                pos_num as int == spec_pos_num(sum_pos as int, count as int),
                n_w as int == n as int,
                q as int == quality as int,
                c as int == count as int,
        ;
        assert(den as int == (count as int) * (count as int) * spec_size_den(n as int, m as int))
            by (nonlinear_arith)
            requires
                den as int == (c2 as int) * (150 + diff as int),
                c2 as int == (c as int) * (c as int),
                c as int == count as int,
                150 + diff as int == spec_size_den(n as int, m as int),
        ;
        if quality >= 1 {
            assert(num as int >= den as int) by (nonlinear_arith)
                requires
                    num as int == 2 * ni * (inner as int) * 150 * 65536,
                    den as int == (c2 as int) * (150 + diff as int),
                    inner as int >= 150 * qi * (c2 as int),
                    qi >= 1,
                    ni >= 1,
                    c2 as int >= 1,
                    0 <= diff as int <= 1048576,
            ;
            lemma_div_is_ordered(den as int, num as int, den as int);
            lemma_div_multiples_vanish(1, den as int);
        }
    }
    wide as u64
}

/// Scales a raw alignment score by the size penalty, into fixed point.
pub fn scale_by_size(raw: u64, n: usize, m: usize) -> (r: u64)
    requires
        raw <= ROW_MAX,
        n <= MAX_QUERY_LEN,
        m <= MAX_SUBJECT_LEN,
    ensures
        r == spec_scale_size(raw as int, n as int, m as int),
        raw >= 1 && spec_size_den(n as int, m as int) <= 150 * 65536 ==> r >= 1,
        raw == 0 ==> r == 0,
{
    let raw_w = raw as u128;
    let diff: u128 = if m >= n {
        (m - n) as u128
    } else {
        (n - m) as u128
    };
    let num = raw_w * 150 * 65536;
    let den = 150 + diff;
    let wide = num / den;
    proof {
        let ri = raw_w as int;
        let b: int = ri * 65536;
        assert(num as int <= b * (den as int)) by (nonlinear_arith)
            requires
                num as int == ri * 150 * 65536,
                den as int == 150 + diff as int,
                b == ri * 65536,
                diff as int >= 0,
                ri >= 0,
        ;
        assert(b <= 10353246617600 * 65536) by (nonlinear_arith)
            requires
                b == ri * 65536,
                0 <= ri <= 10353246617600,
        ;
        lemma_div_is_ordered(num as int, b * (den as int), den as int);
        lemma_div_multiples_vanish(b, den as int);
        assert((den as int) * b == b * (den as int)) by (nonlinear_arith);
        assert(wide as int <= b);
        if raw >= 1 && spec_size_den(n as int, m as int) <= 150 * 65536 {
            assert(num as int >= den as int) by (nonlinear_arith)
                requires
                    num as int == ri * 150 * 65536,
                    ri >= 1,
                    den as int <= 150 * 65536,
            ;
            lemma_div_is_ordered(den as int, num as int, den as int);
            lemma_div_multiples_vanish(1, den as int);
        }
        if raw == 0 {
            lemma_div_multiples_vanish(0, den as int);
            assert(num as int == 0) by (nonlinear_arith)
                requires num as int == ri * 150 * 65536 && ri == 0,
            ;
        }
    }
    wide as u64
}

// ---------------------------------------------------------------------------
// Occurrence search shared by the acronym and exact scorers.
// ---------------------------------------------------------------------------

/// The first position at or after `from` whose lowercase grapheme equals `g`.
pub open spec fn spec_index_from(gls: Seq<Seq<char>>, g: Seq<char>, from: int) -> Option<int>
    decreases gls.len() - from,
    when 0 <= from <= gls.len()
{
    if from >= gls.len() {
        None
    } else if gls[from] == g {
        Some(from)
    } else {
        spec_index_from(gls, g, from + 1)
    }
}

/// The first word-start position at or after `from` whose lowercase grapheme
/// equals `g`.
pub open spec fn spec_index_acronym(
    gs: Seq<Seq<char>>,
    gls: Seq<Seq<char>>,
    g: Seq<char>,
    from: int,
) -> Option<int>
    decreases gls.len() - from,
    when 0 <= from <= gls.len()
{
    if from >= gls.len() {
        None
    } else if gls[from] == g && is_word_start_at(gs, gls, from) {
        Some(from)
    } else {
        spec_index_acronym(gs, gls, g, from + 1)
    }
}

/// Finds the next subject position holding exactly this lowercase grapheme.
fn index_of_grapheme(subject: &Subject, g: &String, from: usize) -> (r: Option<usize>)
    requires
        subject.wf(),
        from <= subject.len,
    ensures
        match r {
            Some(j) => from <= j < subject.len && spec_index_from(subject.lws(), g@, from as int)
                == Some(j as int),
            None => spec_index_from(subject.lws(), g@, from as int) is None,
        },
{
    let m = subject.len;
    let mut i: usize = from;
    while i < m
        invariant
            from <= i <= m,
            subject.wf(),
            m == subject.len,
            spec_index_from(subject.lws(), g@, from as int) == spec_index_from(
                subject.lws(),
                g@,
                i as int,
            ),
        decreases m - i,
    {
        if subject.graphemes_lw[i] == *g {
            return Some(i);
        }
        i += 1;
    }
    None
}

/// Finds the next subject word start holding this lowercase grapheme.
fn index_of_acronym(subject: &Subject, g: &String, from: usize) -> (r: Option<usize>)
    requires
        subject.wf(),
        from <= subject.len,
    ensures
        match r {
            Some(j) => from <= j < subject.len && is_word_start_at(
                subject.gs(),
                subject.lws(),
                j as int,
            ) && spec_index_acronym(subject.gs(), subject.lws(), g@, from as int) == Some(
                j as int,
            ),
            None => spec_index_acronym(subject.gs(), subject.lws(), g@, from as int) is None,
        },
{
    let m = subject.len;
    let mut i: usize = from;
    while i < m
        invariant
            from <= i <= m,
            subject.wf(),
            m == subject.len,
            spec_index_acronym(subject.gs(), subject.lws(), g@, from as int) == spec_index_acronym(
                subject.gs(),
                subject.lws(),
                g@,
                i as int,
            ),
        decreases m - i,
    {
        if subject.graphemes_lw[i] == *g {
            if is_start_of_word(subject, i) {
                return Some(i);
            }
        }
        i += 1;
    }
    None
}

// ---------------------------------------------------------------------------
// Acronym scorer.
// ---------------------------------------------------------------------------

/// One pass of the acronym walk, as a ghost record: letters matched,
/// separators consumed for free, the summed letter positions, the number of
/// case-exact letters, and every consumed subject position in order.
pub ghost struct AcroScan {
    pub letters: int,
    pub seps: int,
    pub sum: int,
    pub same: int,
    pub marks: Seq<int>,
}

/// The acronym walk: for each query grapheme in turn, a separator is looked
/// up anywhere at or after the cursor, any other grapheme only at a word
/// start; the cursor never rewinds, and the first failure ends the walk.
pub open spec fn spec_acronym_scan(
    qg: Seq<Seq<char>>,
    qlw: Seq<Seq<char>>,
    sg: Seq<Seq<char>>,
    slw: Seq<Seq<char>>,
    qi: int,
    cursor: int,
    acc: AcroScan,
) -> AcroScan
    decreases qlw.len() - qi,
    when 0 <= qi <= qlw.len() && 0 <= cursor <= slw.len()
{
    if qi >= qlw.len() {
        acc
    } else if is_separator_g(qlw[qi]) {
        match spec_index_from(slw, qlw[qi], cursor) {
            None => acc,
            Some(j) => spec_acronym_scan(
                qg,
                qlw,
                sg,
                slw,
                qi + 1,
                j + 1,
                AcroScan {
                    seps: acc.seps + 1,
                    marks: acc.marks.push(j),
                    ..acc
                },
            ),
        }
    } else {
        match spec_index_acronym(sg, slw, qlw[qi], cursor) {
            None => acc,
            Some(j) => spec_acronym_scan(
                qg,
                qlw,
                sg,
                slw,
                qi + 1,
                j + 1,
                AcroScan {
                    letters: acc.letters + 1,
                    sum: acc.sum + j,
                    same: acc.same + if qg[qi] == sg[j] { 1int } else { 0int },
                    marks: acc.marks.push(j),
                    ..acc
                },
            ),
        }
    }
}

pub open spec fn spec_acro_empty() -> AcroScan {
    AcroScan { letters: 0, seps: 0, sum: 0, same: 0, marks: Seq::empty() }
}

/// What the acronym walk yields on a whole query and subject.
pub open spec fn spec_acronym_of(q: Query, s: Subject) -> AcroScan {
    spec_acronym_scan(q.gs(), q.lws(), s.gs(), s.lws(), 0, 0, spec_acro_empty())
}


/// What the acronym result's consumed-grapheme count is after the scorer's
/// own degenerate cases are folded in: zero unless at least two letters were
/// pinned on a query and subject of at least two graphemes each.
pub open spec fn spec_acro_total(q: Query, s: Subject) -> int {
    if q.len < 2 || s.len < 2 {
        0
    } else {
        let scan = spec_acronym_of(q, s);
        if scan.letters < 2 {
            0
        } else {
            scan.letters + scan.seps
        }
    }
}

/// Result of the acronym scorer.  `count` totals letters and consumed
/// separators; `sum_pos` over `count_letters` is the exact mean position the
/// quality formula uses.
pub struct AcronymResult {
    pub score: u64,
    pub sum_pos: u64,
    pub count_letters: usize,
    pub count: usize,
    pub matches: Vec<usize>,
}

impl AcronymResult {
    /// No acronym evidence at all.
    pub open spec fn is_empty_result(&self) -> bool {
        &&& self.score == 0
        &&& self.sum_pos == 0
        &&& self.count_letters == 0
        &&& self.count == 0
        &&& self.matches@.len() == 0
    }

    pub fn empty() -> (r: AcronymResult)
        ensures
            r.is_empty_result(),
    {
        AcronymResult { score: 0, sum_pos: 0, count_letters: 0, count: 0, matches: Vec::new() }
    }
}

/// Walks query and subject in lockstep looking for query letters at word
/// starts, counting separators as freely consumed.  Single-grapheme queries
/// or subjects, and walks that pin fewer than two letters, yield the empty
/// result.
pub fn score_acronyms(query: &Query, subject: &Subject) -> (r: AcronymResult)
    requires
        query.wf(),
        subject.wf(),
        query.len <= crate::MAX_QUERY_LEN,
        subject.len <= crate::MAX_SUBJECT_LEN,
    ensures
        r.matches@.len() == r.count,
        r.count_letters <= r.count <= query.len,
        forall|k: int| 0 <= k < r.matches@.len() ==> r.matches@[k] < subject.len,
        forall|k1: int, k2: int|
            0 <= k1 < k2 < r.matches@.len() ==> r.matches@[k1] < r.matches@[k2],
        query.len < 2 || subject.len < 2 ==> r.is_empty_result(),
        r.count_letters < 2 ==> r.is_empty_result(),
        r.count_letters >= 2 ==> {
            let scan = spec_acronym_of(*query, *subject);
            &&& r.count_letters == scan.letters
            &&& r.count == scan.letters + scan.seps
            &&& r.sum_pos == scan.sum
            &&& r.matches@.map_values(|x: usize| x as int) == scan.marks
            &&& r.score == spec_score_pattern(
                scan.letters,
                query.len as int,
                scan.same,
                true,
                scan.letters == query.len && scan.letters == count_word_starts(
                    subject.gs(),
                    subject.lws(),
                    subject.len as int,
                ),
            )
            &&& r.score >= 1
        },
        r.score <= PATTERN_MAX,
        r.sum_pos <= (r.count_letters as int) * (subject.len as int),
        r.count as int == spec_acro_total(*query, *subject),
{
    let n = query.len;
    let m = subject.len;
    if n < 2 || m < 2 {
        return AcronymResult::empty();
    }
    let mut letters: usize = 0;
    let mut seps: usize = 0;
    let mut sum: u64 = 0;
    let mut same: usize = 0;
    let mut marks: Vec<usize> = Vec::new();
    let mut cursor: usize = 0;
    let mut qi: usize = 0;
    let mut stopped = false;
    let ghost goal = spec_acronym_of(*query, *subject);
    proof {
        assert(marks@.map_values(|x: usize| x as int) =~= Seq::<int>::empty());
    }
    while qi < n && !stopped
        invariant
            query.wf(),
            subject.wf(),
            n == query.len,
            m == subject.len,
            2 <= n <= crate::MAX_QUERY_LEN,
            2 <= m <= crate::MAX_SUBJECT_LEN,
            qi <= n,
            cursor <= m,
            letters + seps == qi || (stopped && letters + seps < qi),
            letters + seps <= qi,
            marks@.len() == letters + seps,
            same <= letters,
            sum <= (letters as int) * (m as int),
            forall|k: int| 0 <= k < marks@.len() ==> marks@[k] < cursor,
            forall|k1: int, k2: int| 0 <= k1 < k2 < marks@.len() ==> marks@[k1] < marks@[k2],
            goal == spec_acronym_of(*query, *subject),
            !stopped ==> goal == spec_acronym_scan(
                query.gs(),
                query.lws(),
                subject.gs(),
                subject.lws(),
                qi as int,
                cursor as int,
                AcroScan {
                    letters: letters as int,
                    seps: seps as int,
                    sum: sum as int,
                    same: same as int,
                    marks: marks@.map_values(|x: usize| x as int),
                },
            ),
            stopped ==> goal == (AcroScan {
                letters: letters as int,
                seps: seps as int,
                sum: sum as int,
                same: same as int,
                marks: marks@.map_values(|x: usize| x as int),
            }),
        decreases n - qi + if stopped { 0int } else { 1int },
    {
        let ghost marks_before = marks@.map_values(|x: usize| x as int);
        if is_word_separator(query.graphemes_lw[qi].as_str()) {
            match index_of_grapheme(subject, &query.graphemes_lw[qi], cursor) {
                Some(j) => {
                    seps += 1;
                    marks.push(j);
                    cursor = j + 1;
                    proof {
                        assert(marks@.map_values(|x: usize| x as int) =~= marks_before.push(
                            j as int,
                        ));
                    }
                },
                None => {
                    stopped = true;
                },
            }
        } else {
            match index_of_acronym(subject, &query.graphemes_lw[qi], cursor) {
                Some(j) => {
                    letters += 1;
                    proof {
                        assert((letters as int - 1) * (m as int) + (m as int) == (letters as int)
                            * (m as int)) by (nonlinear_arith);
                        assert((letters as int) * (m as int) <= 4096 * 1048576)
                            by (nonlinear_arith)
                            requires letters <= 4096 && m <= 1048576,
                        ;
                    }
                    sum += j as u64;
                    if query.graphemes[qi] == subject.graphemes[j] {
                        same += 1;
                    }
                    marks.push(j);
                    cursor = j + 1;
                    proof {
                        assert(marks@.map_values(|x: usize| x as int) =~= marks_before.push(
                            j as int,
                        ));
                        assert(sum <= (letters as int) * (m as int)) by (nonlinear_arith)
                            requires
                                sum as int <= (letters as int - 1) * (m as int) + (m as int),
                                letters >= 1,
                        ;
                    }
                },
                None => {
                    stopped = true;
                },
            }
        }
        if !stopped {
            qi += 1;
        }
    }
    proof {
        assert(goal == (AcroScan {
            letters: letters as int,
            seps: seps as int,
            sum: sum as int,
            same: same as int,
            marks: marks@.map_values(|x: usize| x as int),
        }));
    }
    if letters < 2 {
        return AcronymResult::empty();
    }
    let full_word = if letters == n && seps == 0 {
        is_a_unique_acronym(subject, letters)
    } else {
        false
    };
    let score = score_pattern(letters, n, same, true, full_word);
    AcronymResult {
        score,
        sum_pos: sum,
        count_letters: letters,
        count: letters + seps,
        matches: marks,
    }
}

// ---------------------------------------------------------------------------
// Exact-match scorer.
// ---------------------------------------------------------------------------

/// The query occurs contiguously at subject position `i`.
pub open spec fn occurs_at(q: Seq<Seq<char>>, s: Seq<Seq<char>>, i: int) -> bool {
    &&& 0 <= i
    &&& i + q.len() <= s.len()
    &&& forall|k: int| 0 <= k < q.len() ==> s[i + k] == #[trigger] q[k]
}

/// The first contiguous occurrence of the query at or after `from`.
pub open spec fn spec_first_occ(q: Seq<Seq<char>>, s: Seq<Seq<char>>, from: int) -> Option<int>
    decreases s.len() - from,
    when 0 <= from <= s.len()
{
    if from + q.len() > s.len() {
        None
    } else if occurs_at(q, s, from) {
        Some(from)
    } else {
        spec_first_occ(q, s, from + 1)
    }
}

/// How many of the first `k` graphemes of the occurrence at `pos` match the
/// query in original case too.
pub open spec fn spec_count_same(qg: Seq<Seq<char>>, sg: Seq<Seq<char>>, pos: int, k: int) -> int
    decreases k,
{
    if k <= 0 {
        0
    } else {
        spec_count_same(qg, sg, pos, k - 1) + if qg[k - 1] == sg[pos + k - 1] {
            1int
        } else {
            0int
        }
    }
}

/// The occurrence the exact scorer settles on: the first one, unless it does
/// not sit at a word start and the next occurrence does — at most two
/// candidate positions are ever tried.
pub open spec fn spec_exact_pos(
    qlw: Seq<Seq<char>>,
    sg: Seq<Seq<char>>,
    slw: Seq<Seq<char>>,
) -> Option<int> {
    match spec_first_occ(qlw, slw, 0) {
        None => None,
        Some(p1) => if is_word_start_at(sg, slw, p1) {
            Some(p1)
        } else {
            match spec_first_occ(qlw, slw, p1 + 1) {
                Some(p2) => if is_word_start_at(sg, slw, p2) {
                    Some(p2)
                } else {
                    Some(p1)
                },
                None => Some(p1),
            }
        },
    }
}

/// A single forward scan for the first contiguous, case-insensitive
/// occurrence of the whole query, starting at `from`.
pub fn sequence_position(query: &Query, subject: &Subject, from: usize) -> (r: Option<usize>)
    requires
        query.wf(),
        subject.wf(),
        query.len >= 1,
        from <= subject.len,
    ensures
        match r {
            Some(i) => from <= i && i + query.len <= subject.len && occurs_at(
                query.lws(),
                subject.lws(),
                i as int,
            ) && spec_first_occ(query.lws(), subject.lws(), from as int) == Some(i as int),
            None => spec_first_occ(query.lws(), subject.lws(), from as int) is None,
        },
{
    let n = query.len;
    let m = subject.len;
    if n > m {
        return None;
    }
    let mut i: usize = from;
    while i <= m - n
        invariant
            query.wf(),
            subject.wf(),
            n == query.len,
            m == subject.len,
            n >= 1,
            n <= m,
            from <= i <= m,
            spec_first_occ(query.lws(), subject.lws(), from as int) == spec_first_occ(
                query.lws(),
                subject.lws(),
                i as int,
            ),
        decreases m - i,
    {
        let mut k: usize = 0;
        let mut all = true;
        while k < n && all
            invariant
                query.wf(),
                subject.wf(),
                n == query.len,
                m == subject.len,
                k <= n,
                i + n <= m,
                all ==> forall|kk: int|
                    0 <= kk < k ==> subject.lws()[i + kk] == #[trigger] query.lws()[kk],
                !all ==> !occurs_at(query.lws(), subject.lws(), i as int),
            decreases n - k + if all { 1int } else { 0int },
        {
            if query.graphemes_lw[k] == subject.graphemes_lw[i + k] {
                k += 1;
            } else {
                proof {
                    assert(subject.lws()[i + k] != query.lws()[k as int]);
                }
                all = false;
            }
        }
        if all {
            proof {
                assert(occurs_at(query.lws(), subject.lws(), i as int));
            }
            return Some(i);
        }
        i += 1;
    }
    None
}

/// Result of the exact-match scorer: the score and the contiguous run of
/// consumed subject positions.
pub struct ExactResult {
    pub score: u64,
    pub matches: Vec<usize>,
}

/// The full exact score of the occurrence settled on at `pos`.
pub open spec fn spec_exact_score(q: Query, s: Subject, pos: int) -> int {
    let n = q.len as int;
    let m = s.len as int;
    spec_quality(
        n,
        m,
        spec_score_pattern(
            n,
            n,
            spec_count_same(q.gs(), s.gs(), pos, n),
            is_word_start_at(s.gs(), s.lws(), pos),
            is_word_end_at(s.gs(), s.lws(), pos + n - 1, m),
        ),
        pos,
        1,
    )
}

/// Finds the query as one contiguous run inside the subject, preferring an
/// occurrence that sits at a word start when one of the first two does.
pub fn score_exact_match(query: &Query, subject: &Subject) -> (r: Option<ExactResult>)
    requires
        query.wf(),
        subject.wf(),
        1 <= query.len <= crate::MAX_QUERY_LEN,
        subject.len <= crate::MAX_SUBJECT_LEN,
    ensures
        match r {
            None => spec_first_occ(query.lws(), subject.lws(), 0) is None,
            Some(res) => {
                let p = spec_exact_pos(query.lws(), subject.gs(), subject.lws());
                &&& p is Some
                &&& occurs_at(query.lws(), subject.lws(), p->Some_0)
                &&& res.matches@.len() == query.len
                &&& forall|k: int|
                    0 <= k < res.matches@.len() ==> res.matches@[k] == p->Some_0 + k
                &&& res.score == spec_exact_score(*query, *subject, p->Some_0)
                &&& res.score >= 1
            },
        },
{
    let n = query.len;
    let m = subject.len;
    let first = sequence_position(query, subject, 0);
    match first {
        None => None,
        Some(p1) => {
            let mut pos = p1;
            let mut start = is_start_of_word(subject, p1);
            if !start {
                match sequence_position(query, subject, p1 + 1) {
                    Some(p2) => {
                        if is_start_of_word(subject, p2) {
                            pos = p2;
                            start = true;
                        }
                    },
                    None => {},
                }
            }
            proof {
                assert(Some(pos as int) == spec_exact_pos(
                    query.lws(),
                    subject.gs(),
                    subject.lws(),
                ));
            }
            let mut same: usize = 0;
            let mut k: usize = 0;
            while k < n
                invariant
                    query.wf(),
                    subject.wf(),
                    n == query.len,
                    m == subject.len,
                    k <= n,
                    same <= k,
                    pos + n <= m,
                    same == spec_count_same(query.gs(), subject.gs(), pos as int, k as int),
                decreases n - k,
            {
                if query.graphemes[k] == subject.graphemes[pos + k] {
                    same += 1;
                }
                k += 1;
            }
            let end = is_end_of_word(subject, pos + n - 1);
            let quality = score_pattern(n, n, same, start, end);
            let score = score_quality(n, m, quality, pos as u64, 1);
            let mut matches: Vec<usize> = Vec::new();
            let mut j: usize = 0;
            while j < n
                invariant
                    j <= n,
                    pos + n <= m,
                    matches@.len() == j,
                    forall|kk: int| 0 <= kk < j ==> matches@[kk] == pos + kk,
                decreases n - j,
            {
                matches.push(pos + j);
                j += 1;
            }
            Some(ExactResult { score, matches })
        },
    }
}

// ---------------------------------------------------------------------------
// Consecutive-run scorer.
// ---------------------------------------------------------------------------


/// Length of the unbroken run of lowercase-equal graphemes starting at one
/// confirmed match, counting that first pair and capped at `cap`.
pub open spec fn spec_run_len(
    qlw: Seq<Seq<char>>,
    slw: Seq<Seq<char>>,
    qi: int,
    si: int,
    cap: int,
) -> int
    decreases cap,
{
    if cap <= 1 {
        1
    } else if qlw[qi + 1] == slw[si + 1] {
        1 + spec_run_len(qlw, slw, qi + 1, si + 1, cap - 1)
    } else {
        1
    }
}

/// How many of the first `len` grapheme pairs of the run match in original
/// case too.
pub open spec fn spec_run_same(
    qg: Seq<Seq<char>>,
    sg: Seq<Seq<char>>,
    qi: int,
    si: int,
    len: int,
) -> int
    decreases len,
{
    if len <= 0 {
        0
    } else {
        spec_run_same(qg, sg, qi, si, len - 1) + if qg[qi + len - 1] == sg[si + len - 1] {
            1int
        } else {
            0int
        }
    }
}

/// The run can reach at most to the end of the query or of the subject.
pub open spec fn spec_consecutive_cap(n: int, m: int, qi: int, si: int) -> int {
    if m - si < n - qi {
        m - si
    } else {
        n - qi
    }
}

/// What the consecutive-run scorer returns at one confirmed match: the
/// fast-path value for a run of one, else the shared pattern quality of the
/// whole run.
pub open spec fn spec_score_consecutives(q: Query, s: Subject, qi: int, si: int, start: bool) -> int {
    let cap = spec_consecutive_cap(q.len as int, s.len as int, qi, si);
    let k = spec_run_len(q.lws(), s.lws(), qi, si, cap);
    if k == 1 {
        1 + 2 * spec_run_same(q.gs(), s.gs(), qi, si, 1)
    } else {
        spec_score_pattern(
            k,
            q.len as int,
            spec_run_same(q.gs(), s.gs(), qi, si, k),
            start,
            is_word_end_at(s.gs(), s.lws(), si + k - 1, s.len as int),
        )
    }
}

/// Scores the run of consecutive lowercase-equal graphemes that begins at a
/// confirmed match of query and subject, rewarding longer unbroken runs
/// super-linearly.  A run of one keeps a small fast-path value.
pub fn score_consecutives(
    query: &Query,
    subject: &Subject,
    query_index: usize,
    subject_index: usize,
    start: bool,
) -> (r: u64)
    requires
        query.wf(),
        subject.wf(),
        query_index < query.len,
        subject_index < subject.len,
        query.len <= crate::MAX_QUERY_LEN,
        subject.len <= crate::MAX_SUBJECT_LEN,
    ensures
        r == spec_score_consecutives(
            *query,
            *subject,
            query_index as int,
            subject_index as int,
            start,
        ),
        1 <= r <= PATTERN_MAX,
{
    let n = query.len;
    let m = subject.len;
    let mi = m - subject_index;
    let nj = n - query_index;
    let k = if mi < nj {
        mi
    } else {
        nj
    };
    proof {
        assert(k as int == spec_consecutive_cap(n as int, m as int, query_index as int,
            subject_index as int));
    }
    let ghost run = spec_run_len(
        query.lws(),
        subject.lws(),
        query_index as int,
        subject_index as int,
        k as int,
    );
    let mut sz: usize = 1;
    let mut same: usize = if query.graphemes[query_index] == subject.graphemes[subject_index] {
        1
    } else {
        0
    };
    let mut i = query_index;
    let mut pos = subject_index;
    let mut broke = false;
    proof {
        assert(spec_run_same(
            query.gs(),
            subject.gs(),
            query_index as int,
            subject_index as int,
            0,
        ) == 0);
        assert(spec_run_same(
            query.gs(),
            subject.gs(),
            query_index as int,
            subject_index as int,
            1,
        ) == if query.gs()[query_index as int] == subject.gs()[subject_index as int] {
            1int
        } else {
            0int
        });
    }
    while sz < k && !broke
        invariant
            query.wf(),
            subject.wf(),
            n == query.len,
            m == subject.len,
            k <= n - query_index,
            k <= m - subject_index,
            k >= 1,
            1 <= sz <= k,
            same <= sz,
            !broke ==> i == query_index + sz - 1 && pos == subject_index + sz - 1,
            broke ==> i == query_index + sz && pos == subject_index + sz && sz < k,
            i < n,
            pos < m,
            run == spec_run_len(
                query.lws(),
                subject.lws(),
                query_index as int,
                subject_index as int,
                k as int,
            ),
            !broke ==> run == sz - 1 + spec_run_len(
                query.lws(),
                subject.lws(),
                i as int,
                pos as int,
                k - sz + 1,
            ),
            broke ==> run == sz,
            same == spec_run_same(
                query.gs(),
                subject.gs(),
                query_index as int,
                subject_index as int,
                sz as int,
            ),
        decreases k - sz + if broke { 0int } else { 1int },
    {
        let i2 = i + 1;
        let pos2 = pos + 1;
        if query.graphemes_lw[i2] == subject.graphemes_lw[pos2] {
            i = i2;
            pos = pos2;
            if query.graphemes[i] == subject.graphemes[pos] {
                same += 1;
            }
            sz += 1;
        } else {
            i = i2;
            pos = pos2;
            broke = true;
        }
    }
    proof {
        assert(run == sz);
    }
    if sz == 1 {
        return 1 + 2 * (same as u64);
    }
    let end = is_end_of_word(subject, subject_index + sz - 1);
    score_pattern(sz, n, same, start, end)
}

// ---------------------------------------------------------------------------
// TraceMatrix: the dense grid of traceback directions.
// ---------------------------------------------------------------------------

/// The move that produced the best score at one alignment cell.
#[derive(Clone, Copy)]
pub enum Move {
    /// The score fell to zero; the alignment restarts here.
    Stop,
    /// Both indices advance: this subject grapheme was consumed.
    Diagonal,
    /// Only the subject index advances: this subject grapheme was skipped.
    Up,
    /// Only the query index advances.
    Left,
}

/// A dense (query position x subject position) grid of traceback moves,
/// owned by one fuzzy-scoring call and discarded after traceback.
pub struct TraceMatrix {
    moves: Vec<Vec<Move>>,
    rows: usize,
    cols: usize,
}

/// The subject positions recorded as consumed (diagonal moves) along the
/// walk the matrix defines backwards from a cell, in increasing order: an
/// up move steps back along the subject, a left move along the query, a
/// diagonal move records the subject position and steps back along both,
/// and a stop ends the walk.
pub open spec fn spec_walk(t: TraceMatrix, qi: int, si: int) -> Seq<int>
    decreases qi + si,
    when 0 <= qi < t.spec_rows() && 0 <= si < t.spec_cols()
{
    match t.cell(qi, si) {
        Move::Stop => Seq::empty(),
        Move::Up => if si == 0 {
            Seq::empty()
        } else {
            spec_walk(t, qi, si - 1)
        },
        Move::Left => if qi == 0 {
            Seq::empty()
        } else {
            spec_walk(t, qi - 1, si)
        },
        Move::Diagonal => if qi == 0 || si == 0 {
            seq![si]
        } else {
            spec_walk(t, qi - 1, si - 1).push(si)
        },
    }
}

impl TraceMatrix {
    /// Every query position owns a full row of subject positions.
    pub closed spec fn wf(&self) -> bool {
        &&& self.moves@.len() == self.rows
        &&& forall|r: int| 0 <= r < self.moves@.len() ==> (#[trigger] self.moves@[r])@.len()
            == self.cols
    }

    pub closed spec fn spec_rows(&self) -> int {
        self.rows as int
    }

    pub closed spec fn spec_cols(&self) -> int {
        self.cols as int
    }

    /// The move recorded at one cell.
    pub closed spec fn cell(&self, query_index: int, subject_index: int) -> Move {
        self.moves@[query_index]@[subject_index]
    }

    /// A grid of `query_len` rows by `subject_len` columns, all `Up`: a
    /// column the scan never scored holds a subject grapheme that was
    /// skipped.
    pub fn new(subject_len: usize, query_len: usize) -> (t: TraceMatrix)
        ensures
            t.wf(),
            t.spec_rows() == query_len,
            t.spec_cols() == subject_len,
            forall|r: int, c: int|
                0 <= r < query_len && 0 <= c < subject_len ==> t.cell(r, c) is Up,
    {
        let mut moves: Vec<Vec<Move>> = Vec::new();
        let mut r: usize = 0;
        while r < query_len
            invariant
                r <= query_len,
                moves@.len() == r,
                forall|rr: int| 0 <= rr < r ==> (#[trigger] moves@[rr])@.len() == subject_len,
                forall|rr: int, c: int|
                    0 <= rr < r && 0 <= c < subject_len ==> moves@[rr]@[c] is Up,
            decreases query_len - r,
        {
            let mut row: Vec<Move> = Vec::new();
            let mut c: usize = 0;
            while c < subject_len
                invariant
                    c <= subject_len,
                    row@.len() == c,
                    forall|cc: int| 0 <= cc < c ==> row@[cc] is Up,
                decreases subject_len - c,
            {
                row.push(Move::Up);
                c += 1;
            }
            moves.push(row);
            r += 1;
        }
        TraceMatrix { moves, rows: query_len, cols: subject_len }
    }

    /// Writes one cell and leaves every other cell as it was.
    fn set_at(&mut self, query_index: usize, subject_index: usize, value: Move)
        requires
            old(self).wf(),
            query_index < old(self).spec_rows(),
            subject_index < old(self).spec_cols(),
        ensures
            final(self).wf(),
            final(self).spec_rows() == old(self).spec_rows(),
            final(self).spec_cols() == old(self).spec_cols(),
            final(self).cell(query_index as int, subject_index as int) == value,
            forall|r: int, c: int|
                0 <= r < old(self).spec_rows() && 0 <= c < old(self).spec_cols() && !(r
                    == query_index && c == subject_index) ==> final(self).cell(r, c) == old(
                self,
            ).cell(r, c),
    {
        let row = &mut self.moves[query_index];
        row[subject_index] = value;
        proof {
            assert forall|r: int| 0 <= r < self.moves@.len() implies (
            #[trigger] self.moves@[r])@.len() == self.cols by {}
        }
    }

    /// Records that the cell's best score carried over the previous subject
    /// position (a skipped subject grapheme).
    pub fn up_at(&mut self, query_index: usize, subject_index: usize)
        requires
            old(self).wf(),
            query_index < old(self).spec_rows(),
            subject_index < old(self).spec_cols(),
        ensures
            final(self).wf(),
            final(self).spec_rows() == old(self).spec_rows(),
            final(self).spec_cols() == old(self).spec_cols(),
            final(self).cell(query_index as int, subject_index as int) is Up,
            forall|r: int, c: int|
                0 <= r < old(self).spec_rows() && 0 <= c < old(self).spec_cols() && !(r
                    == query_index && c == subject_index) ==> final(self).cell(r, c) == old(
                self,
            ).cell(r, c),
    {
        self.set_at(query_index, subject_index, Move::Up);
    }

    /// Records that the cell's best score carried over the previous query
    /// position.
    pub fn left_at(&mut self, query_index: usize, subject_index: usize)
        requires
            old(self).wf(),
            query_index < old(self).spec_rows(),
            subject_index < old(self).spec_cols(),
        ensures
            final(self).wf(),
            final(self).spec_rows() == old(self).spec_rows(),
            final(self).spec_cols() == old(self).spec_cols(),
            final(self).cell(query_index as int, subject_index as int) is Left,
            forall|r: int, c: int|
                0 <= r < old(self).spec_rows() && 0 <= c < old(self).spec_cols() && !(r
                    == query_index && c == subject_index) ==> final(self).cell(r, c) == old(
                self,
            ).cell(r, c),
    {
        self.set_at(query_index, subject_index, Move::Left);
    }

    /// Records that the cell consumed this subject grapheme.
    pub fn diagonal_at(&mut self, query_index: usize, subject_index: usize)
        requires
            old(self).wf(),
            query_index < old(self).spec_rows(),
            subject_index < old(self).spec_cols(),
        ensures
            final(self).wf(),
            final(self).spec_rows() == old(self).spec_rows(),
            final(self).spec_cols() == old(self).spec_cols(),
            final(self).cell(query_index as int, subject_index as int) is Diagonal,
            forall|r: int, c: int|
                0 <= r < old(self).spec_rows() && 0 <= c < old(self).spec_cols() && !(r
                    == query_index && c == subject_index) ==> final(self).cell(r, c) == old(
                self,
            ).cell(r, c),
    {
        self.set_at(query_index, subject_index, Move::Diagonal);
    }

    /// Records that the score fell to zero at this cell.
    pub fn stop_at(&mut self, query_index: usize, subject_index: usize)
        requires
            old(self).wf(),
            query_index < old(self).spec_rows(),
            subject_index < old(self).spec_cols(),
        ensures
            final(self).wf(),
            final(self).spec_rows() == old(self).spec_rows(),
            final(self).spec_cols() == old(self).spec_cols(),
            final(self).cell(query_index as int, subject_index as int) is Stop,
            forall|r: int, c: int|
                0 <= r < old(self).spec_rows() && 0 <= c < old(self).spec_cols() && !(r
                    == query_index && c == subject_index) ==> final(self).cell(r, c) == old(
                self,
            ).cell(r, c),
    {
        self.set_at(query_index, subject_index, Move::Stop);
    }

    /// Walks the recorded moves backwards from a cell and returns, in
    /// increasing order, exactly the subject positions consumed by diagonal
    /// moves along that walk.
    pub fn traceback(&self, query_index: usize, subject_index: usize) -> (r: Vec<usize>)
        requires
            self.wf(),
            query_index < self.spec_rows(),
            subject_index < self.spec_cols(),
        ensures
            r@.map_values(|x: usize| x as int) == spec_walk(
                *self,
                query_index as int,
                subject_index as int,
            ),
            forall|k1: int, k2: int| 0 <= k1 < k2 < r@.len() ==> r@[k1] < r@[k2],
            forall|k: int| 0 <= k < r@.len() ==> r@[k] <= subject_index,
            r@.len() <= query_index + 1,
    {
        let ghost walk = spec_walk(*self, query_index as int, subject_index as int);
        let mut rev: Vec<usize> = Vec::new();
        let ghost mut tail: Seq<int> = Seq::empty();
        let mut qi = query_index;
        let mut si = subject_index;
        let mut done = false;
        while !done
            invariant
                self.wf(),
                qi <= query_index,
                si <= subject_index,
                qi < self.spec_rows(),
                si < self.spec_cols(),
                forall|k1: int, k2: int| 0 <= k1 < k2 < rev@.len() ==> rev@[k1] > rev@[k2],
                forall|k: int| 0 <= k < rev@.len() ==> rev@[k] <= subject_index,
                rev@.len() > 0 ==> rev@[rev@.len() - 1] >= si + if done { 0int } else { 1int },
                !done ==> rev@.len() <= query_index - qi,
                done ==> rev@.len() <= query_index + 1,
                tail.len() == rev@.len(),
                forall|j: int| 0 <= j < tail.len() ==> tail[j] == rev@[rev@.len() - 1 - j] as int,
                walk == spec_walk(*self, query_index as int, subject_index as int),
                !done ==> walk == spec_walk(*self, qi as int, si as int) + tail,
                done ==> walk == tail,
            decreases qi + si + if done { 0int } else { 1int },
        {
            match self.moves[qi][si] {
                Move::Up => {
                    proof {
                        assert(self.cell(qi as int, si as int) is Up);
                    }
                    if si == 0 {
                        proof {
                            assert(spec_walk(*self, qi as int, 0) =~= Seq::<int>::empty());
                            assert(Seq::<int>::empty() + tail =~= tail);
                        }
                        done = true;
                    } else {
                        si -= 1;
                    }
                },
                Move::Left => {
                    proof {
                        assert(self.cell(qi as int, si as int) is Left);
                    }
                    if qi == 0 {
                        proof {
                            assert(spec_walk(*self, 0, si as int) =~= Seq::<int>::empty());
                            assert(Seq::<int>::empty() + tail =~= tail);
                        }
                        done = true;
                    } else {
                        qi -= 1;
                    }
                },
                Move::Diagonal => {
                    proof {
                        assert(self.cell(qi as int, si as int) is Diagonal);
                    }
                    let ghost tail0 = tail;
                    rev.push(si);
                    proof {
                        tail = seq![si as int] + tail0;
                    }
                    if qi == 0 || si == 0 {
                        proof {
                            assert(spec_walk(*self, qi as int, si as int) =~= seq![si as int]);
                            assert(seq![si as int] + tail0 =~= tail);
                            assert(walk =~= tail);
                        }
                        done = true;
                    } else {
                        proof {
                            assert(spec_walk(*self, qi as int, si as int) == spec_walk(
                                *self,
                                qi - 1,
                                si - 1,
                            ).push(si as int));
                            assert(spec_walk(*self, qi - 1, si - 1).push(si as int) + tail0
                                =~= spec_walk(*self, qi - 1, si - 1) + tail);
                        }
                        qi -= 1;
                        si -= 1;
                    }
                },
                Move::Stop => {
                    proof {
                        assert(self.cell(qi as int, si as int) is Stop);
                        assert(spec_walk(*self, qi as int, si as int) =~= Seq::<int>::empty());
                        assert(Seq::<int>::empty() + tail =~= tail);
                    }
                    done = true;
                },
            }
        }
        let mut out: Vec<usize> = Vec::new();
        let total = rev.len();
        let mut j: usize = 0;
        while j < total
            invariant
                j <= total,
                total == rev@.len(),
                out@.len() == j,
                forall|k: int| 0 <= k < j ==> out@[k] == rev@[total - 1 - k],
                forall|k1: int, k2: int| 0 <= k1 < k2 < rev@.len() ==> rev@[k1] > rev@[k2],
                forall|k: int| 0 <= k < rev@.len() ==> rev@[k] <= subject_index,
            decreases total - j,
        {
            out.push(rev[total - 1 - j]);
            j += 1;
        }
        proof {
            assert(out@.map_values(|x: usize| x as int) =~= walk);
        }
        out
    }
}

/// The word-start search lands exactly on `target` when no position before
/// it (at or after `from`) is a word start holding the wanted grapheme.
pub proof fn lemma_index_acronym_hits(
    gs: Seq<Seq<char>>,
    gls: Seq<Seq<char>>,
    g: Seq<char>,
    from: int,
    target: int,
)
    requires
        0 <= from <= target < gls.len(),
        gls[target] == g,
        is_word_start_at(gs, gls, target),
        forall|p: int|
            from <= p < target ==> !(is_word_start_at(gs, gls, p) && gls[p] == g),
    ensures
        spec_index_acronym(gs, gls, g, from) == Some(target),
    decreases target - from,
{
    if from < target {
        lemma_index_acronym_hits(gs, gls, g, from + 1, target);
    }
}

/// When the query's letters are exactly the first letters of the subject's
/// words, the acronym walk pins every one of them, consuming no separators,
/// and its marks are precisely the word-start positions.
pub proof fn lemma_scan_follows_initials(
    qg: Seq<Seq<char>>,
    qlw: Seq<Seq<char>>,
    sg: Seq<Seq<char>>,
    slw: Seq<Seq<char>>,
    ws: Seq<int>,
    j: int,
    acc: AcroScan,
)
    requires
        0 <= j <= qlw.len(),
        qlw.len() == ws.len(),
        forall|k: int| 0 <= k < ws.len() ==> 0 <= #[trigger] ws[k] < slw.len(),
        forall|k: int|
            0 <= k < ws.len() ==> is_word_start_at(sg, slw, #[trigger] ws[k]),
        forall|k1: int, k2: int| 0 <= k1 < k2 < ws.len() ==> ws[k1] < ws[k2],
        forall|p: int|
            0 <= p < slw.len() && is_word_start_at(sg, slw, p) ==> exists|k: int|
                0 <= k < ws.len() && ws[k] == p,
        forall|k: int| 0 <= k < qlw.len() ==> #[trigger] qlw[k] == slw[ws[k]],
        forall|k: int| 0 <= k < qlw.len() ==> !is_separator_g(#[trigger] qlw[k]),
        acc.letters == j,
        acc.seps == 0,
        acc.marks == ws.take(j),
    ensures
        ({
            let out = spec_acronym_scan(
                qg,
                qlw,
                sg,
                slw,
                j,
                if j == 0 { 0int } else { ws[j - 1] + 1 },
                acc,
            );
            &&& out.letters == qlw.len()
            &&& out.seps == 0
            &&& out.marks == ws
        }),
    decreases qlw.len() - j,
{
    let cursor: int = if j == 0 { 0int } else { ws[j - 1] + 1 };
    if j == qlw.len() {
        assert(acc.marks =~= ws);
    } else {
        assert forall|p: int|
            cursor <= p < ws[j] implies !(is_word_start_at(sg, slw, p) && slw[p] == qlw[j]) by {
            if is_word_start_at(sg, slw, p) {
                let k = choose|k: int| 0 <= k < ws.len() && ws[k] == p;
                if k < j {
                    if j > 0 && k < j - 1 {
                        assert(ws[k] < ws[j - 1]);
                    }
                    assert(false);
                } else {
                    if k > j {
                        assert(ws[j] < ws[k]);
                    }
                    assert(false);
                }
            }
        }
        assert(cursor <= ws[j]) by {
            if j > 0 {
                assert(ws[j - 1] < ws[j]);
            }
        }
        lemma_index_acronym_hits(sg, slw, qlw[j], cursor, ws[j]);
        let acc2 = AcroScan {
            letters: acc.letters + 1,
            sum: acc.sum + ws[j],
            same: acc.same + if qg[j] == sg[ws[j]] { 1int } else { 0int },
            marks: acc.marks.push(ws[j]),
            seps: acc.seps,
        };
        assert(acc2.marks =~= ws.take(j + 1));
        lemma_scan_follows_initials(qg, qlw, sg, slw, ws, j + 1, acc2);
    }
}

/// Integer division by a positive denominator grows strictly once the
/// numerators are a full denominator apart.
pub proof fn lemma_div_gap(n1: int, n2: int, d: int)
    requires
        0 <= n2,
        n2 + d <= n1,
        0 < d,
    ensures
        n2 / d < n1 / d,
{
    lemma_fundamental_div_mod(n2, d);
    assert(n2 + d == (n2 / d + 1) * d + (n2 % d)) by (nonlinear_arith)
        requires n2 == d * (n2 / d) + (n2 % d),
    ;
    lemma_fundamental_div_mod_converse(n2 + d, d, n2 / d + 1, n2 % d);
    lemma_div_is_ordered(n2 + d, n1, d);
}

/// The final quality score grows strictly with the pattern quality, all
/// other inputs equal.
pub proof fn lemma_quality_monotone(n: int, m: int, q1: int, q2: int, sum: int, c: int)
    requires
        1 <= n <= MAX_QUERY_LEN,
        0 <= m <= MAX_SUBJECT_LEN,
        1 <= c <= n,
        0 <= sum,
        0 <= q2 < q1 <= PATTERN_MAX,
    ensures
        spec_quality(n, m, q2, sum, c) < spec_quality(n, m, q1, sum, c),
{
    let pn = spec_pos_num(sum, c);
    let num1 = 2 * n * (150 * q1 * c * c + pn) * 150 * 65536;
    let num2 = 2 * n * (150 * q2 * c * c + pn) * 150 * 65536;
    let den = c * c * spec_size_den(n, m);
    assert(pn >= 0) by (nonlinear_arith)
        requires pn == spec_pos_num(sum, c) && c >= 1 && sum >= 0,
    ;
    assert(0 < den <= 16777216 * (150 + 1048576 + 4096)) by (nonlinear_arith)
        requires
            den == c * c * spec_size_den(n, m),
            1 <= c <= 4096,
            150 <= spec_size_den(n, m) <= 150 + 1048576 + 4096,
    ;
    assert(num2 >= 0 && num2 + den <= num1) by (nonlinear_arith)
        requires
            num1 == 2 * n * (150 * q1 * c * c + pn) * 150 * 65536,
            num2 == 2 * n * (150 * q2 * c * c + pn) * 150 * 65536,
            den == c * c * spec_size_den(n, m),
            q1 >= q2 + 1,
            pn >= 0,
            n >= 1,
            c >= 1,
            q2 >= 0,
            150 <= spec_size_den(n, m) <= 150 + 1048576 + 4096,
    ;
    lemma_div_gap(num1, num2, den);
}

/// The shared pattern quality grows strictly when the span gains the
/// start-of-word bonus, all other inputs equal.
pub proof fn lemma_pattern_start_monotone(count: int, len: int, same_case: int, end: bool)
    requires
        1 <= count <= len,
        0 <= same_case <= count,
    ensures
        spec_score_pattern(count, len, same_case, false, end) < spec_score_pattern(
            count,
            len,
            same_case,
            true,
            end,
        ),
{
    assert(spec_score_pattern(count, len, same_case, false, end) < spec_score_pattern(
        count,
        len,
        same_case,
        true,
        end,
    )) by (nonlinear_arith)
        requires 1 <= count <= len && 0 <= same_case <= count,
    ;
}

/// The shared pattern quality grows strictly when the span gains the
/// end-of-word bonus, all other inputs equal.
pub proof fn lemma_pattern_end_monotone(count: int, len: int, same_case: int, start: bool)
    requires
        1 <= count <= len,
        0 <= same_case <= count,
    ensures
        spec_score_pattern(count, len, same_case, start, false) < spec_score_pattern(
            count,
            len,
            same_case,
            start,
            true,
        ),
{
    assert(spec_score_pattern(count, len, same_case, start, false) < spec_score_pattern(
        count,
        len,
        same_case,
        start,
        true,
    )) by (nonlinear_arith)
        requires 1 <= count <= len && 0 <= same_case <= count,
    ;
}

/// Bounds of the shared pattern quality at the spec level.
pub proof fn lemma_pattern_bounds(count: int, len: int, same_case: int, start: bool, end: bool)
    requires
        1 <= count <= len,
        len <= MAX_QUERY_LEN,
        0 <= same_case <= count,
    ensures
        7 <= spec_score_pattern(count, len, same_case, start, end) <= PATTERN_MAX,
{
    assert(7 <= spec_score_pattern(count, len, same_case, start, end) <= 16850974)
        by (nonlinear_arith)
        requires 1 <= count <= len && len <= 4096 && 0 <= same_case <= count,
    ;
}

/// The case-agreement count of a span stays within the span.
pub proof fn lemma_count_same_bounds(qg: Seq<Seq<char>>, sg: Seq<Seq<char>>, pos: int, k: int)
    requires
        k >= 0,
    ensures
        0 <= spec_count_same(qg, sg, pos, k) <= k,
    decreases k,
{
    if k > 0 {
        lemma_count_same_bounds(qg, sg, pos, k - 1);
    }
}

/// A found first occurrence lies at or after the search start and fits
/// inside the subject.
pub proof fn lemma_first_occ_in_range(q: Seq<Seq<char>>, s: Seq<Seq<char>>, from: int, i: int)
    requires
        0 <= from <= s.len(),
        spec_first_occ(q, s, from) == Some(i),
    ensures
        from <= i,
        i + q.len() <= s.len(),
    decreases s.len() - from,
{
    if from + q.len() > s.len() {
    } else if occurs_at(q, s, from) {
    } else {
        lemma_first_occ_in_range(q, s, from + 1, i);
    }
}

/// On the exact path (mean denominator one), a strictly smaller size-penalty
/// denominator gives a strictly higher score, as long as the denominators
/// stay within the fixed-point resolution.
pub proof fn lemma_quality_size_monotone(n: int, ma: int, mb: int, q: int, sum: int)
    requires
        1 <= n <= MAX_QUERY_LEN,
        0 <= ma <= MAX_SUBJECT_LEN,
        0 <= mb <= MAX_SUBJECT_LEN,
        spec_size_den(n, ma) < spec_size_den(n, mb),
        spec_size_den(n, mb) <= 143666,
        0 <= sum,
        7 <= q <= PATTERN_MAX,
    ensures
        spec_quality(n, mb, q, sum, 1) < spec_quality(n, ma, q, sum, 1),
{
    let pn = spec_pos_num(sum, 1);
    let num = 2 * n * (150 * q * 1 * 1 + pn) * 150 * 65536;
    let da = 1 * 1 * spec_size_den(n, ma);
    let db = 1 * 1 * spec_size_den(n, mb);
    assert(pn >= 0) by (nonlinear_arith)
        requires pn == spec_pos_num(sum, 1) && sum >= 0,
    ;
    assert(150 <= da < db <= 143666 && num >= da * db && 0 <= num) by (nonlinear_arith)
        requires
            num == 2 * n * (150 * q * 1 * 1 + pn) * 150 * 65536,
            da == 1 * 1 * spec_size_den(n, ma),
            db == 1 * 1 * spec_size_den(n, mb),
            spec_size_den(n, ma) < spec_size_den(n, mb),
            150 <= spec_size_den(n, ma),
            spec_size_den(n, mb) <= 143666,
            q >= 7,
            pn >= 0,
            n >= 1,
    ;
    let b = num / db;
    lemma_div_multiples_vanish(da, db);
    assert(da * db == db * da) by (nonlinear_arith);
    lemma_div_is_ordered(da * db, num, db);
    assert(b >= da);
    lemma_fundamental_div_mod(num, db);
    vstd::arithmetic::div_mod::lemma_mod_bound(num, db);
    assert(da * (b + 1) <= num) by (nonlinear_arith)
        requires
            num == db * b + (num % db),
            num % db >= 0,
            b >= da,
            db >= da + 1,
            da >= 1,
    ;
    lemma_div_multiples_vanish(b + 1, da);
    assert(da * (b + 1) == (b + 1) * da) by (nonlinear_arith);
    lemma_div_is_ordered(da * (b + 1), num, da);
    assert(num / da >= b + 1);
}

} // verus!

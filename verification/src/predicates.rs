use vstd::prelude::*;
use crate::types::{Query, Subject};

verus! {

// ---------------------------------------------------------------------------
// Pure boolean classifiers over the segmented text model.
// ---------------------------------------------------------------------------

/// The fixed set of word-separator graphemes: whitespace and the usual
/// punctuation and path separators.
pub open spec fn is_separator_g(g: Seq<char>) -> bool {
    ||| g == " "@
    ||| g == "."@
    ||| g == "-"@
    ||| g == "_"@
    ||| g == "/"@
    ||| g == "\\"@
}

/// Whether the query graphemes appear, in order, inside the subject
/// graphemes starting from the pair of positions given.  A space in the
/// query costs nothing: words of the query may be found anywhere after one
/// another.
pub open spec fn is_subseq_from(q: Seq<Seq<char>>, s: Seq<Seq<char>>, qi: int, si: int) -> bool
    decreases s.len() - si, q.len() - qi,
    when 0 <= qi <= q.len() && 0 <= si <= s.len()
{
    if qi == q.len() {
        true
    } else if q[qi] == " "@ {
        is_subseq_from(q, s, qi + 1, si)
    } else if si == s.len() {
        false
    } else if q[qi] == s[si] {
        is_subseq_from(q, s, qi + 1, si + 1)
    } else {
        is_subseq_from(q, s, qi, si + 1)
    }
}

/// Whether the query graphemes form a subsequence of the subject graphemes,
/// spaces in the query consumed for free.
pub open spec fn is_subsequence(q: Seq<Seq<char>>, s: Seq<Seq<char>>) -> bool {
    is_subseq_from(q, s, 0, 0)
}

/// A space-free subsequence never has more graphemes left than its
/// supersequence.
pub proof fn lemma_subsequence_len(q: Seq<Seq<char>>, s: Seq<Seq<char>>, qi: int, si: int)
    requires
        0 <= qi <= q.len(),
        0 <= si <= s.len(),
        is_subseq_from(q, s, qi, si),
        forall|i: int| qi <= i < q.len() ==> q[i] != " "@,
    ensures
        q.len() - qi <= s.len() - si,
    decreases s.len() - si, q.len() - qi,
{
    if qi == q.len() {
    } else if q[qi] == " "@ {
        assert(false);
    } else if si == s.len() {
    } else if q[qi] == s[si] {
        lemma_subsequence_len(q, s, qi + 1, si + 1);
    } else {
        lemma_subsequence_len(q, s, qi, si + 1);
    }
}

/// Position `i` starts a word: it is the first grapheme, follows a
/// separator, or is an uppercase grapheme after a lowercase one.
pub open spec fn is_word_start_at(gs: Seq<Seq<char>>, gls: Seq<Seq<char>>, i: int) -> bool {
    if i == 0 {
        true
    } else {
        is_separator_g(gls[i - 1]) || (gs[i] != gls[i] && gs[i - 1] == gls[i - 1])
    }
}

/// Position `i` ends a word: it is the last grapheme, precedes a separator,
/// or is a lowercase grapheme before an uppercase one.
pub open spec fn is_word_end_at(gs: Seq<Seq<char>>, gls: Seq<Seq<char>>, i: int, len: int) -> bool {
    if i == len - 1 {
        true
    } else {
        is_separator_g(gls[i + 1]) || (gs[i] == gls[i] && gs[i + 1] != gls[i + 1])
    }
}

/// How many of the first `upto` positions start a word.
pub open spec fn count_word_starts(gs: Seq<Seq<char>>, gls: Seq<Seq<char>>, upto: int) -> int
    decreases upto,
{
    if upto <= 0 {
        0
    } else {
        count_word_starts(gs, gls, upto - 1) + if is_word_start_at(gs, gls, upto - 1) {
            1int
        } else {
            0int
        }
    }
}

/// Compares a grapheme with a fixed separator string.
fn grapheme_is(g: &str, lit: &str) -> (r: bool)
    ensures
        r == (g@ == lit@),
{
    let a: String = g.to_owned();
    let b: String = lit.to_owned();
    a == b
}

/// True for whitespace and the fixed set of punctuation and path separators.
pub fn is_word_separator(grapheme: &str) -> (r: bool)
    ensures
        r == is_separator_g(grapheme@),
{
    grapheme_is(grapheme, " ") || grapheme_is(grapheme, ".") || grapheme_is(grapheme, "-")
        || grapheme_is(grapheme, "_") || grapheme_is(grapheme, "/") || grapheme_is(
        grapheme,
        "\\",
    )
}

/// True iff the query's lowercase graphemes form a subsequence of the
/// subject's lowercase graphemes: the cheap reject run before any scoring.
pub fn is_match(query: &Query, subject: &Subject) -> (r: bool)
    requires
        query.wf(),
        subject.wf(),
    ensures
        r == is_subsequence(query.lws(), subject.lws()),
{
    let n = query.len;
    let m = subject.len;
    let mut qi: usize = 0;
    let mut si: usize = 0;
    while qi < n && si < m
        invariant
            qi <= n,
            si <= m,
            query.wf(),
            subject.wf(),
            n == query.len,
            m == subject.len,
            is_subsequence(query.lws(), subject.lws()) == is_subseq_from(
                query.lws(),
                subject.lws(),
                qi as int,
                si as int,
            ),
        decreases m - si, n - qi,
    {
        if grapheme_is(query.graphemes_lw[qi].as_str(), " ") {
            qi += 1;
        } else if query.graphemes_lw[qi] == subject.graphemes_lw[si] {
            qi += 1;
            si += 1;
        } else {
            si += 1;
        }
    }
    while qi < n
        invariant
            qi <= n,
            query.wf(),
            n == query.len,
            qi == n || si == m,
            m == subject.len,
            subject.wf(),
            is_subsequence(query.lws(), subject.lws()) == is_subseq_from(
                query.lws(),
                subject.lws(),
                qi as int,
                si as int,
            ),
        decreases n - qi,
    {
        if grapheme_is(query.graphemes_lw[qi].as_str(), " ") {
            qi += 1;
        } else {
            proof {
                assert(!is_subseq_from(query.lws(), subject.lws(), qi as int, si as int));
            }
            return false;
        }
    }
    qi == n
}

/// True if `index` is the first grapheme, follows a separator, or is an
/// uppercase grapheme right after a lowercase one.
pub fn is_start_of_word(subject: &Subject, index: usize) -> (r: bool)
    requires
        subject.wf(),
        index < subject.len,
    ensures
        r == is_word_start_at(subject.gs(), subject.lws(), index as int),
{
    if index == 0 {
        return true;
    }
    if is_word_separator(subject.graphemes_lw[index - 1].as_str()) {
        return true;
    }
    subject.graphemes[index] != subject.graphemes_lw[index] && subject.graphemes[index - 1]
        == subject.graphemes_lw[index - 1]
}

/// True if `index` is the last grapheme, precedes a separator, or is a
/// lowercase grapheme right before an uppercase one.
pub fn is_end_of_word(subject: &Subject, index: usize) -> (r: bool)
    requires
        subject.wf(),
        index < subject.len,
    ensures
        r == is_word_end_at(subject.gs(), subject.lws(), index as int, subject.len as int),
{
    if index == subject.len - 1 {
        return true;
    }
    if is_word_separator(subject.graphemes_lw[index + 1].as_str()) {
        return true;
    }
    subject.graphemes[index] == subject.graphemes_lw[index] && subject.graphemes[index + 1]
        != subject.graphemes_lw[index + 1]
}

/// True if the subject has exactly `count` word starts, so an acronym of
/// `count` letters covers every word of the subject.
pub fn is_a_unique_acronym(subject: &Subject, count: usize) -> (r: bool)
    requires
        subject.wf(),
    ensures
        r == (count == count_word_starts(subject.gs(), subject.lws(), subject.len as int)),
{
    let mut starts: usize = 0;
    let mut i: usize = 0;
    let m = subject.len;
    while i < m
        invariant
            i <= m,
            subject.wf(),
            m == subject.len,
            starts == count_word_starts(subject.gs(), subject.lws(), i as int),
            starts <= i,
        decreases m - i,
    {
        if is_start_of_word(subject, i) {
            starts += 1;
        }
        i += 1;
    }
    count == starts
}

/// The word-start positions below `upto`, in increasing order.
pub open spec fn word_starts(gs: Seq<Seq<char>>, gls: Seq<Seq<char>>, upto: int) -> Seq<int>
    decreases upto,
{
    if upto <= 0 {
        Seq::empty()
    } else {
        let rest = word_starts(gs, gls, upto - 1);
        if is_word_start_at(gs, gls, upto - 1) {
            rest.push(upto - 1)
        } else {
            rest
        }
    }
}

/// `word_starts` lists exactly the word-start positions, in increasing
/// order.
pub proof fn lemma_word_starts_props(gs: Seq<Seq<char>>, gls: Seq<Seq<char>>, upto: int)
    requires
        upto >= 0,
    ensures
        forall|j: int|
            0 <= j < word_starts(gs, gls, upto).len() ==> 0 <= #[trigger] word_starts(
                gs,
                gls,
                upto,
            )[j] < upto && is_word_start_at(gs, gls, word_starts(gs, gls, upto)[j]),
        forall|j1: int, j2: int|
            0 <= j1 < j2 < word_starts(gs, gls, upto).len() ==> word_starts(gs, gls, upto)[j1]
                < word_starts(gs, gls, upto)[j2],
        forall|p: int|
            0 <= p < upto && is_word_start_at(gs, gls, p) ==> exists|j: int|
                0 <= j < word_starts(gs, gls, upto).len() && word_starts(gs, gls, upto)[j] == p,
    decreases upto,
{
    if upto > 0 {
        lemma_word_starts_props(gs, gls, upto - 1);
        let prev = word_starts(gs, gls, upto - 1);
        let cur = word_starts(gs, gls, upto);
        if is_word_start_at(gs, gls, upto - 1) {
            assert(cur == prev.push(upto - 1));
            assert forall|p: int|
                0 <= p < upto && is_word_start_at(gs, gls, p) implies exists|j: int|
                0 <= j < cur.len() && cur[j] == p by {
                if p == upto - 1 {
                    assert(cur[cur.len() - 1] == p);
                } else {
                    let j = choose|j: int| 0 <= j < prev.len() && prev[j] == p;
                    assert(cur[j] == p);
                }
            }
        } else {
            assert(cur == prev);
            assert forall|p: int|
                0 <= p < upto && is_word_start_at(gs, gls, p) implies exists|j: int|
                0 <= j < cur.len() && cur[j] == p by {
                let j = choose|j: int| 0 <= j < prev.len() && prev[j] == p;
                assert(cur[j] == p);
            }
        }
    }
}

/// An explicit increasing embedding witnesses the subsequence relation.
pub proof fn lemma_embedding_is_subsequence(
    q: Seq<Seq<char>>,
    s: Seq<Seq<char>>,
    qi: int,
    si: int,
    f: Seq<int>,
)
    requires
        0 <= qi <= q.len(),
        0 <= si <= s.len(),
        f.len() == q.len(),
        forall|j: int| qi <= j < q.len() ==> 0 <= #[trigger] f[j] < s.len(),
        forall|j1: int, j2: int| qi <= j1 < j2 < q.len() ==> f[j1] < f[j2],
        forall|j: int| qi <= j < q.len() ==> q[j] == s[#[trigger] f[j]],
        forall|j: int| qi <= j < q.len() ==> #[trigger] q[j] != " "@,
        qi < q.len() ==> f[qi] >= si,
    ensures
        is_subseq_from(q, s, qi, si),
    decreases s.len() - si, q.len() - qi,
{
    if qi == q.len() {
    } else if si == s.len() {
        assert(f[qi] >= si && f[qi] < s.len());
        assert(false);
    } else if q[qi] == s[si] {
        lemma_embedding_is_subsequence(q, s, qi + 1, si + 1, f);
    } else {
        assert(f[qi] != si);
        lemma_embedding_is_subsequence(q, s, qi, si + 1, f);
    }
}

} // verus!

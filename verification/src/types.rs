use vstd::prelude::*;
use crate::common::{graphemes_of, lower_of, segment_graphemes, fold_lowercase};

verus! {

// ---------------------------------------------------------------------------
// Query: the immutable view of the typed pattern.
// ---------------------------------------------------------------------------

/// The typed pattern: its grapheme clusters in original case, a parallel
/// lowercase-folded sequence of the same length, and the derived length.
#[derive(Debug)]
pub struct Query {
    pub string: String,
    pub graphemes: Vec<String>,
    pub graphemes_lw: Vec<String>,
    pub len: usize,
}

impl Query {
    /// The two grapheme sequences keep identical length and index
    /// correspondence, and `len` is that length.
    pub open spec fn wf(&self) -> bool {
        &&& self.graphemes@.len() == self.len
        &&& self.graphemes_lw@.len() == self.len
        &&& forall|i: int|
            0 <= i < self.len ==> self.graphemes_lw@[i]@ == lower_of(
                #[trigger] self.graphemes@[i]@,
            )
    }

    /// The lowercase grapheme sequence the scorers match on.
    pub open spec fn lws(&self) -> Seq<Seq<char>> {
        self.graphemes_lw.deep_view()
    }

    /// The original-case grapheme sequence.
    pub open spec fn gs(&self) -> Seq<Seq<char>> {
        self.graphemes.deep_view()
    }

    /// Segments and folds the raw pattern once.
    pub fn new(string: &str) -> (q: Query)
        ensures
            q.wf(),
            q.string@ == string@,
            q.gs() == graphemes_of(string@),
            q.len <= string@.len(),
            q.len == 0 <==> string@.len() == 0,
    {
        let graphemes = segment_graphemes(string);
        let mut graphemes_lw: Vec<String> = Vec::new();
        let n = graphemes.len();
        let mut i: usize = 0;
        while i < n
            invariant
                i <= n,
                n == graphemes@.len(),
                graphemes_lw@.len() == i,
                forall|j: int|
                    0 <= j < i ==> graphemes_lw@[j]@ == lower_of(#[trigger] graphemes@[j]@),
            decreases n - i,
        {
            let folded = fold_lowercase(graphemes[i].as_str());
            graphemes_lw.push(folded);
            i += 1;
        }
        Query { string: string.to_owned(), graphemes, graphemes_lw, len: n }
    }

    /// Whether nothing was typed.
    pub fn is_empty(&self) -> (r: bool)
        requires
            self.wf(),
        ensures
            r == (self.len == 0),
    {
        self.len == 0
    }

    /// Whether some query grapheme folds to the given lowercase grapheme.
    pub fn contains(&self, grapheme: &String) -> (r: bool)
        requires
            self.wf(),
        ensures
            r == exists|i: int| 0 <= i < self.len && self.lws()[i] == grapheme@,
    {
        let n = self.len;
        let mut i: usize = 0;
        while i < n
            invariant
                i <= n,
                self.wf(),
                n == self.len,
                forall|j: int| 0 <= j < i ==> self.lws()[j] != grapheme@,
            decreases n - i,
        {
            if self.graphemes_lw[i] == *grapheme {
                proof {
                    assert(self.lws()[i as int] == grapheme@);
                }
                return true;
            }
            i += 1;
        }
        false
    }
}

// ---------------------------------------------------------------------------
// Subject: one candidate string plus the scoring output fields.
// ---------------------------------------------------------------------------

/// One candidate string: its grapheme clusters in original case, the
/// lowercase-folded parallel sequence, and the mutable scoring output —
/// a score and the subject positions the query consumed.
#[derive(Debug)]
pub struct Subject {
    pub text: String,
    pub graphemes: Vec<String>,
    pub graphemes_lw: Vec<String>,
    pub len: usize,
    pub score: u64,
    pub matches: Vec<usize>,
}

impl Subject {
    /// The two grapheme sequences keep identical length and index
    /// correspondence, and `len` is that length.
    pub open spec fn wf(&self) -> bool {
        &&& self.graphemes@.len() == self.len
        &&& self.graphemes_lw@.len() == self.len
        &&& forall|i: int|
            0 <= i < self.len ==> self.graphemes_lw@[i]@ == lower_of(
                #[trigger] self.graphemes@[i]@,
            )
    }

    /// The lowercase grapheme sequence the scorers match on.
    pub open spec fn lws(&self) -> Seq<Seq<char>> {
        self.graphemes_lw.deep_view()
    }

    /// The original-case grapheme sequence.
    pub open spec fn gs(&self) -> Seq<Seq<char>> {
        self.graphemes.deep_view()
    }

    /// Whether the scoring output fields are at their defaults.
    pub open spec fn is_blank(&self) -> bool {
        self.score == 0 && self.matches@.len() == 0
    }

    /// Segments and folds the candidate once; score and matches start blank.
    pub fn new(text: &str) -> (s: Subject)
        ensures
            s.wf(),
            s.is_blank(),
            s.text@ == text@,
            s.gs() == graphemes_of(text@),
            s.len <= text@.len(),
            s.len == 0 <==> text@.len() == 0,
    {
        let graphemes = segment_graphemes(text);
        let mut graphemes_lw: Vec<String> = Vec::new();
        let n = graphemes.len();
        let mut i: usize = 0;
        while i < n
            invariant
                i <= n,
                n == graphemes@.len(),
                graphemes_lw@.len() == i,
                forall|j: int|
                    0 <= j < i ==> graphemes_lw@[j]@ == lower_of(#[trigger] graphemes@[j]@),
            decreases n - i,
        {
            let folded = fold_lowercase(graphemes[i].as_str());
            graphemes_lw.push(folded);
            i += 1;
        }
        Subject { text: text.to_owned(), graphemes, graphemes_lw, len: n, score: 0, matches: Vec::new() }
    }

    /// A fresh view of the same text with the scoring output zeroed, so one
    /// scoring call can fill it without touching the caller's value.
    pub fn reset(&self) -> (s: Subject)
        requires
            self.wf(),
        ensures
            s.wf(),
            s.is_blank(),
            s.text@ == self.text@,
            s.gs() == self.gs(),
            s.lws() == self.lws(),
            s.len == self.len,
    {
        let graphemes = self.graphemes.clone();
        let graphemes_lw = self.graphemes_lw.clone();
        proof {
            assert forall|i: int| 0 <= i < self.graphemes@.len() implies graphemes@[i]
                == self.graphemes@[i] by {}
            assert forall|i: int| 0 <= i < self.graphemes_lw@.len() implies graphemes_lw@[i]
                == self.graphemes_lw@[i] by {}
            assert(graphemes@ =~= self.graphemes@);
            assert(graphemes_lw@ =~= self.graphemes_lw@);
        }
        Subject {
            text: self.text.clone(),
            graphemes,
            graphemes_lw,
            len: self.len,
            score: 0,
            matches: Vec::new(),
        }
    }
}

} // verus!

//! A fuzzy text-matching and ranking engine: given a short typed query and a
//! candidate string, it decides whether the candidate contains the query as
//! an approximate subsequence, assigns a comparable integer quality score,
//! and recovers which grapheme positions the match consumed.
//!
//! The engine tries, in order: an acronym match (query letters as the first
//! letters of subject words), an exact contiguous occurrence, and a bounded
//! Smith-Waterman-style alignment with a dense traceback grid and a miss
//! budget.  Scores are fixed-point integers scaled by
//! `scoring::SCORE_SCALE`; higher is better, and every reported match
//! carries a positive score.

pub mod common;
pub mod types;
pub mod predicates;
pub mod scoring;
pub mod fuzzy;

use vstd::prelude::*;

verus! {

/// Upper bound on the number of graphemes a query may have when it is
/// scored: it keeps every score computation inside 64-bit integer range.
pub const MAX_QUERY_LEN: usize = 4096;

/// Upper bound on the number of graphemes a subject may have when it is
/// scored, for the same reason.
pub const MAX_SUBJECT_LEN: usize = 1048576;

} // verus!

//! A verified core for a local file-indexing and hybrid-search engine.
//!
//! The library models the rule-driven discovery filters, category-aware
//! content shaping, chunking, scoring, metadata/vector persistence and the
//! multi-prong search merge of a desktop file indexer.  Scores are held in
//! integer tenths (one decimal place) and search relevances in integer
//! thousandths, so every ranking rule is exact.
//!
//! The catalog in [`store`] is the one logical contract every persistence
//! backend shares — the existence check before insert, idempotent folder
//! recording, chunk rows owned by file rows, folder-score recomputation.
//! A backend (an embedded vector table, or a columnar vector store) is a
//! mirror of it kept by the surrounding application; the vector-distance
//! and full-text ranking those backends compute are handed back in as
//! plain prong results.

use vstd::prelude::*;

pub mod category;
pub mod chunks;
pub mod content;
pub mod discovery;
pub mod hashing;
pub mod paths;
pub mod pipeline;
pub mod rules;
pub mod schema;
pub mod score;
pub mod search;
pub mod store;
pub mod text;

verus! {

/// Scores range over [0, 10] with one decimal place; they are held as
/// integer tenths, so the largest legal value is 100.
pub const MAX_SCORE_TENTHS: u32 = 100;

/// Clamp a raw additive score (in tenths of a point, possibly negative
/// before clamping) into the legal [0, 100] tenths range.
pub fn clamp_score_tenths(raw: i64) -> (r: u32)
    ensures
        r == clamp_tenths(raw as int),
{
    if raw < 0 {
        0
    } else if raw > MAX_SCORE_TENTHS as i64 {
        MAX_SCORE_TENTHS
    } else {
        raw as u32
    }
}

/// The clamp rule every score obeys: nothing below zero, nothing above 10.0.
pub open spec fn clamp_tenths(raw: int) -> int {
    if raw < 0 {
        0
    } else if raw > MAX_SCORE_TENTHS as int {
        MAX_SCORE_TENTHS as int
    } else {
        raw
    }
}

} // verus!

//! Incremental fuzzy-search core: caches with TTL and byte-budget eviction,
//! a weighted relevance scorer with an edit-distance utility, incremental
//! result reuse for interactive typing, and early-stop search bounds.

pub mod cache;
pub mod edit_distance;
pub mod heuristic;
pub mod highlight;
pub mod incremental;
pub mod optimizer;
pub mod ranking;
pub mod search_mode;
pub mod simd;
pub mod text;

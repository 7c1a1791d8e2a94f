//! Directory-name completion: a tiered matcher that narrows the subdirectories
//! of a path's parent to those the typed fragment most plausibly names, and a
//! ranking of the survivors by edit distance.

pub mod distance;
pub mod filter;
pub mod path;
pub mod rank;
pub mod pattern;
pub mod text;

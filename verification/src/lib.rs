//! Semantic comparison of HTML documents.
//!
//! Two HTML strings are parsed into trees and walked in lock-step (or with a
//! greedy matching search, when sibling order is ignored). The comparison is
//! configurable: whitespace between elements, attribute order, chosen
//! attribute names, text, comments and sibling order can each be ignored.
//! A failed comparison returns a single structured mismatch report.

pub mod engine;
pub mod laws;
pub mod model;
pub mod node;
pub mod options;
pub mod parse;
pub mod presets;
pub mod report;

pub use engine::HtmlComparer;
pub use node::{HtmlNode, NodeKind};
pub use options::HtmlCompareOptions;
pub use report::HtmlCompareError;

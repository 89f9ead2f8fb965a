use vstd::prelude::*;

use crate::node::{attrs_view, HtmlNode, NodeKind, NodeV};

verus! {

/// The model of a mismatch report.
pub enum ErrV {
    TagMismatch { expected: Seq<char>, actual: Seq<char> },
    AttributeMismatch {
        expected: Seq<(Seq<char>, Seq<char>)>,
        actual: Seq<(Seq<char>, Seq<char>)>,
    },
    ChildCountMismatch { expected: int, actual: int },
    TextMismatch { position: int, expected: Seq<char>, actual: Seq<char> },
    CommentMismatch { position: int, expected: Seq<char>, actual: Seq<char> },
    NodeKindMismatch { position: int, expected: NodeKind, actual: NodeKind },
    NoMatchingNode { expected: NodeV },
}

/// A mismatch report: the single structured reason a comparison failed.
///
/// Exactly one report is produced per failed comparison; the engine is
/// fail-fast and returns the first mismatch found in document order.
#[derive(Debug, PartialEq)]
pub enum HtmlCompareError {
    /// Element names differ at corresponding positions.
    TagMismatch { expected: String, actual: String },
    /// The compared attribute sets differ after exclusion filtering; both
    /// filtered attribute lists are carried for diagnosis.
    AttributeMismatch {
        expected: Vec<(String, String)>,
        actual: Vec<(String, String)>,
    },
    /// The comparable child counts differ.
    ChildCountMismatch { expected: usize, actual: usize },
    /// Text content differs at the given position, under the active whitespace rule.
    TextMismatch { position: usize, expected: String, actual: String },
    /// Comment content differs at the given position.
    CommentMismatch { position: usize, expected: String, actual: String },
    /// The two corresponding children are of incompatible kinds.
    NodeKindMismatch { position: usize, expected: NodeKind, actual: NodeKind },
    /// In unordered mode, the named expected child has no available match.
    NoMatchingNode { expected: HtmlNode },
}

impl View for HtmlCompareError {
    type V = ErrV;

    open spec fn view(&self) -> ErrV {
        match self {
            HtmlCompareError::TagMismatch { expected, actual } => ErrV::TagMismatch {
                expected: expected@,
                actual: actual@,
            },
            HtmlCompareError::AttributeMismatch { expected, actual } => ErrV::AttributeMismatch {
                expected: attrs_view(expected@),
                actual: attrs_view(actual@),
            },
            HtmlCompareError::ChildCountMismatch { expected, actual } => ErrV::ChildCountMismatch {
                expected: *expected as int,
                actual: *actual as int,
            },
            HtmlCompareError::TextMismatch { position, expected, actual } => ErrV::TextMismatch {
                position: *position as int,
                expected: expected@,
                actual: actual@,
            },
            HtmlCompareError::CommentMismatch { position, expected, actual } => ErrV::CommentMismatch {
                position: *position as int,
                expected: expected@,
                actual: actual@,
            },
            HtmlCompareError::NodeKindMismatch { position, expected, actual } => ErrV::NodeKindMismatch {
                position: *position as int,
                expected: *expected,
                actual: *actual,
            },
            HtmlCompareError::NoMatchingNode { expected } => ErrV::NoMatchingNode {
                expected: expected@,
            },
        }
    }
}

/// The model of a comparison outcome.
pub open spec fn result_view(r: Result<(), HtmlCompareError>) -> Result<(), ErrV> {
    match r {
        Ok(()) => Ok(()),
        Err(e) => Err(e@),
    }
}

} // verus!

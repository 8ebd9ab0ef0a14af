//! The comparison result record.
//!
//! A `Diff` captures the outcome of comparing two objects: a match flag, the
//! directory partition of child names, an exact similarity ratio, and the
//! rendered report text. Exactly one comparator populates a given record; the
//! fields belonging to the other comparators keep their default values.

use vstd::prelude::*;
use vstd::string::StringExecFns;

verus! {

/// An exact similarity ratio: `matched` units agreed out of `total` units
/// compared. A full match is `matched == total`; the empty comparison `0 / 0`
/// counts as a full match by that same rule.
#[derive(Debug, Clone, Copy, PartialEq, Eq, Structural)]
pub struct Similarity {
    /// The number of units (bytes or typed elements) that agreed.
    pub matched: usize,
    /// The total number of units compared.
    pub total: usize,
}

/// The outcome of comparing two filesystem objects.
#[derive(Debug)]
pub struct Diff {
    /// The left object of the comparison.
    pub left: String,
    /// The right object of the comparison.
    pub right: String,
    /// Whether the two objects are judged fully equivalent.
    pub matches: bool,
    /// Names present only under the left object (directories only).
    pub left_only: Vec<String>,
    /// Names present only under the right object (directories only).
    pub right_only: Vec<String>,
    /// Names present under both objects (directories only).
    pub common: Vec<String>,
    /// The similarity ratio, or `None` before any unit comparison has run;
    /// directory results never set it.
    pub similarity: Option<Similarity>,
    /// A short explanation of why a mismatch occurred; empty on a match.
    pub additional_info: String,
    /// Child results, one per common name, in `common` order (directories
    /// only).
    pub sub_diffs: Vec<Diff>,
    /// The rendered multi-line description of the mismatch; empty on a match.
    pub report: String,
}

/// The one-line report for a file-level mismatch.
pub open spec fn report_line(left: Seq<char>, right: Seq<char>, info: Seq<char>) -> Seq<char> {
    left + " vs "@ + right + ": "@ + info
}

/// Builds the one-line report `"{left} vs {right}: {info}"`.
pub fn build_report_line(left: &str, right: &str, info: &str) -> (s: String)
    ensures
        s@ == report_line(left@, right@, info@),
{
    let mut s = left.to_owned();
    s.append(" vs ");
    s.append(right);
    s.append(": ");
    s.append(info);
    s
}

impl Diff {
    /// Creates the default record for a comparison of `left` against `right`:
    /// no match, no children, similarity unset, empty report.
    pub fn new(left: &str, right: &str) -> (d: Diff)
        ensures
            d.left@ == left@,
            d.right@ == right@,
            d.matches == false,
            d.left_only@.len() == 0,
            d.right_only@.len() == 0,
            d.common@.len() == 0,
            d.similarity is None,
            d.additional_info@.len() == 0,
            d.sub_diffs@.len() == 0,
            d.report@.len() == 0,
    {
        Diff {
            left: left.to_owned(),
            right: right.to_owned(),
            matches: false,
            left_only: Vec::new(),
            right_only: Vec::new(),
            common: Vec::new(),
            similarity: None,
            additional_info: String::new(),
            sub_diffs: Vec::new(),
            report: String::new(),
        }
    }
}

} // verus!

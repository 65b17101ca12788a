//! The result records a detection pass hands back to its caller.

use vstd::prelude::*;

use crate::geometry::{Point, Quadrilateral};

verus! {

/// One decoded symbol: its text, a reserved category tag (empty in the
/// current behaviour), and the candidate's corners in the *source*
/// image's coordinate space, so callers can locate the symbol in the
/// original photograph.
#[derive(Debug, Clone)]
pub struct CodeInfo {
    pub code: String,
    pub category: String,
    pub points: Vec<Point>,
}

/// The corners of a quadrilateral, in order.
pub open spec fn corner_seq(q: Quadrilateral) -> Seq<Point> {
    q.corners()
}

impl CodeInfo {
    /// The record carries exactly one quadrilateral's corners and an
    /// empty category tag.
    pub open spec fn wf(self) -> bool {
        self.points@.len() == 4 && self.category@ == Seq::<char>::empty()
    }
}

} // verus!

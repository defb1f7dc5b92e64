//! Input cut into groups.
//!
//! A grouping stage first cuts its input into segments: a segment is either
//! the rows of one group, or one error that passes through on its own. What
//! the stage then does with the rows of a group is up to the stage.
use crate::error::Error;
use crate::error::Fault;
use crate::row::Row;
use vstd::prelude::*;

pub mod buckets;
pub mod runs;

pub use buckets::Buckets;
pub use runs::Runs;

verus! {

/// The rows of one group, or an error that passes through.
pub type Segment = Result<Vec<Row>, Error>;

/// A [`Segment`] as contracts see it.
pub type SegmentView = Result<Seq<Seq<Seq<char>>>, Fault>;

/// The contract's view of a segment.
pub open spec fn segment_view(segment: Segment) -> SegmentView {
    match segment {
        Ok(rows) => Ok(crate::row::rows_view(rows@)),
        Err(e) => Err(e@),
    }
}

/// The contract's view of a sequence of segments.
pub open spec fn segments_view(segments: Seq<Segment>) -> Seq<SegmentView> {
    segments.map_values(|segment: Segment| segment_view(segment))
}

/// A way of cutting a stream into segments, handed out one by one.
pub trait Partition {
    /// What every value satisfies between calls.
    spec fn wf(&self) -> bool;

    /// The segments that are still to come, in order.
    spec fn pending(&self) -> Seq<SegmentView>;

    /// Hands out the next segment, or `None` once the input is used up.
    fn next_segment(&mut self) -> (segment: Option<Segment>)
        requires
            old(self).wf(),
        ensures
            final(self).wf(),
            match segment {
                Some(s) => old(self).pending().len() > 0 && segment_view(s) == old(
                    self,
                ).pending()[0] && final(self).pending() == old(self).pending().skip(1),
                None => old(self).pending().len() == 0 && final(self).pending().len() == 0,
            },
    ;
}

} // verus!

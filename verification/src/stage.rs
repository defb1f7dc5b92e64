//! The shape that the grouping stages share: cut the input into groups, work
//! on the rows of each group, and hand out what comes of it before the next
//! group is touched.
use crate::error::items_view;
use crate::error::Item;
use crate::error::RowResult;
use crate::headers::Headers;
use crate::partition::Partition;
use crate::partition::SegmentView;
use crate::row::Row;
use crate::row_stream::RowStream;
use std::collections::VecDeque;
use vstd::prelude::*;

verus! {

/// What a stage does with the rows of one group.
pub trait Process {
    /// What every value satisfies.
    spec fn wf(&self) -> bool;

    /// The elements that come of the rows of one group.
    spec fn output(&self, rows: Seq<Seq<Seq<char>>>) -> Seq<Item>;

    /// Works on the rows of one group and puts what comes of them at the end
    /// of `out`.
    fn run(&self, rows: Vec<Row>, out: &mut VecDeque<RowResult>)
        requires
            self.wf(),
        ensures
            items_view(final(out)@) == items_view(old(out)@) + self.output(
                crate::row::rows_view(rows@),
            ),
    ;
}

/// What comes of one segment: of the rows of a group what the stage makes of
/// them, of an error the error itself.
pub open spec fn emitted<T: Process>(process: T, segment: SegmentView) -> Seq<Item> {
    match segment {
        Ok(rows) => process.output(rows),
        Err(fault) => seq![Err(fault)],
    }
}

/// What comes of a sequence of segments, one after the other.
pub open spec fn expanded<T: Process>(process: T, segments: Seq<SegmentView>) -> Seq<Item>
    decreases segments.len(),
{
    if segments.len() == 0 {
        Seq::empty()
    } else {
        emitted(process, segments[0]) + expanded(process, segments.skip(1))
    }
}

/// A grouping stage: a way of cutting the input into groups, and what is
/// done with each group.
pub struct Stage<P: Partition, T: Process> {
    parts: P,
    process: T,
    headers: Headers,
    /// What came of the last group and has not been handed out yet.
    ready: VecDeque<RowResult>,
}

impl<P: Partition, T: Process> Stage<P, T> {
    /// The input, cut into groups, as far as it has not been worked on.
    pub closed spec fn parts(&self) -> P {
        self.parts
    }

    /// What is done with each group.
    pub closed spec fn process(&self) -> T {
        self.process
    }

    /// What came of the last group and is still to be handed out.
    pub closed spec fn buffered(&self) -> Seq<Item> {
        items_view(self.ready@)
    }

    /// Puts a stage together. Nothing is pulled yet.
    pub fn assemble(parts: P, process: T, headers: Headers) -> (stage: Stage<P, T>)
        requires
            parts.wf(),
            process.wf(),
        ensures
            stage.wf(),
            stage.parts() == parts,
            stage.process() == process,
            stage.schema() == headers@,
            stage.buffered() == Seq::<Item>::empty(),
            stage.remaining() == expanded(process, parts.pending()),
    {
        let ready: VecDeque<RowResult> = VecDeque::new();
        proof {
            assert(items_view(ready@) == Seq::<Item>::empty());
            assert(Seq::<Item>::empty() + expanded(process, parts.pending()) == expanded(
                process,
                parts.pending(),
            ));
        }
        Stage { parts, process, headers, ready }
    }
}

impl<P: Partition, T: Process> RowStream for Stage<P, T> {
    closed spec fn wf(&self) -> bool {
        self.parts.wf() && self.process.wf()
    }

    closed spec fn schema(&self) -> Seq<Seq<char>> {
        self.headers@
    }

    open spec fn remaining(&self) -> Seq<Item> {
        self.buffered() + expanded(self.process(), self.parts().pending())
    }

    fn headers(&self) -> (headers: &Headers) {
        &self.headers
    }

    fn next(&mut self) -> (item: Option<RowResult>) {
        let ghost all = self.remaining();
        loop
            invariant
                self.parts.wf(),
                self.process.wf(),
                self.headers == old(self).headers,
                self.process == old(self).process,
                all == old(self).remaining(),
                self.remaining() == all,
            decreases self.parts.pending().len(),
        {
            let ghost held = self.ready@;
            let ghost pending = self.parts.pending();
            match self.ready.pop_front() {
                Some(item) => {
                    proof {
                        assert(self.ready@ == held.skip(1));
                        assert(items_view(held.skip(1)) == items_view(held).skip(1));
                        assert((items_view(held) + expanded(self.process, pending)).skip(1)
                            == items_view(held).skip(1) + expanded(self.process, pending));
                    }
                    return Some(item);
                },
                None => {},
            }
            proof {
                assert(items_view(held) == Seq::<Item>::empty());
                assert(items_view(held) + expanded(self.process, pending) == expanded(
                    self.process,
                    pending,
                ));
            }
            match self.parts.next_segment() {
                Some(Ok(rows)) => {
                    self.process.run(rows, &mut self.ready);
                    proof {
                        assert(items_view(held) + self.process.output(
                            crate::row::rows_view(rows@),
                        ) == self.process.output(crate::row::rows_view(rows@)));
                    }
                },
                Some(Err(e)) => {
                    proof {
                        let rest = expanded(self.process, pending.skip(1));
                        assert((seq![Err::<Seq<Seq<char>>, crate::error::Fault>(e@)] + rest).skip(1)
                            == rest);
                        assert(items_view(held) + rest == rest);
                    }
                    return Some(Err(e));
                },
                None => {
                    return None;
                },
            }
        }
    }
}

} // verus!

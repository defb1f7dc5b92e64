//! The contract between the stages of a chain.
use crate::error::item_view;
use crate::error::items_view;
use crate::error::Item;
use crate::error::RowResult;
use crate::headers::Headers;
use vstd::prelude::*;

verus! {

/// A stage of a processing chain: a schema that is fixed when the stage is
/// built, and a sequence of rows and errors that is handed out once, front
/// to back, one element per call of `next`.
///
/// Implement this trait to add a stage of your own. What is proved of the
/// stages of this library holds over an upstream that keeps to the contracts
/// below. A stage that says nothing of its schema and of what it has still
/// to hand out is taken to keep to them for a schema and a sequence that are
/// not known.
pub trait RowStream {
    /// What every value of the stage satisfies between calls.
    open spec fn wf(&self) -> bool {
        true
    }

    /// The column names of the rows that the stage hands out.
    open spec fn schema(&self) -> Seq<Seq<char>> {
        arbitrary()
    }

    /// The elements that are still to come, in the order in which `next`
    /// will hand them out.
    open spec fn remaining(&self) -> Seq<Item> {
        arbitrary()
    }

    /// The schema at this point of the chain.
    fn headers(&self) -> (headers: &Headers)
        requires
            self.wf(),
        ensures
            headers@ == self.schema(),
    ;

    /// Hands out the next element, or `None` once the stage is exhausted.
    /// The schema never changes.
    fn next(&mut self) -> (item: Option<RowResult>)
        requires
            old(self).wf(),
        ensures
            final(self).wf(),
            final(self).schema() == old(self).schema(),
            match item {
                Some(x) => old(self).remaining().len() > 0 && item_view(x) == old(
                    self,
                ).remaining()[0] && final(self).remaining() == old(self).remaining().skip(1),
                None => old(self).remaining().len() == 0 && final(self).remaining().len() == 0,
            },
    ;
}

/// Pulls a stage until it is exhausted and returns everything it handed out,
/// in order.
pub fn collect<S: RowStream>(stream: &mut S) -> (items: Vec<RowResult>)
    requires
        old(stream).wf(),
    ensures
        final(stream).wf(),
        final(stream).schema() == old(stream).schema(),
        final(stream).remaining().len() == 0,
        items_view(items@) == old(stream).remaining(),
{
    let mut items: Vec<RowResult> = Vec::new();
    let ghost all = stream.remaining();
    loop
        invariant
            stream.wf(),
            stream.schema() == old(stream).schema(),
            all == old(stream).remaining(),
            items@.len() <= all.len(),
            items_view(items@) == all.take(items@.len() as int),
            stream.remaining() == all.skip(items@.len() as int),
        decreases stream.remaining().len(),
    {
        match stream.next() {
            Some(item) => {
                proof {
                    let n = items@.len() as int;
                    assert(all.skip(n)[0] == all[n]);
                    assert(all.take(n + 1) == all.take(n).push(all[n]));
                    assert(items_view(items@.push(item)) == items_view(items@).push(
                        item_view(item),
                    ));
                    assert(all.skip(n).skip(1) == all.skip(n + 1));
                }
                items.push(item);
            },
            None => {
                proof {
                    assert(all.take(items@.len() as int) == all);
                }
                return items;
            },
        }
    }
}

} // verus!

//! The shape that the stages share which turn every element of their input
//! into one element of their output.
use crate::error::item_view;
use crate::error::Item;
use crate::error::RowResult;
use crate::headers::Headers;
use crate::row_stream::RowStream;
use vstd::prelude::*;

verus! {

/// What a stage does with one element.
pub trait PerRow {
    /// What every value satisfies.
    spec fn wf(&self) -> bool;

    /// What becomes of an element.
    spec fn image(&self, item: Item) -> Item;

    /// Turns an element of the input into an element of the output.
    fn apply(&self, item: RowResult) -> (made: RowResult)
        requires
            self.wf(),
        ensures
            item_view(made) == self.image(item_view(item)),
    ;
}

/// What becomes of a sequence of elements.
pub open spec fn images<M: PerRow>(change: M, items: Seq<Item>) -> Seq<Item> {
    items.map_values(|item: Item| change.image(item))
}

/// A stage that hands out one element for every element of its input, in
/// the order of the input, and pulls an element only when one is asked for.
pub struct Each<I: RowStream, M: PerRow> {
    iter: I,
    change: M,
    headers: Headers,
}

impl<I: RowStream, M: PerRow> Each<I, M> {
    /// The input, as far as it has not been pulled.
    pub closed spec fn source(&self) -> I {
        self.iter
    }

    /// What is done with each element.
    pub closed spec fn change(&self) -> M {
        self.change
    }

    /// Puts a stage together. Nothing is pulled yet.
    pub fn assemble(iter: I, change: M, headers: Headers) -> (stage: Each<I, M>)
        requires
            iter.wf(),
            change.wf(),
        ensures
            stage.wf(),
            stage.source() == iter,
            stage.change() == change,
            stage.schema() == headers@,
            stage.remaining() == images(change, iter.remaining()),
    {
        Each { iter, change, headers }
    }
}

impl<I: RowStream, M: PerRow> RowStream for Each<I, M> {
    closed spec fn wf(&self) -> bool {
        self.iter.wf() && self.change.wf()
    }

    closed spec fn schema(&self) -> Seq<Seq<char>> {
        self.headers@
    }

    open spec fn remaining(&self) -> Seq<Item> {
        images(self.change(), self.source().remaining())
    }

    fn headers(&self) -> (headers: &Headers) {
        &self.headers
    }

    fn next(&mut self) -> (item: Option<RowResult>) {
        let ghost before = self.iter.remaining();
        match self.iter.next() {
            Some(item) => {
                proof {
                    assert(images(self.change, before.skip(1)) == images(self.change, before).skip(
                        1,
                    ));
                }
                Some(self.change.apply(item))
            },
            None => None,
        }
    }
}

} // verus!

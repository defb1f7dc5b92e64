//! Looking at what passes.
use crate::each::Each;
use crate::each::PerRow;
use crate::error::Item;
use crate::error::RowResult;
use crate::headers::Headers;
use crate::row_stream::RowStream;
use vstd::prelude::*;

verus! {

/// Shows every element to a function of the caller's and hands it on as it
/// is.
pub struct Look<F> {
    f: F,
    headers: Headers,
}

impl<F> Look<F> {
    /// The function that is shown every element.
    pub closed spec fn watcher(&self) -> F {
        self.f
    }
}

impl<F: Fn(&Headers, &RowResult)> PerRow for Look<F> {
    open spec fn wf(&self) -> bool {
        forall|headers: &Headers, item: &RowResult| #[trigger]
            call_requires(self.watcher(), (headers, item))
    }

    open spec fn image(&self, item: Item) -> Item {
        item
    }

    fn apply(&self, item: RowResult) -> (made: RowResult) {
        proof {
            assert(call_requires(self.watcher(), (&self.headers, &item)));
        }
        (self.f)(&self.headers, &item);
        item
    }
}

/// Calls a function of the caller's on every element, rows and errors
/// alike, as it passes. What is handed out is what came in.
pub type Inspect<I, F> = Each<I, Look<F>>;

impl<I: RowStream, F: Fn(&Headers, &RowResult)> Each<I, Look<F>> {
    /// Builds the stage over an input and the function to call.
    pub fn new(iter: I, f: F) -> (stage: Inspect<I, F>)
        requires
            iter.wf(),
            forall|headers: &Headers, item: &RowResult| #[trigger] call_requires(f, (headers, item)),
        ensures
            stage.wf(),
            stage.source() == iter,
            stage.schema() == iter.schema(),
            stage.remaining() == iter.remaining(),
            stage.change().watcher() == f,
    {
        let headers = iter.headers().clone();
        let shown = headers.clone();
        let look = Look { f, headers: shown };
        proof {
            assert(crate::each::images(look, iter.remaining()) == iter.remaining());
        }
        Each::assemble(iter, look, headers)
    }
}

} // verus!

//! A stage that hands out rows it was given: the source of a chain that is
//! built in memory.
use crate::error::item_view;
use crate::error::items_view;
use crate::error::Item;
use crate::error::RowResult;
use crate::headers::Headers;
use crate::row::Row;
use crate::row_stream::RowStream;
use vstd::prelude::*;

verus! {

/// Why a [`MockStream`] could not be built from rows alone.
#[derive(Debug, PartialEq, Eq)]
pub enum BuildError {
    /// There is no first row to take the column names from.
    EmptyIterator,
    /// The first element is an error.
    FailedHeader,
}

/// Turns a vector back to front.
pub fn reversed<T>(items: Vec<T>) -> (turned: Vec<T>)
    ensures
        turned@ == items@.reverse(),
{
    let mut items = items;
    let mut turned: Vec<T> = Vec::new();
    let ghost all = items@;
    while items.len() > 0
        invariant
            items@.len() + turned@.len() == all.len(),
            items@ == all.take(items@.len() as int),
            turned@ == all.skip(items@.len() as int).reverse(),
        decreases items@.len(),
    {
        let ghost n = items@.len() as int;
        let last = items.pop().unwrap();
        turned.push(last);
        proof {
            assert(items@ == all.take(n - 1));
            assert(turned@ == all.skip(n - 1).reverse());
        }
    }
    proof {
        assert(all.skip(0) == all);
    }
    turned
}

/// A stage over rows held in memory.
pub struct MockStream {
    headers: Headers,
    /// What is still to come, back to front.
    rest: Vec<RowResult>,
}

impl MockStream {
    /// A stage with the given schema that hands out the given elements.
    pub fn new(rows: Vec<RowResult>, headers: Headers) -> (stream: MockStream)
        ensures
            stream.wf(),
            stream.schema() == headers@,
            stream.remaining() == items_view(rows@),
    {
        let ghost given = rows@;
        let rest = reversed(rows);
        proof {
            assert(rest@.reverse() == given);
        }
        MockStream { headers, rest }
    }

    /// A stage with the given schema that hands out the given rows.
    pub fn of_rows(rows: Vec<Row>, headers: Headers) -> (stream: MockStream)
        ensures
            stream.wf(),
            stream.schema() == headers@,
            stream.remaining() == crate::error::as_items(
                crate::row::rows_view(rows@),
            ),
    {
        let ghost given = crate::row::rows_view(rows@);
        let ghost goal = crate::error::as_items(given);
        let mut rows = rows;
        let mut rest: Vec<RowResult> = Vec::new();
        while rows.len() > 0
            invariant
                given.len() == rows@.len() + rest@.len(),
                goal == crate::error::as_items(given),
                crate::row::rows_view(rows@) == given.take(rows@.len() as int),
                items_view(rest@.reverse()) == goal.skip(rows@.len() as int),
            decreases rows@.len(),
        {
            let ghost n = rows@.len() as int;
            let ghost left = rows@;
            let ghost before = rest@;
            let row = rows.pop().unwrap();
            rest.push(Ok(row));
            proof {
                assert(crate::row::rows_view(left)[n - 1] == given.take(n)[n - 1]);
                assert(crate::row::rows_view(rows@) == given.take(n - 1));
                assert(rest@.reverse() == seq![Ok::<Row, crate::error::Error>(row)]
                    + before.reverse());
                assert(items_view(seq![Ok::<Row, crate::error::Error>(row)] + before.reverse())
                    == seq![item_view(Ok::<Row, crate::error::Error>(row))] + items_view(
                    before.reverse(),
                ));
                assert(seq![goal[n - 1]] + goal.skip(n) == goal.skip(n - 1));
            }
        }
        proof {
            assert(goal.skip(0) == goal);
        }
        MockStream { headers, rest }
    }

    /// A stage that takes its schema from the first of the given elements
    /// and hands out the others.
    pub fn from_rows(rows: Vec<RowResult>) -> (built: Result<MockStream, BuildError>)
        ensures
            match built {
                Ok(stream) => rows@.len() > 0 && rows@[0] is Ok && stream.wf() && stream.schema()
                    == crate::row::fields(rows@[0]->Ok_0) && stream.remaining() == items_view(
                    rows@.skip(1),
                ),
                Err(BuildError::EmptyIterator) => rows@.len() == 0,
                Err(BuildError::FailedHeader) => rows@.len() > 0 && rows@[0] is Err,
            },
    {
        let ghost given = rows@;
        let mut rest = reversed(rows);
        match rest.pop() {
            Some(Ok(row)) => {
                proof {
                    assert(rest@.reverse() == given.skip(1));
                }
                Ok(MockStream { headers: Headers::from_row(row), rest })
            },
            Some(Err(_)) => Err(BuildError::FailedHeader),
            None => Err(BuildError::EmptyIterator),
        }
    }
}

impl RowStream for MockStream {
    open spec fn wf(&self) -> bool {
        true
    }

    closed spec fn schema(&self) -> Seq<Seq<char>> {
        self.headers@
    }

    closed spec fn remaining(&self) -> Seq<Item> {
        items_view(self.rest@.reverse())
    }

    fn headers(&self) -> (headers: &Headers) {
        &self.headers
    }

    fn next(&mut self) -> (item: Option<RowResult>) {
        let ghost before = self.rest@;
        let item = self.rest.pop();
        proof {
            if before.len() > 0 {
                assert(self.rest@.reverse() == before.reverse().skip(1));
                assert(items_view(before.reverse().skip(1)) == items_view(
                    before.reverse(),
                ).skip(1));
            }
        }
        item
    }
}

} // verus!

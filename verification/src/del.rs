//! Deleting columns.
use crate::each::images;
use crate::each::Each;
use crate::each::PerRow;
use crate::error::Item;
use crate::error::RowResult;
use crate::headers::Headers;
use crate::row::Row;
use crate::row_stream::RowStream;
use vstd::prelude::*;

verus! {

/// The first `n` fields, without those whose column is among the deleted
/// ones.
pub open spec fn without(
    names: Seq<Seq<char>>,
    deleted: Seq<Seq<char>>,
    fields: Seq<Seq<char>>,
    n: nat,
) -> Seq<Seq<char>>
    decreases n,
{
    if n == 0 {
        Seq::empty()
    } else {
        let before = without(names, deleted, fields, (n - 1) as nat);
        if deleted.contains(names[n - 1]) {
            before
        } else {
            before.push(fields[n - 1])
        }
    }
}

/// A row without the fields of the deleted columns. Fields beyond the last
/// column are dropped too.
pub open spec fn trimmed(
    names: Seq<Seq<char>>,
    deleted: Seq<Seq<char>>,
    fields: Seq<Seq<char>>,
) -> Seq<Seq<char>> {
    without(
        names,
        deleted,
        fields,
        if names.len() <= fields.len() {
            names.len()
        } else {
            fields.len()
        },
    )
}

/// Whether a name is in a list.
pub fn listed(list: &Vec<String>, name: &str) -> (found: bool)
    ensures
        found == list.deep_view().contains(name@),
{
    let mut i: usize = 0;
    while i < list.len()
        invariant
            i <= list@.len(),
            forall|j: int| 0 <= j < i ==> list.deep_view()[j] != name@,
        decreases list@.len() - i,
    {
        if *list[i].as_str() == *name {
            assert(list.deep_view()[i as int] == name@);
            return true;
        }
        i += 1;
    }
    false
}

/// Copies a row without the fields of the deleted columns.
fn strip(names: &Row, deleted: &Vec<String>, row: &Row) -> (kept: Row)
    ensures
        crate::row::fields(kept) == trimmed(
            crate::row::fields(*names),
            deleted.deep_view(),
            crate::row::fields(*row),
        ),
{
    let ghost all = crate::row::fields(*names);
    let ghost cells = crate::row::fields(*row);
    let n = if names.len() <= row.len() {
        names.len()
    } else {
        row.len()
    };
    let mut kept = Row::new();
    let mut i: usize = 0;
    while i < n
        invariant
            i <= n,
            n <= all.len(),
            n <= cells.len(),
            all == crate::row::fields(*names),
            cells == crate::row::fields(*row),
            crate::row::fields(kept) == without(all, deleted.deep_view(), cells, i as nat),
        decreases n - i,
    {
        match (names.get(i), row.get(i)) {
            (Some(name), Some(field)) => {
                if !listed(deleted, name) {
                    kept.push_field(field);
                }
            },
            _ => {},
        }
        i += 1;
    }
    kept
}

/// Drops the fields of the deleted columns from every row.
pub struct Strip {
    names: Headers,
    deleted: Vec<String>,
}

impl Strip {
    /// The column names of the input.
    pub closed spec fn names(&self) -> Seq<Seq<char>> {
        self.names@
    }

    /// The names of the deleted columns.
    pub closed spec fn deleted(&self) -> Seq<Seq<char>> {
        self.deleted.deep_view()
    }
}

impl PerRow for Strip {
    open spec fn wf(&self) -> bool {
        true
    }

    open spec fn image(&self, item: Item) -> Item {
        match item {
            Ok(fields) => Ok(trimmed(self.names(), self.deleted(), fields)),
            Err(fault) => Err(fault),
        }
    }

    fn apply(&self, item: RowResult) -> (made: RowResult) {
        match item {
            Ok(row) => Ok(strip(self.names.as_row(), &self.deleted, &row)),
            Err(e) => Err(e),
        }
    }
}

/// Deletes the named columns from the schema and from every row. Errors
/// pass as they are.
pub type Del<I> = Each<I, Strip>;

impl<I: RowStream> Each<I, Strip> {
    /// Builds the stage over an input and the names of the columns to
    /// delete. A name that is not a column deletes nothing.
    pub fn new(iter: I, columns: Vec<&str>) -> (stage: Del<I>)
        requires
            iter.wf(),
        ensures
            stage.wf(),
            stage.source() == iter,
            stage.schema() == trimmed(
                iter.schema(),
                crate::grouping::strs(columns@),
                iter.schema(),
            ),
            stage.change().names() == iter.schema(),
            stage.change().deleted() == crate::grouping::strs(columns@),
            stage.remaining() == images(stage.change(), iter.remaining()),
    {
        let ghost wanted = crate::grouping::strs(columns@);
        let mut deleted: Vec<String> = Vec::new();
        let mut i: usize = 0;
        while i < columns.len()
            invariant
                i <= columns@.len(),
                wanted == crate::grouping::strs(columns@),
                deleted.deep_view() == wanted.take(i as int),
            decreases columns@.len() - i,
        {
            let ghost before = deleted.deep_view();
            deleted.push(columns[i].to_owned());
            proof {
                assert(deleted.deep_view() == before.push(columns@[i as int]@));
                assert(wanted.take(i + 1) == wanted.take(i as int).push(wanted[i as int]));
            }
            i += 1;
        }
        proof {
            assert(wanted.take(i as int) == wanted);
        }
        let names = iter.headers().clone();
        let headers = Headers::from_row(strip(names.as_row(), &deleted, names.as_row()));
        Each::assemble(iter, Strip { names, deleted }, headers)
    }
}

} // verus!

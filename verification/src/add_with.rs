//! Adding a column whose values the caller computes.
use crate::each::Each;
use crate::each::PerRow;
use crate::error::ColBuildError;
use crate::error::Error;
use crate::error::Fault;
use crate::error::Item;
use crate::error::RowResult;
use crate::headers::position;
use crate::headers::Headers;
use crate::row::Row;
use crate::row_stream::RowStream;
use vstd::prelude::*;

verus! {

/// Why a stage that adds a column could not be built.
#[derive(Debug)]
pub enum AddWithBuildError {
    /// There is a column of that name already.
    DuplicatedHeader(String),
}

/// A computed value as contracts see it.
pub open spec fn value_view(value: Result<String, ColBuildError>) -> Result<
    Seq<char>,
    ColBuildError,
> {
    match value {
        Ok(text) => Ok(text@),
        Err(e) => Err(e),
    }
}

/// Whether a computation can be used in a stage: it takes every row, and
/// what it returns depends on nothing but the schema and the fields of the
/// row.
pub open spec fn computable<F: Fn(&Headers, &Row) -> Result<String, ColBuildError>>(f: F) -> bool {
    &&& forall|headers: &Headers, row: &Row| #[trigger] call_requires(f, (headers, row))
    &&& forall|
        h1: &Headers,
        r1: &Row,
        v1: Result<String, ColBuildError>,
        h2: &Headers,
        r2: &Row,
        v2: Result<String, ColBuildError>,
    |
        h1@ == h2@ && crate::row::fields(*r1) == crate::row::fields(*r2) && #[trigger] call_ensures(
            f,
            (h1, r1),
            v1,
        ) && #[trigger] call_ensures(f, (h2, r2), v2) ==> value_view(v1) == value_view(v2)
}

/// What a computation returns for a row, where it returns anything.
pub open spec fn computed<F: Fn(&Headers, &Row) -> Result<String, ColBuildError>>(
    f: F,
    names: Seq<Seq<char>>,
    fields: Seq<Seq<char>>,
) -> Result<Seq<char>, ColBuildError> {
    let found = choose|found: (Headers, Row, Result<String, ColBuildError>)|
        found.0@ == names && crate::row::fields(found.1) == fields && call_ensures(
            f,
            (&found.0, &found.1),
            found.2,
        );
    value_view(found.2)
}

/// Puts a value of the caller's at the end of every row.
pub struct Compute<F> {
    f: F,
    headers: Headers,
}

impl<F> Compute<F> {
    /// The computation.
    pub closed spec fn computation(&self) -> F {
        self.f
    }

    /// The column names that the computation is given.
    pub closed spec fn names(&self) -> Seq<Seq<char>> {
        self.headers@
    }
}

impl<F: Fn(&Headers, &Row) -> Result<String, ColBuildError>> PerRow for Compute<F> {
    open spec fn wf(&self) -> bool {
        computable(self.computation())
    }

    open spec fn image(&self, item: Item) -> Item {
        match item {
            Ok(fields) => match computed(self.computation(), self.names(), fields) {
                Ok(text) => Ok(fields.push(text)),
                Err(e) => Err(Fault::ColBuildError(e)),
            },
            Err(fault) => Err(fault),
        }
    }

    fn apply(&self, item: RowResult) -> (made: RowResult) {
        match item {
            Ok(row) => {
                let mut row = row;
                let value = (self.f)(&self.headers, &row);
                proof {
                    let found = (self.headers, row, value);
                    assert(found.0@ == self.names() && crate::row::fields(found.1)
                        == crate::row::fields(row) && call_ensures(
                        self.f,
                        (&found.0, &found.1),
                        found.2,
                    ));
                }
                match value {
                    Ok(text) => {
                        row.push_field(text.as_str());
                        Ok(row)
                    },
                    Err(e) => Err(Error::ColBuildError(e)),
                }
            },
            Err(e) => Err(e),
        }
    }
}

/// Adds a column to every row; a computation of the caller's gives its
/// value from the schema and the row. Where the computation fails for a row,
/// its error takes the place of the row. Errors of the input pass as they
/// are.
pub type AddWith<I, F> = Each<I, Compute<F>>;

impl<I: RowStream, F: Fn(&Headers, &Row) -> Result<String, ColBuildError>> Each<I, Compute<F>> {
    /// Builds the stage over an input, the name of the new column and the
    /// computation. The computation is given the schema of the output.
    pub fn new(iter: I, colname: &str, f: F) -> (built: Result<AddWith<I, F>, AddWithBuildError>)
        requires
            iter.wf(),
            computable(f),
        ensures
            match built {
                Ok(stage) => {
                    &&& position(iter.schema(), colname@) is None
                    &&& stage.wf()
                    &&& stage.source() == iter
                    &&& stage.schema() == iter.schema().push(colname@)
                    &&& stage.change().computation() == f
                    &&& stage.change().names() == iter.schema().push(colname@)
                    &&& stage.remaining() == crate::each::images(stage.change(), iter.remaining())
                },
                Err(AddWithBuildError::DuplicatedHeader(name)) => position(iter.schema(), colname@)
                    is Some && name@ == colname@,
            },
    {
        let mut headers = iter.headers().clone();
        match headers.add(colname) {
            Ok(_) => {},
            Err(_) => {
                return Err(AddWithBuildError::DuplicatedHeader(colname.to_owned()));
            },
        }
        let given = headers.clone();
        Ok(Each::assemble(iter, Compute { f, headers: given }, headers))
    }
}

} // verus!

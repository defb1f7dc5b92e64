//! What can go wrong, while a stage is built and while rows flow.
//!
//! A failure on one record is data: it travels down the chain as the `Err`
//! side of a [`RowResult`] and never stops the batch.
use crate::row::Row;
use vstd::prelude::*;

verus! {

/// `std::path::PathBuf`, carried through as it is.
#[verifier::external_type_specification]
#[verifier::external_body]
pub struct ExPathBuf(std::path::PathBuf);

/// Why an aggregate could not take a row.
#[derive(Debug)]
pub enum AggregateError {
    /// The source column does not exist in the row.
    MissingColumn(String),
    /// The source value could not be read as the type the aggregate needs.
    ValueError(String),
}

/// An [`AggregateError`] with its texts as sequences of characters.
pub enum AggregateFault {
    MissingColumn(Seq<char>),
    ValueError(Seq<char>),
}

impl View for AggregateError {
    type V = AggregateFault;

    open spec fn view(&self) -> AggregateFault {
        match *self {
            AggregateError::MissingColumn(name) => AggregateFault::MissingColumn(name@),
            AggregateError::ValueError(text) => AggregateFault::ValueError(text@),
        }
    }
}

/// Why a computed column could not be built for a row.
#[derive(Debug, Clone, Copy, PartialEq, Eq, Structural)]
pub enum ColBuildError {
    UnknownSource,
    ReNoMatch,
    InvalidFormat,
    KeyError,
}

impl ColBuildError {
    /// The marker written into a cell whose value could not be built.
    pub open spec fn marker(self) -> Seq<char> {
        match self {
            ColBuildError::UnknownSource => "#NO_SOURCE"@,
            ColBuildError::ReNoMatch => "#RE_NO_MATCH"@,
            ColBuildError::InvalidFormat => "#FORMAT"@,
            ColBuildError::KeyError => "#KEY_ERROR"@,
        }
    }

    /// The marker of this error, to be written in place of the value.
    pub fn to_csv(&self) -> (text: String)
        ensures
            text@ == self.marker(),
    {
        match *self {
            ColBuildError::UnknownSource => "#NO_SOURCE".to_owned(),
            ColBuildError::ReNoMatch => "#RE_NO_MATCH".to_owned(),
            ColBuildError::InvalidFormat => "#FORMAT".to_owned(),
            ColBuildError::KeyError => "#KEY_ERROR".to_owned(),
        }
    }
}

/// An error found somewhere in the transformation chain.
#[derive(Debug)]
pub enum Error {
    /// Reading or writing CSV failed; the text is what the reader or writer
    /// reported.
    Csv(String),
    /// A stream's schema is not the one that was declared for it.
    InconsistentHeaders,
    /// A record of the named file does not have as many fields as its header.
    InconsistentSizeOfRows(std::path::PathBuf),
    /// A computed column could not be built.
    ColBuildError(ColBuildError),
    /// A column asked for by name is not in the schema.
    ColumnNotFound(String),
    /// An aggregate refused a row of its group.
    AggregateError(AggregateError),
    /// A grouping or sort column is absent from this one row.
    HashError(String),
}

/// An [`Error`] with its texts as sequences of characters.
pub enum Fault {
    Csv(Seq<char>),
    InconsistentHeaders,
    InconsistentSizeOfRows(std::path::PathBuf),
    ColBuildError(ColBuildError),
    ColumnNotFound(Seq<char>),
    AggregateError(AggregateFault),
    HashError(Seq<char>),
}

impl View for Error {
    type V = Fault;

    open spec fn view(&self) -> Fault {
        match *self {
            Error::Csv(text) => Fault::Csv(text@),
            Error::InconsistentHeaders => Fault::InconsistentHeaders,
            Error::InconsistentSizeOfRows(p) => Fault::InconsistentSizeOfRows(p),
            Error::ColBuildError(e) => Fault::ColBuildError(e),
            Error::ColumnNotFound(name) => Fault::ColumnNotFound(name@),
            Error::AggregateError(e) => Fault::AggregateError(e@),
            Error::HashError(name) => Fault::HashError(name@),
        }
    }
}

/// What flows through the chain: a row, or the error that took its place.
pub type RowResult = Result<Row, Error>;

/// A [`RowResult`] as contracts see it: the fields of the row, or the fault.
pub type Item = Result<Seq<Seq<char>>, Fault>;

/// The contract's view of one element of a stream.
pub open spec fn item_view(item: RowResult) -> Item {
    match item {
        Ok(row) => Ok(crate::row::fields(row)),
        Err(e) => Err(e@),
    }
}

/// The contract's view of a sequence of elements.
pub open spec fn items_view(items: Seq<RowResult>) -> Seq<Item> {
    items.map_values(|item: RowResult| item_view(item))
}

/// Rows as elements of a stream.
pub open spec fn as_items(rows: Seq<Seq<Seq<char>>>) -> Seq<Item> {
    rows.map_values(|fields: Seq<Seq<char>>| Ok::<Seq<Seq<char>>, Fault>(fields))
}

/// A grouping column that the upstream schema does not have.
#[derive(Debug)]
pub enum GroupBuildError {
    GroupingKeyError(String),
}

/// Why a sorting stage could not be built.
#[derive(Debug)]
pub enum AdjacentSortBuildError {
    /// A grouping column is not in the upstream schema.
    GroupingKeyError(String),
    /// The sort column is not in the upstream schema.
    SortKeyError(String),
}

/// Why a reducing stage could not be built.
#[derive(Debug)]
pub enum ReducerBuildError {
    /// A grouping column is not in the upstream schema.
    GroupingKeyError(String),
    /// The source column of an aggregate is not in the upstream schema.
    AggregateSourceError(String),
    /// An output column has the name of a column that is already there.
    DuplicatedHeader(String),
}

/// A [`ReducerBuildError`] with its text as a sequence of characters.
pub enum ReducerBuildFault {
    GroupingKeyError(Seq<char>),
    AggregateSourceError(Seq<char>),
    DuplicatedHeader(Seq<char>),
}

impl View for ReducerBuildError {
    type V = ReducerBuildFault;

    open spec fn view(&self) -> ReducerBuildFault {
        match *self {
            ReducerBuildError::GroupingKeyError(name) => ReducerBuildFault::GroupingKeyError(name@),
            ReducerBuildError::AggregateSourceError(name) => ReducerBuildFault::AggregateSourceError(
                name@,
            ),
            ReducerBuildError::DuplicatedHeader(name) => ReducerBuildFault::DuplicatedHeader(name@),
        }
    }
}

} // verus!

//! Accumulators that fold the rows of a group into one value each.
//!
//! An accumulator reads one field of every row of its group and ends up as
//! one text. It starts as a template that a stage holds; every group gets
//! fresh accumulators made from the templates, so no state is shared between
//! groups.
use crate::error::AggregateError;
use crate::error::AggregateFault;
use crate::headers::Headers;
use crate::row::Row;
use vstd::prelude::*;

pub mod count;
pub mod last;

pub use count::Count;
pub use last::Last;

verus! {

/// One strategy of aggregation.
///
/// Implement this trait to aggregate in a way of your own. The stages are
/// proved over accumulators that keep to the contracts below, each of which
/// ties a method to the accumulator's model: a value that stands for its
/// state, with the functions that say how a state begins, how a row changes
/// it, and what text it amounts to. An accumulator that says nothing of its
/// model is taken to keep to them for some model that is not known.
pub trait Aggregate: Sized {
    /// What stands for an accumulator's state in contracts. An accumulator
    /// that says nothing of its model can take `()`.
    type Model;

    /// The state of this accumulator.
    open spec fn model(&self) -> Self::Model {
        arbitrary()
    }

    /// The state in which an accumulator made from this one begins.
    open spec fn initial(model: Self::Model) -> Self::Model {
        arbitrary()
    }

    /// The column that the accumulator reads, if it reads one.
    open spec fn reads(model: Self::Model) -> Option<Seq<char>> {
        arbitrary()
    }

    /// What a row does to a state: the state that follows, or the fault that
    /// is reported. `names` are the column names and `fields` the row's
    /// fields.
    open spec fn step(model: Self::Model, names: Seq<Seq<char>>, fields: Seq<Seq<char>>) -> Result<
        Self::Model,
        AggregateFault,
    > {
        arbitrary()
    }

    /// The text that a state amounts to.
    open spec fn render(model: Self::Model) -> Seq<char> {
        arbitrary()
    }

    /// A new accumulator of the same kind over the same column, in its
    /// initial state.
    fn fresh(&self) -> (made: Self)
        ensures
            made.model() == Self::initial(self.model()),
    ;

    /// The name of the column that the accumulator reads, if it reads one.
    fn source(&self) -> (name: Option<String>)
        ensures
            match name {
                Some(text) => Self::reads(self.model()) == Some(text@),
                None => Self::reads(self.model()) is None,
            },
    ;

    /// Takes in one row of the group. Where the row is refused, the
    /// accumulator stays as it was.
    fn update(&mut self, headers: &Headers, row: &Row) -> (done: Result<(), AggregateError>)
        ensures
            match done {
                Ok(_) => Self::step(old(self).model(), headers@, crate::row::fields(*row)) == Ok::<
                    Self::Model,
                    AggregateFault,
                >(final(self).model()),
                Err(e) => Self::step(old(self).model(), headers@, crate::row::fields(*row))
                    == Err::<Self::Model, AggregateFault>(e@) && final(self).model() == old(
                    self,
                ).model(),
            },
    ;

    /// The value accumulated so far, as text.
    fn value(&self) -> (text: String)
        ensures
            text@ == Self::render(self.model()),
    ;
}

/// The field that an accumulator reads from a row: the one under its source
/// column, or the error that names the column where the row has none.
pub fn source_field<'r>(headers: &Headers, row: &'r Row, source: &str) -> (field: Result<
    &'r str,
    AggregateError,
>)
    ensures
        match field {
            Ok(text) => crate::headers::field_of(headers@, crate::row::fields(*row), source@)
                == Some(text@),
            Err(e) => crate::headers::field_of(headers@, crate::row::fields(*row), source@)
                is None && e@ == AggregateFault::MissingColumn(source@),
        },
{
    match headers.get_field(row, source) {
        Some(text) => Ok(text),
        None => Err(AggregateError::MissingColumn(source.to_owned())),
    }
}

} // verus!

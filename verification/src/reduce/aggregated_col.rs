use crate::aggregate::Aggregate;
use vstd::prelude::*;

verus! {

/// A column of aggregated values that a reducing stage adds to its output:
/// the name of the column and the accumulator that every group starts from.
pub struct AggregatedCol<A: Aggregate> {
    colname: String,
    aggregate: A,
}

impl<A: Aggregate> AggregatedCol<A> {
    /// The name of the output column.
    pub closed spec fn name(&self) -> Seq<char> {
        self.colname@
    }

    /// The state of the template accumulator.
    pub closed spec fn template(&self) -> A::Model {
        self.aggregate.model()
    }

    /// Binds an output column to an accumulator.
    pub fn new(colname: &str, aggregate: A) -> (col: AggregatedCol<A>)
        ensures
            col.name() == colname@,
            col.template() == aggregate.model(),
    {
        AggregatedCol { colname: colname.to_owned(), aggregate }
    }

    /// The name of the output column.
    pub fn colname(&self) -> (name: &str)
        ensures
            name@ == self.name(),
    {
        self.colname.as_str()
    }

    /// The template accumulator.
    pub fn aggregate(&self) -> (aggregate: &A)
        ensures
            aggregate.model() == self.template(),
    {
        &self.aggregate
    }

    /// The column that the accumulator reads, if it reads one.
    pub fn source(&self) -> (name: Option<String>)
        ensures
            match name {
                Some(text) => A::reads(self.template()) == Some(text@),
                None => A::reads(self.template()) is None,
            },
    {
        self.aggregate.source()
    }
}

/// The output names of a list of aggregated columns.
pub open spec fn column_names<A: Aggregate>(columns: Seq<AggregatedCol<A>>) -> Seq<Seq<char>> {
    columns.map_values(|col: AggregatedCol<A>| col.name())
}

/// The template states of a list of aggregated columns.
pub open spec fn templates<A: Aggregate>(columns: Seq<AggregatedCol<A>>) -> Seq<A::Model> {
    columns.map_values(|col: AggregatedCol<A>| col.template())
}

} // verus!

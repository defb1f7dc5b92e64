//! Building a chain stage by stage, each from the one before it.
use crate::add_with::AddWith;
use crate::add_with::AddWithBuildError;
use crate::adjacent_group::AdjacentGroup;
use crate::adjacent_reduce::AdjacentReduce;
use crate::adjacent_sort::AdjacentSort;
use crate::aggregate::Aggregate;
use crate::del::Del;
use crate::error::AdjacentSortBuildError;
use crate::error::ColBuildError;
use crate::error::Error;
use crate::error::GroupBuildError;
use crate::error::ReducerBuildError;
use crate::error::RowResult;
use crate::flush::Flush;
use crate::flush::FlushTarget;
use crate::group::Group;
use crate::headers::Headers;
use crate::inspect::Inspect;
use crate::mock::MockStream;
use crate::reduce::AggregatedCol;
use crate::reduce::Reduce;
use crate::rename::Rename;
use crate::row::Row;
use crate::row_stream::RowStream;
use vstd::prelude::*;

verus! {

/// The stages of this library as methods of a stream, so that a chain can be
/// written from its source to its end. Every method builds the stage of its
/// name over the stream it is called on: it asks what the `new` of that
/// stage asks, and returns what that `new` returns.
pub trait Chain: RowStream + Sized {
    /// Adds a column to each row of the stream, using a function to compute
    /// its value.
    fn add_with<F: Fn(&Headers, &Row) -> Result<String, ColBuildError>>(
        self,
        colname: &str,
        f: F,
    ) -> (built: Result<AddWith<Self, F>, AddWithBuildError>)
        requires
            call_requires(AddWith::<Self, F>::new, (self, colname, f)),
        ensures
            call_ensures(AddWith::<Self, F>::new, (self, colname, f), built),
    ;

    /// Deletes the named columns from each row of the stream.
    fn del(self, columns: Vec<&str>) -> (stage: Del<Self>)
        requires
            call_requires(Del::<Self>::new, (self, columns)),
        ensures
            call_ensures(Del::<Self>::new, (self, columns), stage),
    ;

    /// Calls a function on each element as it passes, mostly to see what a
    /// chain does.
    fn inspect<F: Fn(&Headers, &RowResult)>(self, f: F) -> (stage: Inspect<Self, F>)
        requires
            call_requires(Inspect::<Self, F>::new, (self, f)),
        ensures
            call_ensures(Inspect::<Self, F>::new, (self, f), stage),
    ;

    /// Gives columns new names.
    fn rename(self, name_map: &[(&str, &str)]) -> (stage: Rename<Self>)
        requires
            call_requires(Rename::<Self>::new, (self, name_map)),
        ensures
            call_ensures(Rename::<Self>::new, (self, name_map), stage),
    ;

    /// Groups the rows of the whole stream by the given columns and folds
    /// every group into one row.
    fn reduce<A: Aggregate>(self, grouping: &[&str], columns: Vec<AggregatedCol<A>>) -> (built:
        Result<Reduce<Self, A>, ReducerBuildError>)
        requires
            call_requires(Reduce::<Self, A>::new, (self, grouping, columns)),
        ensures
            call_ensures(Reduce::<Self, A>::new, (self, grouping, columns), built),
    ;

    /// Folds every run of rows that follow each other and agree in the given
    /// columns into one row.
    fn adjacent_reduce<A: Aggregate>(
        self,
        grouping: &[&str],
        columns: Vec<AggregatedCol<A>>,
    ) -> (built: Result<AdjacentReduce<Self, A>, ReducerBuildError>)
        requires
            call_requires(AdjacentReduce::<Self, A>::new, (self, grouping, columns)),
        ensures
            call_ensures(AdjacentReduce::<Self, A>::new, (self, grouping, columns), built),
    ;

    /// Sorts every run of rows that follow each other and agree in the given
    /// columns by one column.
    fn adjacent_sort(self, grouping: &[&str], sort_by: &str) -> (built: Result<
        AdjacentSort<Self>,
        AdjacentSortBuildError,
    >)
        requires
            call_requires(AdjacentSort::<Self>::new, (self, grouping, sort_by)),
        ensures
            call_ensures(AdjacentSort::<Self>::new, (self, grouping, sort_by), built),
    ;

    /// Hands every run of rows that follow each other and agree in the given
    /// columns to a transform.
    fn adjacent_group<H: FnOnce(Headers) -> Headers, F: Fn(MockStream) -> R, R: RowStream>(
        self,
        header_map: H,
        f: F,
        grouping: &[&str],
    ) -> (built: Result<AdjacentGroup<Self, F>, GroupBuildError>)
        requires
            call_requires(AdjacentGroup::<Self, F>::new::<H>, (self, header_map, f, grouping)),
        ensures
            call_ensures(
                AdjacentGroup::<Self, F>::new::<H>,
                (self, header_map, f, grouping),
                built,
            ),
    ;

    /// Groups the rows of the whole stream by the given columns and hands
    /// every group to a transform.
    fn group<H: FnOnce(Headers) -> Headers, F: Fn(MockStream) -> R, R: RowStream>(
        self,
        header_map: H,
        f: F,
        grouping: &[&str],
    ) -> (built: Result<Group<Self, F>, GroupBuildError>)
        requires
            call_requires(Group::<Self, F>::new::<H>, (self, header_map, f, grouping)),
        ensures
            call_ensures(Group::<Self, F>::new::<H>, (self, header_map, f, grouping), built),
    ;

    /// Marks the rows of the stream for writing to the given target.
    fn flush(self, target: FlushTarget) -> (built: Result<Flush<Self>, Error>)
        requires
            call_requires(Flush::<Self>::new, (self, target)),
        ensures
            call_ensures(Flush::<Self>::new, (self, target), built),
    ;
}

impl<S: RowStream> Chain for S {
    fn add_with<F: Fn(&Headers, &Row) -> Result<String, ColBuildError>>(
        self,
        colname: &str,
        f: F,
    ) -> (built: Result<AddWith<Self, F>, AddWithBuildError>) {
        AddWith::new(self, colname, f)
    }

    fn del(self, columns: Vec<&str>) -> (stage: Del<Self>) {
        Del::new(self, columns)
    }

    fn inspect<F: Fn(&Headers, &RowResult)>(self, f: F) -> (stage: Inspect<Self, F>) {
        Inspect::new(self, f)
    }

    fn rename(self, name_map: &[(&str, &str)]) -> (stage: Rename<Self>) {
        Rename::new(self, name_map)
    }

    fn reduce<A: Aggregate>(self, grouping: &[&str], columns: Vec<AggregatedCol<A>>) -> (built:
        Result<Reduce<Self, A>, ReducerBuildError>) {
        Reduce::new(self, grouping, columns)
    }

    fn adjacent_reduce<A: Aggregate>(
        self,
        grouping: &[&str],
        columns: Vec<AggregatedCol<A>>,
    ) -> (built: Result<AdjacentReduce<Self, A>, ReducerBuildError>) {
        AdjacentReduce::new(self, grouping, columns)
    }

    fn adjacent_sort(self, grouping: &[&str], sort_by: &str) -> (built: Result<
        AdjacentSort<Self>,
        AdjacentSortBuildError,
    >) {
        AdjacentSort::new(self, grouping, sort_by)
    }

    fn adjacent_group<H: FnOnce(Headers) -> Headers, F: Fn(MockStream) -> R, R: RowStream>(
        self,
        header_map: H,
        f: F,
        grouping: &[&str],
    ) -> (built: Result<AdjacentGroup<Self, F>, GroupBuildError>) {
        AdjacentGroup::new(self, header_map, f, grouping)
    }

    fn group<H: FnOnce(Headers) -> Headers, F: Fn(MockStream) -> R, R: RowStream>(
        self,
        header_map: H,
        f: F,
        grouping: &[&str],
    ) -> (built: Result<Group<Self, F>, GroupBuildError>) {
        Group::new(self, header_map, f, grouping)
    }

    fn flush(self, target: FlushTarget) -> (built: Result<Flush<Self>, Error>) {
        Flush::new(self, target)
    }
}

} // verus!

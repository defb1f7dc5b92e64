//! Grouping of rows that follow each other, with every group folded into
//! one row.
use crate::aggregate::Aggregate;
use crate::error::ReducerBuildError;
use crate::error::ReducerBuildFault;
use crate::grouping::strs;
use crate::grouping::Grouping;
use crate::grouping::Rule;
use crate::partition::runs::adjacent_segments;
use crate::partition::Partition;
use crate::partition::Runs;
use crate::reduce::check;
use crate::reduce::reduce_schema;
use crate::reduce::reduced;
use crate::reduce::sources;
use crate::reduce::AggregatedCol;
use crate::reduce::Fold;
use crate::row_stream::RowStream;
use crate::stage::Stage;
use vstd::prelude::*;

verus! {

/// Folds every run of rows with equal keys into one row, as soon as the run
/// has ended. The input is taken to be clustered by key already: rows of a
/// key that come back after rows of another key form a group of their own.
/// No more than one run is held at a time.
pub type AdjacentReduce<I, A> = Stage<Runs<I>, Fold<A>>;

impl<I: RowStream, A: Aggregate> Stage<Runs<I>, Fold<A>> {
    /// Builds the stage over an input, the names of the grouping columns and
    /// the columns to add. Nothing is pulled from the input.
    ///
    /// The stage hands out one element for every run and every error of its
    /// input, in the order of the input.
    pub fn new(iter: I, grouping: &[&str], columns: Vec<AggregatedCol<A>>) -> (built: Result<
        AdjacentReduce<I, A>,
        ReducerBuildError,
    >)
        requires
            iter.wf(),
        ensures
            match built {
                Ok(stage) => {
                    &&& stage.wf()
                    &&& reduce_schema(
                        iter.schema(),
                        strs(grouping@),
                        sources(columns@),
                        crate::reduce::aggregated_col::column_names(columns@),
                    ) == Ok::<Seq<Seq<char>>, ReducerBuildFault>(stage.schema())
                    &&& stage.parts().source() == iter
                    &&& stage.remaining() == reduced::<A>(
                        iter.schema(),
                        crate::reduce::aggregated_col::templates(columns@),
                        adjacent_segments(
                            Rule {
                                names: iter.schema(),
                                group_by: strs(grouping@),
                                required: Seq::empty(),
                            },
                            iter.remaining(),
                        ),
                    )
                },
                Err(e) => reduce_schema(
                    iter.schema(),
                    strs(grouping@),
                    sources(columns@),
                    crate::reduce::aggregated_col::column_names(columns@),
                ) == Err::<Seq<Seq<char>>, ReducerBuildFault>(e@),
            },
    {
        let (group_by, headers) = match check(iter.headers(), grouping, &columns) {
            Ok(checked) => checked,
            Err(e) => {
                return Err(e);
            },
        };
        let upstream = iter.headers().clone();
        let required: Vec<String> = Vec::new();
        proof {
            assert(required.deep_view() == Seq::<Seq<char>>::empty());
        }
        let rule = Grouping::new(upstream.clone(), group_by, required);
        let fold = Fold::new(upstream, columns);
        let parts = Runs::new(iter, rule);
        proof {
            crate::reduce::lemma_expanded_fold(fold, parts.pending());
        }
        Ok(Stage::assemble(parts, fold, headers))
    }
}

} // verus!

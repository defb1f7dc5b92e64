//! Grouping of rows that follow each other, with a transform of the
//! caller's applied to every group.
use crate::apply::dependable;
use crate::apply::Apply;
use crate::error::GroupBuildError;
use crate::grouping::first_absent;
use crate::grouping::known_columns;
use crate::grouping::strs;
use crate::grouping::Grouping;
use crate::grouping::Rule;
use crate::headers::Headers;
use crate::mock::MockStream;
use crate::partition::runs::adjacent_segments;
use crate::partition::Runs;
use crate::row_stream::RowStream;
use crate::stage::expanded;
use crate::stage::Stage;
use vstd::prelude::*;

verus! {

/// Hands every run of rows with equal keys to a transform, as a stream of
/// its own, and hands out what the transform returns for it before the next
/// run is read. Rows of a key that come back after rows of another key form
/// a group of their own. An error of the input ends the run before it and
/// passes through on its own.
///
/// A transform that adds or removes columns has to come with a map of the
/// schema that does the same.
pub type AdjacentGroup<I, F> = Stage<Runs<I>, Apply<F>>;

impl<I: RowStream, F: Fn(MockStream) -> R, R: RowStream> Stage<Runs<I>, Apply<F>> {
    /// Builds the stage over an input, a map from the schema of the input to
    /// the schema of the output, the transform, and the names of the
    /// grouping columns. Nothing is pulled from the input.
    pub fn new<H: FnOnce(Headers) -> Headers>(
        iter: I,
        header_map: H,
        f: F,
        grouping: &[&str],
    ) -> (built: Result<AdjacentGroup<I, F>, GroupBuildError>)
        requires
            iter.wf(),
            dependable(f),
            forall|given: Headers| call_requires(header_map, (given,)),
        ensures
            match built {
                Ok(stage) => {
                    &&& first_absent(iter.schema(), strs(grouping@)) is None
                    &&& stage.wf()
                    &&& stage.parts().source() == iter
                    &&& stage.process().transform() == f
                    &&& stage.process().upstream()@ == iter.schema()
                    &&& stage.schema() == stage.process().declared()@
                    &&& exists|given: Headers|
                        given@ == iter.schema() && call_ensures(
                            header_map,
                            (given,),
                            stage.process().declared(),
                        )
                    &&& stage.remaining() == expanded(
                        stage.process(),
                        adjacent_segments(
                            Rule {
                                names: iter.schema(),
                                group_by: strs(grouping@),
                                required: Seq::empty(),
                            },
                            iter.remaining(),
                        ),
                    )
                },
                Err(GroupBuildError::GroupingKeyError(name)) => first_absent(
                    iter.schema(),
                    strs(grouping@),
                ) == Some(name@),
            },
    {
        let group_by = match known_columns(iter.headers(), grouping) {
            Ok(group_by) => group_by,
            Err(name) => {
                return Err(GroupBuildError::GroupingKeyError(name));
            },
        };
        let upstream = iter.headers().clone();
        let given = upstream.clone();
        let declared = header_map(given);
        let required: Vec<String> = Vec::new();
        proof {
            assert(required.deep_view() == Seq::<Seq<char>>::empty());
        }
        let rule = Grouping::new(upstream.clone(), group_by, required);
        let shown = declared.clone();
        let apply = Apply::new(f, upstream, declared);
        let parts = Runs::new(iter, rule);
        let stage = Stage::assemble(parts, apply, shown);
        proof {
            assert(given@ == iter.schema() && call_ensures(header_map, (given,), declared));
        }
        Ok(stage)
    }
}

} // verus!

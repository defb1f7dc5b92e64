//! Grouping over the whole input, with a transform of the caller's applied
//! to every group.
use crate::apply::dependable;
use crate::apply::Apply;
use crate::error::GroupBuildError;
use crate::grouping::first_absent;
use crate::grouping::known_columns;
use crate::grouping::strs;
use crate::grouping::Grouping;
use crate::grouping::Rule;
use crate::headers::Headers;
use crate::mock::MockStream;
use crate::partition::buckets::global_segments;
use crate::partition::Buckets;
use crate::row_stream::RowStream;
use crate::stage::expanded;
use crate::stage::Stage;
use vstd::prelude::*;

verus! {

/// Groups the rows of the whole input by key and hands every group to a
/// transform, as a stream of its own. All rows are held until the input
/// ends. The errors of the input are handed out first, as they are; the
/// groups follow in the order in which their keys were first seen.
///
/// A transform that adds or removes columns has to come with a map of the
/// schema that does the same.
pub type Group<I, F> = Stage<Buckets<I>, Apply<F>>;

impl<I: RowStream, F: Fn(MockStream) -> R, R: RowStream> Stage<Buckets<I>, Apply<F>> {
    /// Builds the stage over an input, a map from the schema of the input to
    /// the schema of the output, the transform, and the names of the
    /// grouping columns. Nothing is pulled from the input.
    pub fn new<H: FnOnce(Headers) -> Headers>(
        iter: I,
        header_map: H,
        f: F,
        grouping: &[&str],
    ) -> (built: Result<Group<I, F>, GroupBuildError>)
        requires
            iter.wf(),
            dependable(f),
            forall|given: Headers| call_requires(header_map, (given,)),
        ensures
            match built {
                Ok(stage) => {
                    &&& first_absent(iter.schema(), strs(grouping@)) is None
                    &&& stage.wf()
                    &&& stage.parts().source() == iter
                    &&& stage.process().transform() == f
                    &&& stage.process().upstream()@ == iter.schema()
                    &&& stage.schema() == stage.process().declared()@
                    &&& exists|given: Headers|
                        given@ == iter.schema() && call_ensures(
                            header_map,
                            (given,),
                            stage.process().declared(),
                        )
                    &&& stage.remaining() == expanded(
                        stage.process(),
                        global_segments(
                            Rule {
                                names: iter.schema(),
                                group_by: strs(grouping@),
                                required: Seq::empty(),
                            },
                            iter.remaining(),
                        ),
                    )
                },
                Err(GroupBuildError::GroupingKeyError(name)) => first_absent(
                    iter.schema(),
                    strs(grouping@),
                ) == Some(name@),
            },
    {
        let group_by = match known_columns(iter.headers(), grouping) {
            Ok(group_by) => group_by,
            Err(name) => {
                return Err(GroupBuildError::GroupingKeyError(name));
            },
        };
        let upstream = iter.headers().clone();
        let given = upstream.clone();
        let declared = header_map(given);
        let required: Vec<String> = Vec::new();
        proof {
            assert(required.deep_view() == Seq::<Seq<char>>::empty());
        }
        let rule = Grouping::new(upstream.clone(), group_by, required);
        let shown = declared.clone();
        let apply = Apply::new(f, upstream, declared);
        let parts = Buckets::new(iter, rule);
        let stage = Stage::assemble(parts, apply, shown);
        proof {
            assert(given@ == iter.schema() && call_ensures(header_map, (given,), declared));
        }
        Ok(stage)
    }
}

} // verus!

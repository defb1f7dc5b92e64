//! Grouping over the whole input, with every group folded into one row.
use crate::aggregate::Aggregate;
use crate::error::Item;
use crate::error::ReducerBuildError;
use crate::error::ReducerBuildFault;
use crate::error::RowResult;
use crate::grouping::first_absent;
use crate::grouping::known_columns;
use crate::grouping::strs;
use crate::grouping::Grouping;
use crate::grouping::Rule;
use crate::headers::position;
use crate::headers::Headers;
use crate::partition::buckets::global_segments;
use crate::partition::Buckets;
use crate::partition::Partition;
use crate::partition::SegmentView;
use crate::row::Row;
use crate::row_stream::RowStream;
use crate::stage::emitted;
use crate::stage::expanded;
use crate::stage::Process;
use crate::stage::Stage;
use std::collections::VecDeque;
use vstd::prelude::*;

pub mod aggregated_col;
pub mod column_spec;
pub mod group;

pub use aggregated_col::AggregatedCol;
pub use column_spec::AggregateKind;
pub use column_spec::AggregatedColParseError;
pub use column_spec::ColumnSpec;

verus! {

/// The columns that a list of aggregated columns read.
pub open spec fn sources<A: Aggregate>(columns: Seq<AggregatedCol<A>>) -> Seq<Option<Seq<char>>> {
    columns.map_values(|col: AggregatedCol<A>| A::reads(col.template()))
}

/// The first source column that is not a column of the schema.
pub open spec fn first_unknown(names: Seq<Seq<char>>, sources: Seq<Option<Seq<char>>>) -> Option<
    Seq<char>,
>
    decreases sources.len(),
{
    if sources.len() == 0 {
        None
    } else {
        match first_unknown(names, sources.drop_last()) {
            Some(name) => Some(name),
            None => match sources.last() {
                Some(name) => if position(names, name) is None {
                    Some(name)
                } else {
                    None
                },
                None => None,
            },
        }
    }
}

/// The schema with the given names added at its end, one by one. The error
/// is the first name that is already there when its turn comes.
pub open spec fn extended(names: Seq<Seq<char>>, added: Seq<Seq<char>>) -> Result<
    Seq<Seq<char>>,
    Seq<char>,
>
    decreases added.len(),
{
    if added.len() == 0 {
        Ok(names)
    } else {
        match extended(names, added.drop_last()) {
            Ok(so_far) => if position(so_far, added.last()) is Some {
                Err(added.last())
            } else {
                Ok(so_far.push(added.last()))
            },
            Err(name) => Err(name),
        }
    }
}

/// The output schema of a reducing stage, or why it cannot be built. The
/// grouping columns are checked first, then the source columns, then the
/// names of the new columns.
pub open spec fn reduce_schema(
    names: Seq<Seq<char>>,
    grouping: Seq<Seq<char>>,
    sources: Seq<Option<Seq<char>>>,
    added: Seq<Seq<char>>,
) -> Result<Seq<Seq<char>>, ReducerBuildFault> {
    match first_absent(names, grouping) {
        Some(name) => Err(ReducerBuildFault::GroupingKeyError(name)),
        None => match first_unknown(names, sources) {
            Some(name) => Err(ReducerBuildFault::AggregateSourceError(name)),
            None => match extended(names, added) {
                Ok(schema) => Ok(schema),
                Err(name) => Err(ReducerBuildFault::DuplicatedHeader(name)),
            },
        },
    }
}

/// What a reducing stage hands out for a sequence of segments: one element
/// for each, the fold of the rows of a group or the error that passes.
pub open spec fn reduced<A: Aggregate>(
    names: Seq<Seq<char>>,
    templates: Seq<A::Model>,
    segments: Seq<SegmentView>,
) -> Seq<Item> {
    segments.map_values(
        |segment: SegmentView|
            match segment {
                Ok(rows) => crate::reduce::group::folded::<A>(names, templates, rows),
                Err(fault) => Err(fault),
            },
    )
}

/// Once a source is unknown among the first, it is the first unknown one of
/// them all.
proof fn lemma_first_unknown_stays(
    names: Seq<Seq<char>>,
    sources: Seq<Option<Seq<char>>>,
    k: int,
)
    requires
        0 <= k <= sources.len(),
        first_unknown(names, sources.take(k)) is Some,
    ensures
        first_unknown(names, sources) == first_unknown(names, sources.take(k)),
    decreases sources.len() - k,
{
    if k < sources.len() {
        assert(sources.take(k + 1).drop_last() == sources.take(k));
        lemma_first_unknown_stays(names, sources, k + 1);
    } else {
        assert(sources.take(k) == sources);
    }
}

/// Once a name among the first cannot be added, no further name is.
proof fn lemma_extended_stays(names: Seq<Seq<char>>, added: Seq<Seq<char>>, k: int)
    requires
        0 <= k <= added.len(),
        extended(names, added.take(k)) is Err,
    ensures
        extended(names, added) == extended(names, added.take(k)),
    decreases added.len() - k,
{
    if k < added.len() {
        assert(added.take(k + 1).drop_last() == added.take(k));
        lemma_extended_stays(names, added, k + 1);
    } else {
        assert(added.take(k) == added);
    }
}

/// Checks the configuration of a reducing stage against the schema of its
/// input, and returns the grouping columns and the output schema. Only the
/// schema is looked at: no row is read.
pub fn check<A: Aggregate>(
    upstream: &Headers,
    grouping: &[&str],
    columns: &Vec<AggregatedCol<A>>,
) -> (checked: Result<(Vec<String>, Headers), ReducerBuildError>)
    ensures
        match checked {
            Ok((group_by, headers)) => group_by.deep_view() == strs(grouping@) && reduce_schema(
                upstream@,
                strs(grouping@),
                sources(columns@),
                crate::reduce::aggregated_col::column_names(columns@),
            ) == Ok::<Seq<Seq<char>>, ReducerBuildFault>(headers@),
            Err(e) => reduce_schema(
                upstream@,
                strs(grouping@),
                sources(columns@),
                crate::reduce::aggregated_col::column_names(columns@),
            ) == Err::<Seq<Seq<char>>, ReducerBuildFault>(e@),
        },
{
    let ghost names = upstream@;
    let ghost read = sources(columns@);
    let ghost added = crate::reduce::aggregated_col::column_names(columns@);
    let group_by = match known_columns(upstream, grouping) {
        Ok(group_by) => group_by,
        Err(name) => {
            return Err(ReducerBuildError::GroupingKeyError(name));
        },
    };
    let mut i: usize = 0;
    while i < columns.len()
        invariant
            i <= columns@.len(),
            names == upstream@,
            read == sources(columns@),
            first_absent(names, strs(grouping@)) is None,
            first_unknown(names, read.take(i as int)) is None,
        decreases columns@.len() - i,
    {
        proof {
            assert(read.take(i + 1).drop_last() == read.take(i as int));
            assert(read.take(i + 1).last() == read[i as int]);
        }
        match columns[i].source() {
            Some(name) => {
                if !upstream.contains_key(name.as_str()) {
                    proof {
                        lemma_first_unknown_stays(names, read, i + 1);
                    }
                    return Err(ReducerBuildError::AggregateSourceError(name));
                }
            },
            None => {},
        }
        i += 1;
    }
    proof {
        assert(read.take(i as int) == read);
    }
    let mut headers = upstream.clone();
    let mut j: usize = 0;
    proof {
        assert(added.take(0) == Seq::<Seq<char>>::empty());
    }
    while j < columns.len()
        invariant
            j <= columns@.len(),
            names == upstream@,
            added == crate::reduce::aggregated_col::column_names(columns@),
            first_absent(names, strs(grouping@)) is None,
            first_unknown(names, sources(columns@)) is None,
            extended(names, added.take(j as int)) == Ok::<Seq<Seq<char>>, Seq<char>>(headers@),
        decreases columns@.len() - j,
    {
        proof {
            assert(added.take(j + 1).drop_last() == added.take(j as int));
            assert(added.take(j + 1).last() == added[j as int]);
        }
        match headers.add(columns[j].colname()) {
            Ok(_) => {},
            Err(_) => {
                proof {
                    lemma_extended_stays(names, added, j + 1);
                }
                return Err(ReducerBuildError::DuplicatedHeader(columns[j].colname().to_owned()));
            },
        }
        j += 1;
    }
    proof {
        assert(added.take(j as int) == added);
    }
    Ok((group_by, headers))
}

/// Folds the rows of a group into one row of aggregated values.
pub struct Fold<A: Aggregate> {
    headers: Headers,
    columns: Vec<AggregatedCol<A>>,
}

impl<A: Aggregate> Fold<A> {
    /// The column names of the rows that are folded.
    pub closed spec fn names(&self) -> Seq<Seq<char>> {
        self.headers@
    }

    /// The template states of the aggregated columns.
    pub closed spec fn templates(&self) -> Seq<A::Model> {
        crate::reduce::aggregated_col::templates(self.columns@)
    }

    /// A fold of rows with the given schema into the given columns.
    pub fn new(headers: Headers, columns: Vec<AggregatedCol<A>>) -> (fold: Fold<A>)
        ensures
            fold.wf(),
            fold.names() == headers@,
            fold.templates() == crate::reduce::aggregated_col::templates(columns@),
    {
        Fold { headers, columns }
    }
}

impl<A: Aggregate> Process for Fold<A> {
    open spec fn wf(&self) -> bool {
        true
    }

    open spec fn output(&self, rows: Seq<Seq<Seq<char>>>) -> Seq<Item> {
        seq![crate::reduce::group::folded::<A>(self.names(), self.templates(), rows)]
    }

    fn run(&self, rows: Vec<Row>, out: &mut VecDeque<RowResult>) {
        let item = crate::reduce::group::fold(&self.headers, &self.columns, &rows);
        let ghost before = out@;
        out.push_back(item);
        proof {
            assert(crate::error::items_view(out@) == crate::error::items_view(before).push(
                crate::error::item_view(item),
            ));
            assert(crate::error::items_view(before).push(crate::error::item_view(item))
                == crate::error::items_view(before) + seq![crate::error::item_view(item)]);
        }
    }
}

/// A fold makes one element of every segment.
pub proof fn lemma_expanded_fold<A: Aggregate>(fold: Fold<A>, segments: Seq<SegmentView>)
    ensures
        expanded(fold, segments) == reduced::<A>(fold.names(), fold.templates(), segments),
    decreases segments.len(),
{
    let all = reduced::<A>(fold.names(), fold.templates(), segments);
    if segments.len() > 0 {
        lemma_expanded_fold(fold, segments.skip(1));
        let rest = reduced::<A>(fold.names(), fold.templates(), segments.skip(1));
        assert(emitted(fold, segments[0]) == seq![all[0]]);
        assert(seq![all[0]] + rest == all);
    } else {
        assert(all == Seq::<Item>::empty());
    }
}

/// Groups the rows of the whole input by key and folds every group into one
/// row: the last value of every column of the input, then the value of every
/// aggregated column. All groups are held until the input ends.
pub type Reduce<I, A> = Stage<Buckets<I>, Fold<A>>;

impl<I: RowStream, A: Aggregate> Stage<Buckets<I>, Fold<A>> {
    /// Builds the stage over an input, the names of the grouping columns and
    /// the columns to add. Nothing is pulled from the input.
    ///
    /// The stage first hands out the errors of its input, in the order in
    /// which they came, and then one row for every key, in the order in
    /// which the keys were first seen.
    pub fn new(iter: I, grouping: &[&str], columns: Vec<AggregatedCol<A>>) -> (built: Result<
        Reduce<I, A>,
        ReducerBuildError,
    >)
        requires
            iter.wf(),
        ensures
            match built {
                Ok(stage) => {
                    &&& stage.wf()
                    &&& reduce_schema(
                        iter.schema(),
                        strs(grouping@),
                        sources(columns@),
                        crate::reduce::aggregated_col::column_names(columns@),
                    ) == Ok::<Seq<Seq<char>>, ReducerBuildFault>(stage.schema())
                    &&& stage.parts().source() == iter
                    &&& stage.remaining() == reduced::<A>(
                        iter.schema(),
                        crate::reduce::aggregated_col::templates(columns@),
                        global_segments(
                            Rule {
                                names: iter.schema(),
                                group_by: strs(grouping@),
                                required: Seq::empty(),
                            },
                            iter.remaining(),
                        ),
                    )
                },
                Err(e) => reduce_schema(
                    iter.schema(),
                    strs(grouping@),
                    sources(columns@),
                    crate::reduce::aggregated_col::column_names(columns@),
                ) == Err::<Seq<Seq<char>>, ReducerBuildFault>(e@),
            },
    {
        let (group_by, headers) = match check(iter.headers(), grouping, &columns) {
            Ok(checked) => checked,
            Err(e) => {
                return Err(e);
            },
        };
        let upstream = iter.headers().clone();
        let required: Vec<String> = Vec::new();
        proof {
            assert(required.deep_view() == Seq::<Seq<char>>::empty());
        }
        let rule = Grouping::new(upstream.clone(), group_by, required);
        let fold = Fold::new(upstream, columns);
        let parts = Buckets::new(iter, rule);
        proof {
            lemma_expanded_fold(fold, parts.pending());
        }
        Ok(Stage::assemble(parts, fold, headers))
    }
}

} // verus!

//! Sorting within runs of rows with equal keys.
use crate::error::as_items;
use crate::error::items_view;
use crate::error::AdjacentSortBuildError;
use crate::error::Fault;
use crate::error::Item;
use crate::error::RowResult;
use crate::grouping::first_absent;
use crate::grouping::known_columns;
use crate::grouping::strs;
use crate::grouping::Grouping;
use crate::grouping::Rule;
use crate::headers::field_of;
use crate::headers::position;
use crate::headers::Headers;
use crate::mock::reversed;
use crate::partition::runs::adjacent_segments;
use crate::partition::Partition;
use crate::partition::SegmentView;
use crate::partition::Runs;
use crate::row::rows_view;
use crate::row::Row;
use crate::row_stream::RowStream;
use crate::stage::expanded;
use crate::stage::Process;
use crate::stage::Stage;
use crate::text::lex_le;
use crate::text::text_le;
use std::collections::VecDeque;
use vstd::prelude::*;

verus! {

/// The text that a row is sorted by: its field under the sort column, and
/// the empty text where it has none.
pub open spec fn sort_key(names: Seq<Seq<char>>, column: Seq<char>, fields: Seq<Seq<char>>) -> Seq<
    char,
> {
    match field_of(names, fields, column) {
        Some(text) => text,
        None => Seq::empty(),
    }
}

/// Whether the first row may stand before the second.
pub open spec fn in_order(
    names: Seq<Seq<char>>,
    column: Seq<char>,
    a: Seq<Seq<char>>,
    b: Seq<Seq<char>>,
) -> bool {
    lex_le(sort_key(names, column, a), sort_key(names, column, b))
}

/// A sorted sequence with one more row in its place: behind every row that
/// may stand before it.
pub open spec fn inserted(
    names: Seq<Seq<char>>,
    column: Seq<char>,
    sorted: Seq<Seq<Seq<char>>>,
    row: Seq<Seq<char>>,
) -> Seq<Seq<Seq<char>>>
    decreases sorted.len(),
{
    if sorted.len() == 0 {
        seq![row]
    } else if in_order(names, column, sorted.last(), row) {
        sorted.push(row)
    } else {
        inserted(names, column, sorted.drop_last(), row).push(sorted.last())
    }
}

/// The rows in the order of their sort keys. Rows with equal keys keep the
/// order in which they came.
pub open spec fn sorted_rows(
    names: Seq<Seq<char>>,
    column: Seq<char>,
    rows: Seq<Seq<Seq<char>>>,
) -> Seq<Seq<Seq<char>>>
    decreases rows.len(),
{
    if rows.len() == 0 {
        Seq::empty()
    } else {
        inserted(names, column, sorted_rows(names, column, rows.drop_last()), rows.last())
    }
}

/// Whether every row may stand before the one that follows it.
pub open spec fn ascending(
    names: Seq<Seq<char>>,
    column: Seq<char>,
    rows: Seq<Seq<Seq<char>>>,
) -> bool {
    forall|i: int|
        0 <= i < rows.len() - 1 ==> in_order(names, column, #[trigger] rows[i], rows[i + 1])
}

/// Sorting rows that are in order already changes nothing.
pub proof fn lemma_sorted_stays(
    names: Seq<Seq<char>>,
    column: Seq<char>,
    rows: Seq<Seq<Seq<char>>>,
)
    requires
        ascending(names, column, rows),
    ensures
        sorted_rows(names, column, rows) == rows,
    decreases rows.len(),
{
    if rows.len() > 0 {
        let front = rows.drop_last();
        assert forall|i: int| 0 <= i < front.len() - 1 implies in_order(
            names,
            column,
            #[trigger] front[i],
            front[i + 1],
        ) by {
            assert(front[i] == rows[i]);
            assert(front[i + 1] == rows[i + 1]);
        }
        lemma_sorted_stays(names, column, front);
        if front.len() > 0 {
            assert(front.last() == rows[rows.len() - 2]);
            assert(in_order(names, column, rows[rows.len() - 2], rows[rows.len() - 2 + 1]));
        }
        assert(front.push(rows.last()) == rows);
    }
}

/// Inserting keeps a sequence in order.
pub proof fn lemma_inserted_ascending(
    names: Seq<Seq<char>>,
    column: Seq<char>,
    sorted: Seq<Seq<Seq<char>>>,
    row: Seq<Seq<char>>,
)
    requires
        ascending(names, column, sorted),
    ensures
        ascending(names, column, inserted(names, column, sorted, row)),
        inserted(names, column, sorted, row).len() == sorted.len() + 1,
        inserted(names, column, sorted, row).to_multiset() == sorted.to_multiset().insert(row),
        sorted.len() > 0 ==> inserted(names, column, sorted, row).last() == (if in_order(
            names,
            column,
            sorted.last(),
            row,
        ) {
            row
        } else {
            sorted.last()
        }),
    decreases sorted.len(),
{
    broadcast use vstd::seq_lib::group_to_multiset_ensures;

    let out = inserted(names, column, sorted, row);
    if sorted.len() == 0 {
        assert(sorted == Seq::<Seq<Seq<char>>>::empty());
    } else if in_order(names, column, sorted.last(), row) {
        assert forall|i: int| 0 <= i < out.len() - 1 implies in_order(
            names,
            column,
            #[trigger] out[i],
            out[i + 1],
        ) by {
            if i < sorted.len() - 1 {
                assert(out[i] == sorted[i]);
                assert(out[i + 1] == sorted[i + 1]);
            }
        }
    } else {
        let front = sorted.drop_last();
        assert forall|i: int| 0 <= i < front.len() - 1 implies in_order(
            names,
            column,
            #[trigger] front[i],
            front[i + 1],
        ) by {
            assert(front[i] == sorted[i]);
            assert(front[i + 1] == sorted[i + 1]);
        }
        lemma_inserted_ascending(names, column, front, row);
        let inner = inserted(names, column, front, row);
        assert(out == inner.push(sorted.last()));
        crate::text::lemma_lex_le_total(
            sort_key(names, column, sorted.last()),
            sort_key(names, column, row),
        );
        if front.len() > 0 {
            assert(front.last() == sorted[sorted.len() - 2]);
            assert(in_order(names, column, sorted[sorted.len() - 2], sorted[sorted.len() - 2 + 1]));
        }
        assert forall|i: int| 0 <= i < out.len() - 1 implies in_order(
            names,
            column,
            #[trigger] out[i],
            out[i + 1],
        ) by {
            if i < inner.len() - 1 {
                assert(out[i] == inner[i]);
                assert(out[i + 1] == inner[i + 1]);
            }
        }
        assert(sorted == front.push(sorted.last()));
    }
}

/// The sorted rows are the given rows, each as often as it was given, and
/// they are in order.
pub proof fn lemma_sorted_rows(names: Seq<Seq<char>>, column: Seq<char>, rows: Seq<Seq<Seq<char>>>)
    ensures
        ascending(names, column, sorted_rows(names, column, rows)),
        sorted_rows(names, column, rows).len() == rows.len(),
        sorted_rows(names, column, rows).to_multiset() == rows.to_multiset(),
    decreases rows.len(),
{
    broadcast use vstd::seq_lib::group_to_multiset_ensures;

    if rows.len() > 0 {
        lemma_sorted_rows(names, column, rows.drop_last());
        lemma_inserted_ascending(
            names,
            column,
            sorted_rows(names, column, rows.drop_last()),
            rows.last(),
        );
        assert(rows == rows.drop_last().push(rows.last()));
    }
}

/// Puts the rows of a group in the order of their fields under one column,
/// by inserting one row after the other: the time it takes grows with the
/// square of the length of the group.
pub struct SortRows {
    headers: Headers,
    sort_by: String,
}

impl SortRows {
    /// The column names of the rows.
    pub closed spec fn names(&self) -> Seq<Seq<char>> {
        self.headers@
    }

    /// The column that the rows are sorted by.
    pub closed spec fn column(&self) -> Seq<char> {
        self.sort_by@
    }

    /// A sort of rows with the given schema by the given column.
    pub fn new(headers: Headers, sort_by: String) -> (sort: SortRows)
        ensures
            sort.wf(),
            sort.names() == headers@,
            sort.column() == sort_by@,
    {
        SortRows { headers, sort_by }
    }

    /// Whether the first row may stand before the second.
    fn may_precede(&self, a: &Row, b: &Row) -> (yes: bool)
        ensures
            yes == in_order(
                self.names(),
                self.column(),
                crate::row::fields(*a),
                crate::row::fields(*b),
            ),
    {
        let empty = String::new();
        let left = match self.headers.get_field(a, self.sort_by.as_str()) {
            Some(text) => text,
            None => empty.as_str(),
        };
        let right = match self.headers.get_field(b, self.sort_by.as_str()) {
            Some(text) => text,
            None => empty.as_str(),
        };
        text_le(left, right)
    }

    /// Puts a row in its place among rows that are sorted.
    fn insert(&self, sorted: &mut Vec<Row>, row: Row)
        ensures
            rows_view(final(sorted)@) == inserted(
                self.names(),
                self.column(),
                rows_view(old(sorted)@),
                crate::row::fields(row),
            ),
    {
        let ghost names = self.names();
        let ghost column = self.column();
        let ghost given = rows_view(sorted@);
        let ghost cells = crate::row::fields(row);
        let mut at: usize = sorted.len();
        proof {
            assert(given.take(at as int) == given);
            assert(given.skip(at as int) == Seq::<Seq<Seq<char>>>::empty());
            assert(inserted(names, column, given, cells) + Seq::<Seq<Seq<char>>>::empty()
                == inserted(names, column, given, cells));
        }
        while at > 0 && !self.may_precede(&sorted[at - 1], &row)
            invariant
                at <= sorted@.len(),
                names == self.names(),
                column == self.column(),
                given == rows_view(sorted@),
                cells == crate::row::fields(row),
                inserted(names, column, given, cells) == inserted(
                    names,
                    column,
                    given.take(at as int),
                    cells,
                ) + given.skip(at as int),
            decreases at,
        {
            proof {
                let front = given.take(at as int);
                assert(front.last() == given[at - 1]);
                assert(front.drop_last() == given.take(at - 1));
                assert(inserted(names, column, front, cells) == inserted(
                    names,
                    column,
                    given.take(at - 1),
                    cells,
                ).push(given[at - 1]));
                assert(seq![given[at - 1]] + given.skip(at as int) == given.skip(at - 1));
                assert(inserted(names, column, given.take(at - 1), cells).push(given[at - 1])
                    + given.skip(at as int) == inserted(names, column, given.take(at - 1), cells)
                    + given.skip(at - 1));
            }
            at -= 1;
        }
        proof {
            let front = given.take(at as int);
            if at > 0 {
                assert(front.last() == given[at - 1]);
            }
            assert(inserted(names, column, front, cells) == front.push(cells));
            assert(front.push(cells) + given.skip(at as int) == given.insert(at as int, cells));
        }
        sorted.insert(at, row);
        proof {
            assert(rows_view(sorted@) == given.insert(at as int, cells));
        }
    }
}

impl Process for SortRows {
    open spec fn wf(&self) -> bool {
        true
    }

    open spec fn output(&self, rows: Seq<Seq<Seq<char>>>) -> Seq<Item> {
        as_items(sorted_rows(self.names(), self.column(), rows))
    }

    fn run(&self, rows: Vec<Row>, out: &mut VecDeque<RowResult>) {
        let ghost names = self.names();
        let ghost column = self.column();
        let ghost given = rows_view(rows@);
        let ghost already = items_view(out@);
        let mut rest = reversed(rows);
        let mut sorted: Vec<Row> = Vec::new();
        let ghost mut n: int = 0;
        proof {
            assert(given.take(0) == Seq::<Seq<Seq<char>>>::empty());
            assert(rows_view(sorted@) == Seq::<Seq<Seq<char>>>::empty());
        }
        loop
            invariant
                0 <= n <= given.len(),
                names == self.names(),
                column == self.column(),
                rest@.len() == given.len() - n,
                rows_view(rest@.reverse()) == given.skip(n),
                rows_view(sorted@) == sorted_rows(names, column, given.take(n)),
            ensures
                n == given.len(),
            decreases given.len() - n,
        {
            let ghost left = rest@;
            let row = match rest.pop() {
                Some(row) => row,
                None => {
                    break ;
                },
            };
            proof {
                assert(left.reverse()[0] == row);
                assert(rows_view(left.reverse())[0] == crate::row::fields(row));
                assert(given.skip(n)[0] == given[n]);
                assert(rest@.reverse() == left.reverse().skip(1));
                assert(rows_view(left.reverse().skip(1)) == rows_view(left.reverse()).skip(1));
                assert(given.skip(n).skip(1) == given.skip(n + 1));
                assert(given.take(n + 1).drop_last() == given.take(n));
                assert(given.take(n + 1).last() == given[n]);
            }
            self.insert(&mut sorted, row);
            proof {
                n = n + 1;
            }
        }
        proof {
            assert(given.take(n) == given);
        }
        let ghost ordered = rows_view(sorted@);
        let mut turned = reversed(sorted);
        let ghost mut m: int = 0;
        proof {
            assert(ordered.take(0) == Seq::<Seq<Seq<char>>>::empty());
            assert(already + as_items(ordered.take(0)) == already);
        }
        loop
            invariant
                0 <= m <= ordered.len(),
                turned@.len() == ordered.len() - m,
                rows_view(turned@.reverse()) == ordered.skip(m),
                items_view(out@) == already + as_items(ordered.take(m)),
            ensures
                m == ordered.len(),
            decreases ordered.len() - m,
        {
            let ghost left = turned@;
            let ghost before = out@;
            let row = match turned.pop() {
                Some(row) => row,
                None => {
                    break ;
                },
            };
            proof {
                assert(left.reverse()[0] == row);
                assert(rows_view(left.reverse())[0] == crate::row::fields(row));
                assert(ordered.skip(m)[0] == ordered[m]);
                assert(turned@.reverse() == left.reverse().skip(1));
                assert(rows_view(left.reverse().skip(1)) == rows_view(left.reverse()).skip(1));
                assert(ordered.skip(m).skip(1) == ordered.skip(m + 1));
            }
            out.push_back(Ok(row));
            proof {
                assert(items_view(out@) == items_view(before).push(
                    Ok::<Seq<Seq<char>>, Fault>(ordered[m]),
                ));
                assert(ordered.take(m + 1) == ordered.take(m).push(ordered[m]));
                assert(as_items(ordered.take(m + 1)) == as_items(ordered.take(m)).push(
                    Ok::<Seq<Seq<char>>, Fault>(ordered[m]),
                ));
                m = m + 1;
            }
        }
        proof {
            assert(ordered.take(m) == ordered);
        }
    }
}

/// Why a sorting stage cannot be built, as contracts see it.
pub enum SortBuildFault {
    GroupingKeyError(Seq<char>),
    SortKeyError(Seq<char>),
}

/// The contract's view of an [`AdjacentSortBuildError`].
pub open spec fn sort_build_fault(e: AdjacentSortBuildError) -> SortBuildFault {
    match e {
        AdjacentSortBuildError::GroupingKeyError(name) => SortBuildFault::GroupingKeyError(name@),
        AdjacentSortBuildError::SortKeyError(name) => SortBuildFault::SortKeyError(name@),
    }
}

/// Whether a sorting stage can be built over a schema, and why not: the
/// grouping columns are checked first, then the sort column.
pub open spec fn sort_check(
    names: Seq<Seq<char>>,
    grouping: Seq<Seq<char>>,
    sort_by: Seq<char>,
) -> Option<SortBuildFault> {
    match first_absent(names, grouping) {
        Some(name) => Some(SortBuildFault::GroupingKeyError(name)),
        None => if position(names, sort_by) is None {
            Some(SortBuildFault::SortKeyError(sort_by))
        } else {
            None
        },
    }
}

/// What a sorting stage makes of a sequence of segments: the rows of every
/// group in the order of their sort keys, and every error as it is.
pub open spec fn sorted_segments(
    names: Seq<Seq<char>>,
    sort_by: Seq<char>,
    segments: Seq<SegmentView>,
) -> Seq<Item>
    decreases segments.len(),
{
    if segments.len() == 0 {
        Seq::empty()
    } else {
        (match segments[0] {
            Ok(rows) => as_items(sorted_rows(names, sort_by, rows)),
            Err(fault) => seq![Err(fault)],
        }) + sorted_segments(names, sort_by, segments.skip(1))
    }
}

/// What a sorting stage hands out for an input.
pub open spec fn adjacent_sorted(
    names: Seq<Seq<char>>,
    grouping: Seq<Seq<char>>,
    sort_by: Seq<char>,
    items: Seq<Item>,
) -> Seq<Item> {
    sorted_segments(
        names,
        sort_by,
        adjacent_segments(Rule { names, group_by: grouping, required: seq![sort_by] }, items),
    )
}

/// What comes of the segments is the rows of each, sorted.
pub proof fn lemma_expanded_sort(sort: SortRows, segments: Seq<SegmentView>)
    ensures
        expanded(sort, segments) == sorted_segments(sort.names(), sort.column(), segments),
    decreases segments.len(),
{
    if segments.len() > 0 {
        lemma_expanded_sort(sort, segments.skip(1));
    }
}

/// Sorts the rows of every run of rows with equal keys by one column, in the
/// order of the texts in that column. An error, or a row that lacks the sort
/// column or a grouping column, ends the run and passes through in its
/// place.
pub type AdjacentSort<I> = Stage<Runs<I>, SortRows>;

impl<I: RowStream> Stage<Runs<I>, SortRows> {
    /// Builds the stage over an input, the names of the grouping columns and
    /// the name of the sort column. Nothing is pulled from the input, and
    /// the schema stays as it is.
    pub fn new(iter: I, grouping: &[&str], sort_by: &str) -> (built: Result<
        AdjacentSort<I>,
        AdjacentSortBuildError,
    >)
        requires
            iter.wf(),
        ensures
            match built {
                Ok(stage) => {
                    &&& sort_check(iter.schema(), strs(grouping@), sort_by@) is None
                    &&& stage.wf()
                    &&& stage.schema() == iter.schema()
                    &&& stage.parts().source() == iter
                    &&& stage.remaining() == adjacent_sorted(
                        iter.schema(),
                        strs(grouping@),
                        sort_by@,
                        iter.remaining(),
                    )
                },
                Err(e) => sort_check(iter.schema(), strs(grouping@), sort_by@) == Some(
                    sort_build_fault(e),
                ),
            },
    {
        let group_by = match known_columns(iter.headers(), grouping) {
            Ok(group_by) => group_by,
            Err(name) => {
                return Err(AdjacentSortBuildError::GroupingKeyError(name));
            },
        };
        if !iter.headers().contains_key(sort_by) {
            return Err(AdjacentSortBuildError::SortKeyError(sort_by.to_owned()));
        }
        let upstream = iter.headers().clone();
        let mut required: Vec<String> = Vec::new();
        required.push(sort_by.to_owned());
        proof {
            assert(required.deep_view() == seq![sort_by@]);
        }
        let rule = Grouping::new(upstream.clone(), group_by, required);
        let sort = SortRows::new(upstream.clone(), sort_by.to_owned());
        let parts = Runs::new(iter, rule);
        proof {
            lemma_expanded_sort(sort, parts.pending());
        }
        Ok(Stage::assemble(parts, sort, upstream))
    }
}

} // verus!

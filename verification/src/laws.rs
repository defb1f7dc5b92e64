//! What holds of the stages whatever their input.
use crate::adjacent_sort::adjacent_sorted;
use crate::adjacent_sort::in_order;
use crate::adjacent_sort::lemma_sorted_stays;
use crate::aggregate::last::LastModel;
use crate::aggregate::Aggregate;
use crate::aggregate::Last;
use crate::error::as_items;
use crate::error::AggregateFault;
use crate::error::Fault;
use crate::error::Item;
use crate::grouping::joins;
use crate::grouping::keyed;
use crate::grouping::row_key;
use crate::grouping::Rule;
use crate::headers::lemma_position;
use crate::headers::position;
use crate::partition::buckets::bucket_segments;
use crate::partition::buckets::buckets_of;
use crate::partition::buckets::fault_segments;
use crate::partition::buckets::faults_of;
use crate::partition::buckets::global_segments;
use crate::partition::buckets::BucketView;
use crate::partition::runs::adjacent_segments;
use crate::partition::runs::lemma_run_len_bound;
use crate::partition::runs::rows_of;
use crate::partition::runs::run_len;
use crate::partition::SegmentView;
use crate::reduce::extended;
use crate::reduce::group::fold_from;
use crate::reduce::group::folded;
use crate::reduce::group::group_row;
use crate::reduce::group::group_start;
use crate::reduce::group::group_step;
use crate::reduce::group::lemma_take_row_len;
use crate::reduce::group::rendered;
use crate::reduce::group::take_row;
use crate::reduce::group::GroupModel;
use crate::reduce::reduced;
use vstd::prelude::*;

verus! {

/// The rule of a stage without grouping columns.
pub open spec fn ungrouped(names: Seq<Seq<char>>) -> Rule {
    Rule { names, group_by: Seq::empty(), required: Seq::empty() }
}

/// Whether every row of an input has as many fields as there are columns.
pub open spec fn rows_fit(names: Seq<Seq<char>>, items: Seq<Item>) -> bool {
    forall|i: int|
        0 <= i < items.len() && (#[trigger] items[i]) is Ok ==> items[i]->Ok_0.len() == names.len()
}

/// The rows of an input, in order, without its errors.
pub open spec fn rows_among(items: Seq<Item>) -> Seq<Item> {
    items.filter(|item: Item| item is Ok)
}

/// The errors of an input, in order, without its rows.
pub open spec fn errors_among(items: Seq<Item>) -> Seq<Item> {
    items.filter(|item: Item| item is Err)
}

/// The accumulators that keep the last value of each column, once they have
/// taken a row.
spec fn kept_after(names: Seq<Seq<char>>, fields: Seq<Seq<char>>) -> Seq<LastModel> {
    Seq::new(names.len(), |i: int| LastModel { source: names[i], current: fields[i] })
}

/// The accumulators of the columns that are passed through all take a row
/// of full length.
proof fn lemma_kept_take_row(
    kept: Seq<LastModel>,
    names: Seq<Seq<char>>,
    fields: Seq<Seq<char>>,
    k: int,
)
    requires
        names.no_duplicates(),
        fields.len() == names.len(),
        kept.len() == names.len(),
        forall|i: int| 0 <= i < kept.len() ==> (#[trigger] kept[i]).source == names[i],
        0 <= k <= names.len(),
    ensures
        take_row::<Last>(kept.take(k), names, fields) == (
            kept_after(names, fields).take(k),
            None::<AggregateFault>,
        ),
    decreases k,
{
    if k > 0 {
        lemma_kept_take_row(kept, names, fields, k - 1);
        assert(kept.take(k).drop_last() == kept.take(k - 1));
        assert(kept.take(k).last() == kept[k - 1]);
        lemma_position(names, names[k - 1]);
        assert(position(names, names[k - 1]) == Some(k - 1));
        assert(kept_after(names, fields).take(k - 1).push(kept_after(names, fields)[k - 1])
            == kept_after(names, fields).take(k));
    } else {
        assert(kept.take(0) == Seq::<LastModel>::empty());
        assert(kept_after(names, fields).take(0) == Seq::<LastModel>::empty());
    }
}

/// A stage that adds no columns folds a single row of full length, under
/// column names that are all different, into that row.
pub proof fn lemma_fold_of_one_row<A: Aggregate>(names: Seq<Seq<char>>, fields: Seq<Seq<char>>)
    requires
        names.no_duplicates(),
        fields.len() == names.len(),
    ensures
        folded::<A>(names, Seq::empty(), seq![fields]) == Ok::<Seq<Seq<char>>, Fault>(fields),
{
    let start = group_start::<A>(names, Seq::empty());
    let rows = seq![fields];
    assert(rows.drop_last() == Seq::<Seq<Seq<char>>>::empty());
    assert(fold_from::<A>(start, names, rows.drop_last()) == Ok::<
        GroupModel<A::Model>,
        AggregateFault,
    >(start));
    lemma_kept_take_row(start.kept, names, fields, names.len() as int);
    assert(start.kept.take(names.len() as int) == start.kept);
    assert(kept_after(names, fields).take(names.len() as int) == kept_after(names, fields));
    assert(start.computed == Seq::<A::Model>::empty());
    let after = group_step::<A>(start, names, fields);
    assert(after.1 is None);
    assert(after.0.kept == kept_after(names, fields));
    assert(after.0.computed == Seq::<A::Model>::empty());
    assert(rendered::<Last>(kept_after(names, fields)) == fields);
    assert(rendered::<A>(Seq::<A::Model>::empty()) == Seq::<Seq<char>>::empty());
    assert(fields + Seq::<Seq<char>>::empty() == fields);
    assert(group_row::<A>(after.0) == fields);
}

/// Without grouping columns every row has no key and lacks nothing.
proof fn lemma_ungrouped_key(names: Seq<Seq<char>>, fields: Seq<Seq<char>>)
    ensures
        row_key(ungrouped(names), fields) == Ok::<Option<u64>, Seq<char>>(None),
{
}

/// A stage that groups rows that follow each other, without grouping
/// columns and without aggregates, hands out its input as it is: every row
/// is a group of its own, and every error passes. This holds for rows of
/// full length under column names that are all different.
pub proof fn lemma_adjacent_reduce_identity<A: Aggregate>(names: Seq<Seq<char>>, items: Seq<Item>)
    requires
        names.no_duplicates(),
        rows_fit(names, items),
    ensures
        reduced::<A>(names, Seq::empty(), adjacent_segments(ungrouped(names), items)) == items,
    decreases items.len(),
{
    let rule = ungrouped(names);
    if items.len() > 0 {
        let rest = items.skip(1);
        assert forall|i: int| 0 <= i < rest.len() && (#[trigger] rest[i]) is Ok implies rest[i]->Ok_0.len()
            == names.len() by {
            assert(rest[i] == items[i + 1]);
        }
        lemma_adjacent_reduce_identity::<A>(names, rest);
        let tail = adjacent_segments(rule, rest);
        match items[0] {
            Ok(fields) => {
                lemma_ungrouped_key(names, fields);
                assert(run_len(rule, None, rest) == 0);
                assert(rest.take(0) == Seq::<Item>::empty());
                assert(seq![fields] + rows_of(rest.take(0)) == seq![fields]);
                assert(items.skip(1 + 0int) == rest);
                let first: SegmentView = Ok(seq![fields]);
                assert(adjacent_segments(rule, items) == seq![first] + tail);
                lemma_fold_of_one_row::<A>(names, fields);
                assert(reduced::<A>(names, Seq::empty(), seq![first] + tail) == seq![items[0]]
                    + reduced::<A>(names, Seq::empty(), tail));
            },
            Err(fault) => {
                let first: SegmentView = Err(fault);
                assert(adjacent_segments(rule, items) == seq![first] + tail);
                assert(reduced::<A>(names, Seq::empty(), seq![first] + tail) == seq![items[0]]
                    + reduced::<A>(names, Seq::empty(), tail));
            },
        }
        assert(seq![items[0]] + rest == items);
    } else {
        assert(reduced::<A>(names, Seq::empty(), Seq::<SegmentView>::empty()) == items);
    }
}

/// The buckets of an input without grouping columns: one for every row.
spec fn single_buckets(items: Seq<Item>) -> Seq<BucketView> {
    rows_among(items).map_values(
        |item: Item| BucketView { key: None, rows: seq![item->Ok_0] },
    )
}

/// The errors of an input without grouping columns.
spec fn plain_faults(items: Seq<Item>) -> Seq<Fault> {
    errors_among(items).map_values(|item: Item| item->Err_0)
}

/// Without grouping columns the buckets are the rows and the faults are the
/// errors.
proof fn lemma_ungrouped_buckets(names: Seq<Seq<char>>, items: Seq<Item>)
    ensures
        buckets_of(ungrouped(names), items) == single_buckets(items),
        faults_of(ungrouped(names), items) == plain_faults(items),
    decreases items.len(),
{
    reveal(Seq::filter);
    let rule = ungrouped(names);
    if items.len() > 0 {
        let front = items.drop_last();
        lemma_ungrouped_buckets(names, front);
        match items.last() {
            Ok(fields) => {
                lemma_ungrouped_key(names, fields);
                assert(rows_among(items) == rows_among(front).push(items.last()));
                assert(errors_among(items) == errors_among(front));
                assert(single_buckets(items) == single_buckets(front).push(
                    BucketView { key: None, rows: seq![fields] },
                ));
            },
            Err(fault) => {
                assert(rows_among(items) == rows_among(front));
                assert(errors_among(items) == errors_among(front).push(items.last()));
                assert(plain_faults(items) == plain_faults(front).push(fault));
            },
        }
    } else {
        assert(rows_among(items) == Seq::<Item>::empty());
        assert(errors_among(items) == Seq::<Item>::empty());
        assert(single_buckets(items) == Seq::<BucketView>::empty());
        assert(plain_faults(items) == Seq::<Fault>::empty());
    }
}

/// A stage that groups over the whole input, without grouping columns and
/// without aggregates, hands out its input up to order: first the errors,
/// then the rows, each a group of its own, and both in the order in which
/// they came. This holds for rows of full length under column names that
/// are all different.
pub proof fn lemma_reduce_identity<A: Aggregate>(names: Seq<Seq<char>>, items: Seq<Item>)
    requires
        names.no_duplicates(),
        rows_fit(names, items),
    ensures
        reduced::<A>(names, Seq::empty(), global_segments(ungrouped(names), items))
            == errors_among(items) + rows_among(items),
        errors_among(items).len() == 0 ==> reduced::<A>(
            names,
            Seq::empty(),
            global_segments(ungrouped(names), items),
        ) == items,
{
    let rule = ungrouped(names);
    lemma_ungrouped_buckets(names, items);
    lemma_among(items);
    let out = reduced::<A>(names, Seq::empty(), global_segments(rule, items));
    let errors = errors_among(items);
    let rows = rows_among(items);
    assert(out.len() == errors.len() + rows.len());
    assert forall|i: int| 0 <= i < out.len() implies out[i] == (errors + rows)[i] by {
        if i < errors.len() {
            assert(errors[i] is Err);
            assert(fault_segments(plain_faults(items))[i] == Err::<Seq<Seq<Seq<char>>>, Fault>(
                errors[i]->Err_0,
            ));
        } else {
            let j = i - errors.len();
            assert(rows[j] is Ok);
            assert(items.contains(rows[j]));
            let at = choose|at: int| 0 <= at < items.len() && items[at] == rows[j];
            assert(items[at] is Ok);
            assert(rows[j]->Ok_0.len() == names.len());
            assert(out[i] == reduced::<A>(
                names,
                Seq::empty(),
                bucket_segments(single_buckets(items)),
            )[j]);
            assert(bucket_segments(single_buckets(items))[j] == Ok::<Seq<Seq<Seq<char>>>, Fault>(
                seq![rows[j]->Ok_0],
            ));
            lemma_fold_of_one_row::<A>(names, rows[j]->Ok_0);
        }
    }
    assert(out == errors + rows);
    if errors.len() == 0 {
        lemma_all_rows(items);
        assert(errors + rows == rows);
    }
}

/// The rows of an input are rows of it, and its errors are errors.
proof fn lemma_among(items: Seq<Item>)
    ensures
        forall|i: int|
            0 <= i < rows_among(items).len() ==> (#[trigger] rows_among(items)[i]) is Ok
                && items.contains(rows_among(items)[i]),
        forall|i: int|
            0 <= i < errors_among(items).len() ==> (#[trigger] errors_among(items)[i]) is Err,
    decreases items.len(),
{
    reveal(Seq::filter);
    if items.len() > 0 {
        let front = items.drop_last();
        lemma_among(front);
        assert forall|i: int| 0 <= i < rows_among(items).len() implies (#[trigger] rows_among(
            items,
        )[i]) is Ok && items.contains(rows_among(items)[i]) by {
            if i < rows_among(front).len() {
                let at = choose|at: int|
                    0 <= at < front.len() && front[at] == rows_among(front)[i];
                assert(items[at] == rows_among(front)[i]);
            } else {
                assert(items[items.len() - 1] == rows_among(items)[i]);
            }
        }
    }
}

/// An input without errors is the sequence of its rows.
proof fn lemma_all_rows(items: Seq<Item>)
    requires
        errors_among(items).len() == 0,
    ensures
        rows_among(items) == items,
    decreases items.len(),
{
    reveal(Seq::filter);
    if items.len() > 0 {
        let front = items.drop_last();
        lemma_all_rows(front);
        assert(items == front.push(items.last()));
    }
}

/// Whether an input is sorted within its runs: wherever a row follows a row
/// of its own group, it may stand behind it.
pub open spec fn sorted_in_runs(rule: Rule, sort_by: Seq<char>, items: Seq<Item>) -> bool {
    forall|i: int|
        0 <= i < items.len() - 1 && (#[trigger] items[i]) is Ok && keyed(rule, items[i]) is Ok
            && joins(rule, keyed(rule, items[i])->Ok_0.0, items[i + 1]) ==> in_order(
            rule.names,
            sort_by,
            items[i]->Ok_0,
            items[i + 1]->Ok_0,
        )
}

/// Whether no row of an input lacks a column that the rule needs.
pub open spec fn rows_complete(rule: Rule, items: Seq<Item>) -> bool {
    forall|i: int|
        0 <= i < items.len() && (#[trigger] items[i]) is Ok ==> row_key(rule, items[i]->Ok_0) is Ok
}

/// The elements of a run belong to the group of its key.
proof fn lemma_run_joins(rule: Rule, key: Option<u64>, items: Seq<Item>, j: int)
    requires
        0 <= j < run_len(rule, key, items),
    ensures
        j < items.len(),
        joins(rule, key, items[j]),
    decreases j,
{
    if j > 0 {
        lemma_run_joins(rule, key, items.skip(1), j - 1);
        assert(items.skip(1)[j - 1] == items[j]);
    }
}

/// A sorting stage hands out an input that is sorted within its runs as it
/// is, provided that no row lacks a column that the stage needs.
pub proof fn lemma_sort_idempotent(
    names: Seq<Seq<char>>,
    grouping: Seq<Seq<char>>,
    sort_by: Seq<char>,
    items: Seq<Item>,
)
    requires
        rows_complete(Rule { names, group_by: grouping, required: seq![sort_by] }, items),
        sorted_in_runs(Rule { names, group_by: grouping, required: seq![sort_by] }, sort_by, items),
    ensures
        adjacent_sorted(names, grouping, sort_by, items) == items,
    decreases items.len(),
{
    let rule = Rule { names, group_by: grouping, required: seq![sort_by] };
    if items.len() > 0 {
        match items[0] {
            Ok(fields) => {
                let key = keyed(rule, items[0])->Ok_0.0;
                let tail = items.skip(1);
                let n = run_len(rule, key, tail) as int;
                lemma_run_len_bound(rule, key, tail);
                let rest = items.skip(1 + n);
                assert forall|i: int| 0 <= i < rest.len() && (#[trigger] rest[i]) is Ok implies row_key(
                    rule,
                    rest[i]->Ok_0,
                ) is Ok by {
                    assert(rest[i] == items[1 + n + i]);
                }
                assert forall|i: int|
                    0 <= i < rest.len() - 1 && (#[trigger] rest[i]) is Ok && keyed(rule, rest[i])
                        is Ok && joins(
                        rule,
                        keyed(rule, rest[i])->Ok_0.0,
                        rest[i + 1],
                    ) implies in_order(rule.names, sort_by, rest[i]->Ok_0, rest[i + 1]->Ok_0) by {
                    assert(rest[i] == items[1 + n + i]);
                    assert(rest[i + 1] == items[1 + n + i + 1]);
                }
                lemma_sort_idempotent(names, grouping, sort_by, rest);
                let rows = seq![fields] + rows_of(tail.take(n));
                assert forall|j: int| 0 <= j < n implies joins(rule, key, #[trigger] tail[j]) by {
                    lemma_run_joins(rule, key, tail, j);
                }
                assert forall|i: int| 0 <= i < rows.len() implies Ok::<Seq<Seq<char>>, Fault>(
                    #[trigger] rows[i],
                ) == items[i] && keyed(rule, items[i]) is Ok && keyed(rule, items[i])->Ok_0.0
                    == key by {
                    if i > 0 {
                        assert(tail[i - 1] == items[i]);
                        assert(tail.take(n)[i - 1] == tail[i - 1]);
                        assert(joins(rule, key, tail[i - 1]));
                    }
                }
                assert forall|i: int| 0 <= i < rows.len() - 1 implies in_order(
                    names,
                    sort_by,
                    #[trigger] rows[i],
                    rows[i + 1],
                ) by {
                    assert(Ok::<Seq<Seq<char>>, Fault>(rows[i]) == items[i]);
                    assert(Ok::<Seq<Seq<char>>, Fault>(rows[i + 1]) == items[i + 1]);
                    assert(tail[i] == items[i + 1]);
                    assert(joins(rule, key, tail[i]));
                }
                lemma_sorted_stays(names, sort_by, rows);
                let first: SegmentView = Ok(rows);
                let segments = adjacent_segments(rule, items);
                assert(segments == seq![first] + adjacent_segments(rule, rest));
                assert(segments.skip(1) == adjacent_segments(rule, rest));
                assert(as_items(rows) == items.take(1 + n));
                assert(items.take(1 + n) + items.skip(1 + n) == items);
            },
            Err(fault) => {
                let rest = items.skip(1);
                assert forall|i: int| 0 <= i < rest.len() && (#[trigger] rest[i]) is Ok implies row_key(
                    rule,
                    rest[i]->Ok_0,
                ) is Ok by {
                    assert(rest[i] == items[i + 1]);
                }
                assert forall|i: int|
                    0 <= i < rest.len() - 1 && (#[trigger] rest[i]) is Ok && keyed(rule, rest[i])
                        is Ok && joins(
                        rule,
                        keyed(rule, rest[i])->Ok_0.0,
                        rest[i + 1],
                    ) implies in_order(rule.names, sort_by, rest[i]->Ok_0, rest[i + 1]->Ok_0) by {
                    assert(rest[i] == items[i + 1]);
                    assert(rest[i + 1] == items[i + 1 + 1]);
                }
                lemma_sort_idempotent(names, grouping, sort_by, rest);
                let first: SegmentView = Err(fault);
                let segments = adjacent_segments(rule, items);
                assert(segments == seq![first] + adjacent_segments(rule, rest));
                assert(segments.skip(1) == adjacent_segments(rule, rest));
                assert(seq![items[0]] + rest == items);
            },
        }
    }
}

/// A schema that was extended has one column more for every name added.
pub proof fn lemma_extended_len(names: Seq<Seq<char>>, added: Seq<Seq<char>>)
    ensures
        extended(names, added) matches Ok(schema) ==> schema.len() == names.len() + added.len(),
    decreases added.len(),
{
    if added.len() > 0 {
        lemma_extended_len(names, added.drop_last());
    }
}

/// Folding rows leaves as many accumulators as there were.
proof fn lemma_fold_from_len<A: Aggregate>(
    group: GroupModel<A::Model>,
    names: Seq<Seq<char>>,
    rows: Seq<Seq<Seq<char>>>,
)
    ensures
        fold_from::<A>(group, names, rows) matches Ok(after) ==> after.kept.len()
            == group.kept.len() && after.computed.len() == group.computed.len(),
    decreases rows.len(),
{
    if rows.len() > 0 {
        lemma_fold_from_len::<A>(group, names, rows.drop_last());
        if let Ok(before) = fold_from::<A>(group, names, rows.drop_last()) {
            lemma_take_row_len::<Last>(before.kept, names, rows.last());
            lemma_take_row_len::<A>(before.computed, names, rows.last());
        }
    }
}

/// The row that a group is folded into has one field for every column of the
/// input and one for every aggregated column: as many as the output schema
/// has columns.
pub proof fn lemma_folded_len<A: Aggregate>(
    names: Seq<Seq<char>>,
    templates: Seq<A::Model>,
    rows: Seq<Seq<Seq<char>>>,
)
    ensures
        folded::<A>(names, templates, rows) matches Ok(fields) ==> fields.len() == names.len()
            + templates.len(),
{
    lemma_fold_from_len::<A>(group_start::<A>(names, templates), names, rows);
}

/// Every row that a reducing stage hands out has as many fields as the
/// schema of the stage has columns.
pub proof fn lemma_reduced_rows_fit<A: Aggregate>(
    names: Seq<Seq<char>>,
    added: Seq<Seq<char>>,
    templates: Seq<A::Model>,
    segments: Seq<SegmentView>,
    i: int,
)
    requires
        added.len() == templates.len(),
        extended(names, added) is Ok,
        0 <= i < segments.len(),
    ensures
        reduced::<A>(names, templates, segments)[i] matches Ok(fields) ==> fields.len() == extended(
            names,
            added,
        )->Ok_0.len(),
{
    lemma_extended_len(names, added);
    if let Ok(rows) = segments[i] {
        lemma_folded_len::<A>(names, templates, rows);
    }
}

/// A run does not reach beyond an error.
proof fn lemma_run_stops_at_error(
    rule: Rule,
    key: Option<u64>,
    before: Seq<Item>,
    fault: Fault,
    after: Seq<Item>,
)
    ensures
        run_len(rule, key, before + seq![Err::<Seq<Seq<char>>, Fault>(fault)] + after) == run_len(
            rule,
            key,
            before,
        ),
    decreases before.len(),
{
    let error = seq![Err::<Seq<Seq<char>>, Fault>(fault)];
    let all = before + error + after;
    if before.len() > 0 {
        assert(all[0] == before[0]);
        assert(all.skip(1) == before.skip(1) + error + after);
        lemma_run_stops_at_error(rule, key, before.skip(1), fault, after);
    } else {
        assert(all[0] == Err::<Seq<Seq<char>>, Fault>(fault));
    }
}

/// An error ends the run before it and passes on its own: the rows before
/// it and the rows after it are cut into runs as if the other side were not
/// there, whatever their keys.
pub proof fn lemma_error_ends_run(rule: Rule, before: Seq<Item>, fault: Fault, after: Seq<Item>)
    ensures
        adjacent_segments(rule, before + seq![Err::<Seq<Seq<char>>, Fault>(fault)] + after)
            == adjacent_segments(rule, before) + seq![
            Err::<Seq<Seq<Seq<char>>>, Fault>(fault),
        ] + adjacent_segments(rule, after),
    decreases before.len(),
{
    let error = seq![Err::<Seq<Seq<char>>, Fault>(fault)];
    let passed = seq![Err::<Seq<Seq<Seq<char>>>, Fault>(fault)];
    let all = before + error + after;
    if before.len() == 0 {
        assert(all[0] == Err::<Seq<Seq<char>>, Fault>(fault));
        assert(all.skip(1) == after);
        assert(adjacent_segments(rule, before) == Seq::<SegmentView>::empty());
        assert(adjacent_segments(rule, all) == passed + adjacent_segments(rule, after));
        assert(Seq::<SegmentView>::empty() + passed + adjacent_segments(rule, after) == passed
            + adjacent_segments(rule, after));
    } else {
        assert(all[0] == before[0]);
        assert(all.skip(1) == before.skip(1) + error + after);
        match keyed(rule, before[0]) {
            Ok((key, fields)) => {
                let n = run_len(rule, key, before.skip(1)) as int;
                lemma_run_len_bound(rule, key, before.skip(1));
                lemma_run_stops_at_error(rule, key, before.skip(1), fault, after);
                assert(all.skip(1).take(n) == before.skip(1).take(n));
                assert(all.skip(1 + n) == before.skip(1 + n) + error + after);
                lemma_error_ends_run(rule, before.skip(1 + n), fault, after);
                let first: SegmentView = Ok(seq![fields] + rows_of(before.skip(1).take(n)));
                assert(adjacent_segments(rule, before) == seq![first] + adjacent_segments(
                    rule,
                    before.skip(1 + n),
                ));
                assert(adjacent_segments(rule, all) == seq![first] + adjacent_segments(
                    rule,
                    all.skip(1 + n),
                ));
                assert(seq![first] + (adjacent_segments(rule, before.skip(1 + n)) + passed
                    + adjacent_segments(rule, after)) == seq![first] + adjacent_segments(
                    rule,
                    before.skip(1 + n),
                ) + passed + adjacent_segments(rule, after));
            },
            Err(other) => {
                lemma_error_ends_run(rule, before.skip(1), fault, after);
                let first: SegmentView = Err(other);
                assert(adjacent_segments(rule, before) == seq![first] + adjacent_segments(
                    rule,
                    before.skip(1),
                ));
                assert(adjacent_segments(rule, all) == seq![first] + adjacent_segments(
                    rule,
                    all.skip(1),
                ));
                assert(seq![first] + (adjacent_segments(rule, before.skip(1)) + passed
                    + adjacent_segments(rule, after)) == seq![first] + adjacent_segments(
                    rule,
                    before.skip(1),
                ) + passed + adjacent_segments(rule, after));
            },
        }
    }
}

/// Whether the second element carries on the run of the first: both are rows
/// that lack nothing, and they have one key.
pub open spec fn carries_on(rule: Rule, first: Item, second: Item) -> bool {
    keyed(rule, first) is Ok && joins(rule, keyed(rule, first)->Ok_0.0, second)
}

/// A run that ends within an input, or meets an element that does not
/// belong to it, is not made longer by what follows.
proof fn lemma_run_len_concat(rule: Rule, key: Option<u64>, front: Seq<Item>, back: Seq<Item>)
    requires
        run_len(rule, key, front) < front.len() || back.len() == 0 || !joins(rule, key, back[0]),
    ensures
        run_len(rule, key, front + back) == run_len(rule, key, front),
    decreases front.len(),
{
    let all = front + back;
    if front.len() > 0 {
        assert(all[0] == front[0]);
        if joins(rule, key, front[0]) {
            assert(all.skip(1) == front.skip(1) + back);
            lemma_run_len_concat(rule, key, front.skip(1), back);
        }
    } else {
        assert(all == back);
    }
}

/// Where an element does not carry on the run of the one before it, the
/// input is cut there: what comes before and what comes after are cut into
/// runs each on its own. So rows of a key that come back after rows of
/// another key form a run of their own.
pub proof fn lemma_key_change_ends_run(rule: Rule, before: Seq<Item>, after: Seq<Item>)
    requires
        before.len() > 0,
        after.len() > 0,
        !carries_on(rule, before.last(), after[0]),
    ensures
        adjacent_segments(rule, before + after) == adjacent_segments(rule, before)
            + adjacent_segments(rule, after),
    decreases before.len(),
{
    let all = before + after;
    assert(all[0] == before[0]);
    assert(all.skip(1) == before.skip(1) + after);
    match keyed(rule, before[0]) {
        Ok((key, fields)) => {
            let tail = before.skip(1);
            let n = run_len(rule, key, tail) as int;
            lemma_run_len_bound(rule, key, tail);
            if n == tail.len() {
                if n > 0 {
                    lemma_run_joins(rule, key, tail, n - 1);
                    assert(tail[n - 1] == before.last());
                }
                assert(keyed(rule, before.last()) is Ok && keyed(rule, before.last())->Ok_0.0
                    == key);
            }
            lemma_run_len_concat(rule, key, tail, after);
            assert(all.skip(1).take(n) == tail.take(n));
            assert(all.skip(1 + n) == before.skip(1 + n) + after);
            let first: SegmentView = Ok(seq![fields] + rows_of(tail.take(n)));
            assert(adjacent_segments(rule, before) == seq![first] + adjacent_segments(
                rule,
                before.skip(1 + n),
            ));
            assert(adjacent_segments(rule, all) == seq![first] + adjacent_segments(
                rule,
                all.skip(1 + n),
            ));
            if before.skip(1 + n).len() > 0 {
                assert(before.skip(1 + n).last() == before.last());
                lemma_key_change_ends_run(rule, before.skip(1 + n), after);
                assert(seq![first] + (adjacent_segments(rule, before.skip(1 + n))
                    + adjacent_segments(rule, after)) == seq![first] + adjacent_segments(
                    rule,
                    before.skip(1 + n),
                ) + adjacent_segments(rule, after));
            } else {
                assert(before.skip(1 + n) + after == after);
                assert(adjacent_segments(rule, before.skip(1 + n)) == Seq::<SegmentView>::empty());
                assert(seq![first] + Seq::<SegmentView>::empty() == seq![first]);
            }
        },
        Err(fault) => {
            let first: SegmentView = Err(fault);
            assert(adjacent_segments(rule, before) == seq![first] + adjacent_segments(
                rule,
                before.skip(1),
            ));
            assert(adjacent_segments(rule, all) == seq![first] + adjacent_segments(
                rule,
                all.skip(1),
            ));
            if before.skip(1).len() > 0 {
                assert(before.skip(1).last() == before.last());
                lemma_key_change_ends_run(rule, before.skip(1), after);
                assert(seq![first] + (adjacent_segments(rule, before.skip(1)) + adjacent_segments(
                    rule,
                    after,
                )) == seq![first] + adjacent_segments(rule, before.skip(1)) + adjacent_segments(
                    rule,
                    after,
                ));
            } else {
                assert(before.skip(1) + after == after);
                assert(adjacent_segments(rule, before.skip(1)) == Seq::<SegmentView>::empty());
                assert(seq![first] + Seq::<SegmentView>::empty() == seq![first]);
            }
        },
    }
}

/// Whether a bucket is as it should be: it holds a row, and every row it
/// holds has the key of the bucket.
pub open spec fn bucket_sound(rule: Rule, bucket: BucketView) -> bool {
    &&& bucket.rows.len() > 0
    &&& forall|k: int|
        0 <= k < bucket.rows.len() ==> row_key(rule, #[trigger] bucket.rows[k]) == Ok::<
            Option<u64>,
            Seq<char>,
        >(bucket.key)
}

/// Grouping over the whole input puts two rows in one bucket exactly when
/// they have one key: every bucket holds rows of its own key alone, and no
/// two buckets have the same key. Only rows without a key, each of which is
/// a bucket of its own, have that in common.
pub proof fn lemma_buckets_sound(rule: Rule, items: Seq<Item>)
    ensures
        forall|i: int|
            0 <= i < buckets_of(rule, items).len() ==> bucket_sound(
                rule,
                #[trigger] buckets_of(rule, items)[i],
            ),
        forall|i: int, j: int|
            0 <= i < j < buckets_of(rule, items).len() && (#[trigger] buckets_of(
                rule,
                items,
            )[i]).key is Some ==> buckets_of(rule, items)[i].key != (#[trigger] buckets_of(
                rule,
                items,
            )[j]).key,
    decreases items.len(),
{
    let buckets = buckets_of(rule, items);
    if items.len() > 0 {
        let before = buckets_of(rule, items.drop_last());
        lemma_buckets_sound(rule, items.drop_last());
        match keyed(rule, items.last()) {
            Ok((key, fields)) => {
                let found = match key {
                    Some(k) => crate::partition::buckets::find(before, k),
                    None => None,
                };
                if let Some(k) = key {
                    crate::partition::buckets::lemma_find_some(before, k);
                }
                match found {
                    Some(at) => {
                        let grown = BucketView { key, rows: before[at].rows.push(fields) };
                        assert(buckets == before.update(at, grown));
                        assert(bucket_sound(rule, before[at]));
                        assert forall|k: int| 0 <= k < grown.rows.len() implies row_key(
                            rule,
                            #[trigger] grown.rows[k],
                        ) == Ok::<Option<u64>, Seq<char>>(grown.key) by {
                            if k < before[at].rows.len() {
                                assert(grown.rows[k] == before[at].rows[k]);
                            }
                        }
                        assert forall|i: int| 0 <= i < buckets.len() implies bucket_sound(
                            rule,
                            #[trigger] buckets[i],
                        ) by {
                            if i != at {
                                assert(buckets[i] == before[i]);
                            }
                        }
                        assert forall|i: int, j: int|
                            0 <= i < j < buckets.len() && (#[trigger] buckets[i]).key
                                is Some implies buckets[i].key != (#[trigger] buckets[j]).key by {
                            assert(buckets[i].key == before[i].key);
                            assert(buckets[j].key == before[j].key);
                        }
                    },
                    None => {
                        let fresh = BucketView { key, rows: seq![fields] };
                        assert(buckets == before.push(fresh));
                        assert(bucket_sound(rule, fresh));
                        assert forall|i: int| 0 <= i < buckets.len() implies bucket_sound(
                            rule,
                            #[trigger] buckets[i],
                        ) by {
                            if i < before.len() {
                                assert(buckets[i] == before[i]);
                            }
                        }
                        assert forall|i: int, j: int|
                            0 <= i < j < buckets.len() && (#[trigger] buckets[i]).key
                                is Some implies buckets[i].key != (#[trigger] buckets[j]).key by {
                            assert(buckets[i] == before[i]);
                            if j < before.len() {
                                assert(buckets[j] == before[j]);
                            }
                        }
                    },
                }
            },
            Err(_) => {},
        }
    }
}

} // verus!

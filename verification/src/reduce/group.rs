use crate::aggregate::last::LastModel;
use crate::aggregate::Aggregate;
use crate::aggregate::Last;
use crate::error::AggregateError;
use crate::error::AggregateFault;
use crate::error::Error;
use crate::error::Fault;
use crate::error::Item;
use crate::error::RowResult;
use crate::headers::Headers;
use crate::reduce::aggregated_col::AggregatedCol;
use crate::row::Row;
use vstd::prelude::*;

verus! {

/// The states of a list of accumulators.
pub open spec fn models<A: Aggregate>(accumulators: Seq<A>) -> Seq<A::Model> {
    accumulators.map_values(|a: A| a.model())
}

/// What one row does to a list of accumulators that take it in turn. The
/// first that refuses the row ends the turn: those before it have taken the
/// row, it and those after it stay as they were, and its fault is reported.
pub open spec fn take_row<A: Aggregate>(
    states: Seq<A::Model>,
    names: Seq<Seq<char>>,
    fields: Seq<Seq<char>>,
) -> (Seq<A::Model>, Option<AggregateFault>)
    decreases states.len(),
{
    if states.len() == 0 {
        (Seq::empty(), None)
    } else {
        let (front, fault) = take_row::<A>(states.drop_last(), names, fields);
        match fault {
            Some(f) => (front.push(states.last()), Some(f)),
            None => match A::step(states.last(), names, fields) {
                Ok(next) => (front.push(next), None),
                Err(f) => (front.push(states.last()), Some(f)),
            },
        }
    }
}

/// The texts of a list of states.
pub open spec fn rendered<A: Aggregate>(states: Seq<A::Model>) -> Seq<Seq<char>> {
    states.map_values(|m: A::Model| A::render(m))
}

/// The state of a [`Group`]: one accumulator for every column that is passed
/// through, then one for every aggregated column.
pub struct GroupModel<M> {
    pub kept: Seq<LastModel>,
    pub computed: Seq<M>,
}

/// The state in which the group of a key begins.
pub open spec fn group_start<A: Aggregate>(
    names: Seq<Seq<char>>,
    templates: Seq<A::Model>,
) -> GroupModel<A::Model> {
    GroupModel {
        kept: names.map_values(|name: Seq<char>| LastModel { source: name, current: Seq::empty() }),
        computed: templates.map_values(|m: A::Model| A::initial(m)),
    }
}

/// What one row does to a group: the accumulators of the columns that are
/// passed through take it first, then those of the aggregated columns.
pub open spec fn group_step<A: Aggregate>(
    group: GroupModel<A::Model>,
    names: Seq<Seq<char>>,
    fields: Seq<Seq<char>>,
) -> (GroupModel<A::Model>, Option<AggregateFault>) {
    let (kept, fault) = take_row::<Last>(group.kept, names, fields);
    match fault {
        Some(f) => (GroupModel { kept, computed: group.computed }, Some(f)),
        None => {
            let (computed, fault) = take_row::<A>(group.computed, names, fields);
            (GroupModel { kept, computed }, fault)
        },
    }
}

/// The row that a group amounts to: the texts of its accumulators in order.
pub open spec fn group_row<A: Aggregate>(group: GroupModel<A::Model>) -> Seq<Seq<char>> {
    rendered::<Last>(group.kept) + rendered::<A>(group.computed)
}

/// What the rows of one group fold into, from a given state on: the state
/// after the last row, or the fault of the first row that an accumulator
/// refused.
pub open spec fn fold_from<A: Aggregate>(
    group: GroupModel<A::Model>,
    names: Seq<Seq<char>>,
    rows: Seq<Seq<Seq<char>>>,
) -> Result<GroupModel<A::Model>, AggregateFault>
    decreases rows.len(),
{
    if rows.len() == 0 {
        Ok(group)
    } else {
        match fold_from::<A>(group, names, rows.drop_last()) {
            Ok(before) => {
                let (after, fault) = group_step::<A>(before, names, rows.last());
                match fault {
                    Some(f) => Err(f),
                    None => Ok(after),
                }
            },
            Err(f) => Err(f),
        }
    }
}

/// The one element that the rows of a group are folded into: a row with a
/// value for every column passed through and every aggregated column, or the
/// error of the first row that an accumulator refused.
pub open spec fn folded<A: Aggregate>(
    names: Seq<Seq<char>>,
    templates: Seq<A::Model>,
    rows: Seq<Seq<Seq<char>>>,
) -> Item {
    match fold_from::<A>(group_start::<A>(names, templates), names, rows) {
        Ok(group) => Ok(group_row::<A>(group)),
        Err(f) => Err(Fault::AggregateError(f)),
    }
}

/// A row leaves as many accumulators as it found.
pub proof fn lemma_take_row_len<A: Aggregate>(
    states: Seq<A::Model>,
    names: Seq<Seq<char>>,
    fields: Seq<Seq<char>>,
)
    ensures
        take_row::<A>(states, names, fields).0.len() == states.len(),
    decreases states.len(),
{
    if states.len() > 0 {
        lemma_take_row_len::<A>(states.drop_last(), names, fields);
    }
}

/// Once an accumulator among the first has refused the row, the rest of the
/// list stays as it was.
proof fn lemma_take_row_stops<A: Aggregate>(
    states: Seq<A::Model>,
    names: Seq<Seq<char>>,
    fields: Seq<Seq<char>>,
    k: int,
)
    requires
        0 <= k <= states.len(),
        take_row::<A>(states.take(k), names, fields).1 is Some,
    ensures
        take_row::<A>(states, names, fields) == (
            take_row::<A>(states.take(k), names, fields).0 + states.skip(k),
            take_row::<A>(states.take(k), names, fields).1,
        ),
    decreases states.len() - k,
{
    let done = take_row::<A>(states.take(k), names, fields);
    if k < states.len() {
        assert(states.take(k + 1).drop_last() == states.take(k));
        let next = take_row::<A>(states.take(k + 1), names, fields);
        assert(next.0 == done.0.push(states[k]));
        lemma_take_row_stops::<A>(states, names, fields, k + 1);
        assert(next.0 + states.skip(k + 1) == done.0 + states.skip(k));
    } else {
        assert(states.take(k) == states);
        assert(done.0 + states.skip(k) == done.0);
    }
}

/// A list of accumulators takes one row in turn.
fn update_all<A: Aggregate>(accumulators: &mut Vec<A>, headers: &Headers, row: &Row) -> (done:
    Result<(), AggregateError>)
    ensures
        models(final(accumulators)@) == take_row::<A>(
            models(old(accumulators)@),
            headers@,
            crate::row::fields(*row),
        ).0,
        match done {
            Ok(_) => take_row::<A>(models(old(accumulators)@), headers@, crate::row::fields(*row)).1
                is None,
            Err(e) => take_row::<A>(models(old(accumulators)@), headers@, crate::row::fields(*row)).1
                == Some(e@),
        },
{
    let ghost before = models(accumulators@);
    let ghost names = headers@;
    let ghost cells = crate::row::fields(*row);
    let mut i: usize = 0;
    while i < accumulators.len()
        invariant
            i <= accumulators@.len(),
            accumulators@.len() == before.len(),
            before == models(old(accumulators)@),
            names == headers@,
            cells == crate::row::fields(*row),
            take_row::<A>(before.take(i as int), names, cells).1 is None,
            models(accumulators@) == take_row::<A>(before.take(i as int), names, cells).0
                + before.skip(i as int),
        decreases accumulators@.len() - i,
    {
        let ghost now = models(accumulators@);
        proof {
            assert(before.take(i + 1).drop_last() == before.take(i as int));
            assert(before.take(i + 1).last() == before[i as int]);
            lemma_take_row_len::<A>(before.take(i as int), names, cells);
            assert(now[i as int] == before.skip(i as int)[0]);
        }
        let done = accumulators[i].update(headers, row);
        proof {
            let front = take_row::<A>(before.take(i as int), names, cells).0;
            assert(models(accumulators@) == now.update(i as int, accumulators@[i as int].model()));
        }
        match done {
            Ok(_) => {
                proof {
                    let front = take_row::<A>(before.take(i as int), names, cells).0;
                    assert(models(accumulators@) == front.push(accumulators@[i as int].model())
                        + before.skip(i + 1));
                }
            },
            Err(e) => {
                proof {
                    let front = take_row::<A>(before.take(i as int), names, cells).0;
                    assert(models(accumulators@) == now);
                    assert(now == front.push(before[i as int]) + before.skip(i + 1));
                    lemma_take_row_stops::<A>(before, names, cells, i + 1);
                }
                return Err(e);
            },
        }
        i += 1;
    }
    proof {
        assert(before.take(i as int) == before);
        assert(take_row::<A>(before, names, cells).0 + before.skip(i as int) == take_row::<A>(
            before,
            names,
            cells,
        ).0);
    }
    Ok(())
}

/// The accumulators of a list write their values at the end of a row.
fn push_values<A: Aggregate>(row: &mut Row, accumulators: &Vec<A>)
    ensures
        crate::row::fields(*final(row)) == crate::row::fields(*old(row)) + rendered::<A>(
            models(accumulators@),
        ),
{
    let ghost texts = rendered::<A>(models(accumulators@));
    let mut i: usize = 0;
    while i < accumulators.len()
        invariant
            i <= accumulators@.len(),
            texts == rendered::<A>(models(accumulators@)),
            crate::row::fields(*row) == crate::row::fields(*old(row)) + texts.take(i as int),
        decreases accumulators@.len() - i,
    {
        let text = accumulators[i].value();
        row.push_field(text.as_str());
        proof {
            assert(texts.take(i + 1) == texts.take(i as int).push(texts[i as int]));
        }
        i += 1;
    }
    proof {
        assert(texts.take(i as int) == texts);
    }
}

/// The live accumulators of one group: one that keeps the last value for
/// every column that is passed through, and one for every aggregated column.
pub struct Group<A: Aggregate> {
    kept: Vec<Last>,
    computed: Vec<A>,
}

impl<A: Aggregate> Group<A> {
    /// The state of the group.
    pub closed spec fn model(&self) -> GroupModel<A::Model> {
        GroupModel { kept: models(self.kept@), computed: models(self.computed@) }
    }

    /// The group of a key that was not seen before: fresh accumulators, one
    /// that keeps the last value of every column of the schema, and one made
    /// from the template of every aggregated column.
    pub fn from(headers: &Headers, columns: &Vec<AggregatedCol<A>>) -> (group: Group<A>)
        ensures
            group.model() == group_start::<A>(
                headers@,
                crate::reduce::aggregated_col::templates(columns@),
            ),
    {
        let ghost start = group_start::<A>(
            headers@,
            crate::reduce::aggregated_col::templates(columns@),
        );
        let names = headers.as_row();
        let mut kept: Vec<Last> = Vec::new();
        let mut i: usize = 0;
        while i < names.len()
            invariant
                i <= headers@.len(),
                crate::row::fields(*names) == headers@,
                start == group_start::<A>(
                    headers@,
                    crate::reduce::aggregated_col::templates(columns@),
                ),
                models(kept@) == start.kept.take(i as int),
            decreases headers@.len() - i,
        {
            match names.get(i) {
                Some(name) => {
                    kept.push(Last::new(name));
                },
                None => {},
            }
            proof {
                assert(start.kept.take(i + 1) == start.kept.take(i as int).push(start.kept[i as int]));
            }
            i += 1;
        }
        let mut computed: Vec<A> = Vec::new();
        let mut j: usize = 0;
        while j < columns.len()
            invariant
                j <= columns@.len(),
                start == group_start::<A>(
                    headers@,
                    crate::reduce::aggregated_col::templates(columns@),
                ),
                models(computed@) == start.computed.take(j as int),
            decreases columns@.len() - j,
        {
            computed.push(columns[j].aggregate().fresh());
            proof {
                assert(start.computed.take(j + 1) == start.computed.take(j as int).push(
                    start.computed[j as int],
                ));
            }
            j += 1;
        }
        proof {
            assert(start.kept.take(i as int) == start.kept);
            assert(start.computed.take(j as int) == start.computed);
        }
        Group { kept, computed }
    }

    /// Takes one more row into the group. Where an accumulator refuses the
    /// row, its error is returned and the accumulators after it are left as
    /// they were.
    pub fn update(&mut self, headers: &Headers, row: &Row) -> (done: Result<(), AggregateError>)
        ensures
            final(self).model() == group_step::<A>(
                old(self).model(),
                headers@,
                crate::row::fields(*row),
            ).0,
            match done {
                Ok(_) => group_step::<A>(old(self).model(), headers@, crate::row::fields(*row)).1
                    is None,
                Err(e) => group_step::<A>(old(self).model(), headers@, crate::row::fields(*row)).1
                    == Some(e@),
            },
    {
        match update_all::<Last>(&mut self.kept, headers, row) {
            Ok(_) => update_all::<A>(&mut self.computed, headers, row),
            Err(e) => Err(e),
        }
    }

    /// Closes the group: the values of its accumulators, in order, as a row.
    pub fn as_row(self) -> (row: Row)
        ensures
            crate::row::fields(row) == group_row::<A>(self.model()),
    {
        let mut row = Row::new();
        push_values::<Last>(&mut row, &self.kept);
        push_values::<A>(&mut row, &self.computed);
        proof {
            assert(Seq::<Seq<char>>::empty() + rendered::<Last>(models(self.kept@))
                == rendered::<Last>(models(self.kept@)));
        }
        row
    }
}

/// Folds the rows of one group into one element: the row of the values that
/// fresh accumulators end up with, or the error of the first row that one of
/// them refused. `headers` is the schema of the rows.
pub fn fold<A: Aggregate>(headers: &Headers, columns: &Vec<AggregatedCol<A>>, rows: &Vec<Row>) -> (item:
    RowResult)
    ensures
        crate::error::item_view(item) == folded::<A>(
            headers@,
            crate::reduce::aggregated_col::templates(columns@),
            crate::row::rows_view(rows@),
        ),
{
    let ghost names = headers@;
    let ghost all = crate::row::rows_view(rows@);
    let mut group = Group::from(headers, columns);
    let ghost start = group.model();
    let mut i: usize = 0;
    while i < rows.len()
        invariant
            i <= rows@.len(),
            names == headers@,
            all == crate::row::rows_view(rows@),
            start == group_start::<A>(names, crate::reduce::aggregated_col::templates(columns@)),
            fold_from::<A>(start, names, all.take(i as int)) == Ok::<
                GroupModel<A::Model>,
                AggregateFault,
            >(group.model()),
        decreases rows@.len() - i,
    {
        proof {
            assert(all.take(i + 1).drop_last() == all.take(i as int));
            assert(all.take(i + 1).last() == crate::row::fields(rows@[i as int]));
        }
        match group.update(headers, &rows[i]) {
            Ok(_) => {},
            Err(e) => {
                proof {
                    lemma_fold_stops::<A>(start, names, all, i + 1);
                }
                return Err(Error::AggregateError(e));
            },
        }
        i += 1;
    }
    proof {
        assert(all.take(i as int) == all);
    }
    Ok(group.as_row())
}

/// Once a row among the first has been refused, the fold of all rows reports
/// that fault.
proof fn lemma_fold_stops<A: Aggregate>(
    group: GroupModel<A::Model>,
    names: Seq<Seq<char>>,
    rows: Seq<Seq<Seq<char>>>,
    k: int,
)
    requires
        0 <= k <= rows.len(),
        fold_from::<A>(group, names, rows.take(k)) is Err,
    ensures
        fold_from::<A>(group, names, rows) == fold_from::<A>(group, names, rows.take(k)),
    decreases rows.len() - k,
{
    if k < rows.len() {
        assert(rows.take(k + 1).drop_last() == rows.take(k));
        lemma_fold_stops::<A>(group, names, rows, k + 1);
    } else {
        assert(rows.take(k) == rows);
    }
}

} // verus!

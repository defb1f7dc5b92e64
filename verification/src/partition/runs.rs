use crate::error::item_view;
use crate::error::Item;
use crate::error::RowResult;
use crate::grouping::joins;
use crate::grouping::keyed;
use crate::grouping::Grouping;
use crate::grouping::Rule;
use crate::partition::Partition;
use crate::partition::Segment;
use crate::partition::SegmentView;
use crate::row::Row;
use crate::row_stream::RowStream;
use vstd::prelude::*;

verus! {

/// How many elements at the front of the input belong to the group of the
/// given key: they are rows, and their key is that one.
pub open spec fn run_len(rule: Rule, key: Option<u64>, items: Seq<Item>) -> nat
    decreases items.len(),
{
    if items.len() > 0 && joins(rule, key, items[0]) {
        1 + run_len(rule, key, items.skip(1))
    } else {
        0
    }
}

/// The rows of a sequence of elements that are all rows.
pub open spec fn rows_of(items: Seq<Item>) -> Seq<Seq<Seq<char>>> {
    items.map_values(|item: Item| item->Ok_0)
}

/// The input cut into runs. A run is a row together with the rows that
/// follow it directly and have its key. An error, or a row that lacks a
/// column it needs, is a segment of its own; the rows before it and after it
/// are never in one run.
pub open spec fn adjacent_segments(rule: Rule, items: Seq<Item>) -> Seq<SegmentView>
    decreases items.len(),
{
    if items.len() == 0 {
        Seq::empty()
    } else {
        match keyed(rule, items[0]) {
            Ok((key, fields)) => {
                let n = run_len(rule, key, items.skip(1));
                proof {
                    lemma_run_len_bound(rule, key, items.skip(1));
                }
                seq![Ok(seq![fields] + rows_of(items.skip(1).take(n as int)))] + adjacent_segments(
                    rule,
                    items.skip(1 + n as int),
                )
            },
            Err(fault) => seq![Err(fault)] + adjacent_segments(rule, items.skip(1)),
        }
    }
}

/// A run is never longer than the input.
pub proof fn lemma_run_len_bound(rule: Rule, key: Option<u64>, items: Seq<Item>)
    ensures
        run_len(rule, key, items) <= items.len(),
    decreases items.len(),
{
    if items.len() > 0 && joins(rule, key, items[0]) {
        lemma_run_len_bound(rule, key, items.skip(1));
    }
}

/// A run ends at the first element that does not belong to it.
pub proof fn lemma_run_len_is(rule: Rule, key: Option<u64>, items: Seq<Item>, n: int)
    requires
        0 <= n <= items.len(),
        forall|j: int| 0 <= j < n ==> joins(rule, key, #[trigger] items[j]),
        n < items.len() ==> !joins(rule, key, items[n]),
    ensures
        run_len(rule, key, items) == n,
    decreases n,
{
    if n > 0 {
        let rest = items.skip(1);
        assert forall|j: int| 0 <= j < n - 1 implies joins(rule, key, #[trigger] rest[j]) by {
            assert(rest[j] == items[j + 1]);
        }
        if n < items.len() {
            assert(rest[n - 1] == items[n]);
        }
        lemma_run_len_is(rule, key, rest, n - 1);
    }
}

/// The first segment of an input that begins with a row, and what follows it.
proof fn lemma_first_run(rule: Rule, items: Seq<Item>, n: int)
    requires
        items.len() > 0,
        keyed(rule, items[0]) is Ok,
        run_len(rule, keyed(rule, items[0])->Ok_0.0, items.skip(1)) == n,
    ensures
        adjacent_segments(rule, items).len() > 0,
        adjacent_segments(rule, items)[0] == Ok::<Seq<Seq<Seq<char>>>, crate::error::Fault>(
            seq![keyed(rule, items[0])->Ok_0.1] + rows_of(items.skip(1).take(n)),
        ),
        adjacent_segments(rule, items).skip(1) == adjacent_segments(rule, items.skip(1 + n)),
{
    let first = Ok::<Seq<Seq<Seq<char>>>, crate::error::Fault>(
        seq![keyed(rule, items[0])->Ok_0.1] + rows_of(items.skip(1).take(n)),
    );
    let rest = adjacent_segments(rule, items.skip(1 + n));
    assert(adjacent_segments(rule, items) == seq![first] + rest);
    assert((seq![first] + rest).skip(1) == rest);
}

/// Cuts a stream into runs of rows with equal keys, looking one element
/// ahead and holding no more than one run at a time.
pub struct Runs<I: RowStream> {
    iter: I,
    /// An element that was pulled to see where a run ends, and is the next
    /// to be dealt with.
    ahead: Option<RowResult>,
    grouping: Grouping,
}

impl<I: RowStream> Runs<I> {
    /// The stream that the runs are cut from, as far as it has not been
    /// pulled.
    pub closed spec fn source(&self) -> I {
        self.iter
    }

    /// The rule that decides which rows belong together.
    pub closed spec fn rule(&self) -> Rule {
        self.grouping@
    }

    /// The input that is still to be cut: the element that was looked at
    /// ahead, if there is one, and what the stream has not yet handed out.
    pub closed spec fn input(&self) -> Seq<Item> {
        match self.ahead {
            Some(item) => seq![item_view(item)] + self.iter.remaining(),
            None => self.iter.remaining(),
        }
    }

    /// Starts cutting a stream. Nothing is pulled yet.
    pub fn new(iter: I, grouping: Grouping) -> (runs: Runs<I>)
        requires
            iter.wf(),
        ensures
            runs.wf(),
            runs.source() == iter,
            runs.rule() == grouping@,
            runs.input() == iter.remaining(),
    {
        Runs { iter, ahead: None, grouping }
    }
}

impl<I: RowStream> Partition for Runs<I> {
    closed spec fn wf(&self) -> bool {
        self.iter.wf()
    }

    open spec fn pending(&self) -> Seq<SegmentView> {
        adjacent_segments(self.rule(), self.input())
    }

    /// Reads one run and nothing beyond it but the element that ends it,
    /// which is kept for the next call.
    fn next_segment(&mut self) -> (segment: Option<Segment>)
        ensures
            final(self).rule() == old(self).rule(),
            match segment {
                Some(Ok(rows)) => final(self).input() == old(self).input().skip(rows@.len() as int),
                Some(Err(_)) => final(self).input() == old(self).input().skip(1),
                None => final(self).input() == old(self).input(),
            },
    {
        let ghost rule = self.grouping@;
        let ghost items = self.input();
        let first = match self.ahead.take() {
            Some(item) => Some(item),
            None => self.iter.next(),
        };
        let first = match first {
            Some(item) => item,
            None => {
                return None;
            },
        };
        let ghost tail = items.skip(1);
        proof {
            assert(self.iter.remaining() == tail);
            assert(items[0] == item_view(first));
        }
        let (key, row) = match self.grouping.sort_out(first) {
            Ok(found) => found,
            Err(e) => {
                return Some(Err(e));
            },
        };
        let ghost head = crate::row::fields(row);
        let mut rows: Vec<Row> = Vec::new();
        rows.push(row);
        if key.is_none() {
            proof {
                assert(run_len(rule, key, tail) == 0);
                lemma_first_run(rule, items, 0);
                assert(tail.take(0) == Seq::<Item>::empty());
                assert(crate::row::rows_view(rows@) == seq![head] + rows_of(tail.take(0)));
                assert(items.skip(1 + 0int) == tail);
            }
            return Some(Ok(rows));
        }
        proof {
            assert(tail.take(0) == Seq::<Item>::empty());
            assert(crate::row::rows_view(rows@) == seq![head] + rows_of(tail.take(0)));
        }
        let ghost mut n: int = 0;
        loop
            invariant
                self.iter.wf(),
                self.ahead is None,
                self.grouping@ == rule,
                rule == old(self).rule(),
                items == old(self).input(),
                items.len() > 0,
                tail == items.skip(1),
                keyed(rule, items[0]) == Ok::<(Option<u64>, Seq<Seq<char>>), crate::error::Fault>(
                    (key, head),
                ),
                key is Some,
                0 <= n <= tail.len(),
                rows@.len() == 1 + n,
                self.iter.remaining() == tail.skip(n),
                forall|j: int| 0 <= j < n ==> joins(rule, key, #[trigger] tail[j]),
                crate::row::rows_view(rows@) == seq![head] + rows_of(tail.take(n)),
            decreases tail.len() - n,
        {
            let next = match self.iter.next() {
                Some(next) => next,
                None => {
                    proof {
                        lemma_run_len_is(rule, key, tail, n);
                        lemma_first_run(rule, items, n);
                        assert(items.skip(1 + n) == tail.skip(n));
                    }
                    return Some(Ok(rows));
                },
            };
            proof {
                assert(tail.skip(n)[0] == tail[n]);
                assert(tail.skip(n).skip(1) == tail.skip(n + 1));
            }
            let same = match &next {
                Ok(row) => match self.grouping.key(row) {
                    Ok(found) => found == key,
                    Err(_) => false,
                },
                Err(_) => false,
            };
            if same {
                proof {
                    assert(tail.take(n + 1) == tail.take(n).push(tail[n]));
                    assert(rows_of(tail.take(n + 1)) == rows_of(tail.take(n)).push(tail[n]->Ok_0));
                }
                let ghost before = rows@;
                match next {
                    Ok(row) => {
                        rows.push(row);
                    },
                    Err(_) => {},
                }
                proof {
                    assert(crate::row::rows_view(rows@)
                        == crate::row::rows_view(before).push(tail[n]->Ok_0));
                    assert((seq![head] + rows_of(tail.take(n))).push(tail[n]->Ok_0) == seq![head]
                        + rows_of(tail.take(n + 1)));
                    n = n + 1;
                }
            } else {
                proof {
                    lemma_run_len_is(rule, key, tail, n);
                    lemma_first_run(rule, items, n);
                    assert(seq![tail[n]] + tail.skip(n + 1) == tail.skip(n));
                    assert(items.skip(1 + n) == tail.skip(n));
                }
                self.ahead = Some(next);
                return Some(Ok(rows));
            }
        }
    }
}

} // verus!

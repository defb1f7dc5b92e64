use crate::error::item_view;
use crate::error::Fault;
use crate::error::Item;
use crate::grouping::keyed;
use crate::grouping::Grouping;
use crate::grouping::Rule;
use crate::mock::reversed;
use crate::partition::segments_view;
use crate::partition::Partition;
use crate::partition::Segment;
use crate::partition::SegmentView;
use crate::row::Row;
use crate::row_stream::RowStream;
use std::collections::HashMap;
use std::collections::VecDeque;
use vstd::prelude::*;

verus! {

/// The rows that were seen under one key, in the order in which they came.
pub struct BucketView {
    pub key: Option<u64>,
    pub rows: Seq<Seq<Seq<char>>>,
}

/// The first bucket of the given key.
pub open spec fn find(buckets: Seq<BucketView>, key: u64) -> Option<int>
    decreases buckets.len(),
{
    if buckets.len() == 0 {
        None
    } else {
        match find(buckets.drop_last(), key) {
            Some(i) => Some(i),
            None => if buckets.last().key == Some(key) {
                Some(buckets.len() - 1)
            } else {
                None
            },
        }
    }
}

/// The buckets after one more row: it goes at the end of the bucket of its
/// key, and founds a new bucket, behind the others, where its key was not
/// seen before. A row without a key always founds a bucket.
pub open spec fn place(buckets: Seq<BucketView>, key: Option<u64>, fields: Seq<Seq<char>>) -> Seq<
    BucketView,
> {
    match key {
        Some(k) => match find(buckets, k) {
            Some(i) => buckets.update(i, BucketView { key, rows: buckets[i].rows.push(fields) }),
            None => buckets.push(BucketView { key, rows: seq![fields] }),
        },
        None => buckets.push(BucketView { key, rows: seq![fields] }),
    }
}

/// The buckets that the rows of an input fall into, in the order in which
/// their keys were first seen.
pub open spec fn buckets_of(rule: Rule, items: Seq<Item>) -> Seq<BucketView>
    decreases items.len(),
{
    if items.len() == 0 {
        Seq::empty()
    } else {
        let before = buckets_of(rule, items.drop_last());
        match keyed(rule, items.last()) {
            Ok((key, fields)) => place(before, key, fields),
            Err(_) => before,
        }
    }
}

/// The errors of an input, in order: those that came with it, and one for
/// every row that lacks a column it needs.
pub open spec fn faults_of(rule: Rule, items: Seq<Item>) -> Seq<Fault>
    decreases items.len(),
{
    if items.len() == 0 {
        Seq::empty()
    } else {
        let before = faults_of(rule, items.drop_last());
        match keyed(rule, items.last()) {
            Ok(_) => before,
            Err(fault) => before.push(fault),
        }
    }
}

/// Errors as segments.
pub open spec fn fault_segments(faults: Seq<Fault>) -> Seq<SegmentView> {
    faults.map_values(|fault: Fault| Err::<Seq<Seq<Seq<char>>>, Fault>(fault))
}

/// Buckets as segments.
pub open spec fn bucket_segments(buckets: Seq<BucketView>) -> Seq<SegmentView> {
    buckets.map_values(|bucket: BucketView| Ok::<Seq<Seq<Seq<char>>>, Fault>(bucket.rows))
}

/// The whole input cut into segments: first its errors, each on its own and
/// in the order in which they came, then one segment for every key, in the
/// order in which the keys were first seen.
pub open spec fn global_segments(rule: Rule, items: Seq<Item>) -> Seq<SegmentView> {
    fault_segments(faults_of(rule, items)) + bucket_segments(buckets_of(rule, items))
}

/// Where `find` finds a bucket, the bucket has the key.
pub proof fn lemma_find_some(buckets: Seq<BucketView>, key: u64)
    ensures
        find(buckets, key) matches Some(i) ==> 0 <= i < buckets.len() && buckets[i].key == Some(
            key,
        ),
        find(buckets, key) is None ==> forall|j: int|
            0 <= j < buckets.len() ==> (#[trigger] buckets[j]).key != Some(key),
    decreases buckets.len(),
{
    if buckets.len() > 0 {
        let shorter = buckets.drop_last();
        lemma_find_some(shorter, key);
        if find(buckets, key) is None {
            assert forall|j: int| 0 <= j < buckets.len() implies (#[trigger] buckets[j]).key
                != Some(key) by {
                if j < shorter.len() {
                    assert(shorter[j] == buckets[j]);
                }
            }
        }
        if let Some(i) = find(shorter, key) {
            assert(shorter[i] == buckets[i]);
        }
    }
}

/// Where only one bucket has the key, `find` finds that one.
pub proof fn lemma_find_only(buckets: Seq<BucketView>, key: u64, i: int)
    requires
        0 <= i < buckets.len(),
        buckets[i].key == Some(key),
        forall|j: int| 0 <= j < buckets.len() && (#[trigger] buckets[j]).key == Some(key) ==> j == i,
    ensures
        find(buckets, key) == Some(i),
{
    lemma_find_some(buckets, key);
}

/// The rows that were seen under one key.
struct Bucket {
    key: Option<u64>,
    rows: Vec<Row>,
}

/// A bucket as contracts see it.
spec fn bucket_view(bucket: Bucket) -> BucketView {
    BucketView { key: bucket.key, rows: crate::row::rows_view(bucket.rows@) }
}

/// Buckets as contracts see them.
spec fn bucket_views(buckets: Seq<Bucket>) -> Seq<BucketView> {
    buckets.map_values(|bucket: Bucket| bucket_view(bucket))
}

/// The index knows the bucket of every key, and nothing else.
spec fn indexed(index: Map<u64, usize>, buckets: Seq<BucketView>) -> bool {
    &&& forall|k: u64| #[trigger]
        index.contains_key(k) ==> index[k] < buckets.len() && buckets[index[k] as int].key == Some(
            k,
        )
    &&& forall|i: int|
        0 <= i < buckets.len() && (#[trigger] buckets[i]).key is Some ==> index.contains_key(
            buckets[i].key->0,
        ) && index[buckets[i].key->0] == i
}

/// Puts a row into the bucket of its key.
fn store(buckets: &mut Vec<Bucket>, index: &mut HashMap<u64, usize>, key: Option<u64>, row: Row)
    requires
        indexed(old(index)@, bucket_views(old(buckets)@)),
    ensures
        indexed(final(index)@, bucket_views(final(buckets)@)),
        bucket_views(final(buckets)@) == place(
            bucket_views(old(buckets)@),
            key,
            crate::row::fields(row),
        ),
{
    broadcast use vstd::std_specs::hash::group_hash_axioms;

    let ghost before = bucket_views(buckets@);
    let ghost cells = crate::row::fields(row);
    let at: Option<usize> = match key {
        Some(k) => match index.get(&k) {
            Some(i) => Some(*i),
            None => None,
        },
        None => None,
    };
    match at {
        Some(i) => {
            proof {
                lemma_find_only(before, key->0, i as int);
            }
            let ghost held = buckets@[i as int];
            buckets[i].rows.push(row);
            proof {
                assert(crate::row::rows_view(buckets@[i as int].rows@)
                    == crate::row::rows_view(held.rows@).push(cells));
                assert(bucket_views(buckets@) == before.update(
                    i as int,
                    BucketView { key, rows: before[i as int].rows.push(cells) },
                ));
            }
        },
        None => {
            proof {
                if let Some(k) = key {
                    lemma_find_some(before, k);
                    if let Some(j) = find(before, k) {
                        assert(index@.contains_key(before[j].key->0));
                    }
                }
            }
            let mut rows: Vec<Row> = Vec::new();
            rows.push(row);
            let at = buckets.len();
            buckets.push(Bucket { key, rows });
            proof {
                assert(crate::row::rows_view(rows@) == seq![cells]);
                assert(bucket_views(buckets@) == before.push(BucketView { key, rows: seq![cells] }));
            }
            match key {
                Some(k) => {
                    index.insert(k, at);
                },
                None => {},
            }
        },
    }
}

/// Pulls a stream to its end and cuts everything it hands out into
/// segments.
fn gather<I: RowStream>(iter: &mut I, grouping: &Grouping) -> (ready: VecDeque<Segment>)
    requires
        old(iter).wf(),
    ensures
        final(iter).wf(),
        final(iter).schema() == old(iter).schema(),
        final(iter).remaining().len() == 0,
        segments_view(ready@) == global_segments(grouping@, old(iter).remaining()),
{
    let ghost rule = grouping@;
    let ghost all = iter.remaining();
    let ghost mut n: int = 0;
    let mut ready: VecDeque<Segment> = VecDeque::new();
    let mut buckets: Vec<Bucket> = Vec::new();
    let mut index: HashMap<u64, usize> = HashMap::new();
    proof {
        assert(all.take(0) == Seq::<Item>::empty());
        assert(segments_view(ready@) == fault_segments(faults_of(rule, all.take(0))));
        assert(bucket_views(buckets@) == buckets_of(rule, all.take(0)));
    }
    loop
        invariant
            iter.wf(),
            iter.schema() == old(iter).schema(),
            rule == grouping@,
            all == old(iter).remaining(),
            0 <= n <= all.len(),
            iter.remaining() == all.skip(n),
            segments_view(ready@) == fault_segments(faults_of(rule, all.take(n))),
            bucket_views(buckets@) == buckets_of(rule, all.take(n)),
            indexed(index@, bucket_views(buckets@)),
        ensures
            n == all.len(),
            iter.remaining().len() == 0,
        decreases all.len() - n,
    {
        let item = match iter.next() {
            Some(item) => item,
            None => {
                break ;
            },
        };
        proof {
            assert(all.skip(n)[0] == all[n]);
            assert(all.skip(n).skip(1) == all.skip(n + 1));
            assert(all.take(n + 1).drop_last() == all.take(n));
            assert(all.take(n + 1).last() == item_view(item));
        }
        let ghost segments = ready@;
        match grouping.sort_out(item) {
            Ok((key, row)) => {
                store(&mut buckets, &mut index, key, row);
            },
            Err(e) => {
                ready.push_back(Err(e));
                proof {
                    assert(segments_view(ready@) == segments_view(segments).push(
                        Err::<Seq<Seq<Seq<char>>>, Fault>(e@),
                    ));
                    assert(fault_segments(faults_of(rule, all.take(n + 1))) == fault_segments(
                        faults_of(rule, all.take(n)),
                    ).push(Err::<Seq<Seq<Seq<char>>>, Fault>(e@)));
                }
            },
        }
        proof {
            n = n + 1;
        }
    }
    proof {
        assert(all.take(n) == all);
    }
    let ghost faults = segments_view(ready@);
    let ghost held = bucket_views(buckets@);
    let mut turned = reversed(buckets);
    let ghost mut m: int = 0;
    proof {
        assert(held.take(0) == Seq::<BucketView>::empty());
        assert(faults + bucket_segments(held.take(0)) == faults);
    }
    loop
        invariant
            0 <= m <= held.len(),
            turned@.len() == held.len() - m,
            bucket_views(turned@.reverse()) == held.skip(m),
            segments_view(ready@) == faults + bucket_segments(held.take(m)),
        ensures
            m == held.len(),
        decreases held.len() - m,
    {
        let ghost left = turned@;
        let ghost segments = ready@;
        let bucket = match turned.pop() {
            Some(bucket) => bucket,
            None => {
                break ;
            },
        };
        proof {
            assert(left.reverse()[0] == bucket);
            assert(bucket_views(left.reverse())[0] == bucket_view(bucket));
            assert(held.skip(m)[0] == held[m]);
            assert(turned@.reverse() == left.reverse().skip(1));
            assert(bucket_views(left.reverse().skip(1)) == bucket_views(left.reverse()).skip(1));
            assert(held.skip(m).skip(1) == held.skip(m + 1));
        }
        ready.push_back(Ok(bucket.rows));
        proof {
            assert(segments_view(ready@) == segments_view(segments).push(
                Ok::<Seq<Seq<Seq<char>>>, Fault>(held[m].rows),
            ));
            assert(held.take(m + 1) == held.take(m).push(held[m]));
            assert(bucket_segments(held.take(m + 1)) == bucket_segments(held.take(m)).push(
                Ok::<Seq<Seq<Seq<char>>>, Fault>(held[m].rows),
            ));
            m = m + 1;
        }
    }
    proof {
        assert(held.take(m) == held);
    }
    ready
}

/// Cuts a stream into one segment for every key. The first call for a
/// segment pulls the stream to its end, so that all rows are held at once.
pub struct Buckets<I: RowStream> {
    iter: I,
    grouping: Grouping,
    gathered: bool,
    ready: VecDeque<Segment>,
}

impl<I: RowStream> Buckets<I> {
    /// The stream that is cut, as far as it has not been pulled.
    pub closed spec fn source(&self) -> I {
        self.iter
    }

    /// The rule that decides which rows belong together.
    pub closed spec fn rule(&self) -> Rule {
        self.grouping@
    }

    /// Whether the stream has been pulled to its end.
    pub closed spec fn gathered(&self) -> bool {
        self.gathered
    }

    /// The segments that are held, once the stream has been pulled.
    pub closed spec fn held(&self) -> Seq<SegmentView> {
        segments_view(self.ready@)
    }

    /// Gets ready to cut a stream. Nothing is pulled yet.
    pub fn new(iter: I, grouping: Grouping) -> (buckets: Buckets<I>)
        requires
            iter.wf(),
        ensures
            buckets.wf(),
            buckets.source() == iter,
            buckets.rule() == grouping@,
            !buckets.gathered(),
    {
        Buckets { iter, grouping, gathered: false, ready: VecDeque::new() }
    }
}

impl<I: RowStream> Partition for Buckets<I> {
    closed spec fn wf(&self) -> bool {
        self.iter.wf()
    }

    open spec fn pending(&self) -> Seq<SegmentView> {
        if self.gathered() {
            self.held()
        } else {
            global_segments(self.rule(), self.source().remaining())
        }
    }

    fn next_segment(&mut self) -> (segment: Option<Segment>) {
        if !self.gathered {
            self.ready = gather(&mut self.iter, &self.grouping);
            self.gathered = true;
        }
        let ghost held = self.ready@;
        let segment = self.ready.pop_front();
        proof {
            if held.len() > 0 {
                assert(self.ready@ == held.skip(1));
                assert(segments_view(held.skip(1)) == segments_view(held).skip(1));
            }
        }
        segment
    }
}

} // verus!

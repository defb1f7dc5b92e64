//! What a stage does with a group when the caller says what to do.
use crate::error::as_items;
use crate::error::items_view;
use crate::error::Error;
use crate::error::Fault;
use crate::error::Item;
use crate::error::RowResult;
use crate::headers::Headers;
use crate::mock::MockStream;
use crate::row::rows_view;
use crate::row::Row;
use crate::row_stream::RowStream;
use crate::stage::Process;
use std::collections::VecDeque;
use vstd::prelude::*;

verus! {

/// Whether a transform can be used in a stage: it takes every group, what it
/// returns is a valid stream, and what that stream hands out depends on
/// nothing but the schema and the rows of the group.
pub open spec fn dependable<F: Fn(MockStream) -> R, R: RowStream>(f: F) -> bool {
    &&& forall|group: MockStream| #[trigger] call_requires(f, (group,))
    &&& forall|group: MockStream, made: R| #[trigger] call_ensures(f, (group,), made) ==> made.wf()
    &&& forall|a: MockStream, b: MockStream, x: R, y: R|
        a.schema() == b.schema() && a.remaining() == b.remaining() && #[trigger] call_ensures(
            f,
            (a,),
            x,
        ) && #[trigger] call_ensures(f, (b,), y) ==> x.schema() == y.schema() && x.remaining()
            == y.remaining()
}

/// What a transform makes of the rows of one group, where it makes anything
/// of a stream over them.
pub open spec fn transformed<F: Fn(MockStream) -> R, R: RowStream>(
    f: F,
    names: Seq<Seq<char>>,
    rows: Seq<Seq<Seq<char>>>,
) -> (MockStream, R) {
    choose|pair: (MockStream, R)|
        pair.0.schema() == names && pair.0.remaining() == as_items(rows) && call_ensures(
            f,
            (pair.0,),
            pair.1,
        )
}

/// Hands the rows of a group to a transform of the caller, as a stream of
/// their own, and takes what the transform returns. Where the schema of
/// what it returns is not the one declared for the stage, one error stands
/// for the whole group.
pub struct Apply<F> {
    f: F,
    upstream: Headers,
    declared: Headers,
}

impl<F> Apply<F> {
    /// The transform.
    pub closed spec fn transform(&self) -> F {
        self.f
    }

    /// The schema of the rows of a group.
    pub closed spec fn upstream(&self) -> Headers {
        self.upstream
    }

    /// The schema declared for what the transform returns.
    pub closed spec fn declared(&self) -> Headers {
        self.declared
    }

    /// Binds a transform to the schema of its input and the schema declared
    /// for its output.
    pub fn new(f: F, upstream: Headers, declared: Headers) -> (apply: Apply<F>)
        ensures
            apply.transform() == f,
            apply.upstream() == upstream,
            apply.declared() == declared,
    {
        Apply { f, upstream, declared }
    }
}

impl<F: Fn(MockStream) -> R, R: RowStream> Process for Apply<F> {
    open spec fn wf(&self) -> bool {
        dependable(self.transform())
    }

    open spec fn output(&self, rows: Seq<Seq<Seq<char>>>) -> Seq<Item> {
        let made = transformed(self.transform(), self.upstream()@, rows).1;
        if made.schema() == self.declared()@ {
            made.remaining()
        } else {
            seq![Err(Fault::InconsistentHeaders)]
        }
    }

    fn run(&self, rows: Vec<Row>, out: &mut VecDeque<RowResult>) {
        let ghost given = rows_view(rows@);
        let ghost already = items_view(out@);
        let group = MockStream::of_rows(rows, self.upstream.clone());
        let mut made = (self.f)(group);
        proof {
            let pair = (group, made);
            assert(pair.0.schema() == self.upstream@ && pair.0.remaining() == as_items(given)
                && call_ensures(self.f, (pair.0,), pair.1));
            let chosen = transformed(self.f, self.upstream@, given);
            assert(call_ensures(self.f, (chosen.0,), chosen.1));
            assert(chosen.1.schema() == made.schema());
            assert(chosen.1.remaining() == made.remaining());
        }
        if !made.headers().same_as(&self.declared) {
            let ghost before = out@;
            out.push_back(Err(Error::InconsistentHeaders));
            proof {
                assert(items_view(out@) == items_view(before).push(
                    Err::<Seq<Seq<char>>, Fault>(Fault::InconsistentHeaders),
                ));
                assert(items_view(before).push(
                    Err::<Seq<Seq<char>>, Fault>(Fault::InconsistentHeaders),
                ) == already + seq![Err::<Seq<Seq<char>>, Fault>(Fault::InconsistentHeaders)]);
            }
            return ;
        }
        let ghost all = made.remaining();
        let ghost mut n: int = 0;
        proof {
            assert(all.take(0) == Seq::<Item>::empty());
            assert(already + all.take(0) == already);
        }
        loop
            invariant
                made.wf(),
                0 <= n <= all.len(),
                made.remaining() == all.skip(n),
                items_view(out@) == already + all.take(n),
            ensures
                n == all.len(),
            decreases all.len() - n,
        {
            let ghost before = out@;
            let item = match made.next() {
                Some(item) => item,
                None => {
                    break ;
                },
            };
            out.push_back(item);
            proof {
                assert(all.skip(n)[0] == all[n]);
                assert(all.skip(n).skip(1) == all.skip(n + 1));
                assert(items_view(out@) == items_view(before).push(all[n]));
                assert((already + all.take(n)).push(all[n]) == already + all.take(n + 1));
                n = n + 1;
            }
        }
        proof {
            assert(all.take(n) == all);
        }
    }
}

} // verus!

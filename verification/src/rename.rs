//! Renaming columns.
use crate::each::Each;
use crate::each::PerRow;
use crate::error::Item;
use crate::error::RowResult;
use crate::headers::Headers;
use crate::row::Row;
use crate::row_stream::RowStream;
use vstd::prelude::*;

verus! {

/// The new name of a column: that of the last pair that names the column,
/// and the old name where no pair does.
pub open spec fn renamed(pairs: Seq<(&str, &str)>, name: Seq<char>) -> Seq<char>
    decreases pairs.len(),
{
    if pairs.len() == 0 {
        name
    } else if pairs.last().0@ == name {
        pairs.last().1@
    } else {
        renamed(pairs.drop_last(), name)
    }
}

/// The column names after renaming.
pub open spec fn renamed_all(pairs: Seq<(&str, &str)>, names: Seq<Seq<char>>) -> Seq<Seq<char>> {
    names.map_values(|name: Seq<char>| renamed(pairs, name))
}

/// The new name of a column.
fn new_name<'a>(pairs: &[(&'a str, &'a str)], name: &'a str) -> (to: &'a str)
    ensures
        to@ == renamed(pairs@, name@),
{
    let mut i: usize = pairs.len();
    proof {
        assert(pairs@.take(i as int) == pairs@);
    }
    while i > 0
        invariant
            i <= pairs@.len(),
            renamed(pairs@, name@) == renamed(pairs@.take(i as int), name@),
        decreases i,
    {
        i -= 1;
        proof {
            let shorter = pairs@.take(i + 1);
            assert(shorter.drop_last() == pairs@.take(i as int));
            assert(shorter.last() == pairs@[i as int]);
        }
        if *pairs[i].0 == *name {
            return pairs[i].1;
        }
    }
    name
}

/// Hands every element on as it is.
pub struct Same {}

impl PerRow for Same {
    open spec fn wf(&self) -> bool {
        true
    }

    open spec fn image(&self, item: Item) -> Item {
        item
    }

    fn apply(&self, item: RowResult) -> (made: RowResult) {
        item
    }
}

/// Gives columns new names. The rows pass as they are.
pub type Rename<I> = Each<I, Same>;

impl<I: RowStream> Each<I, Same> {
    /// Builds the stage over an input and pairs of an old and a new name.
    /// Where several pairs name one column, the last of them counts.
    pub fn new(iter: I, name_map: &[(&str, &str)]) -> (stage: Rename<I>)
        requires
            iter.wf(),
        ensures
            stage.wf(),
            stage.source() == iter,
            stage.schema() == renamed_all(name_map@, iter.schema()),
            stage.remaining() == iter.remaining(),
    {
        let ghost names = iter.schema();
        let ghost goal = renamed_all(name_map@, names);
        let mut to = Row::new();
        let mut i: usize = 0;
        {
            let old_names = iter.headers().as_row();
            while i < old_names.len()
                invariant
                    i <= names.len(),
                    names == iter.schema(),
                    crate::row::fields(*old_names) == names,
                    goal == renamed_all(name_map@, names),
                    crate::row::fields(to) == goal.take(i as int),
                decreases names.len() - i,
            {
                match old_names.get(i) {
                    Some(name) => {
                        to.push_field(new_name(name_map, name));
                    },
                    None => {},
                }
                proof {
                    assert(goal.take(i + 1) == goal.take(i as int).push(goal[i as int]));
                }
                i += 1;
            }
        }
        proof {
            assert(goal.take(i as int) == goal);
            assert(crate::each::images(Same {  }, iter.remaining()) == iter.remaining());
        }
        Each::assemble(iter, Same {  }, Headers::from_row(to))
    }
}

} // verus!

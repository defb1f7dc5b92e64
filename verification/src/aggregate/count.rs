use crate::aggregate::Aggregate;
use crate::error::AggregateError;
use crate::error::AggregateFault;
use crate::headers::Headers;
use crate::row::Row;
use vstd::prelude::*;
use vstd::string::*;

verus! {

/// The character of a decimal digit.
pub open spec fn digit(d: nat) -> char {
    if d == 0 {
        '0'
    } else if d == 1 {
        '1'
    } else if d == 2 {
        '2'
    } else if d == 3 {
        '3'
    } else if d == 4 {
        '4'
    } else if d == 5 {
        '5'
    } else if d == 6 {
        '6'
    } else if d == 7 {
        '7'
    } else if d == 8 {
        '8'
    } else {
        '9'
    }
}

/// A number in decimal digits, without leading zeros.
pub open spec fn decimal(n: nat) -> Seq<char>
    decreases n,
{
    if n < 10 {
        seq![digit(n)]
    } else {
        decimal(n / 10).push(digit(n % 10))
    }
}

/// The text of a decimal digit.
fn digit_text(d: u64) -> (text: &'static str)
    requires
        d < 10,
    ensures
        text@ == seq![digit(d as nat)],
{
    proof {
        reveal_strlit("0");
        reveal_strlit("1");
        reveal_strlit("2");
        reveal_strlit("3");
        reveal_strlit("4");
        reveal_strlit("5");
        reveal_strlit("6");
        reveal_strlit("7");
        reveal_strlit("8");
        reveal_strlit("9");
    }
    let text = if d == 0 {
        "0"
    } else if d == 1 {
        "1"
    } else if d == 2 {
        "2"
    } else if d == 3 {
        "3"
    } else if d == 4 {
        "4"
    } else if d == 5 {
        "5"
    } else if d == 6 {
        "6"
    } else if d == 7 {
        "7"
    } else if d == 8 {
        "8"
    } else {
        "9"
    };
    assert(text@ =~= seq![digit(d as nat)]);
    text
}

/// Writes a number in decimal digits.
pub fn decimal_text(n: u64) -> (text: String)
    ensures
        text@ == decimal(n as nat),
    decreases n,
{
    if n < 10 {
        digit_text(n).to_owned()
    } else {
        let mut text = decimal_text(n / 10);
        text.append(digit_text(n % 10));
        assert(text@ =~= decimal(n as nat));
        text
    }
}

/// Counts the rows of the group, whatever they hold. The count stops at the
/// largest `u64`.
#[derive(Debug)]
pub struct Count {
    total: u64,
}

impl Count {
    /// A counter at zero.
    pub fn new() -> (count: Count)
        ensures
            count.model() == 0,
    {
        Count { total: 0 }
    }
}

impl Aggregate for Count {
    type Model = nat;

    closed spec fn model(&self) -> nat {
        self.total as nat
    }

    open spec fn initial(model: nat) -> nat {
        0
    }

    open spec fn reads(model: nat) -> Option<Seq<char>> {
        None
    }

    open spec fn step(model: nat, names: Seq<Seq<char>>, fields: Seq<Seq<char>>) -> Result<
        nat,
        AggregateFault,
    > {
        if model < u64::MAX {
            Ok(model + 1)
        } else {
            Ok(model)
        }
    }

    open spec fn render(model: nat) -> Seq<char> {
        decimal(model)
    }

    fn fresh(&self) -> (made: Count) {
        Count { total: 0 }
    }

    fn source(&self) -> (name: Option<String>) {
        None
    }

    fn update(&mut self, headers: &Headers, row: &Row) -> (done: Result<(), AggregateError>) {
        if self.total < u64::MAX {
            self.total = self.total + 1;
        }
        Ok(())
    }

    fn value(&self) -> (text: String) {
        decimal_text(self.total)
    }
}

} // verus!

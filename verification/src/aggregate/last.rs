use crate::aggregate::Aggregate;
use crate::error::AggregateError;
use crate::error::AggregateFault;
use crate::headers::Headers;
use crate::row::Row;
use vstd::prelude::*;

verus! {

/// Keeps the value of the last row of the group. Every column that a
/// reducing stage passes through is folded this way.
#[derive(Debug)]
pub struct Last {
    source: String,
    current: String,
}

/// The state of a [`Last`]: the column it reads and the text it holds.
pub struct LastModel {
    pub source: Seq<char>,
    pub current: Seq<char>,
}

impl Last {
    /// An accumulator over the named column, holding the empty text.
    pub fn new(source: &str) -> (last: Last)
        ensures
            last.model() == (LastModel { source: source@, current: Seq::empty() }),
    {
        Last { source: source.to_owned(), current: String::new() }
    }
}

impl Aggregate for Last {
    type Model = LastModel;

    closed spec fn model(&self) -> LastModel {
        LastModel { source: self.source@, current: self.current@ }
    }

    open spec fn initial(model: LastModel) -> LastModel {
        LastModel { source: model.source, current: Seq::empty() }
    }

    open spec fn reads(model: LastModel) -> Option<Seq<char>> {
        Some(model.source)
    }

    open spec fn step(model: LastModel, names: Seq<Seq<char>>, fields: Seq<Seq<char>>) -> Result<
        LastModel,
        AggregateFault,
    > {
        match crate::headers::field_of(names, fields, model.source) {
            Some(text) => Ok(LastModel { source: model.source, current: text }),
            None => Err(AggregateFault::MissingColumn(model.source)),
        }
    }

    open spec fn render(model: LastModel) -> Seq<char> {
        model.current
    }

    fn fresh(&self) -> (made: Last) {
        Last { source: self.source.clone(), current: String::new() }
    }

    fn source(&self) -> (name: Option<String>) {
        Some(self.source.clone())
    }

    fn update(&mut self, headers: &Headers, row: &Row) -> (done: Result<(), AggregateError>) {
        match crate::aggregate::source_field(headers, row, self.source.as_str()) {
            Ok(data) => {
                self.current = data.to_owned();
                Ok(())
            },
            Err(e) => Err(e),
        }
    }

    fn value(&self) -> (text: String) {
        self.current.clone()
    }
}

} // verus!

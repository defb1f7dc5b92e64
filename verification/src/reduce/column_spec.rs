use crate::aggregate::Aggregate;
use crate::reduce::aggregated_col::AggregatedCol;
use crate::text::colons;
use crate::text::lemma_colons;
use crate::text::part;
use crate::text::scan;
use vstd::prelude::*;
use vstd::string::*;

verus! {

/// The kinds of aggregate that a textual spec can name.
#[derive(Debug, Clone, Copy, PartialEq, Eq, Structural)]
pub enum AggregateKind {
    Sum,
    Avg,
    Min,
    Max,
    DefaultMin,
    DefaultMax,
    Last,
    Count,
}

/// Why a text is not the spec of an aggregated column.
#[derive(Debug)]
pub enum AggregatedColParseError {
    /// The text does not hold two parts, a column name and a kind.
    TooFewParts,
    /// The second part is not the name of a kind.
    UnknownAggregate(String),
    /// The kind needs the name of one source column, and the text does not
    /// give exactly one.
    MissingParameters,
}

/// An [`AggregatedColParseError`] with its text as a sequence of characters.
pub enum ParseFault {
    TooFewParts,
    UnknownAggregate(Seq<char>),
    MissingParameters,
}

impl View for AggregatedColParseError {
    type V = ParseFault;

    open spec fn view(&self) -> ParseFault {
        match *self {
            AggregatedColParseError::TooFewParts => ParseFault::TooFewParts,
            AggregatedColParseError::UnknownAggregate(name) => ParseFault::UnknownAggregate(name@),
            AggregatedColParseError::MissingParameters => ParseFault::MissingParameters,
        }
    }
}

/// The kind that a name stands for.
pub open spec fn kind_of(name: Seq<char>) -> Option<AggregateKind> {
    if name == "sum"@ {
        Some(AggregateKind::Sum)
    } else if name == "avg"@ {
        Some(AggregateKind::Avg)
    } else if name == "min"@ {
        Some(AggregateKind::Min)
    } else if name == "max"@ {
        Some(AggregateKind::Max)
    } else if name == "defaultmin"@ {
        Some(AggregateKind::DefaultMin)
    } else if name == "defaultmax"@ {
        Some(AggregateKind::DefaultMax)
    } else if name == "last"@ {
        Some(AggregateKind::Last)
    } else if name == "count"@ {
        Some(AggregateKind::Count)
    } else {
        None
    }
}

/// A spec taken apart, as contracts see it.
pub struct ColumnSpecView {
    pub colname: Seq<char>,
    pub kind: AggregateKind,
    pub source: Option<Seq<char>>,
}

/// What a text says as the spec of an aggregated column. The text is cut at
/// its colons into a column name, a kind and what follows. A count reads no
/// column, and what follows its kind is not looked at; every other kind is
/// followed by exactly one part, the name of its source column.
pub open spec fn parsed(text: Seq<char>) -> Result<ColumnSpecView, ParseFault> {
    let marks = colons(text);
    if marks.len() < 1 {
        Err(ParseFault::TooFewParts)
    } else {
        match kind_of(part(text, 1)) {
            None => Err(ParseFault::UnknownAggregate(part(text, 1))),
            Some(AggregateKind::Count) => Ok(
                ColumnSpecView { colname: part(text, 0), kind: AggregateKind::Count, source: None },
            ),
            Some(kind) => if marks.len() == 2 {
                Ok(ColumnSpecView { colname: part(text, 0), kind, source: Some(part(text, 2)) })
            } else {
                Err(ParseFault::MissingParameters)
            },
        }
    }
}

/// The kind that a name stands for.
fn kind_named(name: &str) -> (kind: Option<AggregateKind>)
    ensures
        kind == kind_of(name@),
{
    if *name == *"sum" {
        Some(AggregateKind::Sum)
    } else if *name == *"avg" {
        Some(AggregateKind::Avg)
    } else if *name == *"min" {
        Some(AggregateKind::Min)
    } else if *name == *"max" {
        Some(AggregateKind::Max)
    } else if *name == *"defaultmin" {
        Some(AggregateKind::DefaultMin)
    } else if *name == *"defaultmax" {
        Some(AggregateKind::DefaultMax)
    } else if *name == *"last" {
        Some(AggregateKind::Last)
    } else if *name == *"count" {
        Some(AggregateKind::Count)
    } else {
        None
    }
}

/// The spec of an aggregated column as a text gives it: the name of the
/// output column, the kind of aggregate and the name of the source column.
#[derive(Debug)]
pub struct ColumnSpec {
    colname: String,
    kind: AggregateKind,
    source: Option<String>,
}

impl View for ColumnSpec {
    type V = ColumnSpecView;

    closed spec fn view(&self) -> ColumnSpecView {
        ColumnSpecView {
            colname: self.colname@,
            kind: self.kind,
            source: match self.source {
                Some(name) => Some(name@),
                None => None,
            },
        }
    }
}

impl ColumnSpec {
    /// Reads a spec of the form `name:kind` or `name:kind:source`, where
    /// `kind` is one of `sum`, `avg`, `min`, `max`, `defaultmin`,
    /// `defaultmax`, `last` and `count`.
    pub fn from_str(def: &str) -> (spec: Result<ColumnSpec, AggregatedColParseError>)
        ensures
            match spec {
                Ok(s) => parsed(def@) == Ok::<ColumnSpecView, ParseFault>(s@),
                Err(e) => parsed(def@) == Err::<ColumnSpecView, ParseFault>(e@),
            },
    {
        let (marks, n) = scan(def);
        proof {
            lemma_colons(def@);
        }
        if marks.len() < 1 {
            return Err(AggregatedColParseError::TooFewParts);
        }
        let colname = def.substring_char(0, marks[0]);
        let kind_end = if marks.len() > 1 {
            marks[1]
        } else {
            n
        };
        let kind_name = def.substring_char(marks[0] + 1, kind_end);
        let kind = match kind_named(kind_name) {
            Some(kind) => kind,
            None => {
                return Err(AggregatedColParseError::UnknownAggregate(kind_name.to_owned()));
            },
        };
        match kind {
            AggregateKind::Count => Ok(ColumnSpec { colname: colname.to_owned(), kind, source: None }),
            _ => {
                if marks.len() != 2 {
                    return Err(AggregatedColParseError::MissingParameters);
                }
                let source = def.substring_char(marks[1] + 1, n);
                Ok(
                    ColumnSpec {
                        colname: colname.to_owned(),
                        kind,
                        source: Some(source.to_owned()),
                    },
                )
            },
        }
    }

    /// The name of the output column.
    pub fn colname(&self) -> (name: &str)
        ensures
            name@ == self@.colname,
    {
        self.colname.as_str()
    }

    /// The kind of aggregate.
    pub fn kind(&self) -> (kind: AggregateKind)
        ensures
            kind == self@.kind,
    {
        self.kind
    }

    /// The name of the source column, for every kind but a count.
    pub fn source(&self) -> (name: Option<&str>)
        ensures
            match name {
                Some(text) => self@.source == Some(text@),
                None => self@.source is None,
            },
    {
        match &self.source {
            Some(name) => Some(name.as_str()),
            None => None,
        }
    }

    /// The aggregated column that the spec names, over an accumulator of the
    /// caller's for its kind.
    pub fn bind<A: Aggregate>(&self, aggregate: A) -> (col: AggregatedCol<A>)
        ensures
            col.name() == self@.colname,
            col.template() == aggregate.model(),
    {
        AggregatedCol::new(self.colname.as_str(), aggregate)
    }
}

} // verus!

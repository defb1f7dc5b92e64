//! The textual spec of a column that is computed from others.
//!
//! A spec is cut at its colons. `regex:source:colname:coldef:regex` takes
//! the new value from a match of a regular expression in a source column;
//! `value:colname:coldef` mixes it from a template. Only the text is taken
//! apart here: whether the last part is a regular expression that compiles
//! is for the one who compiles it.
use crate::text::colons;
use crate::text::lemma_colons;
use crate::text::part;
use crate::text::scan;
use vstd::prelude::*;
use vstd::string::*;

verus! {

/// Why a text is not the spec of a computed column.
#[derive(Debug, Clone, Copy, PartialEq, Eq, Structural)]
pub enum ColSpecParseError {
    MissingSource,
    MissingColname,
    MissingColDef,
    MissingRegex,
    InvalidRegex,
    InvalidSpec,
}

/// The parts of a spec.
#[derive(Debug)]
pub enum ColSpecParts {
    /// A column built from a match of a regular expression in another.
    Regex { source: String, colname: String, coldef: String, regex: String },
    /// A column mixed from a template.
    Mix { colname: String, coldef: String },
}

/// [`ColSpecParts`] as contracts see them.
pub enum ColSpecPartsView {
    Regex { source: Seq<char>, colname: Seq<char>, coldef: Seq<char>, regex: Seq<char> },
    Mix { colname: Seq<char>, coldef: Seq<char> },
}

impl View for ColSpecParts {
    type V = ColSpecPartsView;

    open spec fn view(&self) -> ColSpecPartsView {
        match *self {
            ColSpecParts::Regex { source, colname, coldef, regex } => ColSpecPartsView::Regex {
                source: source@,
                colname: colname@,
                coldef: coldef@,
                regex: regex@,
            },
            ColSpecParts::Mix { colname, coldef } => ColSpecPartsView::Mix {
                colname: colname@,
                coldef: coldef@,
            },
        }
    }
}

/// What a text says as the spec of a computed column. Parts beyond those
/// that a kind of spec has are not looked at.
pub open spec fn parts_of(text: Seq<char>) -> Result<ColSpecPartsView, ColSpecParseError> {
    let marks = colons(text);
    if marks.len() >= 1 && part(text, 0) == "regex"@ {
        if marks.len() < 2 {
            Err(ColSpecParseError::MissingColname)
        } else if marks.len() < 3 {
            Err(ColSpecParseError::MissingColDef)
        } else if marks.len() < 4 {
            Err(ColSpecParseError::MissingRegex)
        } else {
            Ok(
                ColSpecPartsView::Regex {
                    source: part(text, 1),
                    colname: part(text, 2),
                    coldef: part(text, 3),
                    regex: part(text, 4),
                },
            )
        }
    } else if marks.len() >= 1 && part(text, 0) == "value"@ {
        if marks.len() < 2 {
            Err(ColSpecParseError::MissingColDef)
        } else {
            Ok(ColSpecPartsView::Mix { colname: part(text, 1), coldef: part(text, 2) })
        }
    } else {
        Err(ColSpecParseError::InvalidSpec)
    }
}

/// One part of a text that was scanned for its colons.
fn piece<'a>(text: &'a str, marks: &Vec<usize>, n: usize, k: usize) -> (cut: &'a str)
    requires
        n == text@.len(),
        marks@.len() == colons(text@).len(),
        forall|i: int| 0 <= i < marks@.len() ==> (#[trigger] marks@[i]) as int == colons(text@)[i],
        k <= marks@.len(),
    ensures
        cut@ == part(text@, k as int),
{
    proof {
        lemma_colons(text@);
    }
    let from = if k == 0 {
        0
    } else {
        marks[k - 1] + 1
    };
    let to = if k < marks.len() {
        marks[k]
    } else {
        n
    };
    text.substring_char(from, to)
}

impl ColSpecParts {
    /// Takes a spec apart.
    pub fn from_str(spec: &str) -> (parts: Result<ColSpecParts, ColSpecParseError>)
        ensures
            match parts {
                Ok(p) => parts_of(spec@) == Ok::<ColSpecPartsView, ColSpecParseError>(p@),
                Err(e) => parts_of(spec@) == Err::<ColSpecPartsView, ColSpecParseError>(e),
            },
    {
        let (marks, n) = scan(spec);
        if marks.len() < 1 {
            return Err(ColSpecParseError::InvalidSpec);
        }
        let kind = piece(spec, &marks, n, 0);
        if *kind == *"regex" {
            if marks.len() < 2 {
                return Err(ColSpecParseError::MissingColname);
            }
            if marks.len() < 3 {
                return Err(ColSpecParseError::MissingColDef);
            }
            if marks.len() < 4 {
                return Err(ColSpecParseError::MissingRegex);
            }
            Ok(
                ColSpecParts::Regex {
                    source: piece(spec, &marks, n, 1).to_owned(),
                    colname: piece(spec, &marks, n, 2).to_owned(),
                    coldef: piece(spec, &marks, n, 3).to_owned(),
                    regex: piece(spec, &marks, n, 4).to_owned(),
                },
            )
        } else if *kind == *"value" {
            if marks.len() < 2 {
                return Err(ColSpecParseError::MissingColDef);
            }
            Ok(
                ColSpecParts::Mix {
                    colname: piece(spec, &marks, n, 1).to_owned(),
                    coldef: piece(spec, &marks, n, 2).to_owned(),
                },
            )
        } else {
            Err(ColSpecParseError::InvalidSpec)
        }
    }
}

} // verus!

//! What is written where, when the rows of a stream are flushed to files.
//!
//! The decisions are made here: which destination a row goes to and which
//! of its fields are written. Opening files and writing records is left to
//! the caller.
use crate::error::Error;
use crate::headers::field_of;
use crate::headers::position;
use crate::headers::Headers;
use crate::row::Row;
use crate::row_stream::RowStream;
use vstd::prelude::*;
use vstd::string::*;

verus! {

/// Where the rows of a stream are written.
pub enum FlushTarget {
    /// Every row goes to the file that its field under this column names.
    Column(String),
    /// All rows go to this file.
    Path(std::path::PathBuf),
}

/// Where one row is written.
pub enum Destination<'a> {
    /// The file that the row itself names.
    Named(&'a str),
    /// The one file of the stage.
    Fixed(&'a std::path::PathBuf),
}

/// Whether a column is left out of what is written: its name begins with an
/// underscore.
pub open spec fn hidden(name: Seq<char>) -> bool {
    name.len() > 0 && name[0] == '_'
}

/// The first `n` fields, without those of the hidden columns.
pub open spec fn shown(names: Seq<Seq<char>>, fields: Seq<Seq<char>>, n: nat) -> Seq<Seq<char>>
    decreases n,
{
    if n == 0 {
        Seq::empty()
    } else {
        let before = shown(names, fields, (n - 1) as nat);
        if hidden(names[n - 1]) {
            before
        } else {
            before.push(fields[n - 1])
        }
    }
}

/// What is written of a row: its fields under the columns that are not
/// hidden. Fields beyond the last column are not written.
pub open spec fn written(names: Seq<Seq<char>>, fields: Seq<Seq<char>>) -> Seq<Seq<char>> {
    shown(
        names,
        fields,
        if names.len() <= fields.len() {
            names.len()
        } else {
            fields.len()
        },
    )
}

/// Whether a column is left out of what is written.
pub fn is_hidden(name: &str) -> (yes: bool)
    ensures
        yes == hidden(name@),
{
    name.unicode_len() > 0 && name.get_char(0) == '_'
}

/// The fields of a row that are written.
pub fn trim_underscores(headers: &Headers, row: &Row) -> (record: Row)
    ensures
        crate::row::fields(record) == written(headers@, crate::row::fields(*row)),
{
    let names = headers.as_row();
    let n = if names.len() <= row.len() {
        names.len()
    } else {
        row.len()
    };
    let mut record = Row::new();
    let mut i: usize = 0;
    while i < n
        invariant
            i <= n,
            n <= headers@.len(),
            n <= crate::row::fields(*row).len(),
            crate::row::fields(*names) == headers@,
            crate::row::fields(record) == shown(headers@, crate::row::fields(*row), i as nat),
        decreases n - i,
    {
        match (names.get(i), row.get(i)) {
            (Some(name), Some(field)) => {
                if !is_hidden(name) {
                    record.push_field(field);
                }
            },
            _ => {},
        }
        i += 1;
    }
    record
}

/// The column names that are written at the top of a file.
pub fn trim_header_underscores(headers: &Row) -> (record: Row)
    ensures
        crate::row::fields(record) == written(
            crate::row::fields(*headers),
            crate::row::fields(*headers),
        ),
{
    let mut record = Row::new();
    let mut i: usize = 0;
    while i < headers.len()
        invariant
            i <= crate::row::fields(*headers).len(),
            crate::row::fields(record) == shown(
                crate::row::fields(*headers),
                crate::row::fields(*headers),
                i as nat,
            ),
        decreases crate::row::fields(*headers).len() - i,
    {
        match headers.get(i) {
            Some(name) => {
                if !is_hidden(name) {
                    record.push_field(name);
                }
            },
            None => {},
        }
        i += 1;
    }
    record
}

/// A stream whose rows are to be written to files as they pass. The stage
/// hands out its input as it is; for every row it says where the row goes
/// and what is written of it.
pub struct Flush<I: RowStream> {
    iter: I,
    headers: Headers,
    target: FlushTarget,
}

impl<I: RowStream> Flush<I> {
    /// The input, as far as it has not been pulled.
    pub closed spec fn source(&self) -> I {
        self.iter
    }

    /// Where the rows go.
    pub closed spec fn target(&self) -> FlushTarget {
        self.target
    }

    /// What every value satisfies between calls.
    pub closed spec fn wf(&self) -> bool {
        self.iter.wf() && self.headers@ == self.iter.schema()
    }

    /// Builds the stage over an input and a target. A target column has to
    /// be a column of the input. Nothing is pulled from the input.
    pub fn new(iter: I, target: FlushTarget) -> (built: Result<Flush<I>, Error>)
        requires
            iter.wf(),
        ensures
            match built {
                Ok(flush) => flush.wf() && flush.source() == iter && flush.target() == target && (
                target matches FlushTarget::Column(name) ==> position(iter.schema(), name@)
                    is Some),
                Err(e) => target matches FlushTarget::Column(name) && position(
                    iter.schema(),
                    name@,
                ) is None && e@ == crate::error::Fault::ColumnNotFound(name@),
            },
    {
        let headers = iter.headers().clone();
        match target {
            FlushTarget::Column(name) => {
                if !headers.contains_key(name.as_str()) {
                    return Err(Error::ColumnNotFound(name));
                }
                Ok(Flush { iter, headers, target: FlushTarget::Column(name) })
            },
            FlushTarget::Path(path) => Ok(Flush { iter, headers, target: FlushTarget::Path(path) }),
        }
    }

    /// The schema of the rows, which is that of the input.
    pub fn headers(&self) -> (headers: &Headers)
        requires
            self.wf(),
        ensures
            headers@ == self.source().schema(),
    {
        &self.headers
    }

    /// The next element of the input.
    pub fn pull(&mut self) -> (item: Option<crate::error::RowResult>)
        requires
            old(self).wf(),
        ensures
            final(self).wf(),
            final(self).target() == old(self).target(),
            final(self).source().schema() == old(self).source().schema(),
            match item {
                Some(x) => old(self).source().remaining().len() > 0 && crate::error::item_view(x)
                    == old(self).source().remaining()[0] && final(self).source().remaining() == old(
                    self,
                ).source().remaining().skip(1),
                None => old(self).source().remaining().len() == 0
                    && final(self).source().remaining().len() == 0,
            },
    {
        self.iter.next()
    }

    /// Where a row is written: the file that its field under the target
    /// column names, or the one file of the stage. `None` where the row has
    /// no field under the target column.
    pub fn destination<'a>(&'a self, row: &'a Row) -> (to: Option<Destination<'a>>)
        requires
            self.wf(),
        ensures
            match self.target() {
                FlushTarget::Column(name) => match field_of(
                    self.source().schema(),
                    crate::row::fields(*row),
                    name@,
                ) {
                    Some(text) => to matches Some(Destination::Named(file)) && file@ == text,
                    None => to is None,
                },
                FlushTarget::Path(path) => to matches Some(Destination::Fixed(file)) && *file
                    == path,
            },
    {
        match &self.target {
            FlushTarget::Column(name) => match self.headers.get_field(row, name.as_str()) {
                Some(file) => Some(Destination::Named(file)),
                None => None,
            },
            FlushTarget::Path(path) => Some(Destination::Fixed(path)),
        }
    }

    /// What is written of a row.
    pub fn record(&self, row: &Row) -> (record: Row)
        requires
            self.wf(),
        ensures
            crate::row::fields(record) == written(
                self.source().schema(),
                crate::row::fields(*row),
            ),
    {
        trim_underscores(&self.headers, row)
    }

    /// What is written at the top of every file.
    pub fn header_record(&self) -> (record: Row)
        requires
            self.wf(),
        ensures
            crate::row::fields(record) == written(
                self.source().schema(),
                self.source().schema(),
            ),
    {
        trim_header_underscores(self.headers.as_row())
    }
}

} // verus!

//! The schema of a stream: column names, their positions, and the hash of a
//! row over chosen columns.
use crate::row::Row;
use std::collections::hash_map::DefaultHasher;
use std::hash::Hash;
use std::hash::Hasher;
use vstd::prelude::*;
use vstd::std_specs::cmp::PartialEqSpecImpl;
use vstd::std_specs::hash::*;

verus! {

/// The position of a name among the column names: the last position that
/// holds it, so with names that are all different, the one that holds it.
pub open spec fn position(names: Seq<Seq<char>>, name: Seq<char>) -> Option<int>
    decreases names.len(),
{
    if names.len() == 0 {
        None
    } else if names.last() == name {
        Some(names.len() - 1)
    } else {
        position(names.drop_last(), name)
    }
}

/// The field of a row under a column name, where the name is a column and
/// the row is long enough to have a field there.
pub open spec fn field_of(names: Seq<Seq<char>>, fields: Seq<Seq<char>>, name: Seq<char>) -> Option<
    Seq<char>,
> {
    match position(names, name) {
        Some(i) => if i < fields.len() {
            Some(fields[i])
        } else {
            None
        },
        None => None,
    }
}

/// The first of the given columns under which the row has no field.
pub open spec fn first_missing(
    names: Seq<Seq<char>>,
    fields: Seq<Seq<char>>,
    columns: Seq<Seq<char>>,
) -> Option<Seq<char>>
    decreases columns.len(),
{
    if columns.len() == 0 {
        None
    } else {
        match first_missing(names, fields, columns.drop_last()) {
            Some(name) => Some(name),
            None => if field_of(names, fields, columns.last()) is None {
                Some(columns.last())
            } else {
                None
            },
        }
    }
}

/// What a hasher has been fed once `str`'s `Hash` impl has written a text
/// into it, given what it had been fed before.
pub uninterp spec fn hashed_str(before: Seq<Seq<u8>>, text: Seq<char>) -> Seq<Seq<u8>>;

/// What a fresh hasher has been fed after the row's fields under the given
/// columns were hashed into it, in the order of the columns.
pub open spec fn hash_input(
    names: Seq<Seq<char>>,
    fields: Seq<Seq<char>>,
    columns: Seq<Seq<char>>,
) -> Seq<Seq<u8>>
    decreases columns.len(),
{
    if columns.len() == 0 {
        Seq::empty()
    } else {
        hashed_str(
            hash_input(names, fields, columns.drop_last()),
            field_of(names, fields, columns.last()).unwrap(),
        )
    }
}

/// The grouping key of a row over the given columns.
pub open spec fn key_of(
    names: Seq<Seq<char>>,
    fields: Seq<Seq<char>>,
    columns: Seq<Seq<char>>,
) -> u64 {
    DefaultHasher::spec_finish(hash_input(names, fields, columns))
}

/// `str`'s `Hash::hash` feeds a text to a hasher. What exactly it writes is
/// left to std; the contract only says that it depends on nothing but the
/// text and on what the hasher was fed before.
#[verifier::external_body]
fn hash_str(text: &str, state: &mut DefaultHasher)
    ensures
        final(state)@ == hashed_str(old(state)@, text@),
{
    text.hash(state)
}

/// `rand::random` draws a `u64`. Nothing is known of the value.
#[verifier::external_body]
fn random_key() -> (key: u64) {
    rand::random()
}

/// Once a column is missing among the first columns, it is the first missing
/// one of them all.
pub proof fn lemma_first_missing_stays(
    names: Seq<Seq<char>>,
    fields: Seq<Seq<char>>,
    columns: Seq<Seq<char>>,
    k: int,
)
    requires
        0 <= k <= columns.len(),
        first_missing(names, fields, columns.take(k)) is Some,
    ensures
        first_missing(names, fields, columns) == first_missing(names, fields, columns.take(k)),
    decreases columns.len() - k,
{
    if k < columns.len() {
        assert(columns.take(k + 1).drop_last() == columns.take(k));
        lemma_first_missing_stays(names, fields, columns, k + 1);
    } else {
        assert(columns.take(k) == columns);
    }
}

/// Keeps the names of the columns, in order, and finds a column by name.
#[derive(Debug)]
pub struct Headers {
    names: Row,
}

impl View for Headers {
    type V = Seq<Seq<char>>;

    /// The column names, in order.
    closed spec fn view(&self) -> Seq<Seq<char>> {
        crate::row::fields(self.names)
    }
}

impl Clone for Headers {
    fn clone(&self) -> (copy: Self)
        ensures
            copy@ == self@,
    {
        Headers { names: self.names.clone() }
    }
}

impl PartialEq for Headers {
    fn eq(&self, other: &Headers) -> (same: bool) {
        self.names == other.names
    }
}

impl PartialEqSpecImpl for Headers {
    open spec fn obeys_eq_spec() -> bool {
        true
    }

    /// Two schemas are equal when they name the same columns in the same
    /// order.
    open spec fn eq_spec(&self, other: &Headers) -> bool {
        self@ == other@
    }
}

impl Headers {
    /// Whether no name occurs twice.
    pub open spec fn unique(&self) -> bool {
        self@.no_duplicates()
    }

    /// Takes the fields of a row as the column names.
    pub fn from_row(row: Row) -> (headers: Headers)
        ensures
            headers@ == crate::row::fields(row),
    {
        Headers { names: row }
    }

    /// Whether two schemas name the same columns in the same order.
    pub fn same_as(&self, other: &Headers) -> (same: bool)
        ensures
            same == (self@ == other@),
    {
        self.names == other.names
    }

    /// The number of columns.
    pub fn len(&self) -> (n: usize)
        ensures
            n == self@.len(),
    {
        self.names.len()
    }

    /// The column names as a row.
    pub fn as_row(&self) -> (row: &Row)
        ensures
            crate::row::fields(*row) == self@,
    {
        &self.names
    }

    /// The position of a column, if there is one of that name.
    pub fn index(&self, field: &str) -> (at: Option<usize>)
        ensures
            match at {
                Some(i) => position(self@, field@) == Some(i as int),
                None => position(self@, field@) is None,
            },
    {
        let mut i: usize = self.names.len();
        proof {
            assert(self@.take(i as int) == self@);
        }
        while i > 0
            invariant
                i <= self@.len(),
                position(self@, field@) == position(self@.take(i as int), field@),
            decreases i,
        {
            i -= 1;
            proof {
                let shorter = self@.take(i + 1);
                assert(shorter.drop_last() == self@.take(i as int));
                assert(shorter.last() == self@[i as int]);
                assert(position(self@, field@) == position(shorter, field@));
            }
            match self.names.get(i) {
                Some(name) => {
                    if *name == *field {
                        return Some(i);
                    }
                },
                None => {},
            }
        }
        None
    }

    /// Whether there is a column of that name.
    pub fn contains_key(&self, field: &str) -> (found: bool)
        ensures
            found == (position(self@, field@) is Some),
    {
        self.index(field).is_some()
    }

    /// The field of a row under a column name. `None` where there is no such
    /// column, or where the row is too short to have a field there.
    pub fn get_field<'r>(&self, row: &'r Row, field: &str) -> (value: Option<&'r str>)
        ensures
            match value {
                Some(text) => field_of(self@, crate::row::fields(*row), field@) == Some(text@),
                None => field_of(self@, crate::row::fields(*row), field@) is None,
            },
    {
        match self.index(field) {
            Some(i) => row.get(i),
            None => None,
        }
    }

    /// Adds a column at the end. Fails, and changes nothing, where a column
    /// of that name is already there; so names that are all different stay
    /// all different.
    pub fn add(&mut self, colname: &str) -> (done: Result<(), ()>)
        ensures
            match done {
                Ok(_) => position(old(self)@, colname@) is None && final(self)@ == old(self)@.push(
                    colname@,
                ),
                Err(_) => position(old(self)@, colname@) is Some && final(self)@ == old(self)@,
            },
            old(self).unique() ==> final(self).unique(),
    {
        if self.contains_key(colname) {
            return Err(());
        }
        proof {
            lemma_position(self@, colname@);
        }
        self.names.push_field(colname);
        Ok(())
    }

    /// The grouping key of a row: a hash of its fields under the given
    /// columns, taken in the order of the columns. It depends on the text of
    /// those fields and on nothing else.
    ///
    /// Where the row has no field under one of the columns, the first such
    /// column is returned as the error. With no columns at all there is
    /// nothing to hash, and the key is a fresh random number on every call.
    pub fn hash(&self, row: &Row, columns: &[String]) -> (key: Result<u64, String>)
        ensures
            columns@.len() == 0 ==> key is Ok,
            columns@.len() > 0 ==> match key {
                Ok(k) => first_missing(self@, crate::row::fields(*row), columns.deep_view())
                    is None && k == key_of(self@, crate::row::fields(*row), columns.deep_view()),
                Err(name) => first_missing(self@, crate::row::fields(*row), columns.deep_view())
                    == Some(name@),
            },
    {
        if columns.len() == 0 {
            return Ok(random_key());
        }
        let ghost cols = columns.deep_view();
        let ghost cells = crate::row::fields(*row);
        let mut hasher = DefaultHasher::new();
        let mut i: usize = 0;
        while i < columns.len()
            invariant
                i <= columns@.len(),
                cols == columns.deep_view(),
                cols.len() == columns@.len(),
                cells == crate::row::fields(*row),
                first_missing(self@, cells, cols.take(i as int)) is None,
                hasher@ == hash_input(self@, cells, cols.take(i as int)),
            decreases columns@.len() - i,
        {
            proof {
                assert(cols.take(i + 1).drop_last() == cols.take(i as int));
                assert(cols.take(i + 1).last() == columns@[i as int]@);
            }
            match self.get_field(row, columns[i].as_str()) {
                Some(field) => {
                    hash_str(field, &mut hasher);
                },
                None => {
                    proof {
                        lemma_first_missing_stays(self@, cells, cols, i + 1);
                    }
                    return Err(columns[i].clone());
                },
            }
            i += 1;
        }
        proof {
            assert(cols.take(i as int) == cols);
        }
        Ok(hasher.finish())
    }
}

/// For a row with as many fields as there are columns, a field is found
/// under a name exactly when the name is one of the columns.
pub proof fn lemma_field_defined(headers: Headers, row: Row, name: Seq<char>)
    requires
        headers@.len() == crate::row::fields(row).len(),
    ensures
        field_of(headers@, crate::row::fields(row), name) is Some <==> headers@.contains(name),
{
    lemma_position(headers@, name);
}

/// A name has a position exactly when it is among the names, and the
/// position holds it.
pub proof fn lemma_position(names: Seq<Seq<char>>, name: Seq<char>)
    ensures
        position(names, name) is Some <==> names.contains(name),
        position(names, name) matches Some(i) ==> 0 <= i < names.len() && names[i] == name
            && forall|j: int| i < j < names.len() ==> names[j] != name,
    decreases names.len(),
{
    if names.len() > 0 {
        lemma_position(names.drop_last(), name);
        let shorter = names.drop_last();
        if names.last() != name {
            if names.contains(name) {
                let j = choose|j: int| 0 <= j < names.len() && names[j] == name;
                assert(shorter[j] == name);
            }
            if shorter.contains(name) {
                let j = choose|j: int| 0 <= j < shorter.len() && shorter[j] == name;
                assert(names[j] == name);
            }
            if let Some(i) = position(shorter, name) {
                assert(names[i] == shorter[i]);
                assert forall|j: int| i < j < names.len() implies names[j] != name by {
                    if j < shorter.len() {
                        assert(names[j] == shorter[j]);
                    }
                }
            }
        } else {
            assert(names[names.len() - 1] == name);
        }
    }
}

} // verus!

//! The record type that flows through every stage.
//!
//! A row is a `csv::StringRecord`. Verus cannot look inside one, so this
//! module declares the type, names the sequence of fields that a record holds
//! and states, for each method the library calls, what it does to that
//! sequence.
use vstd::prelude::*;

verus! {

/// One record: an ordered sequence of text fields.
pub type Row = csv::StringRecord;

/// `csv::StringRecord`, of which contracts speak through [`fields`] alone.
#[verifier::external_type_specification]
#[verifier::external_body]
pub struct ExStringRecord(csv::StringRecord);

/// The fields that a record holds, in order, each as its text.
pub uninterp spec fn fields(row: csv::StringRecord) -> Seq<Seq<char>>;

/// `StringRecord::new` gives a record without fields.
pub assume_specification[ csv::StringRecord::new ]() -> (row: csv::StringRecord)
    ensures
        fields(row) == Seq::<Seq<char>>::empty(),
;

/// `StringRecord::len` counts the fields.
pub assume_specification[ csv::StringRecord::len ](row: &csv::StringRecord) -> (n: usize)
    ensures
        n == fields(*row).len(),
;

/// `StringRecord::get` hands out the field at a position, and `None` from
/// the number of fields on.
pub assume_specification<'a>[ csv::StringRecord::get ](
    row: &'a csv::StringRecord,
    i: usize,
) -> (field: Option<&'a str>)
    ensures
        i < fields(*row).len() ==> field is Some && field->0@ == fields(*row)[i as int],
        i >= fields(*row).len() ==> field is None,
;

/// `StringRecord::push_field` appends one field and leaves the others alone.
pub assume_specification[ csv::StringRecord::push_field ](
    row: &mut csv::StringRecord,
    field: &str,
)
    ensures
        fields(*final(row)) == fields(*old(row)).push(field@),
;

/// A clone of a record holds the same fields.
pub assume_specification[ <csv::StringRecord as Clone>::clone ](row: &csv::StringRecord) -> (copy:
    csv::StringRecord)
    ensures
        fields(copy) == fields(*row),
;

/// Two records are equal exactly when they hold the same fields; where a
/// record was read from plays no part.
pub assume_specification[ <csv::StringRecord as PartialEq>::eq ](
    a: &csv::StringRecord,
    b: &csv::StringRecord,
) -> (same: bool)
    ensures
        same == (fields(*a) == fields(*b)),
;

/// The fields of each of a sequence of rows.
pub open spec fn rows_view(rows: Seq<Row>) -> Seq<Seq<Seq<char>>> {
    rows.map_values(|row: Row| fields(row))
}

/// The texts of a sequence of strings.
pub open spec fn texts(names: Seq<String>) -> Seq<Seq<char>> {
    names.map_values(|s: String| s@)
}

/// Builds a record from owned strings, one field each.
pub fn row_of(values: &Vec<String>) -> (row: Row)
    ensures
        fields(row) == texts(values@),
{
    let mut row = Row::new();
    let mut i: usize = 0;
    while i < values.len()
        invariant
            i <= values.len(),
            fields(row) == texts(values@).take(i as int),
        decreases values.len() - i,
    {
        row.push_field(values[i].as_str());
        proof {
            assert(texts(values@).take(i + 1) == texts(values@).take(i as int).push(
                values@[i as int]@,
            ));
        }
        i += 1;
    }
    proof {
        assert(texts(values@).take(values.len() as int) == texts(values@));
    }
    row
}

} // verus!

//! How a stage decides which rows belong together.
//!
//! Two rows belong to one group when their grouping keys are equal. The key
//! of a row is the hash of its fields under the grouping columns, so rows
//! that differ there and still hash alike are taken for one group. With no
//! grouping columns there is no key, and every row is a group of its own.
use crate::error::Error;
use crate::error::Fault;
use crate::error::Item;
use crate::error::RowResult;
use crate::headers::first_missing;
use crate::headers::key_of;
use crate::headers::position;
use crate::headers::Headers;
use crate::row::Row;
use vstd::prelude::*;

verus! {

/// The texts of a sequence of string slices.
pub open spec fn strs(names: Seq<&str>) -> Seq<Seq<char>> {
    names.map_values(|s: &str| s@)
}

/// The first of the wanted names that is not a column.
pub open spec fn first_absent(names: Seq<Seq<char>>, wanted: Seq<Seq<char>>) -> Option<Seq<char>>
    decreases wanted.len(),
{
    if wanted.len() == 0 {
        None
    } else {
        match first_absent(names, wanted.drop_last()) {
            Some(name) => Some(name),
            None => if position(names, wanted.last()) is None {
                Some(wanted.last())
            } else {
                None
            },
        }
    }
}

/// Once a name is absent among the first wanted ones, it is the first absent
/// one of them all.
pub proof fn lemma_first_absent_stays(names: Seq<Seq<char>>, wanted: Seq<Seq<char>>, k: int)
    requires
        0 <= k <= wanted.len(),
        first_absent(names, wanted.take(k)) is Some,
    ensures
        first_absent(names, wanted) == first_absent(names, wanted.take(k)),
    decreases wanted.len() - k,
{
    if k < wanted.len() {
        assert(wanted.take(k + 1).drop_last() == wanted.take(k));
        lemma_first_absent_stays(names, wanted, k + 1);
    } else {
        assert(wanted.take(k) == wanted);
    }
}

/// Copies the wanted column names, provided that each is a column of the
/// schema. The error is the first that is not.
pub fn known_columns(headers: &Headers, wanted: &[&str]) -> (known: Result<Vec<String>, String>)
    ensures
        match known {
            Ok(names) => first_absent(headers@, strs(wanted@)) is None && names.deep_view() == strs(
                wanted@,
            ),
            Err(name) => first_absent(headers@, strs(wanted@)) == Some(name@),
        },
{
    let ghost all = strs(wanted@);
    let mut names: Vec<String> = Vec::new();
    let mut i: usize = 0;
    while i < wanted.len()
        invariant
            i <= wanted@.len(),
            all == strs(wanted@),
            first_absent(headers@, all.take(i as int)) is None,
            names.deep_view() == all.take(i as int),
        decreases wanted@.len() - i,
    {
        proof {
            assert(all.take(i + 1).drop_last() == all.take(i as int));
            assert(all.take(i + 1).last() == wanted@[i as int]@);
        }
        if !headers.contains_key(wanted[i]) {
            proof {
                lemma_first_absent_stays(headers@, all, i + 1);
            }
            return Err(wanted[i].to_owned());
        }
        let ghost before = names.deep_view();
        names.push(wanted[i].to_owned());
        proof {
            assert(names.deep_view() == before.push(wanted@[i as int]@));
            assert(all.take(i + 1) == all.take(i as int).push(all[i as int]));
        }
        i += 1;
    }
    proof {
        assert(all.take(i as int) == all);
    }
    Ok(names)
}

/// What decides the group of a row, as contracts see it.
pub struct Rule {
    /// The column names of the rows.
    pub names: Seq<Seq<char>>,
    /// The columns whose fields make the key.
    pub group_by: Seq<Seq<char>>,
    /// Further columns that every row of a group must have a field under.
    pub required: Seq<Seq<char>>,
}

/// The key of a row under a rule: `None` where there are no grouping
/// columns. The error is the first column, of the grouping columns and then
/// of the required ones, under which the row has no field.
pub open spec fn row_key(rule: Rule, fields: Seq<Seq<char>>) -> Result<Option<u64>, Seq<char>> {
    match first_missing(rule.names, fields, rule.group_by) {
        Some(name) => Err(name),
        None => match first_missing(rule.names, fields, rule.required) {
            Some(name) => Err(name),
            None => Ok(
                if rule.group_by.len() == 0 {
                    None
                } else {
                    Some(key_of(rule.names, fields, rule.group_by))
                },
            ),
        },
    }
}

/// An element of the input as grouping sees it: a row with its key, or an
/// error. A row that lacks one of the columns it needs counts as an error
/// that names the column.
pub open spec fn keyed(rule: Rule, item: Item) -> Result<(Option<u64>, Seq<Seq<char>>), Fault> {
    match item {
        Ok(fields) => match row_key(rule, fields) {
            Ok(key) => Ok((key, fields)),
            Err(name) => Err(Fault::HashError(name)),
        },
        Err(fault) => Err(fault),
    }
}

/// Whether an element is a row that belongs to the group of the given key.
/// Nothing belongs to the group of a row without a key but that row.
pub open spec fn joins(rule: Rule, key: Option<u64>, item: Item) -> bool {
    key is Some && keyed(rule, item) is Ok && keyed(rule, item)->Ok_0.0 == key
}

/// The schema of the rows, the grouping columns, and the columns that a row
/// must have besides.
pub struct Grouping {
    headers: Headers,
    group_by: Vec<String>,
    required: Vec<String>,
}

impl View for Grouping {
    type V = Rule;

    closed spec fn view(&self) -> Rule {
        Rule {
            names: self.headers@,
            group_by: self.group_by.deep_view(),
            required: self.required.deep_view(),
        }
    }
}

impl Grouping {
    /// A rule over the given schema. The columns are not checked against the
    /// schema here.
    pub fn new(headers: Headers, group_by: Vec<String>, required: Vec<String>) -> (grouping:
        Grouping)
        ensures
            grouping@ == (Rule {
                names: headers@,
                group_by: group_by.deep_view(),
                required: required.deep_view(),
            }),
    {
        Grouping { headers, group_by, required }
    }

    /// The schema of the rows.
    pub fn headers(&self) -> (headers: &Headers)
        ensures
            headers@ == self@.names,
    {
        &self.headers
    }

    /// The key of a row, or the column that the row lacks.
    pub fn key(&self, row: &Row) -> (key: Result<Option<u64>, String>)
        ensures
            match key {
                Ok(k) => row_key(self@, crate::row::fields(*row)) == Ok::<
                    Option<u64>,
                    Seq<char>,
                >(k),
                Err(name) => row_key(self@, crate::row::fields(*row)) == Err::<
                    Option<u64>,
                    Seq<char>,
                >(name@),
            },
    {
        let ghost cells = crate::row::fields(*row);
        let ghost needed = self.required.deep_view();
        let hash = if self.group_by.len() == 0 {
            None
        } else {
            let columns = self.group_by.as_slice();
            proof {
                assert(columns.deep_view() == self.group_by.deep_view());
            }
            match self.headers.hash(row, columns) {
                Ok(hash) => Some(hash),
                Err(name) => {
                    return Err(name);
                },
            }
        };
        let mut i: usize = 0;
        while i < self.required.len()
            invariant
                i <= self.required@.len(),
                cells == crate::row::fields(*row),
                needed == self.required.deep_view(),
                first_missing(self.headers@, cells, self.group_by.deep_view()) is None,
                hash == (if self.group_by@.len() == 0 {
                    None
                } else {
                    Some(key_of(self.headers@, cells, self.group_by.deep_view()))
                }),
                first_missing(self.headers@, cells, needed.take(i as int)) is None,
            decreases self.required@.len() - i,
        {
            proof {
                assert(needed.take(i + 1).drop_last() == needed.take(i as int));
                assert(needed.take(i + 1).last() == self.required@[i as int]@);
            }
            if self.headers.get_field(row, self.required[i].as_str()).is_none() {
                proof {
                    crate::headers::lemma_first_missing_stays(self.headers@, cells, needed, i + 1);
                }
                return Err(self.required[i].clone());
            }
            i += 1;
        }
        proof {
            assert(needed.take(i as int) == needed);
        }
        Ok(hash)
    }

    /// Sorts an element of the input: a row comes back with its key, an
    /// error as it is, and a row that lacks a column as the error that names
    /// the column.
    pub fn sort_out(&self, item: RowResult) -> (sorted: Result<(Option<u64>, Row), Error>)
        ensures
            match sorted {
                Ok((key, row)) => keyed(self@, crate::error::item_view(item)) == Ok::<
                    (Option<u64>, Seq<Seq<char>>),
                    Fault,
                >((key, crate::row::fields(row))),
                Err(e) => keyed(self@, crate::error::item_view(item)) == Err::<
                    (Option<u64>, Seq<Seq<char>>),
                    Fault,
                >(e@),
            },
    {
        match item {
            Ok(row) => match self.key(&row) {
                Ok(key) => Ok((key, row)),
                Err(name) => Err(Error::HashError(name)),
            },
            Err(e) => Err(e),
        }
    }
}

} // verus!

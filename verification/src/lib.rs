//! Building blocks for processors of CSV-shaped data: streams of rows that
//! are grouped by key and folded into summary rows.
use vstd::prelude::*;

pub mod add_with;
pub mod adjacent_group;
pub mod adjacent_reduce;
pub mod adjacent_sort;
pub mod aggregate;
pub mod apply;
pub mod chain;
pub mod colspec;
pub mod del;
pub mod each;
pub mod error;
pub mod flush;
pub mod group;
pub mod grouping;
pub mod headers;
pub mod inspect;
pub mod laws;
pub mod mock;
pub mod partition;
pub mod reduce;
pub mod rename;
pub mod row;
pub mod row_stream;
pub mod stage;
pub mod text;

pub use add_with::AddWith;
pub use adjacent_group::AdjacentGroup;
pub use adjacent_reduce::AdjacentReduce;
pub use adjacent_sort::AdjacentSort;
pub use chain::Chain;
pub use del::Del;
pub use error::{Error, GroupBuildError, RowResult};
pub use flush::{Flush, FlushTarget};
pub use group::Group;
pub use headers::Headers;
pub use inspect::Inspect;
pub use mock::MockStream;
pub use reduce::Reduce;
pub use rename::Rename;
pub use row::Row;
pub use row_stream::RowStream;

verus! {

/// The name of the column that holds, for every record read from a file, the
/// path of that file.
pub const SOURCE_FIELD: &'static str = "_source";

} // verus!

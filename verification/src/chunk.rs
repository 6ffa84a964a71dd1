//! The size of a bulk insert.

use vstd::prelude::*;

verus! {

/// The most bound parameters that one insert statement may carry.
pub const MAX_PARAMETERS: usize = 65535;

/// The number of rows of a table with `columns` columns that fit in one insert
/// statement: each row binds one parameter per column.
pub fn chunk_size(columns: usize) -> (size: usize)
    requires
        0 < columns <= MAX_PARAMETERS,
    ensures
        size == MAX_PARAMETERS as int / columns as int,
        size >= 1,
{
    assert(65535int / (columns as int) >= 1) by (nonlinear_arith)
        requires
            0 < columns <= 65535,
    ;
    MAX_PARAMETERS / columns
}

} // verus!

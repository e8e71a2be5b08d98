//! Rows of a matrix, counted from 1.

use vstd::prelude::*;

verus! {

/// The position in storage of row `line` of a matrix of `size` rows, rows
/// being counted from 1; `None` when the matrix has no such row.
pub fn row_position(line: usize, size: usize) -> (r: Option<usize>)
    ensures
        r == (if 1 <= line <= size {
            Some((line - 1) as usize)
        } else {
            None::<usize>
        }),
{
    if 1 <= line && line <= size {
        Some(line - 1)
    } else {
        None
    }
}

} // verus!

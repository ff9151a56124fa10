//! The layout in which a volume is shown.

use vstd::prelude::*;
use crate::placement::{Universe, cell_index};

verus! {

/// The row shown at position `k` (0..9): slices go from z = 2 down to z = 0,
/// rows within a slice from y = 2 down to y = 0, and a row lists x = 0, 1, 2.
pub open spec fn row_spec(u: Universe, k: int) -> (i32, i32, i32) {
    let z = 2 - k / 3;
    let y = 2 - k % 3;
    (
        u.cells@[cell_index((0, y, z))],
        u.cells@[cell_index((1, y, z))],
        u.cells@[cell_index((2, y, z))],
    )
}

/// The nine rows of a volume in display order; a blank line follows every
/// third row.
pub fn universe_rows(universe: &Universe) -> (rows: Vec<(i32, i32, i32)>)
    ensures
        rows@.len() == 9,
        forall|k: int| 0 <= k < 9 ==> rows@[k] == row_spec(*universe, k),
{
    let mut rows: Vec<(i32, i32, i32)> = Vec::new();
    let mut k: usize = 0;
    while k < 9
        invariant
            k <= 9,
            rows@.len() == k,
            forall|j: int| 0 <= j < k ==> rows@[j] == row_spec(*universe, j),
        decreases 9 - k,
    {
        let z = 2 - k / 3;
        let y = 2 - k % 3;
        rows.push((universe.get(0, y, z), universe.get(1, y, z), universe.get(2, y, z)));
        k = k + 1;
    }
    rows
}

} // verus!

//! The decisions of the word store's schema upkeep.

use vstd::prelude::*;

verus! {

/// Whether the `words` table, with the given column names, already has the
/// `last_quality` column; without it the store adds the column.
pub fn has_last_quality_column(columns: &Vec<String>) -> (b: bool)
    ensures
        b == exists|k: int| 0 <= k < columns@.len() && #[trigger] columns@[k]@ == "last_quality"@,
{
    let wanted = String::from_str("last_quality");
    let mut i: usize = 0;
    while i < columns.len()
        invariant
            i <= columns@.len(),
            wanted@ == "last_quality"@,
            forall|k: int| 0 <= k < i ==> #[trigger] columns@[k]@ != "last_quality"@,
        decreases columns@.len() - i,
    {
        if columns[i] == wanted {
            return true;
        }
        i = i + 1;
    }
    false
}

} // verus!

//! A position table seen as a sequence of mathematical integers.

use vstd::prelude::*;

verus! {

/// The positions of a table as mathematical integers.
pub open spec fn positions(table: Seq<u32>) -> Seq<int> {
    Seq::new(table.len(), |i: int| table[i] as int)
}

/// The largest number of positions that a table can hold: its buffer has at
/// most `isize::MAX` bytes, four for each position.
pub open spec fn max_table_len() -> int {
    isize::MAX / 4
}

/// The largest number of positions that a table can hold.
pub fn table_len_limit() -> (limit: usize)
    ensures
        limit == max_table_len(),
{
    isize::MAX as usize / 4
}

/// Two tables with the same positions are the same table: a builder whose
/// result is fixed through `positions` returns one table for one input.
pub proof fn lemma_positions_fix_table(a: Seq<u32>, b: Seq<u32>)
    requires
        positions(a) == positions(b),
    ensures
        a == b,
{
    assert(a.len() == positions(a).len());
    assert(b.len() == positions(b).len());
    assert forall|i: int| 0 <= i < a.len() implies a[i] == b[i] by {
        assert(positions(a)[i] == a[i] as int);
        assert(positions(b)[i] == b[i] as int);
    }
    assert(a =~= b);
}

/// Appending to a table appends to its positions.
pub proof fn lemma_positions_push(table: Seq<u32>, value: u32)
    ensures
        positions(table.push(value)) == positions(table).push(value as int),
{
    assert(positions(table.push(value)) =~= positions(table).push(value as int));
}

} // verus!

use vstd::prelude::*;

verus! {

/// `size` rounded up to the next multiple of eight.
pub fn padded_size(size: usize) -> (r: usize)
    requires
        size + 7 <= usize::MAX,
    ensures
        r % 8 == 0,
        size <= r < size + 8,
        r == ((size + 7) / 8) * 8,
{
    ((size + 7) / 8) * 8
}

} // verus!

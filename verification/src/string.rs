//! Filling memory with a byte.

use vstd::prelude::*;

verus! {

/// The byte that `memset` stores for the value `c`: its low eight bits.
pub open spec fn fill_byte(c: i32) -> u8 {
    (c & 0xff) as u8
}

/// Sets the first `n` bytes of `dst` to the low eight bits of `c` and leaves
/// the others as they are.
pub fn memset(dst: &mut Vec<u8>, c: i32, n: usize)
    requires
        n <= old(dst)@.len(),
    ensures
        final(dst)@.len() == old(dst)@.len(),
        forall|i: int| 0 <= i < n ==> final(dst)@[i] == fill_byte(c),
        forall|i: int| n <= i < old(dst)@.len() ==> final(dst)@[i] == old(dst)@[i],
{
    proof {
        assert(0 <= c & 0xff < 256) by (bit_vector);
    }
    let byte = (c & 0xff) as u8;
    let mut i: usize = 0;
    while i < n
        invariant
            i <= n <= dst@.len(),
            dst@.len() == old(dst)@.len(),
            byte == fill_byte(c),
            forall|j: int| 0 <= j < i ==> dst@[j] == byte,
            forall|j: int| i <= j < dst@.len() ==> dst@[j] == old(dst)@[j],
        decreases n - i,
    {
        dst.set(i, byte);
        i += 1;
    }
}

} // verus!

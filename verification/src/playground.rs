//! A small arithmetic routine.
use vstd::prelude::*;

verus! {

/// `a + b` on 32-bit words, wrapping.
pub fn add(a: i32, b: i32) -> (r: i32)
    ensures
        r == vstd::wrapping::i32_specs::wrapping_add(a, b),
{
    a.wrapping_add(b)
}

} // verus!

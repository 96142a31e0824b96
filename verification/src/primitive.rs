//! Bulk fill primitives for pixel buffers.
//!
//! A full-screen clear or the exposed region of a scroll is filled through
//! these functions; they are the safe counterpart of a word-sized memory
//! fill and the only place the driver writes long uniform runs.

use vstd::prelude::*;

verus! {

/// A new buffer of `len` cells, every cell holding `value`.
pub fn filled(len: usize, value: u32) -> (v: Vec<u32>)
    ensures
        v@.len() == len,
        forall|i: int| 0 <= i < len ==> v@[i] == value,
{
    let mut v: Vec<u32> = Vec::with_capacity(len);
    let mut i: usize = 0;
    while i < len
        invariant
            i <= len,
            v@.len() == i,
            forall|j: int| 0 <= j < i ==> v@[j] == value,
        decreases len - i,
    {
        v.push(value);
        i = i + 1;
    }
    v
}

/// Write `value` to every cell of `v` in `[start, end)`; the rest is untouched.
pub fn fill_range(v: &mut Vec<u32>, start: usize, end: usize, value: u32)
    requires
        start <= end,
        end <= old(v)@.len(),
    ensures
        final(v)@.len() == old(v)@.len(),
        forall|i: int| 0 <= i < old(v)@.len() ==> final(v)@[i] == if start <= i < end {
            value
        } else {
            old(v)@[i]
        },
{
    let mut i: usize = start;
    while i < end
        invariant
            start <= i <= end,
            end <= v@.len(),
            v@.len() == old(v)@.len(),
            forall|j: int| 0 <= j < v@.len() ==> v@[j] == if start <= j < i {
                value
            } else {
                old(v)@[j]
            },
        decreases end - i,
    {
        v[i] = value;
        i = i + 1;
    }
}

} // verus!

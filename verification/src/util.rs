//! Small helpers over bytes: bit tests and little-endian 32-bit reads.

use vstd::prelude::*;
use vstd::bytes::{spec_u32_from_le_bytes, u32_from_le_bytes};
use vstd::slice::slice_subrange;

use crate::errors::Errors;

verus! {

/// Whether bit `n` of `byte` is set. Bits at position 8 and above do not
/// exist in a byte and count as unset.
pub open spec fn spec_bit_at(byte: u8, n: u8) -> bool {
    n < 8 && (byte >> n) & 1 == 1
}

/// Tests if a bit is set in a byte.
pub fn bit_at(byte: u8, n: u8) -> (r: bool)
    ensures
        r == spec_bit_at(byte, n),
{
    if n < 8 {
        let shifted = byte >> n;
        (shifted & 1) == 1
    } else {
        false
    }
}

/// The little-endian unsigned 32-bit value held in the first 4 bytes of `bytes`;
/// any bytes past the first 4 are ignored.
pub open spec fn spec_read_u32(bytes: Seq<u8>) -> u32
    recommends
        bytes.len() >= 4,
{
    spec_u32_from_le_bytes(bytes.take(4))
}

/// Reads a little-endian unsigned 32-bit value from the first 4 bytes;
/// fewer than 4 bytes is a `ParseError`.
pub fn read_u32(bytes: &Vec<u8>) -> (r: Result<u32, Errors>)
    ensures
        bytes@.len() >= 4 ==> r == Ok::<u32, Errors>(spec_read_u32(bytes@)),
        bytes@.len() < 4 ==> r == Err::<u32, Errors>(Errors::ParseError),
{
    if bytes.len() < 4 {
        return Err(Errors::ParseError);
    }
    let first = slice_subrange(bytes.as_slice(), 0, 4);
    let v = u32_from_le_bytes(first);
    assert(first@ =~= bytes@.take(4));
    Ok(v)
}

/// Decodes every complete 4-byte group of `bytes` as a little-endian
/// unsigned 32-bit value; a trailing incomplete group is ignored.
pub fn to_vec_u32(bytes: Vec<u8>) -> (r: Vec<u32>)
    ensures
        r@.len() == bytes@.len() / 4,
        forall|i: int|
            0 <= i < r@.len() ==> r@[i] == spec_read_u32(bytes@.skip(4 * i)),
{
    let mut nums: Vec<u32> = Vec::new();
    let mut index: usize = 0;
    while bytes.len() - index >= 4
        invariant
            index % 4 == 0,
            index <= bytes@.len(),
            index + 4 > bytes@.len() ==> index as int == 4 * (bytes@.len() / 4),
            nums@.len() == index / 4,
            forall|i: int|
                0 <= i < nums@.len() ==> nums@[i] == spec_read_u32(bytes@.skip(4 * i)),
        decreases bytes@.len() - index,
    {
        let group = slice_subrange(bytes.as_slice(), index, index + 4);
        assert(group@ =~= bytes@.skip(index as int).take(4));
        let v = u32_from_le_bytes(group);
        nums.push(v);
        index = index + 4;
    }
    nums
}

} // verus!

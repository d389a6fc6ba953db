//! Packing of byte quadruples into 32-bit words, and the byte expansions
//! used when a framebuffer is handed to a display or an image encoder.

use vstd::prelude::*;

verus! {

/// The packed 32-bit word for a byte quadruple: the first component lands in
/// bits 31..24, the last in bits 7..0.
pub open spec fn spec_tup8_to_32(input: (u8, u8, u8, u8)) -> u32 {
    ((input.0 as u32) << 24) | ((input.1 as u32) << 16) | ((input.2 as u32) << 8) | (input.3
        as u32)
}

/// Get 1D position from 2D coordinates.
/// Useful for setting/getting point in buffer.
#[inline]
pub fn xy(x: usize, y: usize, width: usize) -> (r: usize)
    requires
        x + y * width <= usize::MAX,
    ensures
        r == x + y * width,
{
    x + y * width
}

/// Convert tuple of 8bit integers to one 32bit.
/// Useful for packing colors in arrays.
#[inline]
pub fn tup8_to_32(input: (u8, u8, u8, u8)) -> (r: u32)
    ensures
        r == spec_tup8_to_32(input),
{
    ((input.0 as u32) << 24) | ((input.1 as u32) << 16) | ((input.2 as u32) << 8) | (input.3
        as u32)
}

/// Packing four bytes into a word and reading the four bytes of that word
/// give the bytes back unchanged.
pub proof fn lemma_tup8_to_32_roundtrip(input: (u8, u8, u8, u8))
    ensures
        ((spec_tup8_to_32(input) >> 24) & 0xff) as u8 == input.0,
        ((spec_tup8_to_32(input) >> 16) & 0xff) as u8 == input.1,
        ((spec_tup8_to_32(input) >> 8) & 0xff) as u8 == input.2,
        (spec_tup8_to_32(input) & 0xff) as u8 == input.3,
{
    let t0 = input.0;
    let t1 = input.1;
    let t2 = input.2;
    let t3 = input.3;
    let v = spec_tup8_to_32(input);
    assert(((((t0 as u32) << 24) | ((t1 as u32) << 16) | ((t2 as u32) << 8) | (t3 as u32)) >> 24)
        & 0xff == t0 as u32) by (bit_vector);
    assert(((((t0 as u32) << 24) | ((t1 as u32) << 16) | ((t2 as u32) << 8) | (t3 as u32)) >> 16)
        & 0xff == t1 as u32) by (bit_vector);
    assert(((((t0 as u32) << 24) | ((t1 as u32) << 16) | ((t2 as u32) << 8) | (t3 as u32)) >> 8)
        & 0xff == t2 as u32) by (bit_vector);
    assert(((((t0 as u32) << 24) | ((t1 as u32) << 16) | ((t2 as u32) << 8) | (t3 as u32)) & 0xff)
        == t3 as u32) by (bit_vector);
}

/// Convert array of 32 bit unsigned integers to 8 bit one.
/// Every 32-bit word becomes its four bytes, least significant first.
pub fn arr32_to_8(input: &Vec<u32>) -> (result: Vec<u8>)
    requires
        4 * input.len() <= usize::MAX,
    ensures
        result.len() == 4 * input.len(),
        forall|k: int|
            0 <= k < input.len() ==> {
                &&& result[4 * k] == (input[k] & 0xff) as u8
                &&& result[4 * k + 1] == ((input[k] >> 8) & 0xff) as u8
                &&& result[4 * k + 2] == ((input[k] >> 16) & 0xff) as u8
                &&& result[4 * k + 3] == ((input[k] >> 24) & 0xff) as u8
            },
{
    let mut result: Vec<u8> = Vec::new();
    let mut i: usize = 0;
    while i < input.len()
        invariant
            i <= input.len(),
            4 * input.len() <= usize::MAX,
            result.len() == 4 * i,
            forall|k: int|
                0 <= k < i ==> {
                    &&& result[4 * k] == (input[k] & 0xff) as u8
                    &&& result[4 * k + 1] == ((input[k] >> 8) & 0xff) as u8
                    &&& result[4 * k + 2] == ((input[k] >> 16) & 0xff) as u8
                    &&& result[4 * k + 3] == ((input[k] >> 24) & 0xff) as u8
                },
        decreases input.len() - i,
    {
        let val: u32 = input[i];
        result.push(val as u8);
        result.push((val >> 8) as u8);
        result.push((val >> 16) as u8);
        result.push((val >> 24) as u8);
        proof {
            assert(val as u8 == (val & 0xff) as u8) by (bit_vector);
            assert((val >> 8) as u8 == ((val >> 8) & 0xff) as u8) by (bit_vector);
            assert((val >> 16) as u8 == ((val >> 16) & 0xff) as u8) by (bit_vector);
            assert((val >> 24) as u8 == ((val >> 24) & 0xff) as u8) by (bit_vector);
        }
        i = i + 1;
    }
    result
}

/// Convert buffer data `bf` with 32bit values to vector of 8bit values.
/// Assumes that order of colors in buffer is BGRA but output will be converted to RGBA order.
pub fn bf_to_image(bf: &Vec<u32>) -> (result: Vec<u8>)
    requires
        4 * bf.len() <= usize::MAX,
    ensures
        result.len() == 4 * bf.len(),
        forall|k: int|
            0 <= k < bf.len() ==> {
                &&& result[4 * k] == ((bf[k] >> 16) & 0xff) as u8
                &&& result[4 * k + 1] == ((bf[k] >> 8) & 0xff) as u8
                &&& result[4 * k + 2] == (bf[k] & 0xff) as u8
                &&& result[4 * k + 3] == ((bf[k] >> 24) & 0xff) as u8
            },
{
    let mut result: Vec<u8> = Vec::new();
    let mut i: usize = 0;
    while i < bf.len()
        invariant
            i <= bf.len(),
            4 * bf.len() <= usize::MAX,
            result.len() == 4 * i,
            forall|k: int|
                0 <= k < i ==> {
                    &&& result[4 * k] == ((bf[k] >> 16) & 0xff) as u8
                    &&& result[4 * k + 1] == ((bf[k] >> 8) & 0xff) as u8
                    &&& result[4 * k + 2] == (bf[k] & 0xff) as u8
                    &&& result[4 * k + 3] == ((bf[k] >> 24) & 0xff) as u8
                },
        decreases bf.len() - i,
    {
        let val: u32 = bf[i];
        result.push((val >> 16) as u8);
        result.push((val >> 8) as u8);
        result.push(val as u8);
        result.push((val >> 24) as u8);
        proof {
            assert(val as u8 == (val & 0xff) as u8) by (bit_vector);
            assert((val >> 8) as u8 == ((val >> 8) & 0xff) as u8) by (bit_vector);
            assert((val >> 16) as u8 == ((val >> 16) & 0xff) as u8) by (bit_vector);
            assert((val >> 24) as u8 == ((val >> 24) & 0xff) as u8) by (bit_vector);
        }
        i = i + 1;
    }
    result
}

} // verus!

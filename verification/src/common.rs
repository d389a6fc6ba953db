//! Buffer addressing and byte expansion shared by the drawing routines.

use vstd::prelude::*;

verus! {

/// A row-major index stays inside a `width * height` buffer whenever the
/// coordinates are inside the rectangle.
pub proof fn lemma_xy_bound(x: int, y: int, width: int, height: int)
    requires
        0 <= x < width,
        0 <= y < height,
    ensures
        0 <= x + y * width < width * height,
{
    assert(x + y * width < width * height) by (nonlinear_arith)
        requires
            0 <= x < width,
            0 <= y < height,
    ;
    assert(0 <= y * width) by (nonlinear_arith)
        requires
            0 <= y,
            0 < width,
    ;
}

/// Get 1D position from 2D coordinates.
/// Useful for setting/getting point in buffer.
#[inline]
pub fn xy(x: usize, y: usize, width: usize) -> (r: usize)
    requires
        x + y * width <= usize::MAX,
    ensures
        r == x + y * width,
{
    x + y * width
}

/// Convert array of 32 bit unsigned integers to 8 bit one.
/// Every 32-bit word becomes its four bytes, least significant first.
pub fn vec32_to_8(input: &Vec<u32>) -> (result: Vec<u8>)
    requires
        4 * input.len() <= usize::MAX,
    ensures
        result.len() == 4 * input.len(),
        forall|k: int|
            0 <= k < input.len() ==> {
                &&& result[4 * k] == (input[k] & 0xff) as u8
                &&& result[4 * k + 1] == ((input[k] >> 8) & 0xff) as u8
                &&& result[4 * k + 2] == ((input[k] >> 16) & 0xff) as u8
                &&& result[4 * k + 3] == ((input[k] >> 24) & 0xff) as u8
            },
{
    let mut result: Vec<u8> = Vec::new();
    let mut i: usize = 0;
    while i < input.len()
        invariant
            i <= input.len(),
            4 * input.len() <= usize::MAX,
            result.len() == 4 * i,
            forall|k: int|
                0 <= k < i ==> {
                    &&& result[4 * k] == (input[k] & 0xff) as u8
                    &&& result[4 * k + 1] == ((input[k] >> 8) & 0xff) as u8
                    &&& result[4 * k + 2] == ((input[k] >> 16) & 0xff) as u8
                    &&& result[4 * k + 3] == ((input[k] >> 24) & 0xff) as u8
                },
        decreases input.len() - i,
    {
        let val: u32 = input[i];
        result.push(val as u8);
        result.push((val >> 8) as u8);
        result.push((val >> 16) as u8);
        result.push((val >> 24) as u8);
        proof {
            assert(val as u8 == (val & 0xff) as u8) by (bit_vector);
            assert((val >> 8) as u8 == ((val >> 8) & 0xff) as u8) by (bit_vector);
            assert((val >> 16) as u8 == ((val >> 16) & 0xff) as u8) by (bit_vector);
            assert((val >> 24) as u8 == ((val >> 24) & 0xff) as u8) by (bit_vector);
        }
        i = i + 1;
    }
    result
}

} // verus!

//! Reversing the order of the bits of a short field.
use crate::bits::{be_value, byte_bits, lemma_be_value_low_bits, low_bits};
use vstd::prelude::*;

verus! {

/// `bit_reverse::LookupReverse::swap_bits` on a `u8`, which looks the byte
/// up in a table of the 256 reversed bytes: bit `i` of the result is bit
/// `7 - i` of `byte`.
#[verifier::external_body]
fn swap_bits(byte: u8) -> (swapped: u8)
    ensures
        byte_bits(swapped) == byte_bits(byte).reverse(),
{
    bit_reverse::LookupReverse::swap_bits(byte)
}

proof fn lemma_shifted_down(swapped: u8, width: u8, k: u128)
    by (bit_vector)
    requires
        1 <= width <= 8,
        k < width,
    ensures
        (((swapped >> ((8 - width) as u8)) as u128) >> k) & 1 == ((swapped as u128) >> ((k + 8
            - width) as u128)) & 1,
        ((swapped >> ((8 - width) as u8)) as u128) >> (width as u128) == 0,
{
}

/// The number that the low `width` bits of `field` spell when the lowest
/// of them is read as the most significant.
pub fn reverse_bits(field: u8, width: usize) -> (reversed: u8)
    requires
        width <= 8,
    ensures
        reversed == be_value(low_bits(field as u128, width as nat).reverse()),
{
    if width == 0 {
        return 0;
    }
    let swapped = swap_bits(field);
    let reversed = swapped >> (8 - width);
    proof {
        let mirrored = low_bits(field as u128, width as nat).reverse();
        assert(low_bits(reversed as u128, width as nat) =~= mirrored) by {
            assert forall|i: int| 0 <= i < width implies low_bits(reversed as u128, width as nat)[i]
                == mirrored[i] by {
                lemma_shifted_down(swapped, width as u8, (width - 1 - i) as u128);
                assert(byte_bits(swapped)[i] == byte_bits(field).reverse()[i]);
            }
        }
        lemma_shifted_down(swapped, width as u8, 0);
        lemma_be_value_low_bits(reversed as u128, width as nat);
    }
    reversed
}

} // verus!

//! Bit vectors laid out as on the wire: bit 0 is the most significant bit of
//! byte 0.

use vstd::prelude::*;

verus! {

/// Whether bit `i` (MSB-first) is set in `bf`.
pub open spec fn spec_bit_at(bf: Seq<u8>, i: int) -> bool
    recommends
        0 <= i < 8 * bf.len(),
{
    (bf[i / 8] >> (7 - (i % 8)) as u8) & 1 == 1
}

/// How many of the first `upto` bits of `bf` are set.
pub open spec fn spec_count_set(bf: Seq<u8>, upto: int) -> int
    decreases upto,
{
    if upto <= 0 {
        0
    } else {
        spec_count_set(bf, upto - 1) + if spec_bit_at(bf, upto - 1) {
            1int
        } else {
            0int
        }
    }
}

/// Setting one bit of a byte changes that bit alone.
pub proof fn lemma_or_bit(x: u8, b: u8, b2: u8)
    requires
        b < 8,
        b2 < 8,
    ensures
        (x | (1u8 << b)) >> b2 & 1 == if b2 == b {
            1u8
        } else {
            (x >> b2) & 1
        },
{
    assert((x | (1u8 << b)) >> b2 & 1 == if b2 == b {
        1u8
    } else {
        (x >> b2) & 1
    }) by (bit_vector)
        requires
            b < 8,
            b2 < 8,
    ;
}

/// Reads bit `i` of `bf`, MSB-first.
pub fn get_bit(bf: &[u8], i: usize) -> (r: bool)
    requires
        i / 8 < bf@.len(),
    ensures
        r == spec_bit_at(bf@, i as int),
{
    let byte_index = i / 8;
    let bit_index = (7 - (i % 8)) as u8;
    (bf[byte_index] >> bit_index) & 1 == 1
}

/// Sets bit `i` of `bf`, MSB-first; every other bit keeps its value.
pub fn set_bit(bf: &mut Vec<u8>, i: usize)
    requires
        i / 8 < old(bf)@.len(),
    ensures
        final(bf)@.len() == old(bf)@.len(),
        spec_bit_at(final(bf)@, i as int),
        forall|j: int|
            0 <= j < 8 * old(bf)@.len() && j != i ==> spec_bit_at(final(bf)@, j) == spec_bit_at(
                old(bf)@,
                j,
            ),
{
    let byte_index = i / 8;
    let bit_index = (7 - (i % 8)) as u8;
    let updated = bf[byte_index] | (1u8 << bit_index);
    bf.set(byte_index, updated);
    proof {
        let old_bf = old(bf)@;
        let new_bf = bf@;
        assert forall|j: int| 0 <= j < 8 * old_bf.len() && j != i implies spec_bit_at(new_bf, j)
            == spec_bit_at(old_bf, j) by {
            if j / 8 == byte_index {
                lemma_or_bit(old_bf[byte_index as int], bit_index, (7 - (j % 8)) as u8);
                assert(j % 8 != i % 8) by {
                    assert(j == 8 * (j / 8) + j % 8);
                    assert(i == 8 * ((i as int) / 8) + (i as int) % 8);
                }
            } else {
                assert(new_bf[j / 8] == old_bf[j / 8]);
            }
        }
        lemma_or_bit(old_bf[byte_index as int], bit_index, bit_index);
    }
}

} // verus!

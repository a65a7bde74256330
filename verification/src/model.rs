//! The mathematical model: which positions of a block are reserved for
//! parity, and how bits at positions are counted and XOR-folded.

use vstd::prelude::*;

use crate::bit::Bit;

verus! {

/// True when `i` is an exact power of two.
pub open spec fn is_pow2(i: int) -> bool
    decreases i,
{
    if i <= 0 {
        false
    } else if i == 1 {
        true
    } else {
        i % 2 == 0 && is_pow2(i / 2)
    }
}

/// Positions reserved for computed parity bits: index 0 and every power of two.
pub open spec fn is_parity_index(i: int) -> bool {
    i == 0 || is_pow2(i)
}

/// How many data (non-parity) indices lie below `cap`.
pub open spec fn num_data_indices(cap: int) -> nat
    decreases cap,
{
    if cap <= 0 {
        0
    } else {
        num_data_indices(cap - 1) + if is_parity_index(cap - 1) {
            0nat
        } else {
            1nat
        }
    }
}

/// The floor of the base-2 logarithm, 0 for arguments up to 1.
pub open spec fn log2_floor(n: int) -> int
    decreases n,
{
    if n <= 1 {
        0
    } else {
        1 + log2_floor(n / 2)
    }
}

/// The bits at data positions of `s`, in ascending index order.
pub open spec fn data_of(s: Seq<Bit>) -> Seq<Bit>
    decreases s.len(),
{
    if s.len() == 0 {
        Seq::empty()
    } else if is_parity_index(s.len() - 1) {
        data_of(s.drop_last())
    } else {
        data_of(s.drop_last()).push(s.last())
    }
}

/// The all-zero sequence of `n` bits.
pub open spec fn zeros(n: nat) -> Seq<Bit> {
    Seq::new(n, |i: int| Bit::Zero)
}

/// How many One bits of `s` stand at an index that shares a bit with `mask`.
pub open spec fn count_masked(s: Seq<Bit>, mask: usize) -> nat
    decreases s.len(),
{
    if s.len() == 0 {
        0
    } else {
        count_masked(s.drop_last(), mask) + masked_contrib(s.last(), s.len() - 1, mask)
    }
}

/// What one position contributes to `count_masked`.
pub open spec fn masked_contrib(b: Bit, idx: int, mask: usize) -> nat {
    if b == Bit::One && (idx as usize) & mask != 0 {
        1nat
    } else {
        0nat
    }
}

/// How many One bits `s` holds.
pub open spec fn count_ones(s: Seq<Bit>) -> nat
    decreases s.len(),
{
    if s.len() == 0 {
        0
    } else {
        count_ones(s.drop_last()) + ones_contrib(s.last())
    }
}

/// What one bit contributes to `count_ones`.
pub open spec fn ones_contrib(b: Bit) -> nat {
    if b == Bit::One {
        1nat
    } else {
        0nat
    }
}

/// The XOR-fold of `s`: the XOR of the indices of all One bits.
pub open spec fn xor_indices(s: Seq<Bit>) -> usize
    decreases s.len(),
{
    if s.len() == 0 {
        0usize
    } else {
        xor_indices(s.drop_last()) ^ (if s.last() == Bit::One {
            (s.len() - 1) as usize
        } else {
            0usize
        })
    }
}

} // verus!

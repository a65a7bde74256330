//! Laws of the encoding, stated over the block invariants that
//! `encode_bits` ensures.

use vstd::prelude::*;

use crate::bit::Bit;
use crate::block::blocks_data;
use crate::block::Block;
use crate::lemmas::lemma_count_masked_one;
use crate::lemmas::lemma_count_ones_one;
use crate::lemmas::lemma_data_of_index;
use crate::lemmas::lemma_log2_floor_step;
use crate::lemmas::lemma_pow2_disjoint;
use crate::lemmas::lemma_pow2_self;
use crate::model::count_masked;
use crate::model::count_ones;
use crate::model::data_of;
use crate::model::is_parity_index;
use crate::model::is_pow2;
use crate::model::log2_floor;
use crate::model::masked_contrib;
use crate::model::num_data_indices;
use crate::model::ones_contrib;

verus! {

/// Law: an encoded block whose data bits are all Zero is Zero at every
/// position - the XOR-fold over no One bits sets no parity bit, and an
/// overall parity over zero One bits is even.
pub proof fn lemma_zero_data_zero_block(b: Block)
    requires
        b.encoded(),
        forall|k: int| 0 <= k < b.data().len() ==> b.data()[k] == Bit::Zero,
    ensures
        forall|i: int| 0 <= i < b.bits@.len() ==> b.bits@[i] == Bit::Zero,
{
    let s = b.bits@;
    let cap = s.len() as int;
    assert forall|i: int| 0 <= i < cap && !is_parity_index(i) implies s[i] == Bit::Zero by {
        lemma_data_of_index(s, i);
        assert(b.data() == data_of(s));
        assert(b.data()[num_data_indices(i) as int] == Bit::Zero);
    }
    assert forall|i: int| 1 <= i < cap && is_parity_index(i) implies s[i] == Bit::Zero by {
        let p = i as usize;
        assert(is_pow2(i));
        assert forall|k: int| 0 <= k < cap && k != i implies #[trigger] masked_contrib(
            s[k],
            k,
            p,
        ) == 0 by {
            if is_parity_index(k) {
                if k != 0 {
                    lemma_pow2_disjoint(k as usize, p);
                } else {
                    assert(0usize & p == 0) by (bit_vector);
                }
            } else {
                assert(s[k] == Bit::Zero);
            }
        }
        lemma_count_masked_one(s, p, i);
        lemma_pow2_self(p);
        assert(count_masked(s, p) % 2 == 0);
    }
    assert forall|i: int| 0 <= i < cap implies s[i] == Bit::Zero by {
        if i == 0 {
            assert forall|k: int| 0 <= k < cap && k != 0 implies s[k] != Bit::One by {
                if is_parity_index(k) {
                    assert(s[k] == Bit::Zero);
                } else {
                    assert(s[k] == Bit::Zero);
                }
            }
            lemma_count_ones_one(s, 0);
            assert(count_ones(s) == ones_contrib(s[0]));
        } else {
            if is_parity_index(i) {
                assert(s[i] == Bit::Zero);
            } else {
                assert(s[i] == Bit::Zero);
            }
        }
    }
}

/// Law: blocks whose concatenated data bits are all Zero - as the blocks
/// for an all-zero input are - are Zero at every position of every block.
pub proof fn lemma_zero_input_zero_blocks(blocks: Seq<Block>)
    requires
        forall|k: int| 0 <= k < blocks.len() ==> (#[trigger] blocks[k]).encoded(),
        forall|i: int| 0 <= i < blocks_data(blocks).len() ==> blocks_data(blocks)[i] == Bit::Zero,
    ensures
        forall|k: int, i: int|
            0 <= k < blocks.len() && 0 <= i < blocks[k].bits@.len() ==> blocks[k].bits@[i]
                == Bit::Zero,
    decreases blocks.len(),
{
    if blocks.len() > 0 {
        let pre = blocks.drop_last();
        let last = blocks.last();
        assert(blocks_data(blocks) == blocks_data(pre) + last.data());
        assert forall|i: int| 0 <= i < blocks_data(pre).len() implies blocks_data(pre)[i]
            == Bit::Zero by {
            assert(blocks_data(blocks)[i] == blocks_data(pre)[i]);
        }
        assert forall|k: int| 0 <= k < pre.len() implies (#[trigger] pre[k]).encoded() by {
            assert(pre[k] == blocks[k]);
        }
        lemma_zero_input_zero_blocks(pre);
        assert forall|k: int| 0 <= k < last.data().len() implies last.data()[k] == Bit::Zero by {
            assert(last.data()[k] == blocks_data(blocks)[blocks_data(pre).len() + k]);
        }
        lemma_zero_data_zero_block(last);
        assert forall|k: int, i: int|
            0 <= k < blocks.len() && 0 <= i < blocks[k].bits@.len() implies blocks[k].bits@[i]
            == Bit::Zero by {
            if k < blocks.len() - 1 {
                assert(blocks[k] == pre[k]);
            } else {
                assert(blocks[k] == last);
            }
        }
    }
}

/// Law: the per-block data capacity in closed form - a block of capacity
/// `cap` has `cap - (floor(log2(cap - 1)) + 2)` data positions: one
/// reserved position at index 0 and `floor(log2(cap - 1)) + 1` reserved
/// power-of-two positions.
pub proof fn lemma_data_capacity_formula(cap: int)
    requires
        cap >= 2,
    ensures
        num_data_indices(cap) == cap - (log2_floor(cap - 1) + 2),
    decreases cap,
{
    if cap == 2 {
        assert(num_data_indices(0) == 0);
        assert(num_data_indices(1) == 0);
        assert(num_data_indices(2) == 0);
        assert(log2_floor(1) == 0);
    } else {
        lemma_data_capacity_formula(cap - 1);
        lemma_log2_floor_step(cap - 1);
        assert(is_parity_index(cap - 1) == is_pow2(cap - 1));
    }
}

} // verus!

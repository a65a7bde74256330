use vstd::prelude::*;

use crate::bit::Bit;
use crate::model::count_masked;
use crate::model::count_ones;
use crate::model::data_of;
use crate::model::is_pow2;

verus! {

/// A `width * width` grid of bits, stored row-major, combining data bits
/// and computed parity bits.
pub struct Block {
    pub bits: Vec<Bit>,
    pub width: usize,
}

impl Block {
    /// The number of positions in the block.
    pub open spec fn capacity(self) -> int {
        self.width * self.width
    }

    /// Basic shape: a supported width and a fully allocated grid.
    pub open spec fn wf(self) -> bool {
        &&& self.width >= 2
        &&& self.capacity() <= usize::MAX
        &&& self.bits@.len() == self.capacity()
    }

    /// The Hamming covering relation: for every parity position `p`, an even
    /// number of One bits - the parity bit at `p` among them - stand at an
    /// index that has bit `p` set.
    pub open spec fn parity_covered(self) -> bool {
        forall|p: usize|
            is_pow2(p as int) && p < self.capacity() ==> (#[trigger] count_masked(self.bits@, p))
                % 2 == 0
    }

    /// The extended parity invariant: the block holds an even number of One
    /// bits in all.
    pub open spec fn overall_even(self) -> bool {
        count_ones(self.bits@) % 2 == 0
    }

    /// Everything an encoded block satisfies.
    pub open spec fn encoded(self) -> bool {
        self.wf() && self.parity_covered() && self.overall_even()
    }

    /// The data bits the block carries, in ascending index order.
    pub open spec fn data(self) -> Seq<Bit> {
        data_of(self.bits@)
    }
}

/// The data bits of a sequence of blocks, in block order then index order.
pub open spec fn blocks_data(blocks: Seq<Block>) -> Seq<Bit>
    decreases blocks.len(),
{
    if blocks.len() == 0 {
        Seq::empty()
    } else {
        blocks_data(blocks.drop_last()) + blocks.last().data()
    }
}

} // verus!

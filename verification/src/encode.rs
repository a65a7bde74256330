//! The block encoder: partitions an input bit stream into Hamming-encoded
//! blocks of `width * width` positions.

use vstd::prelude::*;

use vstd::arithmetic::div_mod::lemma_fundamental_div_mod_converse;

use crate::bit::Bit;
use crate::block::blocks_data;
use crate::block::Block;
use crate::lemmas::lemma_count_masked_update;
use crate::lemmas::lemma_count_ones_le_len;
use crate::lemmas::lemma_count_ones_update;
use crate::lemmas::lemma_data_of_update_parity;
use crate::lemmas::lemma_num_data_at_least_one;
use crate::lemmas::lemma_pow2_disjoint;
use crate::lemmas::lemma_pow2_gap;
use crate::lemmas::lemma_pow2_self;
use crate::lemmas::lemma_xor_tracks_count;
use crate::model::count_masked;
use crate::model::count_ones;
use crate::model::data_of;
use crate::model::is_parity_index;
use crate::model::is_pow2;
use crate::model::masked_contrib;
use crate::model::num_data_indices;
use crate::model::xor_indices;
use crate::model::zeros;

verus! {

/// Why an encoding request was refused.
#[derive(Clone, Copy, Debug, PartialEq, Eq, Structural)]
pub enum EncodeError {
    /// The width is 0 or 1: such a block has no data position, so no input
    /// bit could ever be consumed.
    UnsupportedWidth,
}

/// What encoding promises: the block count, every block invariant, and the
/// data round trip - the data positions of all blocks, read in block order
/// then index order, are the input followed by zero padding.
pub open spec fn encoded_output(input: Seq<Bit>, width: int, blocks: Seq<Block>) -> bool {
    let d = num_data_indices(width * width) as int;
    &&& blocks.len() == (input.len() + d - 1) / d
    &&& forall|k: int|
        0 <= k < blocks.len() ==> (#[trigger] blocks[k]).encoded() && blocks[k].width == width
    &&& blocks_data(blocks).len() == blocks.len() * d
    &&& blocks_data(blocks) == input + zeros((blocks.len() * d - input.len()) as nat)
}

/// Encodes one block: fills the data positions from `bits` starting at
/// `start`, zero-padding once the input runs out, then computes the parity
/// bits from the XOR-fold of the One positions and the overall parity bit.
/// Returns the block and how many input bits it consumed.
fn encode_block(bits: &Vec<Bit>, start: usize, width: usize) -> (res: (Block, usize))
    requires
        width >= 2,
        width * width <= usize::MAX,
        start < bits@.len(),
    ensures
        ({
            let d = num_data_indices((width * width) as int) as int;
            let avail = bits@.len() - start;
            let used = res.1 as int;
            &&& res.0.width == width
            &&& res.0.encoded()
            &&& used == if avail <= d {
                avail
            } else {
                d
            }
            &&& res.0.data() == bits@.subrange(start as int, start as int + used) + zeros(
                (d - used) as nat,
            )
        }),
{
    let cap: usize = width * width;
    // Fill pass: walk the positions in ascending order, reserving index 0 and
    // every power of two, and moving input bits into the other positions.
    let mut v: Vec<Bit> = Vec::new();
    let mut pos: usize = start;
    let mut next_p: usize = 1;
    let mut i: usize = 0;
    proof {
        assert(data_of(v@) =~= bits@.subrange(start as int, start as int) + zeros(0));
    }
    while i < cap
        invariant
            width >= 2,
            cap == width * width,
            start < bits@.len(),
            i <= cap,
            v@.len() == i as int,
            start <= pos <= bits@.len(),
            pos - start <= num_data_indices(i as int),
            pos == bits@.len() || pos - start == num_data_indices(i as int),
            data_of(v@) == bits@.subrange(start as int, pos as int) + zeros(
                (num_data_indices(i as int) - (pos - start)) as nat,
            ),
            forall|j: int| 0 <= j < i && is_parity_index(j) ==> v@[j] == Bit::Zero,
            next_p == 0 ==> i >= 1,
            next_p == 0 ==> forall|q: int| i <= q < cap ==> !is_pow2(q),
            next_p != 0 ==> is_pow2(next_p as int) && i <= next_p && (forall|q: int|
                i <= q < next_p ==> !is_pow2(q)),
        decreases cap - i,
    {
        let ghost v0 = v@;
        let ghost pos0 = pos as int;
        let is_parity = i == 0 || i == next_p;
        proof {
            assert(is_parity == is_parity_index(i as int));
        }
        if is_parity {
            v.push(Bit::Zero);
            proof {
                assert(v@.drop_last() =~= v0);
            }
        } else if pos < bits.len() {
            let taken = bits[pos];
            v.push(taken);
            pos = pos + 1;
            proof {
                assert(v@.drop_last() =~= v0);
                assert(data_of(v@) == data_of(v0).push(taken));
                assert(zeros(0) =~= Seq::<Bit>::empty());
                assert(data_of(v@) =~= bits@.subrange(start as int, pos as int) + zeros(0));
            }
        } else {
            v.push(Bit::Zero);
            proof {
                assert(v@.drop_last() =~= v0);
                assert(data_of(v@) == data_of(v0).push(Bit::Zero));
                assert(data_of(v@) =~= bits@.subrange(start as int, pos as int) + zeros(
                    (num_data_indices(i as int) + 1 - (pos - start)) as nat,
                ));
            }
        }
        if i == next_p {
            let ghost p0 = next_p as int;
            if next_p <= cap / 2 {
                next_p = next_p * 2;
                proof {
                    assert((2 * p0) % 2 == 0);
                    assert((2 * p0) / 2 == p0);
                    assert(is_pow2(next_p as int));
                    assert forall|q: int| i + 1 <= q < next_p implies !is_pow2(q) by {
                        if is_pow2(q) {
                            lemma_pow2_gap(p0, q);
                        }
                    }
                }
            } else {
                next_p = 0;
                proof {
                    assert forall|q: int| i + 1 <= q < cap implies !is_pow2(q) by {
                        if is_pow2(q) {
                            lemma_pow2_gap(p0, q);
                        }
                    }
                }
            }
        }
        i = i + 1;
    }
    let ghost d0 = v@;
    let ghost dcount = num_data_indices(cap as int) as int;
    let ghost used = pos - start;
    proof {
        assert(width * width >= 4) by (nonlinear_arith)
            requires
                width >= 2,
        ;
        assert(is_parity_index(0));
        assert(d0[0] == Bit::Zero);
        assert forall|q: int| #![trigger d0[q]] is_pow2(q) && 0 <= q < cap implies d0[q]
            == Bit::Zero by {
            assert(is_parity_index(q));
        }
    }
    // Parity scan: the XOR-fold of the One positions and the count of One bits.
    let mut xored: usize = 0;
    let mut set_bits: usize = 0;
    i = 0;
    proof {
        assert(v@.take(0) =~= Seq::<Bit>::empty());
    }
    while i < cap
        invariant
            v@ == d0,
            v@.len() == cap as int,
            i <= cap,
            xored == xor_indices(v@.take(i as int)),
            set_bits == count_ones(v@.take(i as int)),
            set_bits <= i,
        decreases cap - i,
    {
        let ghost pre = v@.take(i as int);
        proof {
            assert(v@.take(i as int + 1).drop_last() =~= pre);
            assert(v@.take(i as int + 1).last() == v@[i as int]);
        }
        let cur = v[i];
        if cur == Bit::One {
            xored = xored ^ i;
            set_bits = set_bits + 1;
        } else {
            proof {
                let a = xored;
                assert(a ^ 0usize == a) by (bit_vector);
            }
        }
        i = i + 1;
    }
    proof {
        assert(v@.take(cap as int) =~= v@);
    }
    // Parity write: set each power-of-two position from its bit of the fold.
    let mut p: usize = 1;
    while p < cap
        invariant
            cap >= 4,
            v@.len() == cap as int,
            1 <= p <= cap,
            is_pow2(p as int) || p == cap,
            xored == xor_indices(d0),
            set_bits == count_ones(v@),
            data_of(v@) == data_of(d0),
            v@[0] == Bit::Zero,
            forall|q: usize|
                is_pow2(q as int) && (q as int) < p ==> (#[trigger] count_masked(v@, q)) % 2
                    == 0,
            forall|q: usize|
                #![trigger count_masked(v@, q)]
                is_pow2(q as int) && p <= q && (q as int) < cap ==> count_masked(v@, q)
                    == count_masked(d0, q),
            forall|q: int| #![trigger v@[q]] is_pow2(q) && p <= q < cap ==> v@[q] == Bit::Zero,
        decreases cap - p,
    {
        let ghost vpre = v@;
        let ghost pold = p as int;
        proof {
            assert(is_pow2(p as int));
            assert(count_masked(vpre, p) == count_masked(d0, p) && vpre[p as int] == Bit::Zero);
        }
        if (xored & p) != 0 {
            proof {
                lemma_xor_tracks_count(d0, p);
                lemma_count_ones_update(vpre, p as int, Bit::One);
                lemma_count_ones_le_len(vpre.update(p as int, Bit::One));
                lemma_data_of_update_parity(vpre, p as int, Bit::One);
            }
            v.set(p, Bit::One);
            set_bits = set_bits + 1;
            proof {
                assert forall|q: usize|
                    is_pow2(q as int) && (q as int) < cap implies #[trigger] count_masked(v@, q)
                    == count_masked(vpre, q) + masked_contrib(Bit::One, p as int, q) by {
                    lemma_count_masked_update(vpre, p as int, Bit::One, q);
                }
                assert forall|q: usize|
                    is_pow2(q as int) && q != p implies masked_contrib(Bit::One, p as int, q)
                    == 0 by {
                    lemma_pow2_disjoint(p, q);
                }
                lemma_pow2_self(p);
                assert(masked_contrib(Bit::One, p as int, p) == 1);
            }
        } else {
            proof {
                lemma_xor_tracks_count(d0, p);
            }
        }
        if p <= cap / 2 {
            p = p * 2;
        } else {
            p = cap;
        }
        proof {
            assert(is_pow2(p as int) || p == cap);
            assert forall|q: usize|
                is_pow2(q as int) && pold < q && (q as int) < p implies false by {
                lemma_pow2_gap(pold, q as int);
            }
            assert forall|q: usize|
                #![trigger count_masked(v@, q)]
                is_pow2(q as int) && p <= q && (q as int) < cap implies count_masked(v@, q)
                == count_masked(d0, q) by {
                assert(q != pold);
                assert(count_masked(vpre, q) == count_masked(d0, q));
            }
            assert forall|q: int| #![trigger v@[q]] is_pow2(q) && p <= q < cap implies v@[q]
                == Bit::Zero by {
                assert(q != pold);
                assert(vpre[q] == Bit::Zero);
            }
        }
    }
    // Overall parity: make the total count of One bits even via position 0.
    if set_bits % 2 == 1 {
        let ghost vpar = v@;
        proof {
            lemma_count_ones_update(vpar, 0, Bit::One);
            lemma_data_of_update_parity(vpar, 0, Bit::One);
        }
        v.set(0, Bit::One);
        proof {
            assert forall|q: usize|
                is_pow2(q as int) && (q as int) < cap implies #[trigger] count_masked(v@, q)
                == count_masked(vpar, q) by {
                lemma_count_masked_update(vpar, 0, Bit::One, q);
                assert(0usize & q == 0) by (bit_vector);
            }
        }
    }
    let blk = Block { bits: v, width };
    proof {
        assert(blk.encoded());
        assert(used == if bits@.len() - start <= dcount {
            bits@.len() - start
        } else {
            dcount
        });
    }
    (blk, pos - start)
}

/// Encodes a bit stream into Hamming blocks of `width * width` positions.
///
/// The input is consumed front to back into the data positions of
/// successive blocks; the final block is zero-padded where the input runs
/// out. Widths 0 and 1 give a block with no data position and are refused.
pub fn encode_bits(bits: Vec<Bit>, width: usize) -> (r: Result<Vec<Block>, EncodeError>)
    requires
        width * width <= usize::MAX,
    ensures
        r is Ok <==> width >= 2,
        r is Err ==> r == Err::<Vec<Block>, EncodeError>(EncodeError::UnsupportedWidth),
        r is Ok ==> encoded_output(bits@, width as int, r->Ok_0@),
{
    if width < 2 {
        return Err(EncodeError::UnsupportedWidth);
    }
    let cap: usize = width * width;
    let ghost d = num_data_indices(cap as int) as int;
    proof {
        assert(width * width >= 4) by (nonlinear_arith)
            requires
                width >= 2,
        ;
        lemma_num_data_at_least_one(cap as int);
    }
    let mut blocks: Vec<Block> = Vec::new();
    let mut pos: usize = 0;
    proof {
        assert(blocks_data(blocks@) =~= bits@.subrange(0, 0) + zeros(0));
    }
    while pos < bits.len()
        invariant
            width >= 2,
            cap == width * width,
            d == num_data_indices(cap as int),
            d >= 1,
            pos <= bits@.len(),
            forall|k: int|
                0 <= k < blocks@.len() ==> (#[trigger] blocks@[k]).encoded() && blocks@[k].width
                    == width,
            blocks_data(blocks@).len() == blocks@.len() * d,
            pos <= blocks@.len() * d,
            blocks@.len() * d < pos + d,
            blocks_data(blocks@) == bits@.subrange(0, pos as int) + zeros(
                (blocks@.len() * d - pos) as nat,
            ),
            pos < bits@.len() ==> pos == blocks@.len() * d,
        decreases bits@.len() - pos,
    {
        let ghost blocks0 = blocks@;
        let ghost pos0 = pos as int;
        let (b, used) = encode_block(&bits, pos, width);
        blocks.push(b);
        pos = pos + used;
        proof {
            assert(used >= 1);
            assert((blocks0.len() + 1) * d == blocks0.len() * d + d) by (nonlinear_arith);
            assert(blocks@.drop_last() =~= blocks0);
            assert(blocks_data(blocks@) == blocks_data(blocks0) + b.data());
            assert(zeros(0) =~= Seq::<Bit>::empty());
            assert(blocks_data(blocks0) =~= bits@.subrange(0, pos0));
            assert(blocks_data(blocks@) =~= bits@.subrange(0, pos as int) + zeros(
                (d - used) as nat,
            ));
        }
    }
    proof {
        let k = blocks@.len() as int;
        let n = bits@.len() as int;
        lemma_fundamental_div_mod_converse(n + d - 1, d, k, n + d - 1 - k * d);
        assert(bits@.subrange(0, bits@.len() as int) =~= bits@);
    }
    Ok(blocks)
}

} // verus!

//! Proofs about the model: facts on powers of two, on the counting
//! functions under point updates, and the link between the XOR-fold and
//! the per-mask parity counts.

use vstd::prelude::*;

use crate::bit::Bit;
use crate::model::count_masked;
use crate::model::count_ones;
use crate::model::data_of;
use crate::model::is_parity_index;
use crate::model::is_pow2;
use crate::model::log2_floor;
use crate::model::masked_contrib;
use crate::model::num_data_indices;
use crate::model::ones_contrib;
use crate::model::xor_indices;

verus! {

/// No power of two lies strictly between a power of two and its double.
pub proof fn lemma_pow2_gap(p: int, q: int)
    requires
        is_pow2(p),
        is_pow2(q),
        p < q,
    ensures
        2 * p <= q,
    decreases q,
{
    if q == 1 {
        assert(false);
    } else {
        if p < q / 2 {
            lemma_pow2_gap(p, q / 2);
        } else if p > q / 2 {
            lemma_pow2_gap(q / 2, p);
            assert(false);
        }
    }
}

/// A power of two, as a bit pattern: nonzero, with no bit below its own.
pub proof fn lemma_pow2_form(p: usize)
    requires
        is_pow2(p as int),
    ensures
        p != 0,
        p & ((p - 1) as usize) == 0,
    decreases p,
{
    if p == 1 {
        assert(1usize & 0usize == 0) by (bit_vector);
    } else {
        let h = p / 2;
        lemma_pow2_form(h);
        assert(p & ((p - 1) as usize) == 0) by (bit_vector)
            requires
                h != 0usize,
                h & ((h - 1) as usize) == 0usize,
                p == 2 * h,
        ;
    }
}

/// Distinct powers of two share no bit.
pub proof fn lemma_pow2_disjoint(p: usize, q: usize)
    requires
        is_pow2(p as int),
        is_pow2(q as int),
        p != q,
    ensures
        p & q == 0,
{
    lemma_pow2_form(p);
    lemma_pow2_form(q);
    assert(p & q == 0) by (bit_vector)
        requires
            p != 0usize,
            q != 0usize,
            p & ((p - 1) as usize) == 0usize,
            q & ((q - 1) as usize) == 0usize,
            p != q,
    ;
}

/// A power of two shares a bit with itself.
pub proof fn lemma_pow2_self(p: usize)
    requires
        is_pow2(p as int),
    ensures
        p & p != 0,
{
    lemma_pow2_form(p);
    assert(p & p != 0) by (bit_vector)
        requires
            p != 0usize,
    ;
}

/// Bit `p` of the XOR-fold is set exactly when an odd number of One bits
/// stand at an index with bit `p` set.
pub proof fn lemma_xor_tracks_count(s: Seq<Bit>, p: usize)
    requires
        is_pow2(p as int),
    ensures
        (xor_indices(s) & p != 0) <==> (count_masked(s, p) % 2 == 1),
    decreases s.len(),
{
    lemma_pow2_form(p);
    if s.len() == 0 {
        assert(0usize & p == 0) by (bit_vector);
    } else {
        lemma_xor_tracks_count(s.drop_last(), p);
        let a = xor_indices(s.drop_last());
        let idx = (s.len() - 1) as usize;
        if s.last() == Bit::One {
            assert(((a ^ idx) & p != 0) <==> !((a & p != 0) <==> (idx & p != 0)))
                by (bit_vector)
                requires
                    p != 0usize,
                    p & ((p - 1) as usize) == 0usize,
            ;
        } else {
            assert(a ^ 0usize == a) by (bit_vector);
        }
    }
}

/// How `count_masked` moves under a point update.
pub proof fn lemma_count_masked_update(s: Seq<Bit>, j: int, x: Bit, mask: usize)
    requires
        0 <= j < s.len(),
    ensures
        count_masked(s.update(j, x), mask) + masked_contrib(s[j], j, mask) == count_masked(s, mask)
            + masked_contrib(x, j, mask),
    decreases s.len(),
{
    let t = s.update(j, x);
    if j == s.len() - 1 {
        assert(t.drop_last() =~= s.drop_last());
    } else {
        lemma_count_masked_update(s.drop_last(), j, x, mask);
        assert(t.drop_last() =~= s.drop_last().update(j, x));
    }
}

/// How `count_ones` moves under a point update.
pub proof fn lemma_count_ones_update(s: Seq<Bit>, j: int, x: Bit)
    requires
        0 <= j < s.len(),
    ensures
        count_ones(s.update(j, x)) + ones_contrib(s[j]) == count_ones(s) + ones_contrib(x),
    decreases s.len(),
{
    let t = s.update(j, x);
    if j == s.len() - 1 {
        assert(t.drop_last() =~= s.drop_last());
    } else {
        lemma_count_ones_update(s.drop_last(), j, x);
        assert(t.drop_last() =~= s.drop_last().update(j, x));
    }
}

/// There are no more One bits than bits.
pub proof fn lemma_count_ones_le_len(s: Seq<Bit>)
    ensures
        count_ones(s) <= s.len(),
    decreases s.len(),
{
    if s.len() > 0 {
        lemma_count_ones_le_len(s.drop_last());
    }
}

/// Updating a parity position leaves the data bits alone.
pub proof fn lemma_data_of_update_parity(s: Seq<Bit>, j: int, x: Bit)
    requires
        0 <= j < s.len(),
        is_parity_index(j),
    ensures
        data_of(s.update(j, x)) == data_of(s),
    decreases s.len(),
{
    let t = s.update(j, x);
    if j == s.len() - 1 {
        assert(t.drop_last() =~= s.drop_last());
    } else {
        lemma_data_of_update_parity(s.drop_last(), j, x);
        assert(t.drop_last() =~= s.drop_last().update(j, x));
    }
}

/// A block of `cap` positions holds `num_data_indices(cap)` data bits.
pub proof fn lemma_data_len(s: Seq<Bit>)
    ensures
        data_of(s).len() == num_data_indices(s.len() as int),
    decreases s.len(),
{
    if s.len() > 0 {
        lemma_data_len(s.drop_last());
    }
}

/// `num_data_indices` grows with the capacity.
pub proof fn lemma_num_data_mono(a: int, b: int)
    requires
        a <= b,
    ensures
        num_data_indices(a) <= num_data_indices(b),
    decreases b - a,
{
    if a < b {
        lemma_num_data_mono(a, b - 1);
    }
}

/// Any capacity of at least 4 has a data index: index 3.
pub proof fn lemma_num_data_at_least_one(cap: int)
    requires
        cap >= 4,
    ensures
        num_data_indices(cap) >= 1,
{
    assert(!is_pow2(3));
    assert(num_data_indices(4) >= 1);
    lemma_num_data_mono(4, cap);
}

/// Data position `j` lands at element `num_data_indices(j)` of the data bits.
pub proof fn lemma_data_of_index(s: Seq<Bit>, j: int)
    requires
        0 <= j < s.len(),
        !is_parity_index(j),
    ensures
        num_data_indices(j) < data_of(s).len(),
        data_of(s)[num_data_indices(j) as int] == s[j],
    decreases s.len(),
{
    lemma_data_len(s);
    lemma_data_len(s.drop_last());
    if j == s.len() - 1 {
        lemma_num_data_mono(j, s.len() as int - 1);
    } else {
        lemma_data_of_index(s.drop_last(), j);
    }
}

/// The floor of log2 steps up exactly at the powers of two.
pub proof fn lemma_log2_floor_step(n: int)
    requires
        n >= 2,
    ensures
        log2_floor(n) == log2_floor(n - 1) + if is_pow2(n) {
            1int
        } else {
            0int
        },
    decreases n,
{
    if n == 2 {
        assert(log2_floor(1) == 0);
        assert(log2_floor(2) == 1);
        assert(is_pow2(1));
        assert(is_pow2(2));
    } else if n % 2 == 0 {
        let m = n / 2;
        lemma_log2_floor_step(m);
        assert(is_pow2(n) == is_pow2(m));
        assert((n - 1) / 2 == m - 1);
    } else {
        assert(!is_pow2(n));
        assert((n - 1) / 2 == n / 2);
    }
}

/// With no contributing position, `count_masked` is zero.
pub proof fn lemma_count_masked_none(s: Seq<Bit>, mask: usize)
    requires
        forall|i: int| 0 <= i < s.len() ==> #[trigger] masked_contrib(s[i], i, mask) == 0,
    ensures
        count_masked(s, mask) == 0,
    decreases s.len(),
{
    if s.len() > 0 {
        assert forall|i: int| 0 <= i < s.drop_last().len() implies #[trigger] masked_contrib(
            s.drop_last()[i],
            i,
            mask,
        ) == 0 by {
            assert(s.drop_last()[i] == s[i]);
        }
        lemma_count_masked_none(s.drop_last(), mask);
    }
}

/// With at most one contributing position, `count_masked` is its contribution.
pub proof fn lemma_count_masked_one(s: Seq<Bit>, mask: usize, j: int)
    requires
        0 <= j < s.len(),
        forall|i: int|
            0 <= i < s.len() && i != j ==> #[trigger] masked_contrib(s[i], i, mask) == 0,
    ensures
        count_masked(s, mask) == masked_contrib(s[j], j, mask),
    decreases s.len(),
{
    if j == s.len() - 1 {
        assert forall|i: int| 0 <= i < s.drop_last().len() implies #[trigger] masked_contrib(
            s.drop_last()[i],
            i,
            mask,
        ) == 0 by {
            assert(s.drop_last()[i] == s[i]);
        }
        lemma_count_masked_none(s.drop_last(), mask);
    } else {
        assert forall|i: int|
            0 <= i < s.drop_last().len() && i != j implies #[trigger] masked_contrib(
            s.drop_last()[i],
            i,
            mask,
        ) == 0 by {
            assert(s.drop_last()[i] == s[i]);
        }
        lemma_count_masked_one(s.drop_last(), mask, j);
        assert(masked_contrib(s[s.len() - 1], s.len() - 1, mask) == 0);
    }
}

/// With no One bit, `count_ones` is zero.
pub proof fn lemma_count_ones_none(s: Seq<Bit>)
    requires
        forall|i: int| 0 <= i < s.len() ==> s[i] != Bit::One,
    ensures
        count_ones(s) == 0,
    decreases s.len(),
{
    if s.len() > 0 {
        lemma_count_ones_none(s.drop_last());
    }
}

/// With at most one One bit, `count_ones` is that bit's contribution.
pub proof fn lemma_count_ones_one(s: Seq<Bit>, j: int)
    requires
        0 <= j < s.len(),
        forall|i: int| 0 <= i < s.len() && i != j ==> s[i] != Bit::One,
    ensures
        count_ones(s) == ones_contrib(s[j]),
    decreases s.len(),
{
    if j == s.len() - 1 {
        lemma_count_ones_none(s.drop_last());
    } else {
        lemma_count_ones_one(s.drop_last(), j);
    }
}

} // verus!

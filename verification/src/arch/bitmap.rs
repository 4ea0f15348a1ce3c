//! One word of the frame bitmap: 32 bits, one per frame, a one for a frame
//! that is taken and a zero for a frame that is free. Bit 0 stands for the
//! frame at the lowest address.

use vstd::prelude::*;
use vstd::std_specs::bits::{axiom_u32_trailing_zeros, u32_trailing_zeros};

verus! {

/// A word in which every frame is taken.
pub const FULL_WORD: u32 = 0xffff_ffff;

/// Bit `b` of `word` is one: the frame it stands for is taken.
pub open spec fn bit_is_set(word: u32, b: int) -> bool {
    0 <= b < 32 && (word >> (b as u32)) & 1 == 1
}

/// How many of the bits `0 .. k` of `word` are zero.
pub open spec fn zeros_below(word: u32, k: nat) -> nat
    decreases k,
{
    if k == 0 {
        0
    } else {
        zeros_below(word, (k - 1) as nat) + if bit_is_set(word, k - 1) {
            0nat
        } else {
            1nat
        }
    }
}

/// How many of the 32 bits of `word` are zero: the free frames of the word.
pub open spec fn zero_count(word: u32) -> nat {
    zeros_below(word, 32)
}

/// How many of the 32 bits of `word` are one.
pub open spec fn one_count(word: u32) -> nat {
    (32 - zero_count(word)) as nat
}

/// The word whose bits `0 .. k` are one and whose other bits are zero: the
/// number `2^k - 1`. From `k = 32` on every bit is one.
pub open spec fn low_ones(k: nat) -> u32 {
    if k >= 32 {
        FULL_WORD
    } else {
        ((1u32 << (k as u32)) - 1) as u32
    }
}

/// The word whose highest `k` bits are one and whose other bits are zero.
/// From `k = 32` on every bit is one.
pub open spec fn high_ones(k: nat) -> u32 {
    if k >= 32 {
        FULL_WORD
    } else {
        (FULL_WORD - (FULL_WORD >> (k as u32))) as u32
    }
}

/// The word in which bit `b` alone is one.
pub open spec fn single_bit(b: int) -> u32 {
    1u32 << (b as u32)
}

/// Bit `j` of `word` is free and is one of the `n` lowest free bits of
/// `word`: counting the free bits from bit 0 up to bit `j`, there are at most
/// `n`.
pub open spec fn among_lowest_free(word: u32, n: nat, j: int) -> bool {
    0 <= j < 32 && !bit_is_set(word, j) && zeros_below(word, (j + 1) as nat) <= n
}

/// `mask` marks the `n` lowest free bits of `word` and no other bit.
pub open spec fn marks_lowest_free(word: u32, n: nat, mask: u32) -> bool {
    forall|j: int|
        #![trigger bit_is_set(mask, j)]
        0 <= j < 32 ==> (bit_is_set(mask, j) <==> among_lowest_free(word, n, j))
}

/// There is a mask for `n` frames in `word`: the word has `n` free bits, and
/// where none is asked for, its bit 0 is taken.
pub open spec fn has_bitmask(word: u32, n: nat) -> bool {
    n <= zero_count(word) && (n > 0 || bit_is_set(word, 0))
}

/// The ones of `mask` are the bits `low .. low + len` and no others: one
/// run of `len` bits.
pub open spec fn is_run(mask: u32, low: int, len: int) -> bool {
    forall|j: int|
        #![trigger bit_is_set(mask, j)]
        0 <= j < 32 ==> (bit_is_set(mask, j) <==> low <= j < low + len)
}

/// Every bit of `word` below `low` is taken, and the `len` bits from `low`
/// on are free.
pub open spec fn lowest_free_run(word: u32, low: int, len: int) -> bool {
    &&& 0 <= low
    &&& 0 <= len
    &&& low + len <= 32
    &&& forall|j: int| #![trigger bit_is_set(word, j)] 0 <= j < low ==> bit_is_set(word, j)
    &&& forall|j: int|
        #![trigger bit_is_set(word, j)]
        low <= j < low + len ==> !bit_is_set(word, j)
}

/// `u32::count_zeros` of the standard library, which counts the zero bits in
/// the binary representation of its argument. The bits of a `u32` are its
/// bits 0 to 31, so the count is `zero_count`.
pub assume_specification[ u32::count_zeros ](i: u32) -> (r: u32)
    ensures
        r == zero_count(i),
;

/// No frame of the word is taken.
pub fn is_empty(num: u32) -> (r: bool)
    ensures
        r <==> num == 0,
        r <==> zero_count(num) == 32,
{
    proof {
        lemma_zero_count_extremes(num);
    }
    num == 0
}

/// At least one frame of the word is free.
pub fn is_not_full(num: u32) -> (r: bool)
    ensures
        r <==> num != FULL_WORD,
        r <==> zero_count(num) > 0,
{
    proof {
        lemma_zero_count_extremes(num);
    }
    !(num == 0xffff_ffff)
}

/// The word with its lowest `shift` bits set, `2^shift - 1`; every bit is
/// set from `shift = 32` on.
pub fn left_shift_ones(shift: u32) -> (r: u32)
    ensures
        r == low_ones(shift as nat),
{
    if shift >= 32 {
        FULL_WORD
    } else {
        proof {
            lemma_bit_low_ones(shift, 0);
            assert(!0u32 == 0xffff_ffffu32) by (bit_vector);
        }
        !(!0u32 << shift)
    }
}

/// The word with its highest `shift` bits set; every bit is set from
/// `shift = 32` on.
pub fn right_shift_ones(shift: u32) -> (r: u32)
    ensures
        r == high_ones(shift as nat),
{
    if shift >= 32 {
        FULL_WORD
    } else {
        proof {
            lemma_bit_high_ones(shift, 0);
            assert(!0u32 == 0xffff_ffffu32) by (bit_vector);
        }
        !(!0u32 >> shift)
    }
}

/// The mask of the `num` lowest free bits of `bitmap`.
///
/// There is none where `bitmap` has fewer than `num` free bits. The search
/// shifts the word up by 0, 1, .. 31 bits and stops where the bits that are
/// left hold exactly `num` zeros; with `num == 0` there is such a shift only
/// if bit 0 is taken, and the mask is then empty.
pub fn calculate_bitmask(bitmap: u32, num: u32) -> (r: Option<u32>)
    ensures
        r is Some <==> has_bitmask(bitmap, num as nat),
        r matches Some(mask) ==> marks_lowest_free(bitmap, num as nat, mask),
{
    if num > bitmap.count_zeros() {
        return None;
    }
    let mut x: u32 = 0;
    while x < 32
        invariant
            x <= 32,
            num <= zero_count(bitmap),
            forall|k: nat| 32 - x < k <= 32 ==> zeros_below(bitmap, k) != num,
        decreases 32 - x,
    {
        let shifted = bitmap << x;
        proof {
            lemma_zeros_below_shl(bitmap, x, 32);
            lemma_zeros_below_step(bitmap, 0, (32 - x) as nat);
        }
        if shifted.count_zeros() - x == num {
            let mask = (!shifted) >> x;
            proof {
                assert forall|j: int| #![trigger bit_is_set(mask, j)] 0 <= j < 32 implies (
                bit_is_set(mask, j) <==> (j < 32 - x && !bit_is_set(bitmap, j))) by {
                    lemma_bit_not_shl_shr(bitmap, x, j as u32);
                }
                lemma_prefix_marks_lowest_free(bitmap, num as nat, (32 - x) as nat, mask);
                if num == 0 {
                    lemma_zeros_below_step(bitmap, 1, (32 - x) as nat);
                }
            }
            return Some(mask);
        }
        x += 1;
    }
    proof {
        if num > 0 {
            lemma_zeros_below_skips(bitmap, num as nat, 32);
        } else {
            assert(zeros_below(bitmap, 1) != 0);
            assert(zeros_below(bitmap, 0) == 0);
        }
    }
    None
}

/// The shape of a mask of the `n` lowest free bits of a word that has `n`
/// free bits: it has `n` ones, and none of them is on a bit that is taken in
/// the word.
pub proof fn lemma_bitmask_shape(word: u32, n: nat, mask: u32)
    requires
        marks_lowest_free(word, n, mask),
        n <= zero_count(word),
    ensures
        one_count(mask) == n,
        mask & word == 0,
{
    lemma_mask_zeros_below(word, n, mask, 32);
    assert forall|j: int| 0 <= j < 32 implies !bit_is_set(mask & word, j) by {
        lemma_bits_of_and_or(mask, word, j);
        assert(bit_is_set(mask, j) <==> among_lowest_free(word, n, j));
    }
    lemma_no_bit_is_zero(mask & word);
}

/// Where the lowest free bits of `word` lie side by side, at least `n` of
/// them, the mask of its `n` lowest free bits is one run of `n` bits. Where
/// they do not, it is not: the two lowest free bits of `0b0101` are bits 1
/// and 3.
pub proof fn lemma_bitmask_contiguous(word: u32, n: nat, mask: u32, low: int)
    requires
        marks_lowest_free(word, n, mask),
        lowest_free_run(word, low, n as int),
    ensures
        is_run(mask, low, n as int),
{
    assert forall|j: int| #![trigger bit_is_set(mask, j)] 0 <= j < 32 implies (bit_is_set(mask, j)
        <==> low <= j < low + n) by {
        assert(bit_is_set(mask, j) <==> among_lowest_free(word, n, j));
        if j < low + n {
            lemma_zeros_below_run(word, low, n as int, (j + 1) as nat);
            assert(bit_is_set(word, j) <==> j < low);
        } else {
            lemma_zeros_below_run(word, low, n as int, (low + n) as nat);
            lemma_zeros_below_step(word, (low + n) as nat, j as nat);
        }
    }
}

/// A mask of the `n` lowest free bits of a word is one run only where these
/// bits lie side by side: if it is the run of `n` bits from `low` on, then
/// every bit of the word below `low` is taken and the `n` bits from `low` on
/// are free.
pub proof fn lemma_bitmask_run_is_lowest_free_run(word: u32, n: nat, mask: u32, low: int)
    requires
        marks_lowest_free(word, n, mask),
        is_run(mask, low, n as int),
        0 <= low,
        low + n <= 32,
        n >= 1,
    ensures
        lowest_free_run(word, low, n as int),
{
    assert(bit_is_set(mask, low));
    assert(among_lowest_free(word, n, low));
    assert forall|j: int| #![trigger bit_is_set(word, j)] 0 <= j < low implies bit_is_set(
        word,
        j,
    ) by {
        assert(bit_is_set(mask, j) <==> among_lowest_free(word, n, j));
        lemma_zeros_below_step(word, (j + 1) as nat, (low + 1) as nat);
    }
    assert forall|j: int| #![trigger bit_is_set(word, j)] low <= j < low + n implies !bit_is_set(
        word,
        j,
    ) by {
        assert(bit_is_set(mask, j) <==> among_lowest_free(word, n, j));
    }
}

/// A word has only one mask of its `n` lowest free bits.
pub proof fn lemma_bitmask_unique(word: u32, n: nat, a: u32, b: u32)
    requires
        marks_lowest_free(word, n, a),
        marks_lowest_free(word, n, b),
    ensures
        a == b,
{
    assert forall|j: int| 0 <= j < 32 implies bit_is_set(a, j) == bit_is_set(b, j) by {
        assert(bit_is_set(a, j) <==> among_lowest_free(word, n, j));
        assert(bit_is_set(b, j) <==> among_lowest_free(word, n, j));
    }
    lemma_words_equal(a, b);
}

/// The mask of the one lowest free bit of a word that is not full is a
/// single bit: that at the position which `trailing_zeros` gives for the
/// mask. Below it every bit of the word is taken.
pub proof fn lemma_single_lowest_free(word: u32, mask: u32)
    requires
        marks_lowest_free(word, 1, mask),
        word != FULL_WORD,
    ensures
        u32_trailing_zeros(mask) < 32,
        mask == single_bit(u32_trailing_zeros(mask) as int),
        lowest_free_run(word, u32_trailing_zeros(mask) as int, 1),
{
    let p = u32_trailing_zeros(mask) as int;
    lemma_zero_count_extremes(word);
    lemma_bitmask_shape(word, 1, mask);
    lemma_zero_count_extremes(mask);
    axiom_u32_trailing_zeros(mask);
    assert(bit_is_set(mask, p));
    assert(among_lowest_free(word, 1, p));
    assert forall|j: int| #![trigger bit_is_set(word, j)] 0 <= j < p implies bit_is_set(
        word,
        j,
    ) by {
        lemma_zeros_below_step(word, 0, j as nat);
        lemma_zeros_below_step(word, (j + 1) as nat, p as nat);
    }
    assert forall|j: int| 0 <= j < 32 implies bit_is_set(mask, j) == bit_is_set(
        single_bit(p),
        j,
    ) by {
        lemma_single_bit_bits(p, j);
        assert(bit_is_set(mask, j) <==> among_lowest_free(word, 1, j));
        if j > p {
            lemma_zeros_below_step(word, (p + 1) as nat, j as nat);
        }
    }
    lemma_words_equal(mask, single_bit(p));
}

/// The empty mask marks the lowest free bits of a word where none is asked
/// for.
pub proof fn lemma_empty_mask(word: u32)
    ensures
        marks_lowest_free(word, 0, 0),
{
    lemma_zero_count_extremes(0);
    assert forall|j: int| #![trigger bit_is_set(0u32, j)] 0 <= j < 32 implies !bit_is_set(
        0u32,
        j,
    ) by {
        lemma_zeros_below_step(0, 0, j as nat);
        lemma_zeros_below_step(0, (j + 1) as nat, 32);
    }
}

/// Two words with the same bits are the same word.
pub proof fn lemma_words_equal(a: u32, b: u32)
    requires
        forall|j: int| 0 <= j < 32 ==> bit_is_set(a, j) == bit_is_set(b, j),
    ensures
        a == b,
{
    assert forall|j: int| 0 <= j < 32 implies !bit_is_set(a ^ b, j) by {
        lemma_bit_xor(a, b, j as u32);
        assert(bit_is_set(a, j) == bit_is_set(b, j));
    }
    lemma_no_bit_is_zero(a ^ b);
    lemma_xor_zero(a, b);
}

/// A word has 32 zeros exactly when it is zero, and none exactly when every
/// bit of it is one.
pub proof fn lemma_zero_count_extremes(word: u32)
    ensures
        zero_count(word) <= 32,
        zero_count(word) == 32 <==> word == 0,
        zero_count(word) == 0 <==> word == FULL_WORD,
{
    lemma_zeros_below_step(word, 0, 32);
    if zero_count(word) == 32 {
        assert forall|j: int| 0 <= j < 32 implies !bit_is_set(word, j) by {
            lemma_zeros_below_step(word, 0, j as nat);
            lemma_zeros_below_step(word, (j + 1) as nat, 32);
        }
        lemma_no_bit_is_zero(word);
    }
    if word == 0 {
        lemma_zeros_of_clear_bits(word, 32);
    }
    if zero_count(word) == 0 {
        assert forall|j: int| 0 <= j < 32 implies bit_is_set(word, j) == bit_is_set(
            FULL_WORD,
            j,
        ) by {
            lemma_zeros_below_step(word, 0, j as nat);
            lemma_zeros_below_step(word, (j + 1) as nat, 32);
            lemma_low_ones_bits(32, j);
        }
        lemma_words_equal(word, FULL_WORD);
    }
    if word == FULL_WORD {
        lemma_zeros_of_set_bits(word, 32);
    }
}

/// Between two prefixes of a word the count of zeros grows by at most the
/// number of bits added.
pub proof fn lemma_zeros_below_step(word: u32, a: nat, b: nat)
    requires
        a <= b,
    ensures
        zeros_below(word, a) <= zeros_below(word, b) <= zeros_below(word, a) + (b - a),
        zeros_below(word, a) <= a,
    decreases b,
{
    if a < b {
        lemma_zeros_below_step(word, a, (b - 1) as nat);
    } else if a > 0 {
        lemma_zeros_below_step(word, (a - 1) as nat, (a - 1) as nat);
    }
}

/// Bit `j` of `low_ones(k)` is one exactly for `j < k`.
pub proof fn lemma_low_ones_bits(k: nat, j: int)
    requires
        0 <= j < 32,
    ensures
        bit_is_set(low_ones(k), j) <==> j < k,
{
    if k < 32 {
        lemma_bit_low_ones(k as u32, j as u32);
    } else {
        lemma_bit_low_ones(0, j as u32);
    }
}

/// Bit `j` of `high_ones(k)` is one exactly for `j >= 32 - k`.
pub proof fn lemma_high_ones_bits(k: nat, j: int)
    requires
        0 <= j < 32,
    ensures
        bit_is_set(high_ones(k), j) <==> j >= 32 - k,
{
    if k < 32 {
        lemma_bit_high_ones(k as u32, j as u32);
    } else {
        lemma_bit_low_ones(0, j as u32);
    }
}

/// Bit `j` of `single_bit(b)` is one exactly for `j == b`.
pub proof fn lemma_single_bit_bits(b: int, j: int)
    requires
        0 <= b < 32,
        0 <= j < 32,
    ensures
        bit_is_set(single_bit(b), j) <==> j == b,
{
    lemma_bit_single(b as u32, j as u32);
}

/// The bits of `a & b`, of `a | b` and of `a & !b`, from those of `a` and `b`.
pub proof fn lemma_bits_of_and_or(a: u32, b: u32, j: int)
    requires
        0 <= j < 32,
    ensures
        bit_is_set(a & b, j) <==> (bit_is_set(a, j) && bit_is_set(b, j)),
        bit_is_set(a | b, j) <==> (bit_is_set(a, j) || bit_is_set(b, j)),
        bit_is_set(a & !b, j) <==> (bit_is_set(a, j) && !bit_is_set(b, j)),
{
    lemma_bit_and(a, b, j as u32);
}

/// Bit `j` of `w << x`, in the terms of the solver for bit vectors.
proof fn lemma_bit_shl(w: u32, x: u32, j: u32)
    by (bit_vector)
    requires
        x < 32,
        j < 32,
    ensures
        (((w << x) >> j) & 1 == 1) <==> (j >= x && (w >> ((j - x) as u32)) & 1 == 1),
{
}

/// Bit `j` of `!(w << x) >> x`: the free bits of `w` below `32 - x`.
proof fn lemma_bit_not_shl_shr(w: u32, x: u32, j: u32)
    by (bit_vector)
    requires
        x < 32,
        j < 32,
    ensures
        ((((!(w << x)) >> x) >> j) & 1 == 1) <==> (j < 32 - x && (w >> j) & 1 != 1),
{
}

/// The bits of `word << x` are those of `word`, moved up by `x`; the lowest
/// `x` bits are zero.
proof fn lemma_shl_bits(word: u32, x: u32, j: int)
    requires
        x < 32,
        0 <= j < 32,
    ensures
        bit_is_set(word << x, j) <==> (j >= x && bit_is_set(word, j - x)),
{
    lemma_bit_shl(word, x, j as u32);
}

/// Counting the zeros of `word << x`: the `x` zeros that the shift brought in,
/// then the zeros of the low bits of `word`.
proof fn lemma_zeros_below_shl(word: u32, x: u32, k: nat)
    requires
        x < 32,
        k <= 32,
    ensures
        zeros_below(word << x, k) == if k <= x {
            k as int
        } else {
            x + zeros_below(word, (k - x) as nat)
        },
    decreases k,
{
    if k > 0 {
        lemma_zeros_below_shl(word, x, (k - 1) as nat);
        lemma_shl_bits(word, x, k - 1);
        if k > x {
            assert(zeros_below(word, (k - x) as nat) == zeros_below(word, (k - x - 1) as nat)
                + if bit_is_set(word, k - x - 1) {
                0nat
            } else {
                1nat
            });
        }
    }
}

/// A word none of whose bits is one is zero.
proof fn lemma_no_bit_is_zero(word: u32)
    requires
        forall|j: int| 0 <= j < 32 ==> !bit_is_set(word, j),
    ensures
        word == 0,
{
    axiom_u32_trailing_zeros(word);
    let t = u32_trailing_zeros(word);
    if t < 32 {
        assert(bit_is_set(word, t as int));
    }
}

/// Bit `j` of `a ^ b` is one where `a` and `b` differ in bit `j`.
proof fn lemma_bit_xor(a: u32, b: u32, j: u32)
    by (bit_vector)
    requires
        j < 32,
    ensures
        (((a ^ b) >> j) & 1 == 1) <==> (((a >> j) & 1 == 1) != ((b >> j) & 1 == 1)),
{
}

/// Words whose exclusive or is zero are equal.
proof fn lemma_xor_zero(a: u32, b: u32)
    by (bit_vector)
    requires
        a ^ b == 0,
    ensures
        a == b,
{
}

/// The word with the `k` lowest bits set, and its bits.
proof fn lemma_bit_low_ones(k: u32, j: u32)
    by (bit_vector)
    requires
        k < 32,
        j < 32,
    ensures
        !(0xffff_ffffu32 << k) == (1u32 << k) - 1,
        ((!(0xffff_ffffu32 << k) >> j) & 1 == 1) <==> j < k,
        ((0xffff_ffffu32 >> j) & 1 == 1),
{
}

/// The word with the `k` highest bits set, and its bits.
proof fn lemma_bit_high_ones(k: u32, j: u32)
    by (bit_vector)
    requires
        k < 32,
        j < 32,
    ensures
        !(0xffff_ffffu32 >> k) == 0xffff_ffffu32 - (0xffff_ffffu32 >> k),
        ((!(0xffff_ffffu32 >> k) >> j) & 1 == 1) <==> j >= 32 - k,
{
}

/// No bit of the zero word is one.
proof fn lemma_bit_of_zero(j: u32)
    by (bit_vector)
    requires
        j < 32,
    ensures
        (0u32 >> j) & 1 == 0,
{
}

/// In the zero word every bit below `k` counts.
proof fn lemma_zeros_of_clear_bits(word: u32, k: nat)
    requires
        word == 0,
        k <= 32,
    ensures
        zeros_below(word, k) == k,
    decreases k,
{
    if k > 0 {
        lemma_zeros_of_clear_bits(word, (k - 1) as nat);
        lemma_bit_of_zero((k - 1) as u32);
    }
}

/// In the full word no bit below `k` counts.
proof fn lemma_zeros_of_set_bits(word: u32, k: nat)
    requires
        word == FULL_WORD,
        k <= 32,
    ensures
        zeros_below(word, k) == 0,
    decreases k,
{
    if k > 0 {
        lemma_zeros_of_set_bits(word, (k - 1) as nat);
        lemma_low_ones_bits(32, k - 1);
    }
}

/// The free bits of `word` below `len`, where these are `n` in number, are
/// the `n` lowest free bits of `word`.
proof fn lemma_prefix_marks_lowest_free(word: u32, n: nat, len: nat, mask: u32)
    requires
        len <= 32,
        zeros_below(word, len) == n,
        forall|j: int|
            #![trigger bit_is_set(mask, j)]
            0 <= j < 32 ==> (bit_is_set(mask, j) <==> (j < len && !bit_is_set(word, j))),
    ensures
        marks_lowest_free(word, n, mask),
{
    assert forall|j: int| #![trigger bit_is_set(mask, j)] 0 <= j < 32 implies (bit_is_set(mask, j)
        <==> among_lowest_free(word, n, j)) by {
        if j < len {
            lemma_zeros_below_step(word, (j + 1) as nat, len);
        } else {
            lemma_zeros_below_step(word, len, j as nat);
        }
    }
}

/// The count of zeros below `k` takes every value between 0 and the count
/// of the whole word: if it is `n` for no `k` from 1 to `limit`, it stays
/// below `n` there, unless `n` is 0.
proof fn lemma_zeros_below_skips(word: u32, n: nat, limit: nat)
    requires
        n > 0,
        forall|k: nat| 1 <= k <= limit ==> zeros_below(word, k) != n,
    ensures
        zeros_below(word, limit) < n,
    decreases limit,
{
    if limit > 0 {
        lemma_zeros_below_skips(word, n, (limit - 1) as nat);
        assert(zeros_below(word, limit) != n);
    }
}

/// Bit `j` of `a & b`, of `a | b` and of `a & !b`.
proof fn lemma_bit_and(a: u32, b: u32, j: u32)
    by (bit_vector)
    requires
        j < 32,
    ensures
        (((a & b) >> j) & 1 == 1) <==> ((a >> j) & 1 == 1 && (b >> j) & 1 == 1),
        (((a | b) >> j) & 1 == 1) <==> ((a >> j) & 1 == 1 || (b >> j) & 1 == 1),
        (((a & !b) >> j) & 1 == 1) <==> ((a >> j) & 1 == 1 && (b >> j) & 1 != 1),
{
}

/// Below `k`, a mask of the `n` lowest free bits of `word` has a one for
/// each free bit of `word`, up to `n` of them.
proof fn lemma_mask_zeros_below(word: u32, n: nat, mask: u32, k: nat)
    requires
        marks_lowest_free(word, n, mask),
        k <= 32,
    ensures
        zeros_below(mask, k) == k - if zeros_below(word, k) <= n {
            zeros_below(word, k)
        } else {
            n
        },
    decreases k,
{
    if k > 0 {
        lemma_mask_zeros_below(word, n, mask, (k - 1) as nat);
        assert(bit_is_set(mask, k - 1) <==> among_lowest_free(word, n, k - 1));
    }
}

/// Below a lowest free run no bit counts, and within it every bit does.
proof fn lemma_zeros_below_run(word: u32, low: int, len: int, k: nat)
    requires
        lowest_free_run(word, low, len),
        k <= low + len,
    ensures
        zeros_below(word, k) == if k <= low {
            0
        } else {
            k - low
        },
    decreases k,
{
    if k > 0 {
        lemma_zeros_below_run(word, low, len, (k - 1) as nat);
        assert(bit_is_set(word, k - 1) <==> k - 1 < low);
    }
}

/// Bit `j` of `1 << b` is one exactly for `j == b`.
proof fn lemma_bit_single(b: u32, j: u32)
    by (bit_vector)
    requires
        b < 32,
        j < 32,
    ensures
        (((1u32 << b) >> j) & 1 == 1) <==> j == b,
{
}

} // verus!

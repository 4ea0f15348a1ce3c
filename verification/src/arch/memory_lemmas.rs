//! What holds of the frame bitmap whatever state it is in, proved from the
//! contracts of its operations.

use vstd::prelude::*;
use crate::arch::address::PhysicalAddress;
use crate::arch::bitmap::{
    among_lowest_free, bit_is_set, lemma_bitmask_shape, lemma_bits_of_and_or,
    lemma_low_ones_bits, lemma_single_bit_bits, lemma_zero_count_extremes, low_ones, single_bit,
    FULL_WORD,
};
use crate::arch::memory::{
    allocation_in_word, frame_address, frame_allocation, frame_is_free, frame_is_taken,
    with_bits_cleared, with_bits_set, with_frame_taken, with_frames_reserved, MemoryError,
    PhysicalMemoryMap, FRAME_SIZE, NUM_BITMAP_ENTRIES,
};
use crate::bsp::memory_map::{DRAM_SIZE, DRAM_START};

verus! {

/// Every frame of DRAM has a bit in the bitmap. `get_physical_address` can
/// be asked for it, and the address it gives lies in DRAM, on a frame
/// boundary.
pub proof fn lemma_every_frame_has_an_address(map: PhysicalMemoryMap, index: int, offset: int)
    requires
        map.well_formed(),
        0 <= index,
        0 <= offset < 32,
        index * 32 + offset < DRAM_SIZE / FRAME_SIZE,
    ensures
        index < NUM_BITMAP_ENTRIES,
        index < map@.len(),
        frame_address(map.start(), index * 32 + offset) <= u32::MAX,
        DRAM_START <= frame_address(map.start(), index * 32 + offset) < DRAM_START + DRAM_SIZE,
        frame_address(map.start(), index * 32 + offset) % (FRAME_SIZE as int) == 0,
{
    map.lemma_well_formed();
}

/// Taking a frame leaves every frame taken that was, and takes that one.
pub proof fn lemma_taken_frames_stay(table: Seq<u32>, frame: int, f: int)
    requires
        0 <= frame < table.len() * 32,
    ensures
        frame_is_taken(with_frame_taken(table, frame), f) <==> (frame_is_taken(table, f) || f
            == frame),
{
    if 0 <= f < table.len() * 32 {
        lemma_bits_of_and_or(table[frame / 32], single_bit(frame % 32), f % 32);
        lemma_single_bit_bits(frame % 32, f % 32);
    }
}

/// A frame that is taken is not given out: the request for one frame returns
/// the address of another, and leaves this one taken.
pub proof fn lemma_taken_frame_is_not_given_out(
    pre: Seq<u32>,
    start: u32,
    post: Seq<u32>,
    addr: PhysicalAddress,
    f: int,
)
    requires
        frame_allocation(pre, start, post, Ok(addr)),
        frame_is_taken(pre, f),
    ensures
        addr@ != frame_address(start, f),
        frame_is_taken(post, f),
{
    let frame = (addr@ - start) / (FRAME_SIZE as int);
    lemma_taken_frames_stay(pre, frame, f);
}

/// However many frames are asked for one after the other, with nothing
/// freed in between, no address is given out twice: of the results of a row
/// of successful calls of `allocate_frame`, each made in the state that the
/// one before left, any two differ.
pub proof fn lemma_allocated_frames_differ(
    states: Seq<Seq<u32>>,
    start: u32,
    results: Seq<PhysicalAddress>,
    i: int,
    j: int,
)
    requires
        states.len() == results.len() + 1,
        forall|k: int|
            0 <= k < results.len() ==> frame_allocation(
                #[trigger] states[k],
                start,
                states[k + 1],
                Ok(results[k]),
            ),
        0 <= i < j < results.len(),
    ensures
        results[i]@ != results[j]@,
{
    let frame = (results[i]@ - start) / (FRAME_SIZE as int);
    assert(frame_allocation(states[i], start, states[i + 1], Ok(results[i])));
    assert(frame_allocation(states[j], start, states[j + 1], Ok(results[j])));
    lemma_taken_frames_stay(states[i], frame, frame);
    lemma_frame_stays_taken(states, start, results, frame, i + 1, j);
}

/// A frame that is taken in state `from` of a row of allocations is taken in
/// every later state.
proof fn lemma_frame_stays_taken(
    states: Seq<Seq<u32>>,
    start: u32,
    results: Seq<PhysicalAddress>,
    frame: int,
    from: int,
    to: int,
)
    requires
        states.len() == results.len() + 1,
        forall|k: int|
            0 <= k < results.len() ==> frame_allocation(
                #[trigger] states[k],
                start,
                states[k + 1],
                Ok(results[k]),
            ),
        0 <= from <= to <= results.len(),
        frame_is_taken(states[from], frame),
    ensures
        frame_is_taken(states[to], frame),
    decreases to - from,
{
    if from < to {
        lemma_frame_stays_taken(states, start, results, frame, from, to - 1);
        assert(frame_allocation(states[to - 1], start, states[to - 1 + 1], Ok(results[to - 1])));
        let taken = (results[to - 1]@ - start) / (FRAME_SIZE as int);
        lemma_taken_frames_stay(states[to - 1], taken, frame);
    }
}

/// After the first `frames` frames were reserved in a bitmap that had every
/// frame free, exactly these frames are taken: the first `frames` bits,
/// counting from bit 0 of word 0 through each word in turn, are one and all
/// the others are zero.
pub proof fn lemma_reservation_takes_first_frames(table: Seq<u32>, frames: nat, f: int)
    requires
        forall|i: int| 0 <= i < table.len() ==> table[i] == 0,
        frames <= table.len() * 32,
        0 <= f < table.len() * 32,
    ensures
        frame_is_taken(with_frames_reserved(table, frames), f) <==> f < frames,
{
    let i = f / 32;
    lemma_low_ones_bits(32, f % 32);
    lemma_low_ones_bits((frames - 32 * i) as nat, f % 32);
    lemma_low_ones_bits(0, f % 32);
    assert(low_ones(0) == 0) by {
        assert((1u32 << 0u32) - 1 == 0) by (bit_vector);
    }
}

/// Reserving the same frames a second time changes nothing.
pub proof fn lemma_reservation_idempotent(table: Seq<u32>, frames: nat)
    ensures
        with_frames_reserved(with_frames_reserved(table, frames), frames) == with_frames_reserved(
            table,
            frames,
        ),
{
    assert(with_frames_reserved(with_frames_reserved(table, frames), frames)
        =~= with_frames_reserved(table, frames));
}

proof fn lemma_set_then_clear(word: u32, bits: u32)
    by (bit_vector)
    requires
        word & bits == 0,
    ensures
        (word | bits) & !bits == word,
{
}

/// Setting bits in a word where none of them was set, and clearing the same
/// bits again, leaves the bitmap as it was.
pub proof fn lemma_alloc_then_free(table: Seq<u32>, entry: int, bits: u32)
    requires
        0 <= entry < table.len(),
        table[entry] & bits == 0,
    ensures
        with_bits_cleared(with_bits_set(table, entry, bits), entry, bits) == table,
{
    lemma_set_then_clear(table[entry], bits);
    assert(with_bits_cleared(with_bits_set(table, entry, bits), entry, bits) =~= table);
}

proof fn lemma_or_nothing(word: u32)
    by (bit_vector)
    ensures
        word | 0 == word,
{
}

/// A request for no frame that succeeds takes nothing: its mask is empty and
/// the bitmap is as it was.
pub proof fn lemma_request_for_no_frame(
    pre: Seq<u32>,
    post: Seq<u32>,
    index: usize,
    mask: u32,
)
    requires
        allocation_in_word(pre, 0, post, Ok((index, mask))),
    ensures
        mask == 0,
        post == pre,
{
    let word = pre[index as int];
    lemma_bitmask_shape(word, 0, mask);
    lemma_zero_count_extremes(mask);
    lemma_or_nothing(word);
    assert(post =~= pre);
}

/// With every frame taken, a request for one frame fails for want of
/// memory and leaves the bitmap as it is.
pub proof fn lemma_exhausted_frame(
    pre: Seq<u32>,
    start: u32,
    post: Seq<u32>,
    r: Result<PhysicalAddress, MemoryError>,
)
    requires
        forall|i: int| 0 <= i < pre.len() ==> pre[i] == FULL_WORD,
        frame_allocation(pre, start, post, r),
    ensures
        r == Err::<PhysicalAddress, MemoryError>(MemoryError::OutOfMemory),
        post == pre,
{
    if let Ok(addr) = r {
        let frame = (addr@ - start) / (FRAME_SIZE as int);
        assert(frame_is_free(pre, frame));
        lemma_low_ones_bits(32, frame % 32);
    }
}

/// With every frame taken, a request for frames in one word fails for want
/// of memory, however many are asked for, and leaves the bitmap as it is.
pub proof fn lemma_exhausted_word(
    pre: Seq<u32>,
    n: nat,
    post: Seq<u32>,
    r: Result<(usize, u32), MemoryError>,
)
    requires
        forall|i: int| 0 <= i < pre.len() ==> pre[i] == FULL_WORD,
        allocation_in_word(pre, n, post, r),
    ensures
        r == Err::<(usize, u32), MemoryError>(MemoryError::OutOfMemory),
        post == pre,
{
    if let Ok((index, mask)) = r {
        lemma_zero_count_extremes(pre[index as int]);
    }
}

/// The frames that a request is given were free before and are taken after,
/// and no other frame changes.
pub proof fn lemma_allocation_takes_only_its_frames(
    pre: Seq<u32>,
    n: nat,
    post: Seq<u32>,
    index: usize,
    mask: u32,
    f: int,
)
    requires
        allocation_in_word(pre, n, post, Ok((index, mask))),
        0 <= f < pre.len() * 32,
    ensures
        f / 32 == index && bit_is_set(mask, f % 32) ==> frame_is_free(pre, f) && frame_is_taken(
            post,
            f,
        ),
        !(f / 32 == index && bit_is_set(mask, f % 32)) ==> (frame_is_taken(post, f)
            <==> frame_is_taken(pre, f)),
{
    let word = pre[index as int];
    lemma_bits_of_and_or(word, mask, f % 32);
    if n > 32 {
        lemma_zero_count_extremes(word);
        lemma_low_ones_bits(0, f % 32);
        assert(low_ones(0) == 0) by {
            assert((1u32 << 0u32) - 1 == 0) by (bit_vector);
        }
    } else {
        assert(bit_is_set(mask, f % 32) <==> among_lowest_free(word, n, f % 32));
    }
}

} // verus!

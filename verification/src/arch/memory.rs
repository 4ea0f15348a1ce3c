//! The physical memory manager: a bitmap over the 4 KiB frames of DRAM.
//!
//! One 32-bit word of the bitmap tracks 32 frames, 128 KiB of memory. Bit
//! `b` of word `i` stands for the frame `i * 32 + b`, counted from the start
//! of DRAM; it is one while the frame is taken and zero while it is free.

use vstd::prelude::*;
use crate::arch::address::PhysicalAddress;
use crate::arch::bitmap::{
    bit_is_set, calculate_bitmask, is_empty, is_not_full, left_shift_ones, lemma_empty_mask,
    lemma_low_ones_bits, lemma_single_lowest_free, low_ones, marks_lowest_free, single_bit,
    zero_count, FULL_WORD,
};
use crate::arch::paging::PageError;
use crate::bsp::memory_map::{DRAM_SIZE, DRAM_SIZE_KB, DRAM_START};
use crate::kernel::kernel_info::{kernel_memory_size, KernelImage};

verus! {

/// Why the memory manager could not do what was asked.
#[derive(Copy, Clone, Debug, PartialEq, Eq, Structural)]
pub enum MemoryError {
    /// An error of the page-table layer.
    PagingError(PageError),
    /// No free frames are left that would serve the request.
    OutOfMemory,
}

/// The kind of memory behind a page.
#[derive(Copy, Clone, Debug, PartialEq, Eq, Structural)]
pub enum MemoryType {
    /// Ordinary memory.
    DRAM,
    /// The registers of a device.
    Device,
}

/// What may be done with a page.
#[derive(Copy, Clone, Debug, PartialEq, Eq, Structural)]
pub enum Permission {
    /// The page can be read.
    ReadOnly,
    /// The page can be read and written.
    ReadWrite,
}

/// The attributes of a mapped page.
#[derive(Copy, Clone, Debug)]
pub struct PageAttributes {
    mem_type: MemoryType,
    perms: Permission,
    unpriv: bool,
    accessed: bool,
    dirty: bool,
    executable: bool,
}

impl PageAttributes {
    /// The kind of memory behind the page.
    pub closed spec fn mem_type(&self) -> MemoryType {
        self.mem_type
    }

    /// What may be done with the page.
    pub closed spec fn perms(&self) -> Permission {
        self.perms
    }

    /// Unprivileged code may use the page.
    pub closed spec fn unpriv(&self) -> bool {
        self.unpriv
    }

    /// The page has been accessed.
    pub closed spec fn accessed(&self) -> bool {
        self.accessed
    }

    /// The page has been written to.
    pub closed spec fn dirty(&self) -> bool {
        self.dirty
    }

    /// Code may be run from the page.
    pub closed spec fn executable(&self) -> bool {
        self.executable
    }
}

impl Default for PageAttributes {
    /// A page of ordinary memory that everyone may read and write and nobody
    /// may run, not yet accessed.
    fn default() -> (r: PageAttributes)
        ensures
            r.mem_type() == MemoryType::DRAM,
            r.perms() == Permission::ReadWrite,
            r.unpriv(),
            !r.accessed(),
            !r.dirty(),
            !r.executable(),
    {
        PageAttributes {
            mem_type: MemoryType::DRAM,
            perms: Permission::ReadWrite,
            unpriv: true,
            accessed: false,
            dirty: false,
            executable: false,
        }
    }
}

/// The state of a physical frame, in two bits: bit 0 says that the frame is
/// in use, bit 1 that it belongs to the kernel.
#[derive(Copy, Clone, Debug)]
pub struct FrameAttributes(u8);

impl View for FrameAttributes {
    type V = u8;

    closed spec fn view(&self) -> u8 {
        self.0
    }
}

impl FrameAttributes {
    /// The tag of a frame that is not in use.
    pub fn new_inactive() -> (r: FrameAttributes)
        ensures
            r@ == 0b00,
    {
        FrameAttributes(0b0)
    }

    /// The tag of a frame that is in use.
    pub fn new_active() -> (r: FrameAttributes)
        ensures
            r@ == 0b01,
    {
        FrameAttributes(0b1)
    }

    /// The tag of a frame that the kernel itself occupies.
    pub fn new_kernel() -> (r: FrameAttributes)
        ensures
            r@ == 0b11,
    {
        FrameAttributes(0b11)
    }
}

/// Where a page table lies and how many of its entries are free.
pub struct PageTableManagement {
    address: PhysicalAddress,
    num_free: u8,
}

/// A region of physical memory, known by its size only.
pub struct PhysicalMemory {
    size: u32,
}

impl View for PhysicalMemory {
    type V = u32;

    closed spec fn view(&self) -> u32 {
        self.size
    }
}

impl PhysicalMemory {
    /// A region of `size` bytes.
    pub fn new(size: u32) -> (r: Self)
        ensures
            r@ == size,
    {
        PhysicalMemory { size: size }
    }
}

impl Drop for PhysicalMemory {
    /// Nothing is held that would have to be given back.
    fn drop(&mut self)
        opens_invariants none
        no_unwind
    {
    }
}

/// Size of a frame in bytes.
pub const FRAME_SIZE: u32 = 4096;

/// Number of words in the bitmap: one for every 128 KiB of DRAM.
pub const NUM_BITMAP_ENTRIES: usize = 2048;

/// Number of frames that the bitmap tracks.
pub const NUM_FRAMES: usize = 65536;

/// The bitmap has a word for every 128 KiB of DRAM and a bit for every frame
/// of it, with none to spare.
pub proof fn lemma_bitmap_covers_dram()
    ensures
        NUM_BITMAP_ENTRIES == DRAM_SIZE_KB / 128,
        NUM_FRAMES == NUM_BITMAP_ENTRIES * 32,
        NUM_FRAMES * FRAME_SIZE == DRAM_SIZE,
{
}

/// Frame `frame` is one that `table` tracks, and its bit is one.
pub open spec fn frame_is_taken(table: Seq<u32>, frame: int) -> bool {
    0 <= frame < table.len() * 32 && bit_is_set(table[frame / 32], frame % 32)
}

/// Frame `frame` is one that `table` tracks, and its bit is zero.
pub open spec fn frame_is_free(table: Seq<u32>, frame: int) -> bool {
    0 <= frame < table.len() * 32 && !bit_is_set(table[frame / 32], frame % 32)
}

/// The address of frame `frame` in memory that starts at `start`.
pub open spec fn frame_address(start: u32, frame: int) -> int {
    start + frame * FRAME_SIZE
}

/// `table` with the bits of `bits` set in word `entry`.
pub open spec fn with_bits_set(table: Seq<u32>, entry: int, bits: u32) -> Seq<u32> {
    table.update(entry, table[entry] | bits)
}

/// `table` with the bits of `bits` cleared in word `entry`.
pub open spec fn with_bits_cleared(table: Seq<u32>, entry: int, bits: u32) -> Seq<u32> {
    table.update(entry, table[entry] & !bits)
}

/// `word` can serve a request for `n` frames: it has more than `n` free bits
/// or, where more frames are asked for than a word holds, it is all free.
pub open spec fn word_serves(word: u32, n: nat) -> bool {
    if n > 32 {
        word == 0
    } else {
        zero_count(word) > n
    }
}

/// Word `index` of `table` is the first that can serve a request for `n`
/// frames.
pub open spec fn first_serving(table: Seq<u32>, n: nat, index: int) -> bool {
    &&& 0 <= index < table.len()
    &&& word_serves(table[index], n)
    &&& forall|k: int| 0 <= k < index ==> !word_serves(#[trigger] table[k], n)
}

/// No word of `table` can serve a request for `n` frames.
pub open spec fn none_serves(table: Seq<u32>, n: nat) -> bool {
    forall|k: int| 0 <= k < table.len() ==> !word_serves(#[trigger] table[k], n)
}

/// `mask` is what a request for `n` frames takes from `word`: its `n` lowest
/// free bits, or the whole word where more frames are asked for than a word
/// holds.
pub open spec fn request_mask(word: u32, n: nat, mask: u32) -> bool {
    if n > 32 {
        mask == FULL_WORD
    } else {
        marks_lowest_free(word, n, mask)
    }
}

/// What a request for `n` frames in one word makes of the bitmap `pre`: it
/// ends in `post` with the result `r`. The first word that can serve the
/// request gives the frames, and they are taken afterwards; where no word
/// can, the request fails and nothing changes.
pub open spec fn allocation_in_word(
    pre: Seq<u32>,
    n: nat,
    post: Seq<u32>,
    r: Result<(usize, u32), MemoryError>,
) -> bool {
    match r {
        Ok((index, mask)) => {
            &&& first_serving(pre, n, index as int)
            &&& request_mask(pre[index as int], n, mask)
            &&& post == with_bits_set(pre, index as int, mask)
        },
        Err(e) => {
            &&& e == MemoryError::OutOfMemory
            &&& none_serves(pre, n)
            &&& post == pre
        },
    }
}

/// `frame` is free in `table`, and every frame below it is taken.
pub open spec fn lowest_free_frame(table: Seq<u32>, frame: int) -> bool {
    &&& frame_is_free(table, frame)
    &&& forall|f: int| 0 <= f < frame ==> #[trigger] frame_is_taken(table, f)
}

/// `table` with the bit of `frame` set.
pub open spec fn with_frame_taken(table: Seq<u32>, frame: int) -> Seq<u32> {
    with_bits_set(table, frame / 32, single_bit(frame % 32))
}

/// What the request for one frame makes of the bitmap `pre` of memory that
/// starts at `start`: it ends in `post` with the result `r`. The lowest free
/// frame is taken and its address returned; where no frame is free, the
/// request fails and nothing changes.
pub open spec fn frame_allocation(
    pre: Seq<u32>,
    start: u32,
    post: Seq<u32>,
    r: Result<PhysicalAddress, MemoryError>,
) -> bool {
    match r {
        Ok(addr) => {
            let frame = (addr@ - start) / (FRAME_SIZE as int);
            &&& addr@ == frame_address(start, frame)
            &&& lowest_free_frame(pre, frame)
            &&& post == with_frame_taken(pre, frame)
        },
        Err(e) => {
            &&& e == MemoryError::OutOfMemory
            &&& forall|f: int| !frame_is_free(pre, f)
            &&& post == pre
        },
    }
}

/// The number of frames that `bytes` bytes reach into, from the start of the
/// first: the bytes divided by the size of a frame, rounded up.
pub open spec fn frames_spanned(bytes: nat) -> nat {
    (bytes + FRAME_SIZE - 1) as nat / (FRAME_SIZE as nat)
}

/// `table` after the first `frames` frames were reserved: a word all of
/// whose frames are among them is full, the word that holds the last of
/// them and frames beyond has its low bits set and the others clear, and
/// the words after it are as they were.
pub open spec fn with_frames_reserved(table: Seq<u32>, frames: nat) -> Seq<u32> {
    Seq::new(
        table.len(),
        |i: int|
            if 32 * (i + 1) <= frames {
                FULL_WORD
            } else if 32 * i < frames {
                low_ones((frames - 32 * i) as nat)
            } else {
                table[i]
            },
    )
}

/// Tracks which frames of physical memory are taken. Each entry is a bitmap
/// of 32 frames, 128 KiB of memory.
pub struct PhysicalMemoryMap {
    table: [u32; NUM_BITMAP_ENTRIES],
    memory_start: PhysicalAddress,
}

impl View for PhysicalMemoryMap {
    type V = Seq<u32>;

    /// The words of the bitmap, word 0 first.
    closed spec fn view(&self) -> Seq<u32> {
        self.table@
    }
}

impl PhysicalMemoryMap {
    /// The address of the memory that the bitmap describes: that of frame 0.
    pub closed spec fn start(&self) -> u32 {
        self.memory_start@
    }

    /// The bitmap describes DRAM: frame 0 is the first frame of DRAM.
    #[verifier::type_invariant]
    pub closed spec fn well_formed(&self) -> bool {
        self.memory_start@ == DRAM_START
    }

    /// What holds of every bitmap: it describes DRAM from its start, with a
    /// word for every 32 frames of it.
    pub proof fn lemma_well_formed(self)
        requires
            self.well_formed(),
        ensures
            self.start() == DRAM_START,
            self@.len() == NUM_BITMAP_ENTRIES,
    {
    }

    /// The bitmap of DRAM with every frame free.
    pub fn new() -> (r: PhysicalMemoryMap)
        ensures
            r@.len() == NUM_BITMAP_ENTRIES,
            forall|i: int| 0 <= i < NUM_BITMAP_ENTRIES ==> r@[i] == 0,
            r.start() == DRAM_START,
            r.well_formed(),
    {
        PhysicalMemoryMap {
            table: [0; NUM_BITMAP_ENTRIES],
            memory_start: PhysicalAddress::new(DRAM_START),
        }
    }

    /// Word `entry` of the bitmap, as it stands.
    pub fn get_entry(&mut self, entry: usize) -> (r: u32)
        requires
            entry < NUM_BITMAP_ENTRIES,
        ensures
            r == old(self)@[entry as int],
            *final(self) == *old(self),
    {
        self.table[entry]
    }

    /// Clears the bits of `bits_to_free` in word `entry`, whatever they were:
    /// the frames they stand for are free afterwards.
    pub fn free_raw(&mut self, entry: usize, bits_to_free: u32) -> (r: Result<(), PageError>)
        ensures
            final(self).start() == old(self).start(),
            entry < NUM_BITMAP_ENTRIES ==> r is Ok && final(self)@ == with_bits_cleared(
                old(self)@,
                entry as int,
                bits_to_free,
            ),
            entry >= NUM_BITMAP_ENTRIES ==> r == Err::<(), PageError>(PageError::NotInRange)
                && final(self)@ == old(self)@,
    {
        if entry > NUM_BITMAP_ENTRIES - 1 {
            return Err(PageError::NotInRange);
        }
        proof {
            use_type_invariant(&*self);
        }
        self.table[entry] = self.table[entry] & !bits_to_free;
        Ok(())
    }

    /// Sets the bits of `bits_to_alloc` in word `entry`, whatever they were:
    /// the frames they stand for are taken afterwards.
    pub fn alloc_raw(&mut self, entry: usize, bits_to_alloc: u32) -> (r: Result<(), PageError>)
        ensures
            final(self).start() == old(self).start(),
            entry < NUM_BITMAP_ENTRIES ==> r is Ok && final(self)@ == with_bits_set(
                old(self)@,
                entry as int,
                bits_to_alloc,
            ),
            entry >= NUM_BITMAP_ENTRIES ==> r == Err::<(), PageError>(PageError::NotInRange)
                && final(self)@ == old(self)@,
    {
        if entry > NUM_BITMAP_ENTRIES - 1 {
            return Err(PageError::NotInRange);
        }
        proof {
            use_type_invariant(&*self);
        }
        self.table[entry] = self.table[entry] | bits_to_alloc;
        Ok(())
    }

    /// Takes the first word in which every frame is free, whole: what a
    /// request for more frames than a word holds is given, here one for 33.
    fn find_empty_entry(&mut self) -> (r: Result<(usize, u32), MemoryError>)
        ensures
            final(self).start() == old(self).start(),
            allocation_in_word(old(self)@, 33, final(self)@, r),
    {
        let mut index: usize = 0;
        while index < NUM_BITMAP_ENTRIES
            invariant
                index <= NUM_BITMAP_ENTRIES,
                *self == *old(self),
                forall|k: int| 0 <= k < index ==> !word_serves(#[trigger] self@[k], 33),
            decreases NUM_BITMAP_ENTRIES - index,
        {
            if is_empty(self.table[index]) {
                proof {
                    use_type_invariant(&*self);
                }
                self.table[index] = 0xffff_ffff;
                proof {
                    assert(0u32 | 0xffff_ffffu32 == 0xffff_ffffu32) by (bit_vector);
                    assert(final(self)@ =~= with_bits_set(old(self)@, index as int, FULL_WORD));
                }
                return Ok((index, 0xffff_ffff));
            }
            index += 1;
        }
        Err(MemoryError::OutOfMemory)
    }

    /// Takes `num_pages` frames out of one word of the bitmap, and returns
    /// the index of the word and the mask of the frames taken.
    ///
    /// The word is the first with more than `num_pages` free frames, the
    /// frames are the lowest free ones of that word. A request for no frame
    /// takes none and names the first word that is not full. For more than
    /// 32 frames the first word that is all free is taken whole: 32 frames,
    /// whatever was asked for.
    pub fn find_entries(&mut self, num_pages: u32) -> (r: Result<(usize, u32), MemoryError>)
        ensures
            final(self).start() == old(self).start(),
            allocation_in_word(old(self)@, num_pages as nat, final(self)@, r),
    {
        if num_pages > 32 {
            self.find_empty_entry()
        } else {
            let mut index: usize = 0;
            while index < NUM_BITMAP_ENTRIES
                invariant
                    index <= NUM_BITMAP_ENTRIES,
                    num_pages <= 32,
                    *self == *old(self),
                    forall|k: int|
                        0 <= k < index ==> !word_serves(#[trigger] self@[k], num_pages as nat),
                decreases NUM_BITMAP_ENTRIES - index,
            {
                let word = self.table[index];
                if is_not_full(word) && word.count_zeros() > num_pages {
                    let bitmask = if num_pages == 0 {
                        proof {
                            lemma_empty_mask(word);
                        }
                        0
                    } else {
                        match calculate_bitmask(word, num_pages) {
                            None => return Err(MemoryError::OutOfMemory),
                            Some(bits) => bits,
                        }
                    };
                    proof {
                        use_type_invariant(&*self);
                    }
                    self.table[index] = word | bitmask;
                    proof {
                        assert(final(self)@ =~= with_bits_set(old(self)@, index as int, bitmask));
                    }
                    return Ok((index, bitmask));
                }
                index += 1;
            }
            Err(MemoryError::OutOfMemory)
        }
    }

    /// The address of the frame that bit `offset` of word `index` stands
    /// for. An `offset` of 32 names bit 0 of the next word.
    pub fn get_physical_address(&self, index: usize, offset: u32) -> (r: PhysicalAddress)
        requires
            offset <= 32,
            frame_address(self.start(), index * 32 + offset) <= u32::MAX,
        ensures
            r@ == frame_address(self.start(), index * 32 + offset),
    {
        let offset_from_base = ((index as u32) * 32 + offset) * 4;
        PhysicalAddress::new(self.memory_start.as_u32() + (offset_from_base * 1024))
    }

    /// Takes the lowest free frame and returns its address.
    ///
    /// The frame is the lowest free one of the first word that is not full.
    pub fn allocate_frame(&mut self) -> (r: Result<PhysicalAddress, MemoryError>)
        ensures
            final(self).start() == old(self).start(),
            frame_allocation(old(self)@, old(self).start(), final(self)@, r),
    {
        let mut index: usize = 0;
        while index < NUM_BITMAP_ENTRIES
            invariant
                index <= NUM_BITMAP_ENTRIES,
                *self == *old(self),
                forall|k: int| 0 <= k < index ==> #[trigger] self@[k] == FULL_WORD,
            decreases NUM_BITMAP_ENTRIES - index,
        {
            let word = self.table[index];
            if is_not_full(word) {
                let bitmask = match calculate_bitmask(word, 1) {
                    None => return Err(MemoryError::OutOfMemory),
                    Some(bits) => bits,
                };
                proof {
                    use_type_invariant(&*self);
                    lemma_single_lowest_free(word, bitmask);
                }
                self.table[index] = word | bitmask;
                let offset = bitmask.trailing_zeros();
                let addr = self.get_physical_address(index, offset);
                proof {
                    let frame = index * 32 + offset;
                    assert(frame / 32 == index && frame % 32 == offset);
                    assert((addr@ - old(self).start()) / (FRAME_SIZE as int) == frame);
                    assert(final(self)@ =~= with_frame_taken(old(self)@, frame));
                    assert forall|f: int| 0 <= f < frame implies #[trigger] frame_is_taken(
                        old(self)@,
                        f,
                    ) by {
                        if f / 32 < index {
                            lemma_low_ones_bits(32, f % 32);
                        } else {
                            assert(f / 32 == index);
                            assert(bit_is_set(word, f % 32));
                        }
                    }
                }
                return Ok(addr);
            }
            index += 1;
        }
        proof {
            assert forall|f: int| !frame_is_free(self@, f) by {
                if 0 <= f < self@.len() * 32 {
                    assert(self@[f / 32] == FULL_WORD);
                    lemma_low_ones_bits(32, f % 32);
                }
            }
        }
        Err(MemoryError::OutOfMemory)
    }

    /// Reserves the frames of the kernel image, which lies at the start of
    /// memory and is `kernel_memory_size` bytes long: the frames from frame
    /// 0 up to the one that holds the last byte of the image.
    ///
    /// An image that needs more frames than the bitmap has is refused, and
    /// nothing changes.
    pub fn alloc_kernel_frames(&mut self, kernel_memory_size: u32) -> (r: Result<(), MemoryError>)
        ensures
            final(self).start() == old(self).start(),
            frames_spanned(kernel_memory_size as nat) <= NUM_FRAMES ==> r is Ok && final(self)@
                == with_frames_reserved(old(self)@, frames_spanned(kernel_memory_size as nat)),
            frames_spanned(kernel_memory_size as nat) > NUM_FRAMES ==> r == Err::<
                (),
                MemoryError,
            >(MemoryError::OutOfMemory) && final(self)@ == old(self)@,
    {
        let frames: u32 = if kernel_memory_size % FRAME_SIZE == 0 {
            kernel_memory_size / FRAME_SIZE
        } else {
            kernel_memory_size / FRAME_SIZE + 1
        };
        if frames > NUM_FRAMES as u32 {
            return Err(MemoryError::OutOfMemory);
        }
        let mut k_frames: u32 = frames;
        let mut index: usize = 0;
        while k_frames > 0
            invariant
                index <= NUM_BITMAP_ENTRIES,
                frames <= NUM_FRAMES,
                frames == frames_spanned(kernel_memory_size as nat),
                k_frames + 32 * index == frames,
                self.start() == old(self).start(),
                self@.len() == NUM_BITMAP_ENTRIES,
                forall|i: int| 0 <= i < index ==> #[trigger] self@[i] == FULL_WORD,
                forall|i: int|
                    index <= i < NUM_BITMAP_ENTRIES ==> #[trigger] self@[i] == old(self)@[i],
            decreases k_frames,
        {
            proof {
                use_type_invariant(&*self);
            }
            if k_frames > 32 {
                self.table[index] = 0xffff_ffff;
                k_frames -= 32;
                index += 1;
            } else {
                self.table[index] = left_shift_ones(k_frames);
                proof {
                    assert(final(self)@ =~= with_frames_reserved(old(self)@, frames as nat));
                }
                return Ok(());
            }
        }
        proof {
            assert(final(self)@ =~= with_frames_reserved(old(self)@, frames as nat));
        }
        Ok(())
    }
}

/// The number of whole frames in the memory that the kernel occupies.
pub fn kernel_frames(image: &KernelImage) -> (r: u32)
    requires
        image.well_formed(),
    ensures
        r == (image.bss_end - image.vmem_start) / (FRAME_SIZE as int),
{
    let k_size = kernel_memory_size(image) as u32;
    k_size / 4096
}

} // verus!

use physmem::arch::bitmap::{
    calculate_bitmask, is_empty, is_not_full, left_shift_ones, right_shift_ones, FULL_WORD,
};

#[test]
fn empty_word_is_recognised() {
    assert!(is_empty(0));
    assert!(!is_empty(1));
    assert!(!is_empty(0x8000_0000));
    assert!(!is_empty(FULL_WORD));
}

#[test]
fn full_word_is_recognised() {
    assert!(!is_not_full(0xffff_ffff));
    assert!(is_not_full(0));
    assert!(is_not_full(0x7fff_ffff));
    assert!(is_not_full(0xffff_fffe));
}

#[test]
fn word_constants() {
    assert_eq!(FULL_WORD, u32::MAX);
}

#[test]
fn left_shift_ones_sets_low_bits() {
    assert_eq!(left_shift_ones(0), 0);
    assert_eq!(left_shift_ones(1), 1);
    assert_eq!(left_shift_ones(5), 0x1f);
    assert_eq!(left_shift_ones(31), 0x7fff_ffff);
}

#[test]
fn left_shift_ones_of_whole_word_and_more() {
    assert_eq!(left_shift_ones(32), 0xffff_ffff);
    assert_eq!(left_shift_ones(33), 0xffff_ffff);
    assert_eq!(left_shift_ones(u32::MAX), 0xffff_ffff);
}

#[test]
fn right_shift_ones_sets_high_bits() {
    assert_eq!(right_shift_ones(0), 0);
    assert_eq!(right_shift_ones(1), 0x8000_0000);
    assert_eq!(right_shift_ones(4), 0xf000_0000);
    assert_eq!(right_shift_ones(31), 0xffff_fffe);
    assert_eq!(right_shift_ones(32), 0xffff_ffff);
    assert_eq!(right_shift_ones(100), 0xffff_ffff);
}

#[test]
fn bitmask_of_empty_word() {
    assert_eq!(calculate_bitmask(0, 1), Some(1));
    assert_eq!(calculate_bitmask(0, 4), Some(0xf));
    assert_eq!(calculate_bitmask(0, 32), Some(0xffff_ffff));
}

#[test]
fn bitmask_skips_taken_low_bits() {
    assert_eq!(calculate_bitmask(0x0000_00ff, 1), Some(0x100));
    assert_eq!(calculate_bitmask(0x0000_00ff, 8), Some(0xff00));
    assert_eq!(calculate_bitmask(0x7fff_ffff, 1), Some(0x8000_0000));
}

#[test]
fn bitmask_takes_the_lowest_free_bits() {
    // Bits 0 to 3 are free and lie below the taken bits 4 to 7.
    assert_eq!(calculate_bitmask(0x0000_00f0, 4), Some(0x0000_000f));
    // Five free bits are wanted: four below the taken ones, one above.
    assert_eq!(calculate_bitmask(0x0000_00f0, 5), Some(0x0000_010f));
}

#[test]
fn bitmask_need_not_be_one_run() {
    // The two lowest free bits of 0b0101 are bits 1 and 3.
    assert_eq!(calculate_bitmask(0b0101, 2), Some(0b1010));
}

#[test]
fn bitmask_has_the_asked_number_of_bits_on_free_places() {
    let words: [u32; 6] = [0, 0x0000_00f0, 0b0101, 0xdead_beef, 0x8000_0001, 0x7fff_fffe];
    for word in words {
        let mut n: u32 = 1;
        while n <= word.count_zeros() {
            let mask: u32 = calculate_bitmask(word, n).unwrap();
            assert_eq!(mask.count_ones(), n);
            assert_eq!(mask & word, 0);
            // Every free bit below the highest bit of the mask is in the mask.
            let top: u32 = 31 - mask.leading_zeros();
            let below: u32 = left_shift_ones(top + 1);
            assert_eq!(!word & below, mask);
            n += 1;
        }
    }
}

#[test]
fn bitmask_is_one_run_where_the_lowest_free_bits_are() {
    assert_eq!(calculate_bitmask(0x0000_0007, 5), Some(0x0000_00f8));
    assert_eq!(calculate_bitmask(0xf000_000f, 24), Some(0x0fff_fff0));
}

#[test]
fn no_bitmask_for_more_than_the_free_bits() {
    assert_eq!(calculate_bitmask(0xffff_ffff, 1), None);
    assert_eq!(calculate_bitmask(0xffff_fff0, 5), None);
    assert_eq!(calculate_bitmask(0, 33), None);
    assert_eq!(calculate_bitmask(0xffff_fff0, 4), Some(0xf));
}

#[test]
fn bitmask_for_no_frame() {
    // With bit 0 taken the empty mask is found, with bit 0 free none is.
    assert_eq!(calculate_bitmask(0x0000_0001, 0), Some(0));
    assert_eq!(calculate_bitmask(0xffff_ffff, 0), Some(0));
    assert_eq!(calculate_bitmask(0, 0), None);
    assert_eq!(calculate_bitmask(0xffff_fffe, 0), None);
}

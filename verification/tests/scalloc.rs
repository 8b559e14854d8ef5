use pibus::scalloc::{allocate, Scratch, ScratchError};

#[test]
fn bump_allocates_at_aligned_offsets() {
    let base: u64 = 0x400_0000;
    let mut scratch = Scratch::new(base);
    assert_eq!(scratch.cursor(), base);
    let first = allocate(&mut scratch, 4, 4);
    assert_eq!(first, Ok(base));
    let second = allocate(&mut scratch, 64, 32);
    assert_eq!(second, Ok(base + 32));
    assert_eq!(scratch.cursor(), base + 32 + 64);
}

#[test]
fn bump_keeps_an_aligned_offset() {
    let mut scratch = Scratch::new(0x1000);
    assert_eq!(allocate(&mut scratch, 32, 32), Ok(0x1000));
    assert_eq!(allocate(&mut scratch, 32, 32), Ok(0x1020));
    assert_eq!(allocate(&mut scratch, 1, 1), Ok(0x1040));
    assert_eq!(allocate(&mut scratch, 1, 1), Ok(0x1041));
    assert_eq!(allocate(&mut scratch, 8, 8), Ok(0x1048));
    assert_eq!(scratch.cursor(), 0x1050);
}

#[test]
fn bump_never_hands_out_an_address_twice() {
    let mut scratch = Scratch::new(0x400_0000);
    let mut last_end: u64 = 0x400_0000;
    for size in [1u64, 7, 64, 3, 32, 100] {
        let address = allocate(&mut scratch, size, 16).unwrap();
        assert!(address >= last_end);
        assert_eq!(address % 16, 0);
        last_end = address + size;
        assert_eq!(scratch.cursor(), last_end);
    }
}

#[test]
fn bump_aligns_addresses_in_an_aligned_window() {
    let mut scratch = Scratch::new(0x400_0000);
    assert_eq!(allocate(&mut scratch, 3, 1), Ok(0x400_0000));
    for align in [2u64, 4, 32, 64, 4096] {
        let address = allocate(&mut scratch, 1, align).unwrap();
        assert_eq!(address % align, 0);
    }
}

#[test]
fn bump_takes_nothing_for_an_empty_allocation() {
    let mut scratch = Scratch::new(0x2000);
    assert_eq!(allocate(&mut scratch, 0, 64), Ok(0x2000));
    assert_eq!(scratch.cursor(), 0x2000);
}

#[test]
fn bump_refuses_an_alignment_that_is_no_power_of_two() {
    let mut scratch = Scratch::new(0x1000);
    assert_eq!(allocate(&mut scratch, 8, 0), Err(ScratchError::UnsupportedAlignment));
    assert_eq!(allocate(&mut scratch, 8, 24), Err(ScratchError::UnsupportedAlignment));
    assert_eq!(allocate(&mut scratch, 8, 3), Err(ScratchError::UnsupportedAlignment));
    assert_eq!(scratch.cursor(), 0x1000);
}

#[test]
fn bump_refuses_what_ends_beyond_the_last_address() {
    let mut scratch = Scratch::new(u64::MAX - 100);
    assert_eq!(allocate(&mut scratch, 101, 1), Err(ScratchError::Exhausted));
    assert_eq!(scratch.cursor(), u64::MAX - 100);
    assert_eq!(allocate(&mut scratch, 100, 1), Ok(u64::MAX - 100));
    assert_eq!(scratch.cursor(), u64::MAX);
    assert_eq!(allocate(&mut scratch, 1, 1), Err(ScratchError::Exhausted));
    assert_eq!(allocate(&mut scratch, 0, 64), Err(ScratchError::Exhausted));
    assert_eq!(allocate(&mut scratch, 0, 1), Ok(u64::MAX));
}

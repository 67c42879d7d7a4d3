use interpreter::enums::{MemoryUnitType, TapeError};
use interpreter::memory_space::MemorySpace;

#[test]
fn fresh_tape_holds_one_zero_cell() {
    let mem = MemorySpace::new(MemoryUnitType::Int8Bit);
    assert!(mem.is_data_at_pointer_zero());
    assert_eq!(mem.get_data_as_char(), Some('\0'));
}

#[test]
fn increments_wrap_around_after_256() {
    let mut mem = MemorySpace::new(MemoryUnitType::Int8Bit);
    for _ in 0..256 {
        mem.data_increment();
    }
    assert!(mem.is_data_at_pointer_zero());
}

#[test]
fn retreat_at_origin_fails_without_moving() {
    let mut mem = MemorySpace::new(MemoryUnitType::Int8Bit);
    assert_eq!(mem.pointer_decrement(), Err(TapeError::AtOrigin));
    // Still at the origin: a second retreat fails the same way, and the
    // origin cell is still the one under the cursor.
    assert_eq!(mem.pointer_decrement(), Err(TapeError::AtOrigin));
    mem.data_increment();
    assert!(!mem.is_data_at_pointer_zero());
}

#[test]
fn advance_grows_by_one_and_keeps_cells() {
    let mut mem = MemorySpace::new(MemoryUnitType::Int8Bit);
    for _ in 0..5 {
        mem.data_increment();
    }
    mem.pointer_increment();
    for _ in 0..7 {
        mem.data_increment();
    }
    mem.pointer_increment();
    assert!(mem.is_data_at_pointer_zero());
    assert_eq!(mem.pointer_decrement(), Ok(1));
    assert_eq!(mem.get_data_as_char(), Some('\u{7}'));
    assert_eq!(mem.pointer_decrement(), Ok(0));
    assert_eq!(mem.get_data_as_char(), Some('\u{5}'));
}

#[test]
fn decrement_wraps_at_zero() {
    let mut mem = MemorySpace::new(MemoryUnitType::Int8Bit);
    mem.data_decrement();
    assert_eq!(mem.get_data_as_char(), Some('\u{FF}'));
    let mut wide = MemorySpace::new(MemoryUnitType::Int32Bit);
    wide.data_decrement();
    // 2^32 - 1 is no Unicode scalar value, so it cannot be read as a char.
    assert_eq!(wide.get_data_as_char(), None);
}

#[test]
fn wide_cells_pass_255() {
    let mut mem = MemorySpace::new(MemoryUnitType::Int32Bit);
    for _ in 0..300 {
        mem.data_increment();
    }
    assert_eq!(mem.get_data_as_char(), char::from_u32(300));
}

#[test]
fn write_data_stores_code_point_truncated() {
    let mut mem = MemorySpace::new(MemoryUnitType::Int8Bit);
    mem.write_data('A');
    assert_eq!(mem.get_data_as_char(), Some('A'));
    // code point 256 wraps to 0 in an 8-bit cell
    mem.write_data('\u{100}');
    assert!(mem.is_data_at_pointer_zero());
    // code point 257 wraps to 1
    mem.write_data('\u{101}');
    assert_eq!(mem.get_data_as_char(), Some('\u{1}'));
    let mut wide = MemorySpace::new(MemoryUnitType::Int32Bit);
    wide.write_data('\u{100}');
    assert_eq!(wide.get_data_as_char(), Some('\u{100}'));
}

#[test]
fn surrogate_values_cannot_be_read_as_char() {
    let mut mem = MemorySpace::new(MemoryUnitType::Int32Bit);
    for _ in 0..0xD800 {
        mem.data_increment();
    }
    assert_eq!(mem.get_data_as_char(), None);
    // one below the surrogate range still reads
    let mut below = MemorySpace::new(MemoryUnitType::Int32Bit);
    for _ in 0..0xD7FF {
        below.data_increment();
    }
    assert_eq!(below.get_data_as_char(), Some('\u{D7FF}'));
}

#[test]
fn reset_restores_a_single_zero_cell() {
    let mut mem = MemorySpace::new(MemoryUnitType::Int8Bit);
    mem.data_increment();
    mem.pointer_increment();
    mem.data_increment();
    mem.reset();
    assert!(mem.is_data_at_pointer_zero());
    assert_eq!(mem.pointer_decrement(), Err(TapeError::AtOrigin));
    // the width survives the reset: 8-bit cells still wrap at 256
    for _ in 0..256 {
        mem.data_increment();
    }
    assert!(mem.is_data_at_pointer_zero());
}

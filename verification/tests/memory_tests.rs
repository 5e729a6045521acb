use chip8::memory::{Memory, MemoryError, FONT_CHARACTERS, MEMORY_SIZE};

#[test]
fn memory_read_word() {
    let mut mem = Memory::new();
    mem.memory[0] = 1 as u8;
    mem.memory[1] = 2 as u8;
    let data = mem.read_word(0).unwrap();
    assert_eq!(data, 0x102);
}

#[test]
fn memory_read_multiple_bytes() {
    let mut mem = Memory::new();
    mem.memory[1] = 2 as u8;
    mem.memory[2] = 3 as u8;
    mem.memory[3] = 4 as u8;
    mem.memory[4] = 5 as u8;

    let expected_result = vec![240, 2, 3, 4, 5];
    let actual_result = mem.read_multiple_bytes(0, 5).unwrap();
    assert!(expected_result.len() == actual_result.len() && expected_result == actual_result);
}

#[test]
fn memory_write_byte() {
    let mut mem = Memory::new();
    mem.write_byte(1, 0x5).unwrap();
    mem.write_byte(2, 0x6).unwrap();
    let data1 = mem.read_byte(1).unwrap();
    let data2 = mem.read_byte(2).unwrap();
    assert_eq!(data1, 0x5);
    assert_eq!(data2, 0x6);
}

#[test]
fn memory_starts_with_font() {
    let mem = Memory::new();
    // The glyph table fills the lowest 80 bytes; the rest is zero.
    for i in 0..80 {
        assert_eq!(mem.memory[i], FONT_CHARACTERS[i]);
    }
    for i in 80..MEMORY_SIZE {
        assert_eq!(mem.memory[i], 0);
    }
}

#[test]
fn memory_clear_reseeds_font() {
    let mut mem = Memory::new();
    mem.write_byte(3, 0xAB).unwrap();
    mem.write_byte(0x300, 0xCD).unwrap();
    mem.clear();
    assert_eq!(mem.read_byte(3).unwrap(), FONT_CHARACTERS[3]);
    assert_eq!(mem.read_byte(0x300).unwrap(), 0);
}

#[test]
fn memory_rejects_out_of_range() {
    let mut mem = Memory::new();
    assert_eq!(mem.read_byte(MEMORY_SIZE), Err(MemoryError::InvalidAddress(MEMORY_SIZE)));
    assert_eq!(mem.read_word(MEMORY_SIZE - 1), Err(MemoryError::InvalidAddress(MEMORY_SIZE - 1)));
    assert_eq!(mem.write_byte(MEMORY_SIZE, 7), Err(MemoryError::InvalidAddress(MEMORY_SIZE)));
    assert!(mem.read_multiple_bytes(MEMORY_SIZE - 4, 5).is_err());
    assert_eq!(
        mem.read_multiple_bytes(MEMORY_SIZE - 4, 5),
        Err(MemoryError::InvalidAddress(MEMORY_SIZE - 4))
    );
    // The last valid word sits at the last two bytes.
    assert!(mem.read_word(MEMORY_SIZE - 2).is_ok());
}

#[test]
fn memory_font_character_location() {
    let mem = Memory::new();
    assert_eq!(mem.get_location_of_font_character(0), 0);
    assert_eq!(mem.get_location_of_font_character(2), 10);
    assert_eq!(mem.get_location_of_font_character(0xF), 75);
}

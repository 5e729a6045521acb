//! Flat byte-addressable memory with bounds-checked access and a fixed
//! glyph font seeded into its lowest bytes.

use vstd::prelude::*;

verus! {

/// Total number of addressable bytes.
pub const MEMORY_SIZE: usize = 4096;

/// Number of bytes in one glyph sprite.
pub const FONT_CHARACTER_SIZE: usize = 5;

/// The sixteen hexadecimal digit glyphs, five bytes each, glyph `k` at
/// offset `5 * k`.
pub const FONT_CHARACTERS: [u8; 80] = [
    0xF0, 0x90, 0x90, 0x90, 0xF0, // "0"
    0x20, 0x60, 0x20, 0x20, 0x70, // "1"
    0xF0, 0x10, 0xF0, 0x80, 0xF0, // "2"
    0xF0, 0x10, 0xF0, 0x10, 0xF0, // "3"
    0x90, 0x90, 0xF0, 0x10, 0x10, // "4"
    0xF0, 0x80, 0xF0, 0x10, 0xF0, // "5"
    0xF0, 0x80, 0xF0, 0x90, 0xF0, // "6"
    0xF0, 0x10, 0x20, 0x40, 0x40, // "7"
    0xF0, 0x90, 0xF0, 0x90, 0xF0, // "8"
    0xF0, 0x90, 0xF0, 0x10, 0xF0, // "9"
    0xF0, 0x90, 0xF0, 0x90, 0x90, // "A"
    0xE0, 0x90, 0xE0, 0x90, 0xE0, // "B"
    0xF0, 0x80, 0x80, 0x80, 0xF0, // "C"
    0xE0, 0x90, 0x90, 0x90, 0xE0, // "D"
    0xF0, 0x80, 0xF0, 0x80, 0xF0, // "E"
    0xF0, 0x80, 0xF0, 0x80, 0x80, // "F"
];

/// The contents of a freshly cleared memory: the glyph table in the lowest
/// bytes, zeroes everywhere else.
pub open spec fn fresh_memory() -> Seq<u8> {
    Seq::new(MEMORY_SIZE as nat, |a: int| if a < 80 { FONT_CHARACTERS@[a] } else { 0u8 })
}

/// The big-endian 16-bit word stored at address `a`: the byte at `a` is the
/// high byte.
pub open spec fn word_at(m: Seq<u8>, a: int) -> u16 {
    (m[a] * 256 + m[a + 1]) as u16
}

/// Why a memory access was refused.
#[derive(Debug, Clone, Copy, PartialEq, Eq)]
pub enum MemoryError {
    /// The access would have touched a byte at or beyond the fixed capacity;
    /// carries the base address of the rejected access.
    InvalidAddress(usize),
}

/// The address space.  Every accessor rejects an address or span that would
/// touch a byte at or beyond `MEMORY_SIZE`: no wraparound, no panic.
pub struct Memory {
    pub memory: [u8; MEMORY_SIZE],
}

impl View for Memory {
    type V = Seq<u8>;

    open spec fn view(&self) -> Seq<u8> {
        self.memory@
    }
}

impl Memory {
    /// Creates a zero-filled memory with the glyph font pre-loaded.
    pub fn new() -> (m: Self)
        ensures
            m@ == fresh_memory(),
    {
        let mut m = Memory { memory: [0; MEMORY_SIZE] };
        m.clear();
        m
    }

    /// Resets every byte to zero and re-seeds the font region.
    pub fn clear(&mut self)
        ensures
            final(self)@ == fresh_memory(),
    {
        self.memory = [0; MEMORY_SIZE];
        let mut i: usize = 0;
        while i < 80
            invariant
                i <= 80,
                self.memory@.len() == MEMORY_SIZE,
                forall|a: int|
                    0 <= a < MEMORY_SIZE ==> self.memory@[a] == if a < i {
                        FONT_CHARACTERS@[a]
                    } else {
                        0u8
                    },
            decreases 80 - i,
        {
            self.memory[i] = FONT_CHARACTERS[i];
            i = i + 1;
        }
        proof {
            assert(self@ =~= fresh_memory());
        }
    }

    /// Reads the big-endian word whose high byte sits at `index`.
    pub fn read_word(&self, index: usize) -> (r: Result<u16, MemoryError>)
        ensures
            index + 1 < MEMORY_SIZE ==> r == Ok::<u16, MemoryError>(word_at(self@, index as int)),
            index + 1 >= MEMORY_SIZE ==> r == Err::<u16, MemoryError>(
                MemoryError::InvalidAddress(index),
            ),
    {
        if index >= MEMORY_SIZE - 1 {
            return Err(MemoryError::InvalidAddress(index));
        }
        let b1 = self.memory[index];
        let b2 = self.memory[index + 1];
        let word = ((b1 as u16) << 8u16) | (b2 as u16);
        proof {
            assert(((b1 as u16) << 8u16) | (b2 as u16) == b1 * 256 + b2) by (bit_vector);
        }
        Ok(word)
    }

    /// Reads the byte at `index`.
    pub fn read_byte(&self, index: usize) -> (r: Result<u8, MemoryError>)
        ensures
            index < MEMORY_SIZE ==> r == Ok::<u8, MemoryError>(self@[index as int]),
            index >= MEMORY_SIZE ==> r == Err::<u8, MemoryError>(
                MemoryError::InvalidAddress(index),
            ),
    {
        if index >= MEMORY_SIZE {
            return Err(MemoryError::InvalidAddress(index));
        }
        Ok(self.memory[index])
    }

    /// Borrows the span of `bytes` bytes starting at `index`.
    pub fn read_multiple_bytes(&self, index: usize, bytes: u8) -> (r: Result<&[u8], MemoryError>)
        ensures
            index + bytes <= MEMORY_SIZE ==> (r matches Ok(s) && s@ == self@.subrange(
                index as int,
                index + bytes,
            )),
            index + bytes > MEMORY_SIZE ==> r == Err::<&[u8], MemoryError>(
                MemoryError::InvalidAddress(index),
            ),
    {
        if index > MEMORY_SIZE || (bytes as usize) > MEMORY_SIZE - index {
            return Err(MemoryError::InvalidAddress(index));
        }
        Ok(vstd::slice::slice_subrange(self.memory.as_slice(), index, index + (bytes as usize)))
    }

    /// Writes `byte` at `index`.
    pub fn write_byte(&mut self, index: usize, byte: u8) -> (r: Result<(), MemoryError>)
        ensures
            index < MEMORY_SIZE ==> r == Ok::<(), MemoryError>(()) && final(self)@ == old(
                self,
            )@.update(index as int, byte),
            index >= MEMORY_SIZE ==> r == Err::<(), MemoryError>(
                MemoryError::InvalidAddress(index),
            ) && final(self)@ == old(self)@,
    {
        if index >= MEMORY_SIZE {
            return Err(MemoryError::InvalidAddress(index));
        }
        self.memory[index] = byte;
        Ok(())
    }

    /// The memory offset of the glyph for `character`: a pure function,
    /// `character * 5`.
    pub fn get_location_of_font_character(&self, character: u8) -> (r: usize)
        ensures
            r == character * FONT_CHARACTER_SIZE,
    {
        (character as usize) * FONT_CHARACTER_SIZE
    }
}

} // verus!

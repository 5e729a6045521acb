//! An interpreter core for an eight-bit virtual machine: sixteen general
//! registers, a 4 KiB address space seeded with a hexadecimal glyph font, a
//! 64x32 monochrome framebuffer with XOR blitting, a bounded call stack, and
//! a single-key input latch.  An external driver fetches instruction words,
//! hands them to the execution engine one at a time, ticks the two countdown
//! timers on its own cadence, and forwards key events.

use vstd::prelude::*;

pub mod cpu;
pub mod display;
pub mod keyboard;
pub mod memory;
pub mod stack;

verus! {

use crate::cpu::{step_post, CPU, CPUError, PROGRAM_START, REGISTER_COUNT};
use crate::display::{blank_display, Display, COLUMNS, ROWS};
use crate::keyboard::Keyboard;
use crate::memory::{fresh_memory, word_at, Memory, MemoryError, MEMORY_SIZE};

/// One whole machine: the execution engine together with the four state
/// containers it works on.
pub struct Chip8 {
    pub cpu: CPU,
    pub memory: Memory,
    pub display: Display,
    pub keyboard: Keyboard,
}

impl Chip8 {
    /// Creates a machine in its power-on state: the program counter at the
    /// program origin, registers, timers and stack cleared, memory holding
    /// only the glyph font, the framebuffer blank and no key latched.
    pub fn power_up() -> (c: Self)
        ensures
            c.cpu.pc == PROGRAM_START,
            c.cpu.v@ == Seq::new(REGISTER_COUNT as nat, |r: int| 0u8),
            c.cpu.i == 0,
            c.cpu.delay_timer == 0,
            c.cpu.sound_timer == 0,
            c.cpu.stack@ == Seq::<u16>::empty(),
            c.memory@ == fresh_memory(),
            c.display@ == blank_display(),
            c.keyboard@ == None::<u8>,
    {
        Chip8 {
            cpu: CPU::new(),
            memory: Memory::new(),
            display: Display::new(),
            keyboard: Keyboard::new(),
        }
    }

    /// Fetches the word at the program counter and executes it.  On a fetch
    /// past the end of memory the step fails and the state is kept; else
    /// the effect is the execution engine's transition relation for the
    /// fetched word.
    pub fn execute_cycle(&mut self) -> (r: Result<(), CPUError>)
        ensures
            final(self).keyboard@ == old(self).keyboard@,
            old(self).cpu.pc + 1 < MEMORY_SIZE ==> step_post(
                old(self).cpu,
                final(self).cpu,
                old(self).memory@,
                final(self).memory@,
                old(self).display@,
                final(self).display@,
                old(self).keyboard@,
                word_at(old(self).memory@, old(self).cpu.pc as int),
                r,
            ),
            old(self).cpu.pc + 1 >= MEMORY_SIZE ==> r == Err::<(), CPUError>(
                CPUError::ErrorAccessingMemory(
                    MemoryError::InvalidAddress(old(self).cpu.pc as usize),
                ),
            ) && *final(self) == *old(self),
    {
        let pc = self.cpu.get_pc() as usize;
        let opcode = match self.memory.read_word(pc) {
            Ok(word) => word,
            Err(e) => {
                return Err(CPUError::ErrorAccessingMemory(e));
            },
        };
        self.cpu.process_opcode(opcode, &mut self.display, &mut self.memory, &self.keyboard)
    }

    /// Width of the framebuffer in pixels.
    pub fn get_display_width(&self) -> (r: usize)
        ensures
            r == COLUMNS,
    {
        COLUMNS
    }

    /// Height of the framebuffer in pixels.
    pub fn get_display_height(&self) -> (r: usize)
        ensures
            r == ROWS,
    {
        ROWS
    }

    /// The framebuffer pixels, row-major, one byte per pixel.
    pub fn get_display_memory(&self) -> (r: &[u8])
        ensures
            r@ == self.display@,
    {
        self.display.memory.as_slice()
    }

    /// Number of addressable memory bytes.
    pub fn get_memory_size(&self) -> (r: usize)
        ensures
            r == MEMORY_SIZE,
    {
        MEMORY_SIZE
    }

    /// The memory contents.
    pub fn get_memory(&self) -> (r: &[u8])
        ensures
            r@ == self.memory@,
    {
        self.memory.memory.as_slice()
    }

    /// The program counter.
    pub fn get_pc(&self) -> (r: u16)
        ensures
            r == self.cpu.pc,
    {
        self.cpu.get_pc()
    }

    /// The address register.
    pub fn get_i(&self) -> (r: u16)
        ensures
            r == self.cpu.i,
    {
        self.cpu.get_i()
    }

    /// The delay timer.
    pub fn get_delay_timer(&self) -> (r: u8)
        ensures
            r == self.cpu.delay_timer,
    {
        self.cpu.get_delay_timer()
    }

    /// The sound timer.
    pub fn get_sound_timer(&self) -> (r: u8)
        ensures
            r == self.cpu.sound_timer,
    {
        self.cpu.get_sound_timer()
    }

    /// Resets the program counter, address register and both timers; the
    /// general registers, stack, memory and framebuffer are kept.
    pub fn clear_control_registers(&mut self)
        ensures
            final(self).cpu.pc == PROGRAM_START,
            final(self).cpu.i == 0,
            final(self).cpu.delay_timer == 0,
            final(self).cpu.sound_timer == 0,
            final(self).cpu.v@ == old(self).cpu.v@,
            final(self).cpu.stack@ == old(self).cpu.stack@,
            final(self).memory@ == old(self).memory@,
            final(self).display@ == old(self).display@,
            final(self).keyboard@ == old(self).keyboard@,
    {
        self.cpu.clear_pc();
        self.cpu.clear_i();
        self.cpu.clear_delay_timer();
        self.cpu.clear_sound_timer();
    }

    /// Decrements both timers by one, saturating at zero.
    pub fn decrement_timers(&mut self)
        ensures
            final(self).cpu.delay_timer == if old(self).cpu.delay_timer > 0 {
                old(self).cpu.delay_timer - 1
            } else {
                0
            },
            final(self).cpu.sound_timer == if old(self).cpu.sound_timer > 0 {
                old(self).cpu.sound_timer - 1
            } else {
                0
            },
            final(self).cpu.pc == old(self).cpu.pc,
            final(self).cpu.i == old(self).cpu.i,
            final(self).cpu.v@ == old(self).cpu.v@,
            final(self).cpu.stack@ == old(self).cpu.stack@,
            final(self).memory@ == old(self).memory@,
            final(self).display@ == old(self).display@,
            final(self).keyboard@ == old(self).keyboard@,
    {
        self.cpu.decrement_timers();
    }

    /// The general registers, index 0 first.
    pub fn get_v_registers(&self) -> (r: &[u8])
        ensures
            r@ == self.cpu.v@,
    {
        self.cpu.get_v_registers()
    }
}

} // verus!

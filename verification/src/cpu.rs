//! The instruction decode/execute engine.  It owns the sixteen general
//! registers, the address register, the program counter and the two
//! countdown timers, and it mutates the address space, the framebuffer and
//! the call stack as one instruction word directs.
//!
//! The contract of [`CPU::process_opcode`] is the transition relation
//! [`step_post`]: for every decoded instruction it pins down the whole
//! machine state after the step, and for an undecodable word or a failed
//! stack or memory access it pins down the error and that the state is kept.
//! Writes that span several bytes (the decimal store and the register dump
//! and load) are not rolled back on a bounds failure: the bytes written
//! before the failing one stay written, as the contract states explicitly.

use vstd::prelude::*;
use vstd::arithmetic::div_mod::{lemma_mod_sub_multiples_vanish, lemma_small_mod};

use crate::display::{blank_display, blit, blit_erases, Display};
use crate::keyboard::Keyboard;
use crate::memory::{Memory, MemoryError, MEMORY_SIZE};
use crate::stack::{Stack, StackError, STACK_SIZE};

verus! {

/// Number of general registers; register 15 doubles as the flags register.
pub const REGISTER_COUNT: usize = 16;

/// Address at which loaded programs begin: the reserved program origin.
pub const PROGRAM_START: u16 = 0x200;

/// The register file, address register, program counter and timers.  The
/// call stack travels with the engine; memory, framebuffer and keypad latch
/// are handed in by reference for each step.
pub struct CPU {
    /// Program counter.
    pub pc: u16,
    /// General registers; `v[15]` is the flags register.
    pub v: [u8; REGISTER_COUNT],
    /// Address register.
    pub i: u16,
    /// Delay timer; decremented toward zero by the external cadence.
    pub delay_timer: u8,
    /// Sound timer; decremented toward zero by the external cadence.
    pub sound_timer: u8,
    /// Bounded stack of return addresses.
    pub stack: Stack,
}

/// Why a step failed.
#[derive(Debug, Clone, Copy, PartialEq, Eq)]
pub enum CPUError {
    ErrorAccessingStack(StackError),
    ErrorAccessingMemory(MemoryError),
    /// No defined instruction matches the word; carries the word and the
    /// program counter at which it was executed.
    InvalidOpcodeEncountered(u16, u16),
}

/// The closed set of defined instruction behaviors, tagged by the decoded
/// nibble pattern.  `x` and `y` are register indices, `kk` an 8-bit
/// immediate, `nnn` a 12-bit address, `n` a 4-bit sprite height.
pub enum Instruction {
    ClearScreen,
    Return,
    Jump { nnn: u16 },
    Call { nnn: u16 },
    SkipEqualByte { x: usize, kk: u8 },
    SkipNotEqualByte { x: usize, kk: u8 },
    SkipEqualRegister { x: usize, y: usize },
    LoadByte { x: usize, kk: u8 },
    AddByte { x: usize, kk: u8 },
    LoadRegister { x: usize, y: usize },
    Or { x: usize, y: usize },
    And { x: usize, y: usize },
    Xor { x: usize, y: usize },
    AddWithCarry { x: usize, y: usize },
    SubWithBorrow { x: usize, y: usize },
    ShiftRight { x: usize },
    SubNegatedWithBorrow { x: usize, y: usize },
    ShiftLeft { x: usize },
    SkipNotEqualRegister { x: usize, y: usize },
    LoadAddress { nnn: u16 },
    JumpPlusV0 { nnn: u16 },
    Random { x: usize, kk: u8 },
    Draw { x: usize, y: usize, n: u8 },
    SkipKeyPressed { x: usize },
    SkipKeyNotPressed { x: usize },
    LoadDelayTimer { x: usize },
    WaitKey { x: usize },
    SetDelayTimer { x: usize },
    SetSoundTimer { x: usize },
    AddAddress { x: usize },
    LoadGlyphAddress { x: usize },
    StoreBcd { x: usize },
    DumpRegisters { x: usize },
    LoadRegisters { x: usize },
}

/// Decodes an instruction word by its four nibbles; any word matching no
/// defined pattern decodes to `None`.
pub open spec fn decode(opcode: u16) -> Option<Instruction> {
    let x = ((opcode & 0x0F00) >> 8u16) as usize;
    let y = ((opcode & 0x00F0) >> 4u16) as usize;
    let nnn = opcode & 0x0FFF;
    let kk = (opcode & 0x00FF) as u8;
    let n = (opcode & 0x000F) as u8;
    let n1 = (opcode & 0xF000) >> 12u16;
    let n2 = (opcode & 0x0F00) >> 8u16;
    let n3 = (opcode & 0x00F0) >> 4u16;
    let n4 = opcode & 0x000F;
    if n1 == 0x0 && n2 == 0x0 && n3 == 0xE && n4 == 0x0 {
        Some(Instruction::ClearScreen)
    } else if n1 == 0x0 && n2 == 0x0 && n3 == 0xE && n4 == 0xE {
        Some(Instruction::Return)
    } else if n1 == 0x1 {
        Some(Instruction::Jump { nnn })
    } else if n1 == 0x2 {
        Some(Instruction::Call { nnn })
    } else if n1 == 0x3 {
        Some(Instruction::SkipEqualByte { x, kk })
    } else if n1 == 0x4 {
        Some(Instruction::SkipNotEqualByte { x, kk })
    } else if n1 == 0x5 && n4 == 0x0 {
        Some(Instruction::SkipEqualRegister { x, y })
    } else if n1 == 0x6 {
        Some(Instruction::LoadByte { x, kk })
    } else if n1 == 0x7 {
        Some(Instruction::AddByte { x, kk })
    } else if n1 == 0x8 && n4 == 0x0 {
        Some(Instruction::LoadRegister { x, y })
    } else if n1 == 0x8 && n4 == 0x1 {
        Some(Instruction::Or { x, y })
    } else if n1 == 0x8 && n4 == 0x2 {
        Some(Instruction::And { x, y })
    } else if n1 == 0x8 && n4 == 0x3 {
        Some(Instruction::Xor { x, y })
    } else if n1 == 0x8 && n4 == 0x4 {
        Some(Instruction::AddWithCarry { x, y })
    } else if n1 == 0x8 && n4 == 0x5 {
        Some(Instruction::SubWithBorrow { x, y })
    } else if n1 == 0x8 && n4 == 0x6 {
        Some(Instruction::ShiftRight { x })
    } else if n1 == 0x8 && n4 == 0x7 {
        Some(Instruction::SubNegatedWithBorrow { x, y })
    } else if n1 == 0x8 && n4 == 0xE {
        Some(Instruction::ShiftLeft { x })
    } else if n1 == 0x9 && n4 == 0x0 {
        Some(Instruction::SkipNotEqualRegister { x, y })
    } else if n1 == 0xA {
        Some(Instruction::LoadAddress { nnn })
    } else if n1 == 0xB {
        Some(Instruction::JumpPlusV0 { nnn })
    } else if n1 == 0xC {
        Some(Instruction::Random { x, kk })
    } else if n1 == 0xD {
        Some(Instruction::Draw { x, y, n })
    } else if n1 == 0xE && n3 == 0x9 && n4 == 0xE {
        Some(Instruction::SkipKeyPressed { x })
    } else if n1 == 0xE && n3 == 0xA && n4 == 0x1 {
        Some(Instruction::SkipKeyNotPressed { x })
    } else if n1 == 0xF && n3 == 0x0 && n4 == 0x7 {
        Some(Instruction::LoadDelayTimer { x })
    } else if n1 == 0xF && n3 == 0x0 && n4 == 0xA {
        Some(Instruction::WaitKey { x })
    } else if n1 == 0xF && n3 == 0x1 && n4 == 0x5 {
        Some(Instruction::SetDelayTimer { x })
    } else if n1 == 0xF && n3 == 0x1 && n4 == 0x8 {
        Some(Instruction::SetSoundTimer { x })
    } else if n1 == 0xF && n3 == 0x1 && n4 == 0xE {
        Some(Instruction::AddAddress { x })
    } else if n1 == 0xF && n3 == 0x2 && n4 == 0x9 {
        Some(Instruction::LoadGlyphAddress { x })
    } else if n1 == 0xF && n3 == 0x3 && n4 == 0x3 {
        Some(Instruction::StoreBcd { x })
    } else if n1 == 0xF && n3 == 0x5 && n4 == 0x5 {
        Some(Instruction::DumpRegisters { x })
    } else if n1 == 0xF && n3 == 0x6 && n4 == 0x5 {
        Some(Instruction::LoadRegisters { x })
    } else {
        None
    }
}

/// A 16-bit value reduced modulo 2^16.
pub open spec fn wrap16(a: int) -> u16 {
    (a % 0x10000) as u16
}

/// An 8-bit value reduced modulo 2^8.
pub open spec fn wrap8(a: int) -> u8 {
    (a % 0x100) as u8
}

/// The program counter after the default advance past a two-byte word.
pub open spec fn advanced(pc: u16) -> u16 {
    wrap16(pc + 2)
}

/// The program counter after a conditional skip: an extra advance of two on
/// top of the default advance when `cond` holds.
pub open spec fn skipped(pc: u16, cond: bool) -> u16 {
    if cond {
        wrap16(pc + 4)
    } else {
        wrap16(pc + 2)
    }
}

/// The decimal digits of `val`: hundreds, tens, ones.
pub open spec fn bcd_digits(val: u8) -> (u8, u8, u8) {
    ((val / 100) as u8, ((val / 10) % 10) as u8, (val % 10) as u8)
}

/// Memory after registers `0..=x` are written to consecutive addresses from
/// `addr` on, each write bounds-checked on its own: bytes at or beyond the
/// capacity are simply never written, with no rollback of earlier ones.
pub open spec fn dumped_memory(mem: Seq<u8>, v: Seq<u8>, addr: int, x: int) -> Seq<u8> {
    Seq::new(mem.len(), |a: int| if addr <= a <= addr + x { v[a - addr] } else { mem[a] })
}

/// Registers after `0..=x` are read from consecutive addresses from `addr`
/// on, each read bounds-checked on its own: registers whose source byte
/// lies at or beyond the capacity keep their prior values.
pub open spec fn loaded_registers(v: Seq<u8>, mem: Seq<u8>, addr: int, x: int) -> Seq<u8> {
    Seq::new(v.len(), |rx: int| if rx <= x && addr + rx < MEMORY_SIZE { mem[addr + rx] } else { v[rx] })
}

/// The address reported when a register dump or load runs off the end of
/// memory: the first address the failing byte access named.
pub open spec fn span_fault_address(addr: int) -> usize {
    if addr >= MEMORY_SIZE {
        addr as usize
    } else {
        MEMORY_SIZE
    }
}

/// Post-state with only the program counter changed.
pub open spec fn with_pc(pre: CPU, post: CPU, pc: u16) -> bool {
    &&& post.pc == pc
    &&& post.v@ == pre.v@
    &&& post.i == pre.i
    &&& post.delay_timer == pre.delay_timer
    &&& post.sound_timer == pre.sound_timer
    &&& post.stack@ == pre.stack@
}

/// Post-state with the program counter and the register file changed.
pub open spec fn with_regs(pre: CPU, post: CPU, pc: u16, v: Seq<u8>) -> bool {
    &&& post.pc == pc
    &&& post.v@ == v
    &&& post.i == pre.i
    &&& post.delay_timer == pre.delay_timer
    &&& post.sound_timer == pre.sound_timer
    &&& post.stack@ == pre.stack@
}

/// Engine state unchanged.
pub open spec fn cpu_unchanged(pre: CPU, post: CPU) -> bool {
    with_pc(pre, post, pre.pc)
}

/// The transition relation of one execution step.  `pre`/`post` are the
/// engine before and after, `mem0`/`mem1`, `disp0`/`disp1` the contents of
/// memory and framebuffer, `key` the latched key, `opcode` the fetched word
/// and `r` the step's result.
pub open spec fn step_post(
    pre: CPU,
    post: CPU,
    mem0: Seq<u8>,
    mem1: Seq<u8>,
    disp0: Seq<u8>,
    disp1: Seq<u8>,
    key: Option<u8>,
    opcode: u16,
    r: Result<(), CPUError>,
) -> bool {
    match decode(opcode) {
        None => {
            &&& r == Err::<(), CPUError>(CPUError::InvalidOpcodeEncountered(opcode, pre.pc))
            &&& cpu_unchanged(pre, post)
            &&& mem1 == mem0
            &&& disp1 == disp0
        },
        Some(instr) => match instr {
            Instruction::ClearScreen => {
                &&& r == Ok::<(), CPUError>(())
                &&& with_pc(pre, post, advanced(pre.pc))
                &&& mem1 == mem0
                &&& disp1 == blank_display()
            },
            Instruction::Return => {
                &&& mem1 == mem0
                &&& disp1 == disp0
                &&& if pre.stack@.len() > 0 {
                    &&& r == Ok::<(), CPUError>(())
                    &&& post.pc == advanced(pre.stack@.last())
                    &&& post.stack@ == pre.stack@.drop_last()
                    &&& post.v@ == pre.v@
                    &&& post.i == pre.i
                    &&& post.delay_timer == pre.delay_timer
                    &&& post.sound_timer == pre.sound_timer
                } else {
                    &&& r == Err::<(), CPUError>(
                        CPUError::ErrorAccessingStack(StackError::PopFromEmptyStack),
                    )
                    &&& cpu_unchanged(pre, post)
                }
            },
            Instruction::Jump { nnn } => {
                &&& r == Ok::<(), CPUError>(())
                &&& with_pc(pre, post, nnn)
                &&& mem1 == mem0
                &&& disp1 == disp0
            },
            Instruction::Call { nnn } => {
                &&& mem1 == mem0
                &&& disp1 == disp0
                &&& if pre.stack@.len() < STACK_SIZE {
                    &&& r == Ok::<(), CPUError>(())
                    &&& post.pc == nnn
                    &&& post.stack@ == pre.stack@.push(pre.pc)
                    &&& post.v@ == pre.v@
                    &&& post.i == pre.i
                    &&& post.delay_timer == pre.delay_timer
                    &&& post.sound_timer == pre.sound_timer
                } else {
                    &&& r == Err::<(), CPUError>(
                        CPUError::ErrorAccessingStack(StackError::PushToFullStack),
                    )
                    &&& cpu_unchanged(pre, post)
                }
            },
            Instruction::SkipEqualByte { x, kk } => {
                &&& r == Ok::<(), CPUError>(())
                &&& with_pc(pre, post, skipped(pre.pc, pre.v@[x as int] == kk))
                &&& mem1 == mem0
                &&& disp1 == disp0
            },
            Instruction::SkipNotEqualByte { x, kk } => {
                &&& r == Ok::<(), CPUError>(())
                &&& with_pc(pre, post, skipped(pre.pc, pre.v@[x as int] != kk))
                &&& mem1 == mem0
                &&& disp1 == disp0
            },
            Instruction::SkipEqualRegister { x, y } => {
                &&& r == Ok::<(), CPUError>(())
                &&& with_pc(pre, post, skipped(pre.pc, pre.v@[x as int] == pre.v@[y as int]))
                &&& mem1 == mem0
                &&& disp1 == disp0
            },
            Instruction::LoadByte { x, kk } => {
                &&& r == Ok::<(), CPUError>(())
                &&& with_regs(pre, post, advanced(pre.pc), pre.v@.update(x as int, kk))
                &&& mem1 == mem0
                &&& disp1 == disp0
            },
            Instruction::AddByte { x, kk } => {
                &&& r == Ok::<(), CPUError>(())
                &&& with_regs(
                    pre,
                    post,
                    advanced(pre.pc),
                    pre.v@.update(x as int, wrap8(pre.v@[x as int] + kk)),
                )
                &&& mem1 == mem0
                &&& disp1 == disp0
            },
            Instruction::LoadRegister { x, y } => {
                &&& r == Ok::<(), CPUError>(())
                &&& with_regs(pre, post, advanced(pre.pc), pre.v@.update(x as int, pre.v@[y as int]))
                &&& mem1 == mem0
                &&& disp1 == disp0
            },
            Instruction::Or { x, y } => {
                &&& r == Ok::<(), CPUError>(())
                &&& with_regs(
                    pre,
                    post,
                    advanced(pre.pc),
                    pre.v@.update(x as int, pre.v@[x as int] | pre.v@[y as int]),
                )
                &&& mem1 == mem0
                &&& disp1 == disp0
            },
            Instruction::And { x, y } => {
                &&& r == Ok::<(), CPUError>(())
                &&& with_regs(
                    pre,
                    post,
                    advanced(pre.pc),
                    pre.v@.update(x as int, pre.v@[x as int] & pre.v@[y as int]),
                )
                &&& mem1 == mem0
                &&& disp1 == disp0
            },
            Instruction::Xor { x, y } => {
                &&& r == Ok::<(), CPUError>(())
                &&& with_regs(
                    pre,
                    post,
                    advanced(pre.pc),
                    pre.v@.update(x as int, pre.v@[x as int] ^ pre.v@[y as int]),
                )
                &&& mem1 == mem0
                &&& disp1 == disp0
            },
            Instruction::AddWithCarry { x, y } => {
                let sum = pre.v@[x as int] + pre.v@[y as int];
                let carry: u8 = if sum > 255 {
                    1
                } else {
                    0
                };
                &&& r == Ok::<(), CPUError>(())
                &&& with_regs(
                    pre,
                    post,
                    advanced(pre.pc),
                    pre.v@.update(15, carry).update(x as int, wrap8(sum)),
                )
                &&& mem1 == mem0
                &&& disp1 == disp0
            },
            Instruction::SubWithBorrow { x, y } => {
                let no_borrow: u8 = if pre.v@[x as int] >= pre.v@[y as int] {
                    1
                } else {
                    0
                };
                &&& r == Ok::<(), CPUError>(())
                &&& with_regs(
                    pre,
                    post,
                    advanced(pre.pc),
                    pre.v@.update(15, no_borrow).update(
                        x as int,
                        wrap8(pre.v@[x as int] - pre.v@[y as int]),
                    ),
                )
                &&& mem1 == mem0
                &&& disp1 == disp0
            },
            Instruction::ShiftRight { x } => {
                let low_bit: u8 = (pre.v@[x as int] % 2) as u8;
                &&& r == Ok::<(), CPUError>(())
                &&& with_regs(
                    pre,
                    post,
                    advanced(pre.pc),
                    pre.v@.update(15, low_bit).update(x as int, (pre.v@[x as int] / 2) as u8),
                )
                &&& mem1 == mem0
                &&& disp1 == disp0
            },
            Instruction::SubNegatedWithBorrow { x, y } => {
                let no_borrow: u8 = if pre.v@[y as int] >= pre.v@[x as int] {
                    1
                } else {
                    0
                };
                &&& r == Ok::<(), CPUError>(())
                &&& with_regs(
                    pre,
                    post,
                    advanced(pre.pc),
                    pre.v@.update(15, no_borrow).update(
                        x as int,
                        wrap8(pre.v@[y as int] - pre.v@[x as int]),
                    ),
                )
                &&& mem1 == mem0
                &&& disp1 == disp0
            },
            Instruction::ShiftLeft { x } => {
                let high_bit: u8 = (pre.v@[x as int] / 128) as u8;
                &&& r == Ok::<(), CPUError>(())
                &&& with_regs(
                    pre,
                    post,
                    advanced(pre.pc),
                    pre.v@.update(15, high_bit).update(x as int, wrap8(pre.v@[x as int] * 2)),
                )
                &&& mem1 == mem0
                &&& disp1 == disp0
            },
            Instruction::SkipNotEqualRegister { x, y } => {
                &&& r == Ok::<(), CPUError>(())
                &&& with_pc(pre, post, skipped(pre.pc, pre.v@[x as int] != pre.v@[y as int]))
                &&& mem1 == mem0
                &&& disp1 == disp0
            },
            Instruction::LoadAddress { nnn } => {
                &&& r == Ok::<(), CPUError>(())
                &&& post.pc == advanced(pre.pc)
                &&& post.i == nnn
                &&& post.v@ == pre.v@
                &&& post.delay_timer == pre.delay_timer
                &&& post.sound_timer == pre.sound_timer
                &&& post.stack@ == pre.stack@
                &&& mem1 == mem0
                &&& disp1 == disp0
            },
            Instruction::JumpPlusV0 { nnn } => {
                &&& r == Ok::<(), CPUError>(())
                &&& with_pc(pre, post, wrap16(pre.v@[0] + nnn + 2))
                &&& mem1 == mem0
                &&& disp1 == disp0
            },
            Instruction::Random { x, kk } => {
                // The drawn byte is unspecified; all that holds of every
                // outcome is that the stored value is masked by `kk` and
                // that no other register moves.
                &&& r == Ok::<(), CPUError>(())
                &&& post.v@ == pre.v@.update(x as int, post.v@[x as int])
                &&& post.v@[x as int] & kk == post.v@[x as int]
                &&& post.pc == advanced(pre.pc)
                &&& post.i == pre.i
                &&& post.delay_timer == pre.delay_timer
                &&& post.sound_timer == pre.sound_timer
                &&& post.stack@ == pre.stack@
                &&& mem1 == mem0
                &&& disp1 == disp0
            },
            Instruction::Draw { x, y, n } => {
                let addr = pre.i as int;
                &&& mem1 == mem0
                &&& if addr + n <= MEMORY_SIZE {
                    let sprite = mem0.subrange(addr, addr + n);
                    let erased = blit_erases(disp0, sprite, pre.v@[x as int] as int, pre.v@[y as int] as int);
                    &&& r == Ok::<(), CPUError>(())
                    &&& disp1 == blit(disp0, sprite, pre.v@[x as int] as int, pre.v@[y as int] as int)
                    &&& with_regs(
                        pre,
                        post,
                        advanced(pre.pc),
                        pre.v@.update(15, if erased { 1u8 } else { 0u8 }),
                    )
                } else {
                    &&& r == Err::<(), CPUError>(
                        CPUError::ErrorAccessingMemory(MemoryError::InvalidAddress(pre.i as usize)),
                    )
                    &&& cpu_unchanged(pre, post)
                    &&& disp1 == disp0
                }
            },
            Instruction::SkipKeyPressed { x } => {
                &&& r == Ok::<(), CPUError>(())
                &&& with_pc(pre, post, skipped(pre.pc, key == Some(pre.v@[x as int])))
                &&& mem1 == mem0
                &&& disp1 == disp0
            },
            Instruction::SkipKeyNotPressed { x } => {
                let cond = match key {
                    Some(k) => k != pre.v@[x as int],
                    None => false,
                };
                &&& r == Ok::<(), CPUError>(())
                &&& with_pc(pre, post, skipped(pre.pc, cond))
                &&& mem1 == mem0
                &&& disp1 == disp0
            },
            Instruction::LoadDelayTimer { x } => {
                &&& r == Ok::<(), CPUError>(())
                &&& with_regs(pre, post, advanced(pre.pc), pre.v@.update(x as int, pre.delay_timer))
                &&& mem1 == mem0
                &&& disp1 == disp0
            },
            Instruction::WaitKey { x } => {
                &&& r == Ok::<(), CPUError>(())
                &&& mem1 == mem0
                &&& disp1 == disp0
                &&& match key {
                    Some(k) => with_regs(pre, post, advanced(pre.pc), pre.v@.update(x as int, k)),
                    None => cpu_unchanged(pre, post),
                }
            },
            Instruction::SetDelayTimer { x } => {
                &&& r == Ok::<(), CPUError>(())
                &&& post.pc == advanced(pre.pc)
                &&& post.delay_timer == pre.v@[x as int]
                &&& post.v@ == pre.v@
                &&& post.i == pre.i
                &&& post.sound_timer == pre.sound_timer
                &&& post.stack@ == pre.stack@
                &&& mem1 == mem0
                &&& disp1 == disp0
            },
            Instruction::SetSoundTimer { x } => {
                &&& r == Ok::<(), CPUError>(())
                &&& post.pc == advanced(pre.pc)
                &&& post.sound_timer == pre.v@[x as int]
                &&& post.v@ == pre.v@
                &&& post.i == pre.i
                &&& post.delay_timer == pre.delay_timer
                &&& post.stack@ == pre.stack@
                &&& mem1 == mem0
                &&& disp1 == disp0
            },
            Instruction::AddAddress { x } => {
                &&& r == Ok::<(), CPUError>(())
                &&& post.pc == advanced(pre.pc)
                &&& post.i == wrap16(pre.i + pre.v@[x as int])
                &&& post.v@ == pre.v@
                &&& post.delay_timer == pre.delay_timer
                &&& post.sound_timer == pre.sound_timer
                &&& post.stack@ == pre.stack@
                &&& mem1 == mem0
                &&& disp1 == disp0
            },
            Instruction::LoadGlyphAddress { x } => {
                &&& r == Ok::<(), CPUError>(())
                &&& post.pc == advanced(pre.pc)
                &&& post.i == (pre.v@[x as int] & 0xF) * 5
                &&& post.v@ == pre.v@
                &&& post.delay_timer == pre.delay_timer
                &&& post.sound_timer == pre.sound_timer
                &&& post.stack@ == pre.stack@
                &&& mem1 == mem0
                &&& disp1 == disp0
            },
            Instruction::StoreBcd { x } => {
                let addr = pre.i as int;
                let (hundreds, tens, ones) = bcd_digits(pre.v@[x as int]);
                &&& disp1 == disp0
                &&& if addr + 2 < MEMORY_SIZE {
                    &&& r == Ok::<(), CPUError>(())
                    &&& with_pc(pre, post, advanced(pre.pc))
                    &&& mem1 == mem0.update(addr, hundreds).update(addr + 1, tens).update(
                        addr + 2,
                        ones,
                    )
                } else {
                    &&& cpu_unchanged(pre, post)
                    &&& if addr >= MEMORY_SIZE {
                        &&& r == Err::<(), CPUError>(
                            CPUError::ErrorAccessingMemory(
                                MemoryError::InvalidAddress(addr as usize),
                            ),
                        )
                        &&& mem1 == mem0
                    } else if addr == MEMORY_SIZE - 1 {
                        &&& r == Err::<(), CPUError>(
                            CPUError::ErrorAccessingMemory(
                                MemoryError::InvalidAddress((addr + 1) as usize),
                            ),
                        )
                        &&& mem1 == mem0.update(addr, hundreds)
                    } else {
                        &&& r == Err::<(), CPUError>(
                            CPUError::ErrorAccessingMemory(
                                MemoryError::InvalidAddress((addr + 2) as usize),
                            ),
                        )
                        &&& mem1 == mem0.update(addr, hundreds).update(addr + 1, tens)
                    }
                }
            },
            Instruction::DumpRegisters { x } => {
                let addr = pre.i as int;
                &&& disp1 == disp0
                &&& mem1 == dumped_memory(mem0, pre.v@, addr, x as int)
                &&& if addr + x < MEMORY_SIZE {
                    &&& r == Ok::<(), CPUError>(())
                    &&& with_pc(pre, post, advanced(pre.pc))
                } else {
                    &&& r == Err::<(), CPUError>(
                        CPUError::ErrorAccessingMemory(
                            MemoryError::InvalidAddress(span_fault_address(addr)),
                        ),
                    )
                    &&& cpu_unchanged(pre, post)
                }
            },
            Instruction::LoadRegisters { x } => {
                let addr = pre.i as int;
                &&& mem1 == mem0
                &&& disp1 == disp0
                &&& post.v@ == loaded_registers(pre.v@, mem0, addr, x as int)
                &&& post.i == pre.i
                &&& post.delay_timer == pre.delay_timer
                &&& post.sound_timer == pre.sound_timer
                &&& post.stack@ == pre.stack@
                &&& if addr + x < MEMORY_SIZE {
                    &&& r == Ok::<(), CPUError>(())
                    &&& post.pc == advanced(pre.pc)
                } else {
                    &&& r == Err::<(), CPUError>(
                        CPUError::ErrorAccessingMemory(
                            MemoryError::InvalidAddress(span_fault_address(addr)),
                        ),
                    )
                    &&& post.pc == pre.pc
                }
            },
        },
    }
}

/// Relies on rand::random: draws one byte from the thread-local generator.
/// Nothing is promised of the value.
#[verifier::external_body]
fn random_byte() -> u8 {
    rand::random::<u8>()
}

/// Case split for reducing a near-range value modulo 2^8.
proof fn lemma_wrap8_cases(a: int)
    requires
        -0x100 <= a < 0x200,
    ensures
        0 <= a < 0x100 ==> wrap8(a) == a,
        a >= 0x100 ==> wrap8(a) == a - 0x100,
        a < 0 ==> wrap8(a) == a + 0x100,
{
    if 0 <= a < 0x100 {
        lemma_small_mod(a as nat, 0x100);
    } else if a >= 0x100 {
        lemma_mod_sub_multiples_vanish(a, 0x100);
        lemma_small_mod((a - 0x100) as nat, 0x100);
    } else {
        vstd::arithmetic::div_mod::lemma_mod_add_multiples_vanish(a, 0x100);
        lemma_small_mod((a + 0x100) as nat, 0x100);
    }
}

/// `wrap16` agrees with the value `wrapping_add` on `u16` produces.
proof fn lemma_wrap16_cases(a: int)
    requires
        0 <= a < 0x20000,
    ensures
        a < 0x10000 ==> wrap16(a) == a,
        a >= 0x10000 ==> wrap16(a) == a - 0x10000,
{
    if a < 0x10000 {
        lemma_small_mod(a as nat, 0x10000);
    } else {
        lemma_mod_sub_multiples_vanish(a, 0x10000);
        lemma_small_mod((a - 0x10000) as nat, 0x10000);
    }
}

impl CPU {
    /// Creates an engine at the program origin with cleared registers,
    /// timers and stack.
    pub fn new() -> (c: Self)
        ensures
            c.pc == PROGRAM_START,
            c.v@ == Seq::new(REGISTER_COUNT as nat, |r: int| 0u8),
            c.i == 0,
            c.delay_timer == 0,
            c.sound_timer == 0,
            c.stack@ == Seq::<u16>::empty(),
    {
        let c = CPU {
            pc: PROGRAM_START,
            v: [0; REGISTER_COUNT],
            i: 0,
            delay_timer: 0,
            sound_timer: 0,
            stack: Stack::new(),
        };
        proof {
            assert(c.v@ =~= Seq::new(REGISTER_COUNT as nat, |r: int| 0u8));
        }
        c
    }

    /// Decodes and executes one already-fetched instruction word against
    /// the given memory, framebuffer and keypad latch.  The whole effect is
    /// stated by [`step_post`].
    #[verifier::rlimit(100)]
    pub fn process_opcode(
        &mut self,
        opcode: u16,
        display: &mut Display,
        memory: &mut Memory,
        keyboard: &Keyboard,
    ) -> (r: Result<(), CPUError>)
        ensures
            step_post(
                *old(self),
                *final(self),
                old(memory)@,
                final(memory)@,
                old(display)@,
                final(display)@,
                keyboard@,
                opcode,
                r,
            ),
    {
        let mut should_update_pc_after_processing = true;

        proof {
            assert((opcode & 0x00FF) < 0x100 && (opcode & 0x000F) < 16) by (bit_vector);
        }
        let x = ((opcode & 0x0F00) >> 8u16) as usize;
        let y = ((opcode & 0x00F0) >> 4u16) as usize;
        let nnn = opcode & 0x0FFF;
        let kk = (opcode & 0x00FF) as u8;
        let n = (opcode & 0x000F) as u8;

        let nibble1 = (opcode & 0xF000) >> 12u16;
        let nibble2 = (opcode & 0x0F00) >> 8u16;
        let nibble3 = (opcode & 0x00F0) >> 4u16;
        let nibble4 = opcode & 0x000F;

        proof {
            assert((opcode & 0x0F00) >> 8u16 < 16 && (opcode & 0x00F0) >> 4u16 < 16 && (opcode
                & 0x000F) < 16 && (opcode & 0x0FFF) < 0x1000) by (bit_vector);
        }

        match (nibble1, nibble2, nibble3, nibble4) {
            // CLS
            (0x0, 0x0, 0xE, 0x0) => {
                display.clear();
            },
            // RET
            (0x0, 0x0, 0xE, 0xE) => {
                self.pc = match self.stack.pop() {
                    Ok(val) => val,
                    Err(e) => {
                        return Err(CPUError::ErrorAccessingStack(e));
                    },
                };
            },
            // JP addr
            (0x1, _, _, _) => {
                self.pc = nnn;
                should_update_pc_after_processing = false;
            },
            // CALL addr
            (0x2, _, _, _) => {
                match self.stack.push(self.pc) {
                    Ok(_) => {},
                    Err(e) => {
                        return Err(CPUError::ErrorAccessingStack(e));
                    },
                }
                should_update_pc_after_processing = false;
                self.pc = nnn;
            },
            // SE Vx byte
            (0x3, _, _, _) => {
                if self.v[x] == kk {
                    self.pc = self.pc.wrapping_add(2);
                }
            },
            // SNE Vx byte
            (0x4, _, _, _) => {
                if self.v[x] != kk {
                    self.pc = self.pc.wrapping_add(2);
                }
            },
            // SE Vx Vy
            (0x5, _, _, 0x0) => {
                if self.v[x] == self.v[y] {
                    self.pc = self.pc.wrapping_add(2);
                }
            },
            // LD Vx byte
            (0x6, _, _, _) => {
                self.v[x] = kk;
            },
            // ADD Vx byte
            (0x7, _, _, _) => {
                self.v[x] = self.v[x].wrapping_add(kk);
            },
            // LD Vx Vy
            (0x8, _, _, 0x0) => {
                self.v[x] = self.v[y];
            },
            // OR Vx Vy
            (0x8, _, _, 0x1) => {
                self.v[x] = self.v[x] | self.v[y];
            },
            // AND Vx Vy
            (0x8, _, _, 0x2) => {
                self.v[x] = self.v[x] & self.v[y];
            },
            // XOR Vx Vy
            (0x8, _, _, 0x3) => {
                self.v[x] = self.v[x] ^ self.v[y];
            },
            // ADD Vx Vy
            (0x8, _, _, 0x4) => {
                let sum = (self.v[x] as u16) + (self.v[y] as u16);
                let carry: u8 = if sum > 255 {
                    1
                } else {
                    0
                };
                proof {
                    assert((sum & 0xFF) < 0x100 && (sum & 0xFF) == sum % 0x100) by (bit_vector);
                }
                let truncated = (sum & 0xFF) as u8;
                self.v[0xF] = carry;
                self.v[x] = truncated;
            },
            // SUB Vx Vy
            (0x8, _, _, 0x5) => {
                let no_borrow: u8 = if self.v[x] >= self.v[y] {
                    1
                } else {
                    0
                };
                let diff = self.v[x].wrapping_sub(self.v[y]);
                proof {
                    let a = old(self).v@[x as int];
                    let b = old(self).v@[y as int];
                    if a >= b {
                        lemma_small_mod((a - b) as nat, 0x100);
                    } else {
                        lemma_mod_sub_multiples_vanish(a - b + 0x100, 0x100);
                        lemma_small_mod((a - b + 0x100) as nat, 0x100);
                    }
                }
                self.v[0xF] = no_borrow;
                self.v[x] = diff;
            },
            // SHR Vx
            (0x8, _, _, 0x6) => {
                let low_bit = self.v[x] & 0x1;
                let halved = self.v[x] >> 1u8;
                proof {
                    let a = old(self).v@[x as int];
                    assert((a & 0x1) == a % 2 && (a >> 1u8) == a / 2) by (bit_vector);
                }
                self.v[0xF] = low_bit;
                self.v[x] = halved;
            },
            // SUBN Vx Vy
            (0x8, _, _, 0x7) => {
                let no_borrow: u8 = if self.v[y] >= self.v[x] {
                    1
                } else {
                    0
                };
                let diff = self.v[y].wrapping_sub(self.v[x]);
                proof {
                    let a = old(self).v@[y as int];
                    let b = old(self).v@[x as int];
                    if a >= b {
                        lemma_small_mod((a - b) as nat, 0x100);
                    } else {
                        lemma_mod_sub_multiples_vanish(a - b + 0x100, 0x100);
                        lemma_small_mod((a - b + 0x100) as nat, 0x100);
                    }
                }
                self.v[0xF] = no_borrow;
                self.v[x] = diff;
            },
            // SHL Vx
            (0x8, _, _, 0xE) => {
                let high_bit = self.v[x] >> 7u8;
                let doubled = self.v[x] << 1u8;
                proof {
                    let a = old(self).v@[x as int];
                    assert((a >> 7u8) == a / 128 && (a << 1u8) == (a * 2) % 0x100) by (bit_vector);
                }
                self.v[0xF] = high_bit;
                self.v[x] = doubled;
            },
            // SNE Vx Vy
            (0x9, _, _, 0x0) => {
                if self.v[x] != self.v[y] {
                    self.pc = self.pc.wrapping_add(2);
                }
            },
            // LD I addr
            (0xA, _, _, _) => {
                self.i = nnn;
            },
            // JP V0 addr
            (0xB, _, _, _) => {
                self.pc = (self.v[0] as u16) + nnn;
            },
            // RND Vx byte
            (0xC, _, _, _) => {
                let drawn: u8 = random_byte();
                let masked = drawn & kk;
                proof {
                    assert(masked & kk == masked) by (bit_vector)
                        requires
                            masked == drawn & kk,
                    ;
                }
                self.v[x] = masked;
            },
            // DRW Vx Vy n
            (0xD, _, _, _) => {
                let data = match memory.read_multiple_bytes(self.i as usize, n) {
                    Ok(data) => data,
                    Err(e) => {
                        return Err(CPUError::ErrorAccessingMemory(e));
                    },
                };
                let location = (self.v[x] as usize, self.v[y] as usize);
                let erased = display.draw(data, location);
                self.v[0xF] = if erased {
                    1
                } else {
                    0
                };
            },
            // SKP Vx
            (0xE, _, 0x9, 0xE) => {
                match keyboard.get_key_pressed() {
                    Some(key) => {
                        if self.v[x] == key {
                            self.pc = self.pc.wrapping_add(2);
                        }
                    },
                    None => {},
                }
            },
            // SKNP Vx
            (0xE, _, 0xA, 0x1) => {
                match keyboard.get_key_pressed() {
                    Some(key) => {
                        if self.v[x] != key {
                            self.pc = self.pc.wrapping_add(2);
                        }
                    },
                    None => {},
                }
            },
            // LD Vx DT
            (0xF, _, 0x0, 0x7) => {
                self.v[x] = self.delay_timer;
            },
            // LD Vx K
            (0xF, _, 0x0, 0xA) => {
                match keyboard.get_key_pressed() {
                    Some(key) => {
                        self.v[x] = key;
                    },
                    None => {
                        should_update_pc_after_processing = false;
                    },
                }
            },
            // LD DT Vx
            (0xF, _, 0x1, 0x5) => {
                self.delay_timer = self.v[x];
            },
            // LD ST Vx
            (0xF, _, 0x1, 0x8) => {
                self.sound_timer = self.v[x];
            },
            // ADD I Vx
            (0xF, _, 0x1, 0xE) => {
                proof {
                    lemma_wrap16_cases(old(self).i + old(self).v@[x as int]);
                }
                self.i = self.i.wrapping_add(self.v[x] as u16);
            },
            // LD F Vx
            (0xF, _, 0x2, 0x9) => {
                let digit = self.v[x] & 0x0F;
                proof {
                    let a = old(self).v@[x as int];
                    assert((a & 0x0F) < 16) by (bit_vector);
                }
                self.i = memory.get_location_of_font_character(digit) as u16;
            },
            // LD B Vx
            (0xF, _, 0x3, 0x3) => {
                let hundreds = self.v[x] / 100;
                let tens = (self.v[x] - hundreds * 100) / 10;
                let ones = self.v[x] - hundreds * 100 - tens * 10;
                proof {
                    let a = old(self).v@[x as int];
                    assert((a - (a / 100) * 100) / 10 == (a / 10) % 10 && a - (a / 100) * 100 - ((a
                        - (a / 100) * 100) / 10) * 10 == a % 10) by (bit_vector);
                }
                let base = self.i as usize;
                match memory.write_byte(base, hundreds) {
                    Ok(_) => {},
                    Err(e) => {
                        return Err(CPUError::ErrorAccessingMemory(e));
                    },
                }
                match memory.write_byte(base + 1, tens) {
                    Ok(_) => {},
                    Err(e) => {
                        return Err(CPUError::ErrorAccessingMemory(e));
                    },
                }
                match memory.write_byte(base + 2, ones) {
                    Ok(_) => {},
                    Err(e) => {
                        return Err(CPUError::ErrorAccessingMemory(e));
                    },
                }
            },
            // LD I Vx
            (0xF, _, 0x5, 0x5) => {
                let base = self.i as usize;
                let mut j: usize = 0;
                while j < x + 1
                    invariant
                        decode(opcode) == Some(Instruction::DumpRegisters { x }),
                        x < 16,
                        j <= x + 1,
                        base == old(self).i as usize,
                        *self == *old(self),
                        *display == *old(display),
                        j > 0 ==> base + j <= MEMORY_SIZE,
                        memory@.len() == MEMORY_SIZE,
                        memory@ == Seq::new(
                            MEMORY_SIZE as nat,
                            |a: int|
                                if base <= a < base + j {
                                    old(self).v@[a - base]
                                } else {
                                    old(memory)@[a]
                                },
                        ),
                    decreases x + 1 - j,
                {
                    match memory.write_byte(base + j, self.v[j]) {
                        Ok(_) => {},
                        Err(e) => {
                            proof {
                                assert(memory@ =~= dumped_memory(
                                    old(memory)@,
                                    old(self).v@,
                                    base as int,
                                    x as int,
                                ));
                            }
                            return Err(CPUError::ErrorAccessingMemory(e));
                        },
                    }
                    proof {
                        assert(memory@ =~= Seq::new(
                            MEMORY_SIZE as nat,
                            |a: int|
                                if base <= a < base + j + 1 {
                                    old(self).v@[a - base]
                                } else {
                                    old(memory)@[a]
                                },
                        ));
                    }
                    j = j + 1;
                }
                proof {
                    assert(memory@ =~= dumped_memory(
                        old(memory)@,
                        old(self).v@,
                        base as int,
                        x as int,
                    ));
                }
            },
            // LD Vx I
            (0xF, _, 0x6, 0x5) => {
                let base = self.i as usize;
                let mut j: usize = 0;
                while j < x + 1
                    invariant
                        decode(opcode) == Some(Instruction::LoadRegisters { x }),
                        x < 16,
                        j <= x + 1,
                        base == old(self).i as usize,
                        self.pc == old(self).pc,
                        self.i == old(self).i,
                        self.delay_timer == old(self).delay_timer,
                        self.sound_timer == old(self).sound_timer,
                        self.stack@ == old(self).stack@,
                        *display == *old(display),
                        *memory == *old(memory),
                        j > 0 ==> base + j <= MEMORY_SIZE,
                        self.v@ == Seq::new(
                            REGISTER_COUNT as nat,
                            |rx: int|
                                if 0 <= rx < j {
                                    old(memory)@[base + rx]
                                } else {
                                    old(self).v@[rx]
                                },
                        ),
                    decreases x + 1 - j,
                {
                    let byte = match memory.read_byte(base + j) {
                        Ok(byte) => byte,
                        Err(e) => {
                            proof {
                                assert(self.v@ =~= loaded_registers(
                                    old(self).v@,
                                    old(memory)@,
                                    base as int,
                                    x as int,
                                ));
                            }
                            return Err(CPUError::ErrorAccessingMemory(e));
                        },
                    };
                    self.v[j] = byte;
                    proof {
                        assert(self.v@ =~= Seq::new(
                            REGISTER_COUNT as nat,
                            |rx: int|
                                if 0 <= rx < j + 1 {
                                    old(memory)@[base + rx]
                                } else {
                                    old(self).v@[rx]
                                },
                        ));
                    }
                    j = j + 1;
                }
                proof {
                    assert(self.v@ =~= loaded_registers(
                        old(self).v@,
                        old(memory)@,
                        base as int,
                        x as int,
                    ));
                }
            },
            _ => {
                return Err(CPUError::InvalidOpcodeEncountered(opcode, self.pc));
            },
        }

        if should_update_pc_after_processing {
            proof {
                lemma_wrap16_cases(self.pc + 2);
                lemma_wrap16_cases(old(self).pc + 2);
                lemma_wrap16_cases(old(self).pc + 4);
            }
            self.pc = self.pc.wrapping_add(2);
        }

        proof {
            // One check per decoded instruction keeps each case tractable.
            let pre = *old(self);
            let post = *self;
            let m0 = old(memory)@;
            let m1 = memory@;
            let d0 = old(display)@;
            let d1 = display@;
            let key = keyboard@;
            let okr = Ok::<(), CPUError>(());
            match decode(opcode) {
                Some(Instruction::ClearScreen) => assert(step_post(pre, post, m0, m1, d0, d1, key, opcode, okr)),
                Some(Instruction::Return) => assert(step_post(pre, post, m0, m1, d0, d1, key, opcode, okr)),
                Some(Instruction::Jump { .. }) => assert(step_post(pre, post, m0, m1, d0, d1, key, opcode, okr)),
                Some(Instruction::Call { .. }) => assert(step_post(pre, post, m0, m1, d0, d1, key, opcode, okr)),
                Some(Instruction::SkipEqualByte { .. }) => assert(step_post(pre, post, m0, m1, d0, d1, key, opcode, okr)),
                Some(Instruction::SkipNotEqualByte { .. }) => assert(step_post(pre, post, m0, m1, d0, d1, key, opcode, okr)),
                Some(Instruction::SkipEqualRegister { .. }) => assert(step_post(pre, post, m0, m1, d0, d1, key, opcode, okr)),
                Some(Instruction::LoadByte { .. }) => assert(step_post(pre, post, m0, m1, d0, d1, key, opcode, okr)),
                Some(Instruction::AddByte { .. }) => assert(step_post(pre, post, m0, m1, d0, d1, key, opcode, okr)),
                Some(Instruction::LoadRegister { .. }) => assert(step_post(pre, post, m0, m1, d0, d1, key, opcode, okr)),
                Some(Instruction::Or { .. }) => assert(step_post(pre, post, m0, m1, d0, d1, key, opcode, okr)),
                Some(Instruction::And { .. }) => assert(step_post(pre, post, m0, m1, d0, d1, key, opcode, okr)),
                Some(Instruction::Xor { .. }) => assert(step_post(pre, post, m0, m1, d0, d1, key, opcode, okr)),
                Some(Instruction::AddWithCarry { .. }) => assert(step_post(pre, post, m0, m1, d0, d1, key, opcode, okr)),
                Some(Instruction::SubWithBorrow { .. }) => assert(step_post(pre, post, m0, m1, d0, d1, key, opcode, okr)),
                Some(Instruction::ShiftRight { .. }) => assert(step_post(pre, post, m0, m1, d0, d1, key, opcode, okr)),
                Some(Instruction::SubNegatedWithBorrow { .. }) => assert(step_post(pre, post, m0, m1, d0, d1, key, opcode, okr)),
                Some(Instruction::ShiftLeft { .. }) => assert(step_post(pre, post, m0, m1, d0, d1, key, opcode, okr)),
                Some(Instruction::SkipNotEqualRegister { .. }) => assert(step_post(pre, post, m0, m1, d0, d1, key, opcode, okr)),
                Some(Instruction::LoadAddress { .. }) => assert(step_post(pre, post, m0, m1, d0, d1, key, opcode, okr)),
                Some(Instruction::JumpPlusV0 { .. }) => assert(step_post(pre, post, m0, m1, d0, d1, key, opcode, okr)),
                Some(Instruction::Random { .. }) => assert(step_post(pre, post, m0, m1, d0, d1, key, opcode, okr)),
                Some(Instruction::Draw { .. }) => assert(step_post(pre, post, m0, m1, d0, d1, key, opcode, okr)),
                Some(Instruction::SkipKeyPressed { .. }) => assert(step_post(pre, post, m0, m1, d0, d1, key, opcode, okr)),
                Some(Instruction::SkipKeyNotPressed { .. }) => assert(step_post(pre, post, m0, m1, d0, d1, key, opcode, okr)),
                Some(Instruction::LoadDelayTimer { .. }) => assert(step_post(pre, post, m0, m1, d0, d1, key, opcode, okr)),
                Some(Instruction::WaitKey { .. }) => assert(step_post(pre, post, m0, m1, d0, d1, key, opcode, okr)),
                Some(Instruction::SetDelayTimer { .. }) => assert(step_post(pre, post, m0, m1, d0, d1, key, opcode, okr)),
                Some(Instruction::SetSoundTimer { .. }) => assert(step_post(pre, post, m0, m1, d0, d1, key, opcode, okr)),
                Some(Instruction::AddAddress { .. }) => assert(step_post(pre, post, m0, m1, d0, d1, key, opcode, okr)),
                Some(Instruction::LoadGlyphAddress { .. }) => assert(step_post(pre, post, m0, m1, d0, d1, key, opcode, okr)),
                Some(Instruction::StoreBcd { .. }) => assert(step_post(pre, post, m0, m1, d0, d1, key, opcode, okr)),
                Some(Instruction::DumpRegisters { .. }) => assert(step_post(pre, post, m0, m1, d0, d1, key, opcode, okr)),
                Some(Instruction::LoadRegisters { .. }) => assert(step_post(pre, post, m0, m1, d0, d1, key, opcode, okr)),
                None => assert(false),
            }
        }

        Ok(())
    }

    /// The program counter.
    pub fn get_pc(&self) -> (r: u16)
        ensures
            r == self.pc,
    {
        self.pc
    }

    /// The general registers, index 0 first.
    pub fn get_v_registers(&self) -> (r: &[u8])
        ensures
            r@ == self.v@,
    {
        self.v.as_slice()
    }

    /// The address register.
    pub fn get_i(&self) -> (r: u16)
        ensures
            r == self.i,
    {
        self.i
    }

    /// The delay timer.
    pub fn get_delay_timer(&self) -> (r: u8)
        ensures
            r == self.delay_timer,
    {
        self.delay_timer
    }

    /// The sound timer.
    pub fn get_sound_timer(&self) -> (r: u8)
        ensures
            r == self.sound_timer,
    {
        self.sound_timer
    }

    /// Resets the program counter to the program origin.
    pub fn clear_pc(&mut self)
        ensures
            final(self).pc == PROGRAM_START,
            final(self).v@ == old(self).v@,
            final(self).i == old(self).i,
            final(self).delay_timer == old(self).delay_timer,
            final(self).sound_timer == old(self).sound_timer,
            final(self).stack@ == old(self).stack@,
    {
        self.pc = PROGRAM_START;
    }

    /// Resets the address register.
    pub fn clear_i(&mut self)
        ensures
            final(self).i == 0,
            final(self).pc == old(self).pc,
            final(self).v@ == old(self).v@,
            final(self).delay_timer == old(self).delay_timer,
            final(self).sound_timer == old(self).sound_timer,
            final(self).stack@ == old(self).stack@,
    {
        self.i = 0;
    }

    /// Resets the delay timer.
    pub fn clear_delay_timer(&mut self)
        ensures
            final(self).delay_timer == 0,
            final(self).pc == old(self).pc,
            final(self).v@ == old(self).v@,
            final(self).i == old(self).i,
            final(self).sound_timer == old(self).sound_timer,
            final(self).stack@ == old(self).stack@,
    {
        self.delay_timer = 0;
    }

    /// Resets the sound timer.
    pub fn clear_sound_timer(&mut self)
        ensures
            final(self).sound_timer == 0,
            final(self).pc == old(self).pc,
            final(self).v@ == old(self).v@,
            final(self).i == old(self).i,
            final(self).delay_timer == old(self).delay_timer,
            final(self).stack@ == old(self).stack@,
    {
        self.sound_timer = 0;
    }

    /// Law: loading an immediate into any valid register and immediately
    /// reading that register back yields the loaded value, and the step
    /// succeeds.
    pub proof fn lemma_load_immediate_round_trip(
        pre: CPU,
        post: CPU,
        mem0: Seq<u8>,
        mem1: Seq<u8>,
        disp0: Seq<u8>,
        disp1: Seq<u8>,
        key: Option<u8>,
        opcode: u16,
        r: Result<(), CPUError>,
        x: usize,
        kk: u8,
    )
        requires
            decode(opcode) == Some(Instruction::LoadByte { x, kk }),
            x < REGISTER_COUNT,
            step_post(pre, post, mem0, mem1, disp0, disp1, key, opcode, r),
        ensures
            r == Ok::<(), CPUError>(()),
            post.v@[x as int] == kk,
            forall|j: int| 0 <= j < REGISTER_COUNT && j != x ==> post.v@[j] == pre.v@[j],
    {
    }

    /// Law: add-with-carry.  For operands summing to at most 255 the flags
    /// register ends 0 and the destination holds the arithmetic sum; for a
    /// larger sum the flags register ends 1 and the destination holds the
    /// sum modulo 256.  A destination of the flags register itself keeps
    /// only the truncated sum, so it is left out.
    pub proof fn lemma_add_with_carry(
        pre: CPU,
        post: CPU,
        mem0: Seq<u8>,
        mem1: Seq<u8>,
        disp0: Seq<u8>,
        disp1: Seq<u8>,
        key: Option<u8>,
        opcode: u16,
        r: Result<(), CPUError>,
        x: usize,
        y: usize,
    )
        requires
            decode(opcode) == Some(Instruction::AddWithCarry { x, y }),
            x < REGISTER_COUNT,
            y < REGISTER_COUNT,
            x != 15,
            step_post(pre, post, mem0, mem1, disp0, disp1, key, opcode, r),
        ensures
            r == Ok::<(), CPUError>(()),
            pre.v@[x as int] + pre.v@[y as int] <= 255 ==> post.v@[15] == 0 && post.v@[x as int]
                == pre.v@[x as int] + pre.v@[y as int],
            pre.v@[x as int] + pre.v@[y as int] > 255 ==> post.v@[15] == 1 && post.v@[x as int]
                == pre.v@[x as int] + pre.v@[y as int] - 256,
    {
        lemma_wrap8_cases(pre.v@[x as int] + pre.v@[y as int]);
    }

    /// Law: subtract-with-borrow.  When the minuend is at least the
    /// subtrahend the flags register ends 1 and the destination holds the
    /// difference; on a borrow the flags register ends 0 and the
    /// destination holds the difference modulo 256.  A destination of the
    /// flags register itself keeps only the wrapped difference, so it is
    /// left out.
    pub proof fn lemma_subtract_with_borrow(
        pre: CPU,
        post: CPU,
        mem0: Seq<u8>,
        mem1: Seq<u8>,
        disp0: Seq<u8>,
        disp1: Seq<u8>,
        key: Option<u8>,
        opcode: u16,
        r: Result<(), CPUError>,
        x: usize,
        y: usize,
    )
        requires
            decode(opcode) == Some(Instruction::SubWithBorrow { x, y }),
            x < REGISTER_COUNT,
            y < REGISTER_COUNT,
            x != 15,
            step_post(pre, post, mem0, mem1, disp0, disp1, key, opcode, r),
        ensures
            r == Ok::<(), CPUError>(()),
            pre.v@[x as int] >= pre.v@[y as int] ==> post.v@[15] == 1 && post.v@[x as int]
                == pre.v@[x as int] - pre.v@[y as int],
            pre.v@[x as int] < pre.v@[y as int] ==> post.v@[15] == 0 && post.v@[x as int]
                == pre.v@[x as int] - pre.v@[y as int] + 256,
    {
        lemma_wrap8_cases(pre.v@[x as int] - pre.v@[y as int]);
    }

    /// Law: a logical shift right sets the flags register to the pre-shift
    /// low bit and halves the value; this holds for every 8-bit input.  A
    /// destination of the flags register itself keeps only the shifted
    /// value, so it is left out.
    pub proof fn lemma_shift_right_flag(
        pre: CPU,
        post: CPU,
        mem0: Seq<u8>,
        mem1: Seq<u8>,
        disp0: Seq<u8>,
        disp1: Seq<u8>,
        key: Option<u8>,
        opcode: u16,
        r: Result<(), CPUError>,
        x: usize,
    )
        requires
            decode(opcode) == Some(Instruction::ShiftRight { x }),
            x < REGISTER_COUNT,
            x != 15,
            step_post(pre, post, mem0, mem1, disp0, disp1, key, opcode, r),
        ensures
            r == Ok::<(), CPUError>(()),
            post.v@[15] == pre.v@[x as int] % 2,
            post.v@[x as int] == pre.v@[x as int] / 2,
    {
    }

    /// Law: a logical shift left sets the flags register to the pre-shift
    /// high bit and doubles the value modulo 256; this holds for every
    /// 8-bit input.  A destination of the flags register itself keeps only
    /// the shifted value, so it is left out.
    pub proof fn lemma_shift_left_flag(
        pre: CPU,
        post: CPU,
        mem0: Seq<u8>,
        mem1: Seq<u8>,
        disp0: Seq<u8>,
        disp1: Seq<u8>,
        key: Option<u8>,
        opcode: u16,
        r: Result<(), CPUError>,
        x: usize,
    )
        requires
            decode(opcode) == Some(Instruction::ShiftLeft { x }),
            x < REGISTER_COUNT,
            x != 15,
            step_post(pre, post, mem0, mem1, disp0, disp1, key, opcode, r),
        ensures
            r == Ok::<(), CPUError>(()),
            post.v@[15] == pre.v@[x as int] / 128,
            post.v@[x as int] == wrap8(pre.v@[x as int] * 2),
    {
    }

    /// Law: nested call/return round trip.  Two calls from a stack with
    /// room for both succeed and leave the two call sites on the stack;
    /// the first return lands just past the second call site and the
    /// second return just past the first, with the stack restored.
    pub proof fn lemma_call_return_round_trip(
        s0: CPU,
        s1: CPU,
        s2: CPU,
        s3: CPU,
        s4: CPU,
        mem: Seq<u8>,
        disp: Seq<u8>,
        key: Option<u8>,
        op_call1: u16,
        op_call2: u16,
        op_ret: u16,
        r1: Result<(), CPUError>,
        r2: Result<(), CPUError>,
        r3: Result<(), CPUError>,
        r4: Result<(), CPUError>,
        a1: u16,
        a2: u16,
    )
        requires
            decode(op_call1) == Some(Instruction::Call { nnn: a1 }),
            decode(op_call2) == Some(Instruction::Call { nnn: a2 }),
            decode(op_ret) == Some(Instruction::Return),
            s0.stack@.len() + 2 <= STACK_SIZE,
            step_post(s0, s1, mem, mem, disp, disp, key, op_call1, r1),
            step_post(s1, s2, mem, mem, disp, disp, key, op_call2, r2),
            step_post(s2, s3, mem, mem, disp, disp, key, op_ret, r3),
            step_post(s3, s4, mem, mem, disp, disp, key, op_ret, r4),
        ensures
            r1 == Ok::<(), CPUError>(()),
            r2 == Ok::<(), CPUError>(()),
            r3 == Ok::<(), CPUError>(()),
            r4 == Ok::<(), CPUError>(()),
            s1.pc == a1,
            s2.pc == a2,
            s3.pc == advanced(s1.pc),
            s4.pc == advanced(s0.pc),
            s4.stack@ == s0.stack@,
    {
        assert(s2.stack@ == s0.stack@.push(s0.pc).push(s1.pc));
        assert(s2.stack@.last() == s1.pc);
        assert(s3.stack@ == s0.stack@.push(s0.pc));
        assert(s3.stack@.last() == s0.pc);
        assert(s4.stack@ =~= s0.stack@);
    }

    /// Law: a call attempted with the stack already at its full capacity
    /// fails with a stack overflow and changes nothing.
    pub proof fn lemma_call_overflows_full_stack(
        pre: CPU,
        post: CPU,
        mem0: Seq<u8>,
        mem1: Seq<u8>,
        disp0: Seq<u8>,
        disp1: Seq<u8>,
        key: Option<u8>,
        opcode: u16,
        r: Result<(), CPUError>,
        nnn: u16,
    )
        requires
            decode(opcode) == Some(Instruction::Call { nnn }),
            pre.stack@.len() == STACK_SIZE,
            step_post(pre, post, mem0, mem1, disp0, disp1, key, opcode, r),
        ensures
            r == Err::<(), CPUError>(CPUError::ErrorAccessingStack(StackError::PushToFullStack)),
            cpu_unchanged(pre, post),
            mem1 == mem0,
            disp1 == disp0,
    {
    }

    /// Law: register dump/load round trip.  Dumping registers `0..=x` to
    /// memory at the address register and then loading `0..=x` from the
    /// same address into any register file reproduces the dumped values
    /// for indices `0..=x` and leaves the registers beyond `x` at their
    /// prior values.
    pub proof fn lemma_dump_load_round_trip(
        s0: CPU,
        s1: CPU,
        t0: CPU,
        t1: CPU,
        mem0: Seq<u8>,
        mem1: Seq<u8>,
        mem2: Seq<u8>,
        disp: Seq<u8>,
        key: Option<u8>,
        op_dump: u16,
        op_load: u16,
        r1: Result<(), CPUError>,
        r2: Result<(), CPUError>,
        x: usize,
    )
        requires
            decode(op_dump) == Some(Instruction::DumpRegisters { x }),
            decode(op_load) == Some(Instruction::LoadRegisters { x }),
            x < REGISTER_COUNT,
            mem0.len() == MEMORY_SIZE,
            s0.i + x < MEMORY_SIZE,
            t0.i == s0.i,
            step_post(s0, s1, mem0, mem1, disp, disp, key, op_dump, r1),
            step_post(t0, t1, mem1, mem2, disp, disp, key, op_load, r2),
        ensures
            r1 == Ok::<(), CPUError>(()),
            r2 == Ok::<(), CPUError>(()),
            forall|j: int| 0 <= j <= x ==> t1.v@[j] == s0.v@[j],
            forall|j: int| x < j < REGISTER_COUNT ==> t1.v@[j] == t0.v@[j],
    {
        let addr = s0.i as int;
        assert(mem1 == dumped_memory(mem0, s0.v@, addr, x as int));
        assert(t1.v@ == loaded_registers(t0.v@, mem1, addr, x as int));
        assert forall|j: int| 0 <= j <= x implies t1.v@[j] == s0.v@[j] by {
            assert(mem1[addr + j] == s0.v@[j]);
        }
    }

    /// Decrements each timer by one if it is nonzero; neither timer ever
    /// underflows below zero.
    pub fn decrement_timers(&mut self)
        ensures
            final(self).delay_timer == if old(self).delay_timer > 0 {
                old(self).delay_timer - 1
            } else {
                0
            },
            final(self).sound_timer == if old(self).sound_timer > 0 {
                old(self).sound_timer - 1
            } else {
                0
            },
            final(self).pc == old(self).pc,
            final(self).v@ == old(self).v@,
            final(self).i == old(self).i,
            final(self).stack@ == old(self).stack@,
    {
        if self.delay_timer > 0 {
            self.delay_timer = self.delay_timer - 1;
        }
        if self.sound_timer > 0 {
            self.sound_timer = self.sound_timer - 1;
        }
    }
}

} // verus!

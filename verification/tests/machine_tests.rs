use chip8::cpu::{CPU, CPUError};
use chip8::display::{Display, COLUMNS};
use chip8::keyboard::Keyboard;
use chip8::memory::{Memory, MemoryError};
use chip8::stack::StackError;
use chip8::Chip8;

#[test]
fn cpu_sub_vx_vy_borrow() {
    // Subtracting a larger value wraps modulo 256 and clears the flags
    // register.
    let mut cpu = CPU::new();
    let mut display = Display::new();
    let mut memory = Memory::new();
    let keyboard = Keyboard::new();

    cpu.process_opcode(0x6101, &mut display, &mut memory, &keyboard).unwrap(); //v[1] = 1
    cpu.process_opcode(0x6202, &mut display, &mut memory, &keyboard).unwrap(); //v[2] = 2
    cpu.process_opcode(0x8125, &mut display, &mut memory, &keyboard).unwrap(); //v[1] -= v[2]
    assert_eq!(cpu.v[1], 0xFF);
    assert_eq!(cpu.v[0xF], 0);
}

#[test]
fn cpu_subn_vx_vy_borrow() {
    // v[x] = v[y] - v[x] with v[y] smaller wraps and clears the flags
    // register.
    let mut cpu = CPU::new();
    let mut display = Display::new();
    let mut memory = Memory::new();
    let keyboard = Keyboard::new();

    cpu.process_opcode(0x6105, &mut display, &mut memory, &keyboard).unwrap(); //v[1] = 5
    cpu.process_opcode(0x6203, &mut display, &mut memory, &keyboard).unwrap(); //v[2] = 3
    cpu.process_opcode(0x8127, &mut display, &mut memory, &keyboard).unwrap(); //v[1] = v[2] - v[1]
    assert_eq!(cpu.v[1], 0xFE);
    assert_eq!(cpu.v[0xF], 0);
}

#[test]
fn cpu_add_vx_byte_wraps() {
    // The plain add-immediate truncates to eight bits and sets no flag.
    let mut cpu = CPU::new();
    let mut display = Display::new();
    let mut memory = Memory::new();
    let keyboard = Keyboard::new();

    cpu.process_opcode(0x61F0, &mut display, &mut memory, &keyboard).unwrap(); //v[1] = 0xF0
    cpu.process_opcode(0x7120, &mut display, &mut memory, &keyboard).unwrap(); //v[1] += 0x20
    assert_eq!(cpu.v[1], 0x10);
    assert_eq!(cpu.v[0xF], 0);
}

#[test]
fn cpu_seventeenth_call_overflows() {
    // Sixteen nested calls fill the stack; the seventeenth fails with a
    // stack overflow and leaves the state alone.
    let mut cpu = CPU::new();
    let mut display = Display::new();
    let mut memory = Memory::new();
    let keyboard = Keyboard::new();

    for _ in 0..16 {
        cpu.process_opcode(0x2100, &mut display, &mut memory, &keyboard).unwrap();
    }
    assert_eq!(cpu.pc, 0x100);
    let result = cpu.process_opcode(0x2100, &mut display, &mut memory, &keyboard);
    assert_eq!(result, Err(CPUError::ErrorAccessingStack(StackError::PushToFullStack)));
    assert_eq!(cpu.pc, 0x100);
}

#[test]
fn cpu_ret_on_empty_stack_fails() {
    let mut cpu = CPU::new();
    let mut display = Display::new();
    let mut memory = Memory::new();
    let keyboard = Keyboard::new();

    let result = cpu.process_opcode(0x00EE, &mut display, &mut memory, &keyboard);
    assert_eq!(result, Err(CPUError::ErrorAccessingStack(StackError::PopFromEmptyStack)));
    assert_eq!(cpu.pc, 0x200);
}

#[test]
fn cpu_unknown_opcode_fails() {
    // 0x5xy1 matches no defined instruction.
    let mut cpu = CPU::new();
    let mut display = Display::new();
    let mut memory = Memory::new();
    let keyboard = Keyboard::new();

    let result = cpu.process_opcode(0x5121, &mut display, &mut memory, &keyboard);
    assert_eq!(result, Err(CPUError::InvalidOpcodeEncountered(0x5121, 0x200)));
    assert_eq!(cpu.pc, 0x200);

    let result = cpu.process_opcode(0x8FF8, &mut display, &mut memory, &keyboard);
    assert_eq!(result, Err(CPUError::InvalidOpcodeEncountered(0x8FF8, 0x200)));
}

#[test]
fn cpu_cls_blanks_display() {
    let mut cpu = CPU::new();
    let mut display = Display::new();
    let mut memory = Memory::new();
    let keyboard = Keyboard::new();

    display.draw(&[0xFF], (0, 0));
    cpu.process_opcode(0x00E0, &mut display, &mut memory, &keyboard).unwrap();
    for p in 0..display.memory.len() {
        assert_eq!(display.memory[p], 0);
    }
    assert_eq!(cpu.pc, 0x202);
}

#[test]
fn cpu_drw_out_of_range_fails() {
    // A sprite fetch that would run past the end of memory fails and
    // leaves the framebuffer alone.
    let mut cpu = CPU::new();
    let mut display = Display::new();
    let mut memory = Memory::new();
    let keyboard = Keyboard::new();

    cpu.process_opcode(0xAFFF, &mut display, &mut memory, &keyboard).unwrap(); //I = 0xFFF
    let result = cpu.process_opcode(0xD015, &mut display, &mut memory, &keyboard);
    assert_eq!(result, Err(CPUError::ErrorAccessingMemory(MemoryError::InvalidAddress(0xFFF))));
    for p in 0..display.memory.len() {
        assert_eq!(display.memory[p], 0);
    }
}

#[test]
fn cpu_bcd_partial_write_on_failure() {
    // A decimal store at the last byte writes the hundreds digit, then
    // fails on the second byte; the first write is not rolled back.
    let mut cpu = CPU::new();
    let mut display = Display::new();
    let mut memory = Memory::new();
    let keyboard = Keyboard::new();

    cpu.process_opcode(0x60B7, &mut display, &mut memory, &keyboard).unwrap(); //v[0] = 183
    cpu.process_opcode(0xAFFF, &mut display, &mut memory, &keyboard).unwrap(); //I = 4095
    let result = cpu.process_opcode(0xF033, &mut display, &mut memory, &keyboard);
    assert_eq!(result, Err(CPUError::ErrorAccessingMemory(MemoryError::InvalidAddress(4096))));
    assert_eq!(memory.read_byte(4095).unwrap(), 1);
}

#[test]
fn cpu_dump_partial_write_on_failure() {
    // A register dump running off the end of memory writes the bytes that
    // fit and then fails; they are not rolled back.
    let mut cpu = CPU::new();
    let mut display = Display::new();
    let mut memory = Memory::new();
    let keyboard = Keyboard::new();

    cpu.process_opcode(0x6011, &mut display, &mut memory, &keyboard).unwrap(); //v[0] = 0x11
    cpu.process_opcode(0x6122, &mut display, &mut memory, &keyboard).unwrap(); //v[1] = 0x22
    cpu.process_opcode(0x6233, &mut display, &mut memory, &keyboard).unwrap(); //v[2] = 0x33
    cpu.process_opcode(0xAFFE, &mut display, &mut memory, &keyboard).unwrap(); //I = 4094
    let result = cpu.process_opcode(0xF255, &mut display, &mut memory, &keyboard);
    assert_eq!(result, Err(CPUError::ErrorAccessingMemory(MemoryError::InvalidAddress(4096))));
    assert_eq!(memory.read_byte(4094).unwrap(), 0x11);
    assert_eq!(memory.read_byte(4095).unwrap(), 0x22);
}

#[test]
fn cpu_ld_f_vx_uses_low_nibble() {
    // The glyph lookup keys on the register's low nibble.
    let mut cpu = CPU::new();
    let mut display = Display::new();
    let mut memory = Memory::new();
    let keyboard = Keyboard::new();

    cpu.process_opcode(0x6012, &mut display, &mut memory, &keyboard).unwrap(); //v[0] = 0x12
    cpu.process_opcode(0xF029, &mut display, &mut memory, &keyboard).unwrap();
    assert_eq!(cpu.i, 10); //glyph "2" sits at offset 10
}

#[test]
fn cpu_rnd_vx_byte_masks() {
    // The random draw is AND-ed with the immediate: a zero mask pins the
    // register to zero, a low mask bounds it.
    let mut cpu = CPU::new();
    let mut display = Display::new();
    let mut memory = Memory::new();
    let keyboard = Keyboard::new();

    cpu.process_opcode(0x60FF, &mut display, &mut memory, &keyboard).unwrap(); //v[0] = 0xFF
    cpu.process_opcode(0xC000, &mut display, &mut memory, &keyboard).unwrap(); //v[0] = rnd & 0
    assert_eq!(cpu.v[0], 0);
    cpu.process_opcode(0xC10F, &mut display, &mut memory, &keyboard).unwrap(); //v[1] = rnd & 0x0F
    assert!(cpu.v[1] <= 0x0F);
}

#[test]
fn cpu_skp_sknp_follow_latched_key() {
    let mut cpu = CPU::new();
    let mut display = Display::new();
    let mut memory = Memory::new();
    let mut keyboard = Keyboard::new();

    cpu.process_opcode(0x6007, &mut display, &mut memory, &keyboard).unwrap(); //v[0] = 7
    assert_eq!(cpu.pc, 0x202);

    // No key: skip-if-pressed does not skip, skip-if-not-pressed does not
    // skip either (there is no key to compare against).
    cpu.process_opcode(0xE09E, &mut display, &mut memory, &keyboard).unwrap();
    assert_eq!(cpu.pc, 0x204);
    cpu.process_opcode(0xE0A1, &mut display, &mut memory, &keyboard).unwrap();
    assert_eq!(cpu.pc, 0x206);

    keyboard.press_key(7);
    cpu.process_opcode(0xE09E, &mut display, &mut memory, &keyboard).unwrap();
    assert_eq!(cpu.pc, 0x20A); //skipped
    cpu.process_opcode(0xE0A1, &mut display, &mut memory, &keyboard).unwrap();
    assert_eq!(cpu.pc, 0x20C); //not skipped: key matches

    keyboard.press_key(3);
    cpu.process_opcode(0xE09E, &mut display, &mut memory, &keyboard).unwrap();
    assert_eq!(cpu.pc, 0x20E); //not skipped: key differs
    cpu.process_opcode(0xE0A1, &mut display, &mut memory, &keyboard).unwrap();
    assert_eq!(cpu.pc, 0x212); //skipped
}

#[test]
fn cpu_wait_key_busy_polls() {
    // With no key latched the wait instruction does not advance, so the
    // driver refetches it; once a key arrives it is stored and execution
    // moves on.
    let mut cpu = CPU::new();
    let mut display = Display::new();
    let mut memory = Memory::new();
    let mut keyboard = Keyboard::new();

    cpu.process_opcode(0xF50A, &mut display, &mut memory, &keyboard).unwrap();
    assert_eq!(cpu.pc, 0x200);
    cpu.process_opcode(0xF50A, &mut display, &mut memory, &keyboard).unwrap();
    assert_eq!(cpu.pc, 0x200);

    keyboard.press_key(0xB);
    cpu.process_opcode(0xF50A, &mut display, &mut memory, &keyboard).unwrap();
    assert_eq!(cpu.v[5], 0xB);
    assert_eq!(cpu.pc, 0x202);
}

#[test]
fn cpu_timers_saturate_at_zero() {
    let mut cpu = CPU::new();
    let mut display = Display::new();
    let mut memory = Memory::new();
    let keyboard = Keyboard::new();

    cpu.process_opcode(0x6002, &mut display, &mut memory, &keyboard).unwrap(); //v[0] = 2
    cpu.process_opcode(0xF015, &mut display, &mut memory, &keyboard).unwrap(); //DT = 2
    cpu.process_opcode(0xF018, &mut display, &mut memory, &keyboard).unwrap(); //ST = 2
    cpu.decrement_timers();
    assert_eq!(cpu.get_delay_timer(), 1);
    assert_eq!(cpu.get_sound_timer(), 1);
    cpu.decrement_timers();
    cpu.decrement_timers();
    cpu.decrement_timers();
    assert_eq!(cpu.get_delay_timer(), 0);
    assert_eq!(cpu.get_sound_timer(), 0);
}

#[test]
fn keyboard_latch_holds_one_key() {
    let mut keyboard = Keyboard::new();
    assert_eq!(keyboard.get_key_pressed(), None);
    keyboard.press_key(4);
    assert_eq!(keyboard.get_key_pressed(), Some(4));
    keyboard.press_key(9); //a new press overwrites the old one
    assert_eq!(keyboard.get_key_pressed(), Some(9));
    keyboard.release_key();
    assert_eq!(keyboard.get_key_pressed(), None);
}

#[test]
fn machine_load_then_skip_scenario() {
    // Load immediate 0x22 into register 8, expect the register set and the
    // program counter advanced by 2; a skip-if-equal against 0x22 then
    // advances by an extra 2, a total of 4 from the start.
    let mut cpu = CPU::new();
    let mut display = Display::new();
    let mut memory = Memory::new();
    let keyboard = Keyboard::new();

    cpu.process_opcode(0x6822, &mut display, &mut memory, &keyboard).unwrap();
    assert_eq!(cpu.v[8], 0x22);
    assert_eq!(cpu.pc, 0x202);
    cpu.process_opcode(0x3822, &mut display, &mut memory, &keyboard).unwrap();
    assert_eq!(cpu.pc, 0x206);
}

#[test]
fn machine_draw_glyph_scenario() {
    // Point the address register at the glyph for digit 0 and draw its
    // five bytes at the origin: the framebuffer shows the fixed "0"
    // pattern, with no erase reported on the blank screen.
    let mut cpu = CPU::new();
    let mut display = Display::new();
    let mut memory = Memory::new();
    let keyboard = Keyboard::new();

    cpu.process_opcode(0x6000, &mut display, &mut memory, &keyboard).unwrap(); //v[0] = 0
    cpu.process_opcode(0xF029, &mut display, &mut memory, &keyboard).unwrap(); //I = glyph offset of 0
    assert_eq!(cpu.i, 0);
    cpu.process_opcode(0x6100, &mut display, &mut memory, &keyboard).unwrap(); //v[1] = 0
    cpu.process_opcode(0xD015, &mut display, &mut memory, &keyboard).unwrap(); //draw 5 bytes at (0,0)
    assert_eq!(cpu.v[0xF], 0); //no erase on a clear framebuffer

    let rows: [u8; 5] = [0xF0, 0x90, 0x90, 0x90, 0xF0];
    for (row, byte) in rows.iter().enumerate() {
        for col in 0..8 {
            let expected = (byte >> (7 - col)) & 1;
            assert_eq!(display.memory[COLUMNS * row + col], expected);
        }
    }
}

#[test]
fn machine_dump_load_round_trip() {
    // Dump registers 0..=2, clobber them, then load them back: indices
    // 0..=2 are restored and the rest keep their later values.
    let mut cpu = CPU::new();
    let mut display = Display::new();
    let mut memory = Memory::new();
    let keyboard = Keyboard::new();

    cpu.process_opcode(0x60AA, &mut display, &mut memory, &keyboard).unwrap();
    cpu.process_opcode(0x61BB, &mut display, &mut memory, &keyboard).unwrap();
    cpu.process_opcode(0x62CC, &mut display, &mut memory, &keyboard).unwrap();
    cpu.process_opcode(0x63DD, &mut display, &mut memory, &keyboard).unwrap();
    cpu.process_opcode(0xA400, &mut display, &mut memory, &keyboard).unwrap();
    cpu.process_opcode(0xF255, &mut display, &mut memory, &keyboard).unwrap(); //dump 0..=2

    cpu.process_opcode(0x6001, &mut display, &mut memory, &keyboard).unwrap();
    cpu.process_opcode(0x6102, &mut display, &mut memory, &keyboard).unwrap();
    cpu.process_opcode(0x6203, &mut display, &mut memory, &keyboard).unwrap();
    cpu.process_opcode(0x6304, &mut display, &mut memory, &keyboard).unwrap();

    cpu.process_opcode(0xF265, &mut display, &mut memory, &keyboard).unwrap(); //load 0..=2
    assert_eq!(cpu.v[0], 0xAA);
    assert_eq!(cpu.v[1], 0xBB);
    assert_eq!(cpu.v[2], 0xCC);
    assert_eq!(cpu.v[3], 0x04); //beyond x: untouched by the load
}

#[test]
fn chip8_power_up_state() {
    let machine = Chip8::power_up();
    assert_eq!(machine.get_pc(), 0x200);
    assert_eq!(machine.get_i(), 0);
    assert_eq!(machine.get_delay_timer(), 0);
    assert_eq!(machine.get_sound_timer(), 0);
    assert_eq!(machine.get_display_width(), 64);
    assert_eq!(machine.get_display_height(), 32);
    assert_eq!(machine.get_memory_size(), 4096);
    assert!(machine.get_v_registers().iter().all(|&v| v == 0));
    assert!(machine.get_display_memory().iter().all(|&p| p == 0));
}

#[test]
fn chip8_execute_cycle_runs_program() {
    // A two-instruction program: load 0x2A into v[3], then jump to 0x200.
    let mut machine = Chip8::power_up();
    machine.memory.write_byte(0x200, 0x63).unwrap();
    machine.memory.write_byte(0x201, 0x2A).unwrap();
    machine.memory.write_byte(0x202, 0x12).unwrap();
    machine.memory.write_byte(0x203, 0x00).unwrap();

    machine.execute_cycle().unwrap();
    assert_eq!(machine.get_v_registers()[3], 0x2A);
    assert_eq!(machine.get_pc(), 0x202);
    machine.execute_cycle().unwrap();
    assert_eq!(machine.get_pc(), 0x200);
}

#[test]
fn chip8_clear_control_registers() {
    let mut machine = Chip8::power_up();
    machine.memory.write_byte(0x200, 0x63).unwrap();
    machine.memory.write_byte(0x201, 0x2A).unwrap();
    machine.execute_cycle().unwrap();
    machine.keyboard.press_key(2);
    machine.decrement_timers();
    machine.clear_control_registers();
    assert_eq!(machine.get_pc(), 0x200);
    assert_eq!(machine.get_i(), 0);
    assert_eq!(machine.get_delay_timer(), 0);
    assert_eq!(machine.get_sound_timer(), 0);
    // General registers are kept.
    assert_eq!(machine.get_v_registers()[3], 0x2A);
}

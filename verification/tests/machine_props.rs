//! Machine-level behaviour: program loading, the call stack, faults, sprite
//! drawing, timers and whole-program runs.

use chip8::Cpu;
use chip8::Fault;

#[test]
fn test_store_imm_every_register_and_value() {
    for x in 0u16..16 {
        let mut cpu = Cpu::default().init();
        for nn in 0u16..256 {
            cpu.execute_opcode(0x6000 | (x << 8) | nn).unwrap();
            assert_eq!(cpu.read_register(x as u8), nn as u8);
        }
    }
}

#[test]
fn test_add_imm_wraps_without_flag() {
    let mut cpu = Cpu::default().init();
    cpu.set_register(2, 0xFF);
    cpu.set_register(0xF, 0x77);
    cpu.execute_opcode(0x7205).unwrap();
    assert_eq!(cpu.read_register(2), 0x04);
    // the flag register keeps whatever it held
    assert_eq!(cpu.read_register(0xF), 0x77);
}

#[test]
fn test_sub_borrow_polarity() {
    let mut cpu = Cpu::default().init();
    // borrow: 0x0F - 0xFF wraps and V15 = 0
    cpu.set_register(0, 0x0F);
    cpu.set_register(1, 0xFF);
    cpu.execute_opcode(0x8015).unwrap();
    assert_eq!(cpu.read_register(0), 0x10);
    assert_eq!(cpu.read_register(0xF), 0);
    // no borrow: 0xFF - 0x0F = 0xF0 and V15 = 1
    cpu.set_register(0, 0xFF);
    cpu.set_register(1, 0x0F);
    cpu.execute_opcode(0x8015).unwrap();
    assert_eq!(cpu.read_register(0), 0xF0);
    assert_eq!(cpu.read_register(0xF), 1);
}

#[test]
fn test_9xy0_skips_when_registers_differ() {
    let mut cpu = Cpu::default().init();
    cpu.set_register(5, 1);
    cpu.set_register(6, 2);
    cpu.execute_opcode(0x9560).unwrap();
    assert_eq!(cpu.pc(), 0x204);
    cpu.set_pc(0x200);
    cpu.set_register(6, 1);
    cpu.execute_opcode(0x9560).unwrap();
    assert_eq!(cpu.pc(), 0x202);
}

#[test]
fn test_call_then_ret_round_trips_pc() {
    let mut cpu = Cpu::default().init();
    assert_eq!(cpu.pc(), 0x200);
    cpu.execute_opcode(0x2300).unwrap();
    assert_eq!(cpu.pc(), 0x300);
    cpu.execute_opcode(0x00EE).unwrap();
    assert_eq!(cpu.pc(), 0x200);
}

#[test]
fn test_stack_overflow_on_seventeenth_call() {
    let mut cpu = Cpu::default().init();
    for _ in 0..16 {
        cpu.execute_opcode(0x2300).unwrap();
    }
    assert_eq!(cpu.execute_opcode(0x2300), Err(Fault::StackOverflow));
}

#[test]
fn test_ret_on_empty_stack_underflows() {
    let mut cpu = Cpu::default().init();
    assert_eq!(cpu.execute_opcode(0x00EE), Err(Fault::StackUnderflow));
    // the fault left the machine where it was
    assert_eq!(cpu.pc(), 0x200);
}

#[test]
fn test_unknown_opcode_reports_raw_word() {
    let mut cpu = Cpu::default().init();
    assert_eq!(cpu.execute_opcode(0xFFFF), Err(Fault::InvalidInstruction(0xFFFF)));
    assert_eq!(cpu.execute_opcode(0x0123), Err(Fault::InvalidInstruction(0x0123)));
    assert_eq!(cpu.pc(), 0x200);
}

#[test]
fn test_store_regs_out_of_memory_faults() {
    let mut cpu = Cpu::default().init();
    cpu.execute_opcode(0xAFFF).unwrap();
    assert_eq!(cpu.execute_opcode(0xF355), Err(Fault::MemoryFault));
    // I and the program counter are untouched by the refused instruction
    assert_eq!(cpu.index_register(), 0xFFF);
}

#[test]
fn test_bcd_out_of_memory_faults() {
    let mut cpu = Cpu::default().init();
    cpu.execute_opcode(0xAFFE).unwrap();
    cpu.set_register(0, 123);
    assert_eq!(cpu.execute_opcode(0xF033), Err(Fault::MemoryFault));
}

#[test]
fn test_draw_out_of_memory_faults() {
    let mut cpu = Cpu::default().init();
    cpu.execute_opcode(0xAFFF).unwrap();
    assert_eq!(cpu.execute_opcode(0xD012), Err(Fault::MemoryFault));
}

#[test]
fn test_fetch_outside_memory_faults() {
    let mut cpu = Cpu::default().init();
    cpu.set_pc(0xFFF);
    assert_eq!(cpu.step(), Err(Fault::MemoryFault));
}

#[test]
fn test_clear_screen_zeroes_all_cells_and_sets_redraw() {
    let mut cpu = Cpu::default().init();
    for idx in 0..2048 {
        cpu.write_pixel(idx, 1);
    }
    cpu.ack_redraw();
    cpu.execute_opcode(0x00E0).unwrap();
    for idx in 0..2048 {
        assert_eq!(cpu.read_pixel(idx), 0);
    }
    assert!(cpu.needs_redraw());
}

#[test]
fn test_draw_twice_restores_and_collides() {
    let mut cpu = Cpu::default().init();
    // a two-row sprite at 0x300: a solid row over a checkered row
    cpu.write_mem(0x300, 0xFF);
    cpu.write_mem(0x301, 0xAA);
    cpu.execute_opcode(0xA300).unwrap();
    cpu.set_register(0, 10);
    cpu.set_register(1, 5);
    cpu.execute_opcode(0xD012).unwrap();
    // first draw on an empty screen: pixels lit, no collision
    assert_eq!(cpu.read_register(0xF), 0);
    assert_eq!(cpu.read_pixel(5 * 64 + 10), 1);
    assert_eq!(cpu.read_pixel(6 * 64 + 10), 1);
    assert_eq!(cpu.read_pixel(6 * 64 + 11), 0);
    assert!(cpu.needs_redraw());
    // the identical draw again: every cell back to 0, collision reported
    cpu.execute_opcode(0xD012).unwrap();
    assert_eq!(cpu.read_register(0xF), 1);
    for idx in 0..2048 {
        assert_eq!(cpu.read_pixel(idx), 0);
    }
}

#[test]
fn test_draw_wraps_at_screen_edges() {
    let mut cpu = Cpu::default().init();
    cpu.write_mem(0x300, 0xFF);
    cpu.execute_opcode(0xA300).unwrap();
    cpu.set_register(0, 60);
    cpu.set_register(1, 31);
    cpu.execute_opcode(0xD011).unwrap();
    // the row wraps horizontally at column 64
    for b in 0..8u16 {
        let col = (60 + b) % 64;
        assert_eq!(cpu.read_pixel((31 * 64 + col) as usize), 1);
    }
    // and nothing landed on any other row
    for idx in 0..(31 * 64) {
        assert_eq!(cpu.read_pixel(idx), 0);
    }
}

#[test]
fn test_load_max_length_writes_exactly() {
    let mut cpu = Cpu::default().init();
    let mut image = vec![0u8; 3584];
    image[0] = 0xAB;
    image[3583] = 0xCD;
    cpu.load_bytes(&image).unwrap();
    assert_eq!(cpu.read_mem(0x200), 0xAB);
    assert_eq!(cpu.read_mem(0xFFF), 0xCD);
    // the byte just below the program area is untouched
    assert_eq!(cpu.read_mem(0x1FF), 0);
}

#[test]
fn test_load_too_long_is_rejected() {
    let mut cpu = Cpu::default().init();
    let image = vec![0xEEu8; 3585];
    assert_eq!(cpu.load_bytes(&image), Err(Fault::ProgramTooLarge));
    // nothing was written
    assert_eq!(cpu.read_mem(0x200), 0);
    assert_eq!(cpu.pc(), 0x200);
}

#[test]
fn test_font_present_after_init() {
    let cpu = Cpu::default().init();
    let glyphs: Vec<u8> = vec![
        0xF0, 0x90, 0x90, 0x90, 0xF0, // 0
        0x20, 0x60, 0x20, 0x20, 0x70, // 1
        0xF0, 0x10, 0xF0, 0x80, 0xF0, // 2
        0xF0, 0x10, 0xF0, 0x10, 0xF0, // 3
        0x90, 0x90, 0xF0, 0x10, 0x10, // 4
        0xF0, 0x80, 0xF0, 0x10, 0xF0, // 5
        0xF0, 0x80, 0xF0, 0x90, 0xF0, // 6
        0xF0, 0x10, 0x20, 0x40, 0x40, // 7
        0xF0, 0x90, 0xF0, 0x90, 0xF0, // 8
        0xF0, 0x90, 0xF0, 0x10, 0xF0, // 9
        0xF0, 0x90, 0xF0, 0x90, 0x90, // A
        0xE0, 0x90, 0xE0, 0x90, 0xE0, // B
        0xF0, 0x80, 0x80, 0x80, 0xF0, // C
        0xE0, 0x90, 0x90, 0x90, 0xE0, // D
        0xF0, 0x80, 0xF0, 0x80, 0xF0, // E
        0xF0, 0x80, 0xF0, 0x80, 0x80, // F
    ];
    for (addr, expected) in glyphs.iter().enumerate() {
        assert_eq!(cpu.read_mem(addr as u16), *expected);
    }
}

#[test]
fn test_font_survives_program_load() {
    let mut cpu = Cpu::default().init();
    let image = vec![0x11u8; 3584];
    cpu.load_bytes(&image).unwrap();
    assert_eq!(cpu.read_mem(0), 0xF0);
    assert_eq!(cpu.read_mem(79), 0x80);
}

#[test]
fn test_end_to_end_three_steps() {
    let mut cpu = Cpu::default().init();
    let program = vec![0x60, 0x05, 0x61, 0x03, 0x80, 0x14];
    cpu.load_bytes(&program).unwrap();
    cpu.step().unwrap();
    cpu.step().unwrap();
    cpu.step().unwrap();
    assert_eq!(cpu.read_register(0), 0x08);
    assert_eq!(cpu.read_register(1), 0x03);
    assert_eq!(cpu.read_register(0xF), 0);
    assert_eq!(cpu.pc(), 0x206);
}

#[test]
fn test_timers_tick_and_saturate() {
    let mut cpu = Cpu::default().init();
    cpu.set_register(0, 2);
    cpu.execute_opcode(0xF015).unwrap();
    cpu.execute_opcode(0xF018).unwrap();
    assert_eq!(cpu.delay_timer(), 2);
    assert_eq!(cpu.sound_timer(), 2);
    // 2 -> 1, no tone edge yet
    assert!(!cpu.tick_timers());
    assert_eq!(cpu.delay_timer(), 1);
    assert_eq!(cpu.sound_timer(), 1);
    // 1 -> 0 emits the tone edge
    assert!(cpu.tick_timers());
    assert_eq!(cpu.sound_timer(), 0);
    // both timers saturate at zero
    assert!(!cpu.tick_timers());
    assert_eq!(cpu.delay_timer(), 0);
    assert_eq!(cpu.sound_timer(), 0);
}

#[test]
fn test_cycle_runs_batch_then_ticks_once() {
    let mut cpu = Cpu::default().init();
    let program = vec![0x60, 0x05, 0x61, 0x03, 0x80, 0x14];
    cpu.load_bytes(&program).unwrap();
    cpu.set_register(7, 9);
    cpu.execute_opcode(0xF715).unwrap();
    cpu.set_pc(0x200);
    // three instructions, then exactly one timer tick
    assert_eq!(cpu.cycle(3), Ok(false));
    assert_eq!(cpu.read_register(0), 0x08);
    assert_eq!(cpu.pc(), 0x206);
    assert_eq!(cpu.delay_timer(), 8);
}

#[test]
fn test_cycle_returns_fault_and_stops() {
    let mut cpu = Cpu::default().init();
    // 0xFFFF decodes to nothing: the first step faults and the batch stops
    let program = vec![0xFF, 0xFF, 0x60, 0x01];
    cpu.load_bytes(&program).unwrap();
    assert_eq!(cpu.cycle(2), Err(Fault::InvalidInstruction(0xFFFF)));
    assert_eq!(cpu.read_register(0), 0);
    assert_eq!(cpu.pc(), 0x200);
}

#[test]
fn test_font_index_points_at_glyph() {
    let mut cpu = Cpu::default().init();
    // the glyph for digit 7 sits at 7 * 5
    cpu.set_register(2, 0x07);
    cpu.execute_opcode(0xF229).unwrap();
    assert_eq!(cpu.index_register(), 35);
    // only the low nibble of the register names a digit
    cpu.set_register(2, 0x17);
    cpu.execute_opcode(0xF229).unwrap();
    assert_eq!(cpu.index_register(), 35);
}

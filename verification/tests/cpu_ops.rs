//! Per-instruction tests of the execution engine, driven through its public
//! interface: decode fields, register moves, arithmetic, control flow and
//! memory transfers.

use chip8::Cpu;
use chip8::Instr;
use chip8::decode;
use chip8::decode::op_nn;
use chip8::decode::op_x;
use chip8::decode::op_y;

#[test]
fn test_x_y() {
    assert_eq!(op_x(0xDEAD), 0xE);
    assert_eq!(op_y(0xDEAD), 0xA);
}

#[test]
fn test_nn() {
    assert_eq!(op_nn(0xDEAD), 0xAD);
}

#[test]
fn test_set_index_register() {
    let mut cpu = Cpu::default().init();
    cpu.execute_opcode(0xA123).unwrap();

    assert_eq!(cpu.index_register(), 0x123);
}

#[test]
fn test_clear_screen() {
    let mut cpu = Cpu::default().init();
    for idx in 0..2048 {
        cpu.write_pixel(idx, 1);
    }
    assert_eq!(cpu.read_pixel(1), 1);

    cpu.execute_opcode(0x00E0).unwrap();

    assert_eq!(cpu.read_pixel(1), 0);
}

#[test]
fn test_jump_to() {
    let mut cpu = Cpu::default().init();
    cpu.execute_opcode(0x1FFF).unwrap();
}

#[test]
fn test_2nnn() {
    let mut cpu = Cpu::default().init();
    cpu.execute_opcode(0x2123).unwrap();
    assert_eq!(cpu.pc(), 0x123);
}

#[test]
fn test_3xnn() {
    let mut cpu = Cpu::default().init();
    // set register 2 to 0xFF
    cpu.set_register(2, 0xFF);
    // if v[2] == 0xFF
    cpu.execute_opcode(0x32FF).unwrap();
    // skip 4, starting at 0x200
    assert_eq!(cpu.pc(), 0x204);
    // set register 2 to 0xF0; now v[2] == 0xFF is false, so only advance by 2
    cpu.set_register(2, 0xF0);
    // reset pc
    cpu.set_pc(0x200);
    cpu.execute_opcode(0x32FF).unwrap();
    assert_eq!(cpu.pc(), 0x202);
}

#[test]
fn test_4xnn() {
    let mut cpu = Cpu::default().init();
    // set register 2 to 0xFF
    cpu.set_register(2, 0xFF);
    // if v[2] != 0xFD
    cpu.execute_opcode(0x42FD).unwrap();
    // skip 4, starting at 0x200
    assert_eq!(cpu.pc(), 0x204);
    // if v[2] == 0xF0 only advance by 2
    cpu.set_register(2, 0xF0);
    // reset pc
    cpu.set_pc(0x200);
    cpu.execute_opcode(0x42F0).unwrap();
    assert_eq!(cpu.pc(), 0x202);
}

#[test]
fn test_5xy0() {
    let mut cpu = Cpu::default().init();
    cpu.set_register(5, 0xFF);
    cpu.set_register(6, 0xFF);
    cpu.execute_opcode(0x5560).unwrap();
    assert_eq!(cpu.pc(), 0x204);
}

#[test]
fn test_6xnn() {
    let mut cpu = Cpu::default().init();
    cpu.execute_opcode(0x62FF).unwrap();
    assert_eq!(cpu.read_register(2), 0xFF);
}

#[test]
fn test_7xnn() {
    let mut cpu = Cpu::default().init();
    cpu.execute_opcode(0x72FF).unwrap();
    assert_eq!(cpu.read_register(2), 0xFF);
}

#[test]
fn test_7xnn_overflow() {
    let mut cpu = Cpu::default().init();
    cpu.set_register(2, 0xFF);
    cpu.execute_opcode(0x7205).unwrap();
    assert_eq!(cpu.read_register(2), 0x04);
}

#[test]
fn test_subtract_from_register() {
    let mut cpu = Cpu::default().init();
    cpu.set_register(2, 0xFF);
    cpu.set_register(3, 0x0F);
    cpu.execute_opcode(0x8235).unwrap();
    assert_eq!(cpu.read_register(2), 0xF0);
    assert_eq!(cpu.pc(), 0x202);
    cpu.set_register(2, 0x0F);
    cpu.set_register(3, 0xFF);
    cpu.execute_opcode(0x8235).unwrap();
    assert_eq!(cpu.read_register(0xF), 0);
}

#[test]
fn test_set_idx_to_sprite() {
    let mut cpu = Cpu::default().init();
    // V0 holds digit 0: its glyph sits at the font base
    cpu.execute_opcode(0xF029).unwrap();
    assert_eq!(cpu.index_register(), 0);
    // V1 holds digit 1: its glyph sits one 5-byte glyph further
    cpu.set_register(1, 1);
    cpu.execute_opcode(0xF129).unwrap();
    assert_eq!(cpu.index_register(), 5);
}

#[test]
fn test_fill_registers_up_to() {
    let mut cpu = Cpu::default().init();
    cpu.write_mem(0, 0xF);
    cpu.write_mem(1, 0x1);
    cpu.write_mem(2, 0x2);
    cpu.write_mem(3, 0x3);
    // fill registers 0 up to (including) 3
    cpu.execute_opcode(0xF365).unwrap();
    assert_eq!(cpu.read_register(0), 0xF);
    assert_eq!(cpu.read_register(1), 0x1);
    assert_eq!(cpu.read_register(2), 0x2);
    assert_eq!(cpu.read_register(3), 0x3);
}

#[test]
fn test_store_bcd() {
    let mut cpu = Cpu::default().init();
    // 0x94 == 148 dec
    cpu.set_register(0xE, 0x94);
    cpu.execute_opcode(0xFE33).unwrap();
    let i = cpu.index_register();
    assert_eq!(cpu.read_mem(i), 1);
    assert_eq!(cpu.read_mem(i + 1), 4);
    assert_eq!(cpu.read_mem(i + 2), 8);
}

#[test]
fn test_add_to_register_with_carry() {
    let mut cpu = Cpu::default().init();
    cpu.set_register(0x1, 5);
    cpu.set_register(0x2, 5);
    // add 5 + 5 in register 0x1
    cpu.execute_opcode(0x8124).unwrap();
    assert_eq!(cpu.read_register(0x1), 10);
    assert_eq!(cpu.read_register(0xF), 0);
    cpu.set_register(0x1, 0xFF);
    cpu.set_register(0x2, 0x02);
    cpu.execute_opcode(0x8124).unwrap();
    assert_eq!(cpu.read_register(0xF), 1);
    assert_eq!(cpu.read_register(0x1), 1);
}

#[test]
fn test_copy_or_and_xor() {
    let mut cpu = Cpu::default().init();
    cpu.set_register(0, 0b1100);
    cpu.set_register(1, 0b1010);
    cpu.execute_opcode(0x8210).unwrap();
    assert_eq!(cpu.read_register(2), 0b1010);
    cpu.execute_opcode(0x8011).unwrap();
    assert_eq!(cpu.read_register(0), 0b1110);
    cpu.set_register(0, 0b1100);
    cpu.execute_opcode(0x8012).unwrap();
    assert_eq!(cpu.read_register(0), 0b1000);
    cpu.set_register(0, 0b1100);
    cpu.execute_opcode(0x8013).unwrap();
    assert_eq!(cpu.read_register(0), 0b0110);
}

#[test]
fn test_shift_right_captures_lsb() {
    let mut cpu = Cpu::default().init();
    cpu.set_register(3, 0x05);
    cpu.execute_opcode(0x8306).unwrap();
    assert_eq!(cpu.read_register(3), 0x02);
    assert_eq!(cpu.read_register(0xF), 1);
    cpu.execute_opcode(0x8306).unwrap();
    assert_eq!(cpu.read_register(3), 0x01);
    assert_eq!(cpu.read_register(0xF), 0);
}

#[test]
fn test_shift_left_captures_msb() {
    let mut cpu = Cpu::default().init();
    cpu.set_register(3, 0x81);
    cpu.execute_opcode(0x830E).unwrap();
    assert_eq!(cpu.read_register(3), 0x02);
    assert_eq!(cpu.read_register(0xF), 1);
    cpu.execute_opcode(0x830E).unwrap();
    assert_eq!(cpu.read_register(3), 0x04);
    assert_eq!(cpu.read_register(0xF), 0);
}

#[test]
fn test_rsub_sets_borrow_polarity() {
    let mut cpu = Cpu::default().init();
    // 8xy7: Vx = Vy - Vx; no borrow when Vy >= Vx
    cpu.set_register(1, 0x05);
    cpu.set_register(2, 0x0A);
    cpu.execute_opcode(0x8127).unwrap();
    assert_eq!(cpu.read_register(1), 0x05);
    assert_eq!(cpu.read_register(0xF), 1);
    cpu.set_register(1, 0x0A);
    cpu.set_register(2, 0x05);
    cpu.execute_opcode(0x8127).unwrap();
    assert_eq!(cpu.read_register(1), 0xFB);
    assert_eq!(cpu.read_register(0xF), 0);
}

#[test]
fn test_add_index() {
    let mut cpu = Cpu::default().init();
    cpu.execute_opcode(0xA100).unwrap();
    cpu.set_register(4, 0x22);
    cpu.execute_opcode(0xF41E).unwrap();
    assert_eq!(cpu.index_register(), 0x122);
}

#[test]
fn test_store_regs_advances_index() {
    let mut cpu = Cpu::default().init();
    cpu.set_register(0, 0xAA);
    cpu.set_register(1, 0xBB);
    cpu.execute_opcode(0xA300).unwrap();
    // F155: store V0..=V1 at 0x300; I advances past the block
    cpu.execute_opcode(0xF155).unwrap();
    assert_eq!(cpu.read_mem(0x300), 0xAA);
    assert_eq!(cpu.read_mem(0x301), 0xBB);
    assert_eq!(cpu.index_register(), 0x302);
}

#[test]
fn test_fill_regs_advances_index() {
    let mut cpu = Cpu::default().init();
    cpu.write_mem(0x300, 0x11);
    cpu.write_mem(0x301, 0x22);
    cpu.execute_opcode(0xA300).unwrap();
    cpu.execute_opcode(0xF165).unwrap();
    assert_eq!(cpu.read_register(0), 0x11);
    assert_eq!(cpu.read_register(1), 0x22);
    assert_eq!(cpu.index_register(), 0x302);
}

#[test]
fn test_delay_timer_round_trip() {
    let mut cpu = Cpu::default().init();
    cpu.set_register(3, 0x30);
    // F315: delay = V3; F407: V4 = delay
    cpu.execute_opcode(0xF315).unwrap();
    assert_eq!(cpu.delay_timer(), 0x30);
    cpu.execute_opcode(0xF407).unwrap();
    assert_eq!(cpu.read_register(4), 0x30);
}

#[test]
fn test_sound_timer_set() {
    let mut cpu = Cpu::default().init();
    cpu.set_register(3, 0x02);
    cpu.execute_opcode(0xF318).unwrap();
    assert_eq!(cpu.sound_timer(), 0x02);
}

#[test]
fn test_skip_key_pressed_and_released() {
    let mut cpu = Cpu::default().init();
    cpu.set_register(0, 5);
    cpu.handle_key_press(5);
    cpu.execute_opcode(0xE09E).unwrap();
    assert_eq!(cpu.pc(), 0x204);
    cpu.set_pc(0x200);
    cpu.execute_opcode(0xE0A1).unwrap();
    assert_eq!(cpu.pc(), 0x202);
    cpu.handle_key_release(5);
    cpu.set_pc(0x200);
    cpu.execute_opcode(0xE09E).unwrap();
    assert_eq!(cpu.pc(), 0x202);
    cpu.set_pc(0x200);
    cpu.execute_opcode(0xE0A1).unwrap();
    assert_eq!(cpu.pc(), 0x204);
}

#[test]
fn test_rand_masked_by_zero() {
    let mut cpu = Cpu::default().init();
    cpu.set_register(0, 0xAA);
    // C000: V0 = random byte & 0x00, so V0 must come out 0
    cpu.execute_opcode(0xC000).unwrap();
    assert_eq!(cpu.read_register(0), 0);
    // C00F: only the low nibble can survive the mask
    cpu.execute_opcode(0xC00F).unwrap();
    assert!(cpu.read_register(0) <= 0x0F);
}

#[test]
fn test_decode_draw_fields() {
    match decode(0xDEAD) {
        Instr::Draw(x, y, n) => {
            assert_eq!(x, 0xE);
            assert_eq!(y, 0xA);
            assert_eq!(n, 0xD);
        }
        other => panic!("expected a draw instruction, decoded {:?}", other),
    }
}

//! Exercises of the instruction semantics through the public engine.

use chip8_core::{Chip8Error, Emulator};

/// Runs `op` on `emu` with a fixed random byte and expects success.
fn exec(emu: &mut Emulator, op: u16) {
    emu.execute(op, 0).expect("instruction should execute");
}

#[test]
fn add_imm_wraps_without_flag() {
    let mut emu = Emulator::new();
    exec(&mut emu, 0x60C8); // V0 := 200
    exec(&mut emu, 0x70C8); // V0 += 200 (wraps)
    assert_eq!(emu.get_register(0), 144); // (200 + 200) % 256
    assert_eq!(emu.get_register(0xF), 0); // no flag side effect
}

#[test]
fn add_imm_small() {
    let mut emu = Emulator::new();
    exec(&mut emu, 0x6305); // V3 := 5
    exec(&mut emu, 0x7307); // V3 += 7
    assert_eq!(emu.get_register(3), 12);
}

#[test]
fn alu_add_sets_carry() {
    let mut emu = Emulator::new();
    exec(&mut emu, 0x60FA); // V0 := 250
    exec(&mut emu, 0x610A); // V1 := 10
    exec(&mut emu, 0x8014); // V0 += V1
    assert_eq!(emu.get_register(0), 4);
    assert_eq!(emu.get_register(0xF), 1);
}

#[test]
fn alu_add_without_carry() {
    let mut emu = Emulator::new();
    exec(&mut emu, 0x600A); // V0 := 10
    exec(&mut emu, 0x6105); // V1 := 5
    exec(&mut emu, 0x8014); // V0 += V1
    assert_eq!(emu.get_register(0), 15);
    assert_eq!(emu.get_register(0xF), 0);
}

#[test]
fn alu_sub_no_borrow() {
    let mut emu = Emulator::new();
    exec(&mut emu, 0x600A); // V0 := 10
    exec(&mut emu, 0x6105); // V1 := 5
    exec(&mut emu, 0x8015); // V0 -= V1
    assert_eq!(emu.get_register(0), 5);
    assert_eq!(emu.get_register(0xF), 1);
}

#[test]
fn alu_sub_with_borrow() {
    let mut emu = Emulator::new();
    exec(&mut emu, 0x6005); // V0 := 5
    exec(&mut emu, 0x610A); // V1 := 10
    exec(&mut emu, 0x8015); // V0 -= V1
    assert_eq!(emu.get_register(0), 251);
    assert_eq!(emu.get_register(0xF), 0);
}

#[test]
fn alu_sub_reversed() {
    let mut emu = Emulator::new();
    exec(&mut emu, 0x6005); // V0 := 5
    exec(&mut emu, 0x610A); // V1 := 10
    exec(&mut emu, 0x8017); // V0 := V1 - V0
    assert_eq!(emu.get_register(0), 5);
    assert_eq!(emu.get_register(0xF), 1);
}

#[test]
fn shift_right_keeps_low_bit() {
    let mut emu = Emulator::new();
    exec(&mut emu, 0x6003); // V0 := 0b0000_0011
    exec(&mut emu, 0x8006); // V0 >>= 1
    assert_eq!(emu.get_register(0), 0b0000_0001);
    assert_eq!(emu.get_register(0xF), 1);
}

#[test]
fn shift_left_keeps_high_bit() {
    let mut emu = Emulator::new();
    exec(&mut emu, 0x6081); // V0 := 0b1000_0001
    exec(&mut emu, 0x800E); // V0 <<= 1
    assert_eq!(emu.get_register(0), 0b0000_0010);
    assert_eq!(emu.get_register(0xF), 1);
}

#[test]
fn bitwise_ops_use_both_registers() {
    let mut emu = Emulator::new();
    exec(&mut emu, 0x600C); // V0 := 0b1100
    exec(&mut emu, 0x610A); // V1 := 0b1010
    exec(&mut emu, 0x8013); // V0 ^= V1
    assert_eq!(emu.get_register(0), 0b0110);
    exec(&mut emu, 0x600C);
    exec(&mut emu, 0x8011); // V0 |= V1
    assert_eq!(emu.get_register(0), 0b1110);
    exec(&mut emu, 0x600C);
    exec(&mut emu, 0x8012); // V0 &= V1
    assert_eq!(emu.get_register(0), 0b1000);
}

#[test]
fn register_copy() {
    let mut emu = Emulator::new();
    exec(&mut emu, 0x6A2A); // VA := 42
    exec(&mut emu, 0x8BA0); // VB := VA
    assert_eq!(emu.get_register(0xB), 42);
}

#[test]
fn skip_if_equal_immediate() {
    let mut emu = Emulator::new();
    exec(&mut emu, 0x6007); // V0 := 7
    let pc = emu.get_pc();
    exec(&mut emu, 0x3007); // skip: V0 == 7
    assert_eq!(emu.get_pc(), pc + 2);
    exec(&mut emu, 0x3008); // no skip: V0 != 8
    assert_eq!(emu.get_pc(), pc + 2);
}

#[test]
fn skip_if_not_equal_immediate() {
    let mut emu = Emulator::new();
    exec(&mut emu, 0x6007); // V0 := 7
    let pc = emu.get_pc();
    exec(&mut emu, 0x4008); // skip: V0 != 8
    assert_eq!(emu.get_pc(), pc + 2);
    exec(&mut emu, 0x4007); // no skip
    assert_eq!(emu.get_pc(), pc + 2);
}

#[test]
fn skip_on_register_compare() {
    let mut emu = Emulator::new();
    exec(&mut emu, 0x6305); // V3 := 5
    exec(&mut emu, 0x6405); // V4 := 5
    let pc = emu.get_pc();
    exec(&mut emu, 0x5340); // skip: V3 == V4
    assert_eq!(emu.get_pc(), pc + 2);
    exec(&mut emu, 0x9340); // no skip: V3 == V4
    assert_eq!(emu.get_pc(), pc + 2);
    exec(&mut emu, 0x6406); // V4 := 6
    exec(&mut emu, 0x9340); // skip: V3 != V4
    assert_eq!(emu.get_pc(), pc + 4);
}

#[test]
fn jump_absolute_and_offset() {
    let mut emu = Emulator::new();
    exec(&mut emu, 0x1300); // PC := 0x300
    assert_eq!(emu.get_pc(), 0x300);
    exec(&mut emu, 0x6004); // V0 := 4
    exec(&mut emu, 0xB200); // PC := V0 + 0x200
    assert_eq!(emu.get_pc(), 0x204);
}

#[test]
fn index_register_ops() {
    let mut emu = Emulator::new();
    exec(&mut emu, 0xA100); // I := 0x100
    assert_eq!(emu.get_index(), 0x100);
    exec(&mut emu, 0x6005); // V0 := 5
    exec(&mut emu, 0xF01E); // I += V0
    assert_eq!(emu.get_index(), 0x105);
}

#[test]
fn glyph_address() {
    let mut emu = Emulator::new();
    exec(&mut emu, 0x600A); // V0 := 0xA
    exec(&mut emu, 0xF029); // I := V0 * 5
    assert_eq!(emu.get_index(), 50);
}

#[test]
fn random_is_masked() {
    let mut emu = Emulator::new();
    emu.execute(0xC00F, 0xAB).expect("random instruction");
    assert_eq!(emu.get_register(0), 0x0B);
    emu.execute(0xC100, 0xFF).expect("random instruction");
    assert_eq!(emu.get_register(1), 0);
}

#[test]
fn bcd_store() {
    let mut emu = Emulator::new();
    exec(&mut emu, 0x609D); // V0 := 157
    exec(&mut emu, 0xA300); // I := 0x300
    exec(&mut emu, 0xF033); // BCD of V0 at I
    assert_eq!(emu.get_memory(0x300), 1);
    assert_eq!(emu.get_memory(0x301), 5);
    assert_eq!(emu.get_memory(0x302), 7);
}

#[test]
fn store_and_load_registers() {
    let mut emu = Emulator::new();
    exec(&mut emu, 0x6011); // V0 := 0x11
    exec(&mut emu, 0x6122); // V1 := 0x22
    exec(&mut emu, 0x6233); // V2 := 0x33
    exec(&mut emu, 0xA300); // I := 0x300
    exec(&mut emu, 0xF255); // store V0..V2
    assert_eq!(emu.get_memory(0x300), 0x11);
    assert_eq!(emu.get_memory(0x301), 0x22);
    assert_eq!(emu.get_memory(0x302), 0x33);
    exec(&mut emu, 0x6000);
    exec(&mut emu, 0x6100);
    exec(&mut emu, 0x6200);
    exec(&mut emu, 0xF265); // load V0..V2 back
    assert_eq!(emu.get_register(0), 0x11);
    assert_eq!(emu.get_register(1), 0x22);
    assert_eq!(emu.get_register(2), 0x33);
}

#[test]
fn delay_timer_round_trip() {
    let mut emu = Emulator::new();
    exec(&mut emu, 0x6007); // V0 := 7
    exec(&mut emu, 0xF015); // delay := V0
    assert_eq!(emu.delay_timer(), 7);
    exec(&mut emu, 0xF107); // V1 := delay
    assert_eq!(emu.get_register(1), 7);
}

#[test]
fn sound_timer_set() {
    let mut emu = Emulator::new();
    exec(&mut emu, 0x6009); // V0 := 9
    exec(&mut emu, 0xF018); // sound := V0
    assert_eq!(emu.sound_timer(), 9);
}

#[test]
fn key_skip_instructions() {
    let mut emu = Emulator::new();
    exec(&mut emu, 0x6005); // V0 := 5
    emu.set_key(5, true);
    let pc = emu.get_pc();
    exec(&mut emu, 0xE09E); // skip: key 5 down
    assert_eq!(emu.get_pc(), pc + 2);
    exec(&mut emu, 0xE0A1); // no skip: key 5 down
    assert_eq!(emu.get_pc(), pc + 2);
    emu.set_key(5, false);
    exec(&mut emu, 0xE0A1); // skip: key 5 up
    assert_eq!(emu.get_pc(), pc + 4);
}

#[test]
fn wait_for_key_blocks_and_resumes() {
    let mut emu = Emulator::new();
    let pc = emu.get_pc();
    exec(&mut emu, 0xF00A); // no key down: rewind
    assert_eq!(emu.get_pc(), pc - 2);
    emu.set_key(3, true);
    exec(&mut emu, 0xF00A); // key 3 down: store it, no rewind
    assert_eq!(emu.get_pc(), pc - 2);
    assert_eq!(emu.get_register(0), 3);
}

#[test]
fn unimplemented_opcode_reports_error() {
    let mut emu = Emulator::new();
    let pc = emu.get_pc();
    let r = emu.execute(0xFFFF, 0);
    assert_eq!(r, Err(Chip8Error::UnimplementedOpcode(0xFFFF)));
    assert_eq!(emu.get_pc(), pc);
    assert_eq!(emu.get_register(0xF), 0);
}

#[test]
fn clear_screen_is_not_implemented() {
    let mut emu = Emulator::new();
    let r = emu.execute(0x00E0, 0);
    assert_eq!(r, Err(Chip8Error::UnimplementedOpcode(0x00E0)));
}

#[test]
fn stack_underflow_on_lone_return() {
    let mut emu = Emulator::new();
    let r = emu.execute(0x00EE, 0);
    assert_eq!(r, Err(Chip8Error::StackUnderflow));
    assert_eq!(emu.stack_depth(), 0);
}

#[test]
fn stack_overflow_after_sixteen_calls() {
    let mut emu = Emulator::new();
    for _ in 0..16 {
        exec(&mut emu, 0x2200); // call 0x200
    }
    assert_eq!(emu.stack_depth(), 16);
    let r = emu.execute(0x2200, 0);
    assert_eq!(r, Err(Chip8Error::StackOverflow));
    assert_eq!(emu.stack_depth(), 16);
}

#[test]
fn bcd_out_of_bounds_address() {
    let mut emu = Emulator::new();
    exec(&mut emu, 0xAFFF); // I := 0xFFF
    let r = emu.execute(0xF033, 0);
    assert_eq!(r, Err(Chip8Error::AddressOutOfBounds));
}

#[test]
fn store_registers_out_of_bounds_address() {
    let mut emu = Emulator::new();
    exec(&mut emu, 0xAFFF); // I := 0xFFF
    let r = emu.execute(0xF155, 0);
    assert_eq!(r, Err(Chip8Error::AddressOutOfBounds));
}

#[test]
fn draw_out_of_bounds_address() {
    let mut emu = Emulator::new();
    exec(&mut emu, 0xAFFF); // I := 0xFFF
    let r = emu.execute(0xD002, 0);
    assert_eq!(r, Err(Chip8Error::AddressOutOfBounds));
}

#[test]
fn key_test_out_of_bounds_index() {
    let mut emu = Emulator::new();
    exec(&mut emu, 0x6010); // V0 := 16
    let r = emu.execute(0xE09E, 0);
    assert_eq!(r, Err(Chip8Error::KeyOutOfBounds));
}

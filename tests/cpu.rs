use chip8::cpu::{Fault, CPU, MAX_ROM_LEN};

fn machine(program: &[u8]) -> CPU {
    let mut cpu = CPU::new();
    cpu.reset();
    cpu.load_rom(program).unwrap();
    cpu
}

fn run(cpu: &mut CPU, cycles: usize) {
    for _ in 0..cycles {
        cpu.exec_cycle(0).unwrap();
    }
}

#[test]
fn add_registers_sums_without_carry() {
    let mut cpu = machine(&[0x6A, 0x02, 0x6B, 0x03, 0x8A, 0xB4]);
    run(&mut cpu, 3);
    assert_eq!(cpu.v[0xA], 5);
    assert_eq!(cpu.v[0xF], 0);
    assert_eq!(cpu.pc, 0x200 + 6);
}

#[test]
fn add_registers_wraps_and_sets_carry() {
    let mut cpu = machine(&[0x6A, 200, 0x6B, 100, 0x6F, 0x07, 0x8A, 0xB4]);
    run(&mut cpu, 4);
    assert_eq!(cpu.v[0xA], 44);
    assert_eq!(cpu.v[0xF], 1);
}

#[test]
fn add_registers_exactly_256_carries() {
    let mut cpu = machine(&[0x60, 0x80, 0x61, 0x80, 0x80, 0x14]);
    run(&mut cpu, 3);
    assert_eq!(cpu.v[0], 0);
    assert_eq!(cpu.v[0xF], 1);
}

#[test]
fn sub_registers_borrow_clears_flag() {
    let mut cpu = machine(&[0x60, 5, 0x61, 7, 0x80, 0x15]);
    run(&mut cpu, 3);
    assert_eq!(cpu.v[0], 254);
    assert_eq!(cpu.v[0xF], 0);
}

#[test]
fn sub_registers_no_borrow_sets_flag() {
    let mut cpu = machine(&[0x60, 7, 0x61, 5, 0x80, 0x15, 0x62, 9, 0x63, 9, 0x82, 0x35]);
    run(&mut cpu, 3);
    assert_eq!(cpu.v[0], 2);
    assert_eq!(cpu.v[0xF], 1);
    run(&mut cpu, 3);
    assert_eq!(cpu.v[2], 0);
    assert_eq!(cpu.v[0xF], 1);
}

#[test]
fn subn_uses_swapped_operands() {
    let mut cpu = machine(&[0x60, 7, 0x61, 5, 0x80, 0x17]);
    run(&mut cpu, 3);
    assert_eq!(cpu.v[0], 254);
    assert_eq!(cpu.v[0xF], 0);
}

#[test]
fn shift_right_flags_low_bit() {
    let mut cpu = machine(&[0x60, 0x05, 0x6F, 0x00, 0x80, 0x06, 0x61, 0x04, 0x6F, 0x01, 0x81, 0x06]);
    run(&mut cpu, 3);
    assert_eq!(cpu.v[0], 0x02);
    assert_eq!(cpu.v[0xF], 1);
    run(&mut cpu, 3);
    assert_eq!(cpu.v[1], 0x02);
    assert_eq!(cpu.v[0xF], 0);
}

#[test]
fn shift_left_flags_high_bit() {
    let mut cpu = machine(&[0x60, 0x81, 0x6F, 0x00, 0x80, 0x0E, 0x61, 0x41, 0x6F, 0x01, 0x81, 0x0E]);
    run(&mut cpu, 3);
    assert_eq!(cpu.v[0], 0x02);
    assert_eq!(cpu.v[0xF], 1);
    run(&mut cpu, 3);
    assert_eq!(cpu.v[1], 0x82);
    assert_eq!(cpu.v[0xF], 0);
}

#[test]
fn shift_on_vf_keeps_flag_over_result() {
    let mut cpu = machine(&[0x6F, 0x02, 0x8F, 0xF6]);
    run(&mut cpu, 2);
    assert_eq!(cpu.v[0xF], 0);
}

#[test]
fn logic_ops() {
    let mut cpu = machine(&[0x60, 0b1100, 0x61, 0b1010, 0x62, 0b1100, 0x63, 0b1100, 0x80, 0x11, 0x82, 0x12, 0x83, 0x13, 0x84, 0x10]);
    run(&mut cpu, 8);
    assert_eq!(cpu.v[0], 0b1110);
    assert_eq!(cpu.v[2], 0b1000);
    assert_eq!(cpu.v[3], 0b0110);
    assert_eq!(cpu.v[4], 0b1010);
}

#[test]
fn add_immediate_wraps_without_flag() {
    let mut cpu = machine(&[0x60, 0xFF, 0x6F, 0x07, 0x70, 0x02]);
    run(&mut cpu, 3);
    assert_eq!(cpu.v[0], 1);
    assert_eq!(cpu.v[0xF], 7);
}

#[test]
fn skips_compare_bytes() {
    let mut cpu = machine(&[0x60, 0x11, 0x30, 0x11, 0x00, 0x00, 0x40, 0x11, 0x61, 0x11, 0x50, 0x10, 0x00, 0x00, 0x90, 0x10]);
    run(&mut cpu, 2);
    assert_eq!(cpu.pc, 0x206);
    run(&mut cpu, 1);
    assert_eq!(cpu.pc, 0x208);
    run(&mut cpu, 2);
    assert_eq!(cpu.pc, 0x20E);
    run(&mut cpu, 1);
    assert_eq!(cpu.pc, 0x210);
}

#[test]
fn call_and_return() {
    let mut cpu = machine(&[0x22, 0x04, 0x00, 0x00, 0x00, 0xEE]);
    run(&mut cpu, 1);
    assert_eq!(cpu.pc, 0x204);
    assert_eq!(cpu.sp, 1);
    assert_eq!(cpu.stack[0], 0x202);
    run(&mut cpu, 1);
    assert_eq!(cpu.pc, 0x202);
    assert_eq!(cpu.sp, 0);
}

#[test]
fn jumps() {
    let mut cpu = machine(&[0x12, 0x04, 0x00, 0x00, 0x60, 0x10, 0xB3, 0x00]);
    run(&mut cpu, 3);
    assert_eq!(cpu.pc, 0x310);
}

#[test]
fn random_byte_is_masked() {
    let mut cpu = machine(&[0xC3, 0x0F]);
    cpu.exec_cycle(0xAB).unwrap();
    assert_eq!(cpu.v[3], 0x0B);
}

#[test]
fn index_register_ops() {
    let mut cpu = machine(&[0xAF, 0xFF, 0x60, 0x02, 0xF0, 0x1E, 0x61, 0x0A, 0xF1, 0x29]);
    run(&mut cpu, 3);
    assert_eq!(cpu.i, 0x1001);
    run(&mut cpu, 2);
    assert_eq!(cpu.i, 50);
}

#[test]
fn index_add_wraps_at_sixteen_bits() {
    let mut cpu = machine(&[0x60, 0x02, 0xF0, 0x1E]);
    cpu.i = 0xFFFF;
    run(&mut cpu, 2);
    assert_eq!(cpu.i, 1);
}

#[test]
fn bcd_digits() {
    let mut cpu = machine(&[0x65, 234, 0xA3, 0x00, 0xF5, 0x33]);
    run(&mut cpu, 3);
    assert_eq!(cpu.memory[0x300..0x303], [2, 3, 4]);
}

#[test]
fn register_block_round_trip() {
    let mut cpu = machine(&[0x60, 1, 0x61, 2, 0x62, 3, 0xA3, 0x00, 0xF1, 0x55, 0x60, 0, 0x61, 0, 0x62, 0, 0xF2, 0x65]);
    run(&mut cpu, 5);
    assert_eq!(cpu.memory[0x300..0x303], [1, 2, 0]);
    assert_eq!(cpu.i, 0x300);
    run(&mut cpu, 4);
    assert_eq!(cpu.v[0..3], [1, 2, 0]);
}

#[test]
fn timer_registers_load() {
    let mut cpu = machine(&[0x60, 9, 0xF0, 0x15, 0xF0, 0x18, 0xF1, 0x07]);
    run(&mut cpu, 4);
    assert_eq!(cpu.dt, 9);
    assert_eq!(cpu.st, 9);
    assert_eq!(cpu.v[1], 9);
}

#[test]
fn sound_timer_buzzes_until_zero() {
    let mut cpu = CPU::new();
    cpu.st = 2;
    let buzz: Vec<bool> = (0..3).map(|_| cpu.update_timers()).collect();
    assert_eq!(buzz, vec![true, true, false]);
    assert_eq!(cpu.st, 0);
}

#[test]
fn delay_timer_stops_at_zero() {
    let mut cpu = CPU::new();
    cpu.dt = 1;
    assert!(!cpu.update_timers());
    assert_eq!(cpu.dt, 0);
    cpu.update_timers();
    assert_eq!(cpu.dt, 0);
}

#[test]
fn clear_then_draw_font_zero() {
    let mut cpu = machine(&[0x00, 0xE0, 0xD0, 0x15]);
    run(&mut cpu, 2);
    let glyph = [0xF0u8, 0x90, 0x90, 0x90, 0xF0];
    for (row, bits) in glyph.iter().enumerate() {
        for col in 0..8 {
            let lit = bits >> (7 - col) & 1 == 1;
            assert_eq!(cpu.display.get_pixel(col, row), lit);
        }
    }
    assert_eq!(cpu.v[0xF], 0);
    assert!(cpu.display.need_redraw);
}

#[test]
fn draw_twice_reports_collision() {
    let mut cpu = machine(&[0xD0, 0x15, 0xD0, 0x15]);
    run(&mut cpu, 1);
    assert_eq!(cpu.v[0xF], 0);
    run(&mut cpu, 1);
    assert_eq!(cpu.v[0xF], 1);
    assert!(cpu.display.fb.iter().all(|p| !p));
}

#[test]
fn wait_for_key_holds_until_pressed() {
    let mut cpu = machine(&[0xF5, 0x0A]);
    for _ in 0..3 {
        cpu.exec_cycle(0).unwrap();
        assert_eq!(cpu.pc, 0x200);
    }
    cpu.keyboard.update_keys(&['e']);
    cpu.exec_cycle(0).unwrap();
    assert_eq!(cpu.pc, 0x202);
    assert_eq!(cpu.v[5], 6);
}

#[test]
fn key_skips() {
    let mut cpu = machine(&[0x60, 0x0F, 0xE0, 0x9E, 0x00, 0x00, 0xE0, 0xA1]);
    cpu.keyboard.update_keys(&['v']);
    run(&mut cpu, 2);
    assert_eq!(cpu.pc, 0x206);
    run(&mut cpu, 1);
    assert_eq!(cpu.pc, 0x208);
}

#[test]
fn new_and_reset_load_font() {
    let mut cpu = CPU::new();
    assert_eq!(cpu.memory[0..5], [0xF0, 0x90, 0x90, 0x90, 0xF0]);
    assert_eq!(cpu.memory[75..80], [0xF0, 0x80, 0xF0, 0x80, 0x80]);
    assert_eq!(cpu.pc, 0x200);
    cpu.memory[3] = 0;
    cpu.v[2] = 9;
    cpu.pc = 0x300;
    cpu.reset();
    assert_eq!(cpu.memory[3], 0x90);
    assert_eq!(cpu.v[2], 0);
    assert_eq!(cpu.pc, 0x200);
}

#[test]
fn rom_of_largest_size_loads() {
    let mut cpu = CPU::new();
    let rom = vec![0xAAu8; MAX_ROM_LEN];
    assert_eq!(cpu.load_rom(&rom), Ok(()));
    assert_eq!(cpu.memory[0x200 + MAX_ROM_LEN - 1], 0xAA);
    assert_eq!(cpu.memory[0xFFF], 0);
}

#[test]
fn rom_too_large_is_refused() {
    let mut cpu = CPU::new();
    let rom = vec![0xAAu8; MAX_ROM_LEN + 1];
    assert_eq!(cpu.load_rom(&rom), Err(Fault::RomTooLarge { len: MAX_ROM_LEN + 1 }));
    assert_eq!(cpu.memory[0x200], 0);
}

#[test]
fn fetch_past_memory_faults() {
    let mut cpu = CPU::new();
    cpu.pc = 0xFFF;
    assert_eq!(cpu.exec_cycle(0), Err(Fault::PcOutOfRange { pc: 0xFFF }));
}

#[test]
fn invalid_opcode_faults() {
    let mut cpu = machine(&[0x01, 0x23]);
    assert_eq!(cpu.exec_cycle(0), Err(Fault::InvalidOpcode { opcode: 0x0123 }));
}

#[test]
fn stack_overflow_faults() {
    let mut cpu = machine(&[0x22, 0x00]);
    run(&mut cpu, 16);
    assert_eq!(cpu.exec_cycle(0), Err(Fault::StackOverflow { opcode: 0x2200 }));
}

#[test]
fn stack_underflow_faults() {
    let mut cpu = machine(&[0x00, 0xEE]);
    assert_eq!(cpu.exec_cycle(0), Err(Fault::StackUnderflow { opcode: 0x00EE }));
}

#[test]
fn memory_past_end_faults() {
    let mut cpu = machine(&[0xAF, 0xFE, 0xF0, 0x33]);
    run(&mut cpu, 1);
    assert_eq!(cpu.exec_cycle(0), Err(Fault::MemoryOutOfRange { opcode: 0xF033, index: 0xFFE }));
}

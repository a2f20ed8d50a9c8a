use rust8::memory::FONT;
use rust8::{Bus, Chip8Error, Cpu};

fn boot(rom: &[u8]) -> (Cpu, Bus) {
    let cpu = Cpu::new(&rom.to_vec()).expect("rom fits");
    (cpu, Bus::new())
}

fn run(rom: &[u8], ticks: usize) -> (Cpu, Bus) {
    let (mut cpu, mut bus) = boot(rom);
    for _ in 0..ticks {
        cpu.tick(&mut bus, 0).expect("instruction runs");
    }
    (cpu, bus)
}

#[test]
fn new_cpu_starts_at_user_region() {
    let (cpu, _) = boot(&[0x12, 0x00]);
    assert_eq!(cpu.pc(), 0x200);
    assert_eq!(cpu.index_register(), 0);
    for x in 0..16 {
        assert_eq!(cpu.register(x), 0);
    }
}

#[test]
fn rom_too_large_is_refused() {
    assert_eq!(Cpu::new(&vec![0u8; 3585]).err(), Some(Chip8Error::RomTooLarge));
    assert!(Cpu::new(&vec![0u8; 3584]).is_ok());
}

#[test]
fn add_immediate_wraps() {
    // V0 = 0xFF; V0 += 0x02
    let (cpu, _) = run(&[0x60, 0xFF, 0x70, 0x02], 2);
    assert_eq!(cpu.register(0), 0x01);
    assert_eq!(cpu.register(0xF), 0);
    assert_eq!(cpu.pc(), 0x204);
}

#[test]
fn add_immediate_every_register_every_operand() {
    for x in 0..16u8 {
        for nn in [0u8, 1, 0x7F, 0x80, 0xFF] {
            let (cpu, _) = run(&[0x60 | x, 0xC8, 0x70 | x, nn], 2);
            assert_eq!(cpu.register(x as usize), 0xC8u8.wrapping_add(nn));
        }
    }
}

#[test]
fn add_register_with_carry() {
    // V0 = 0xFF, V1 = 0x01, V0 += V1
    let (cpu, _) = run(&[0x60, 0xFF, 0x61, 0x01, 0x80, 0x14], 3);
    assert_eq!(cpu.register(0), 0x00);
    assert_eq!(cpu.register(0xF), 1);
}

#[test]
fn add_register_without_carry() {
    let (cpu, _) = run(&[0x60, 0x01, 0x61, 0x01, 0x80, 0x14], 3);
    assert_eq!(cpu.register(0), 0x02);
    assert_eq!(cpu.register(0xF), 0);
}

#[test]
fn logic_ops_on_seven_and_nine() {
    let or = run(&[0x60, 7, 0x61, 9, 0x80, 0x11], 3).0;
    let and = run(&[0x60, 7, 0x61, 9, 0x80, 0x12], 3).0;
    let xor = run(&[0x60, 7, 0x61, 9, 0x80, 0x13], 3).0;
    assert_eq!(or.register(0), 15);
    assert_eq!(and.register(0), 1);
    assert_eq!(xor.register(0), 14);
}

#[test]
fn logic_ops_all_input_pairs() {
    for a in 0..=255u8 {
        for b in 0..=255u8 {
            let mut rom = vec![0x60, a, 0x61, b, 0x82, 0x00, 0x83, 0x00, 0x80, 0x11, 0x82, 0x12];
            rom.extend_from_slice(&[0x83, 0x13]);
            let (cpu, _) = run(&rom, 7);
            assert_eq!(cpu.register(0), a | b);
            assert_eq!(cpu.register(2), a & b);
            assert_eq!(cpu.register(3), a ^ b);
        }
    }
}

#[test]
fn subtract_without_borrow() {
    let (cpu, _) = run(&[0x60, 0x05, 0x61, 0x03, 0x80, 0x15], 3);
    assert_eq!(cpu.register(0), 0x02);
    assert_eq!(cpu.register(0xF), 1);
}

#[test]
fn subtract_with_borrow() {
    let (cpu, _) = run(&[0x60, 0x03, 0x61, 0x05, 0x80, 0x15], 3);
    assert_eq!(cpu.register(0), 0xFE);
    assert_eq!(cpu.register(0xF), 0);
}

#[test]
fn subtract_equal_values_is_no_borrow() {
    let (cpu, _) = run(&[0x60, 0x07, 0x61, 0x07, 0x80, 0x15], 3);
    assert_eq!(cpu.register(0), 0);
    assert_eq!(cpu.register(0xF), 1);
}

#[test]
fn reverse_subtract() {
    // V0 = V1 - V0 with V0 = 3, V1 = 5, then V2 = V3 - V2 with V2 = 5, V3 = 3
    let (cpu, _) = run(&[0x60, 0x03, 0x61, 0x05, 0x80, 0x17], 3);
    assert_eq!(cpu.register(0), 0x02);
    assert_eq!(cpu.register(0xF), 1);
    let (cpu, _) = run(&[0x62, 0x05, 0x63, 0x03, 0x82, 0x37], 3);
    assert_eq!(cpu.register(2), 0xFE);
    assert_eq!(cpu.register(0xF), 0);
}

#[test]
fn shift_right_keeps_low_bit() {
    let (cpu, _) = run(&[0x60, 0b0000_0011, 0x80, 0x06], 2);
    assert_eq!(cpu.register(0), 0b0000_0001);
    assert_eq!(cpu.register(0xF), 1);
}

#[test]
fn shift_left_keeps_high_bit() {
    let (cpu, _) = run(&[0x60, 0b1000_0001, 0x80, 0x0E], 2);
    assert_eq!(cpu.register(0), 0b0000_0010);
    assert_eq!(cpu.register(0xF), 1);
}

#[test]
fn register_copy() {
    let (cpu, _) = run(&[0x61, 0x2A, 0x80, 0x10], 2);
    assert_eq!(cpu.register(0), 0x2A);
}

#[test]
fn flag_register_as_operand_gets_the_flag() {
    // VF = 0xFF, V1 = 1, VF += V1: the flag wins over the sum.
    let (cpu, _) = run(&[0x6F, 0xFF, 0x61, 0x01, 0x8F, 0x14], 3);
    assert_eq!(cpu.register(0xF), 1);
}

#[test]
fn bcd_store() {
    // V0 = 156; I = 0x300; store BCD of V0
    let (cpu, _) = run(&[0x60, 156, 0xA3, 0x00, 0xF0, 0x33], 3);
    let data = cpu.memory().data();
    assert_eq!(&data[0x300..0x303], &[1, 5, 6]);
}

#[test]
fn bcd_store_into_font_is_refused() {
    let (mut cpu, mut bus) = run(&[0x60, 156, 0xA0, 0x10, 0xF0, 0x33], 2);
    assert_eq!(cpu.tick(&mut bus, 0), Err(Chip8Error::AddressOutOfRange));
    assert_eq!(cpu.pc(), 0x204);
    assert_eq!(&cpu.memory().data()[0x10..0x13], &FONT[0x10..0x13]);
}

#[test]
fn call_then_return() {
    let mut rom = vec![0u8; 0x102];
    rom[0] = 0x23;
    rom[1] = 0x00;
    rom[0x100] = 0x00;
    rom[0x101] = 0xEE;
    let (mut cpu, mut bus) = boot(&rom);
    cpu.tick(&mut bus, 0).unwrap();
    assert_eq!(cpu.pc(), 0x300);
    assert_eq!(&cpu.memory().data()[0x50..0x52], &[0x02, 0x02]);
    cpu.tick(&mut bus, 0).unwrap();
    assert_eq!(cpu.pc(), 0x202);
}

#[test]
fn return_with_empty_stack_fails() {
    let (mut cpu, mut bus) = boot(&[0x00, 0xEE]);
    assert_eq!(cpu.tick(&mut bus, 0), Err(Chip8Error::StackUnderflow));
    assert_eq!(cpu.pc(), 0x200);
}

#[test]
fn sixteen_nested_calls_then_overflow() {
    // 0x200: call 0x200, forever
    let (mut cpu, mut bus) = boot(&[0x22, 0x00]);
    for _ in 0..16 {
        cpu.tick(&mut bus, 0).unwrap();
    }
    assert_eq!(cpu.tick(&mut bus, 0), Err(Chip8Error::StackOverflow));
}

#[test]
fn native_call_is_refused() {
    let (mut cpu, mut bus) = boot(&[0x01, 0x23]);
    assert_eq!(cpu.tick(&mut bus, 0), Err(Chip8Error::NativeCall(0x0123)));
}

#[test]
fn unknown_instructions_are_refused() {
    for ins in [0x5121u16, 0x8008, 0x912F, 0xE000, 0xF0FF] {
        let (mut cpu, mut bus) = boot(&ins.to_be_bytes());
        assert_eq!(cpu.tick(&mut bus, 0), Err(Chip8Error::UnknownInstruction(ins)));
        assert_eq!(cpu.pc(), 0x200);
    }
}

#[test]
fn jump_and_jump_with_offset() {
    let (cpu, _) = run(&[0x12, 0x34], 1);
    assert_eq!(cpu.pc(), 0x234);
    let (cpu, _) = run(&[0x60, 0x10, 0xB3, 0x00], 2);
    assert_eq!(cpu.pc(), 0x310);
}

#[test]
fn fetch_past_end_of_memory_fails() {
    let (mut cpu, mut bus) = run(&[0x1F, 0xFF], 1);
    assert_eq!(cpu.pc(), 0xFFF);
    assert_eq!(cpu.tick(&mut bus, 0), Err(Chip8Error::AddressOutOfRange));
}

#[test]
fn conditional_skips() {
    // V0 = 5; skip if V0 == 5
    assert_eq!(run(&[0x60, 5, 0x30, 5], 2).0.pc(), 0x206);
    assert_eq!(run(&[0x60, 5, 0x30, 6], 2).0.pc(), 0x204);
    assert_eq!(run(&[0x60, 5, 0x40, 6], 2).0.pc(), 0x206);
    assert_eq!(run(&[0x60, 5, 0x40, 5], 2).0.pc(), 0x204);
    assert_eq!(run(&[0x60, 5, 0x61, 5, 0x50, 0x10], 3).0.pc(), 0x208);
    assert_eq!(run(&[0x60, 5, 0x61, 4, 0x90, 0x10], 3).0.pc(), 0x208);
    assert_eq!(run(&[0x60, 5, 0x61, 5, 0x90, 0x10], 3).0.pc(), 0x206);
}

#[test]
fn random_byte_is_masked() {
    let (mut cpu, mut bus) = boot(&[0xC0, 0x0F]);
    cpu.tick(&mut bus, 0xAB).unwrap();
    assert_eq!(cpu.register(0), 0x0B);
}

#[test]
fn font_address_of_digit_a() {
    let (cpu, _) = run(&[0x60, 0x0A, 0xF0, 0x29], 2);
    assert_eq!(cpu.index_register(), 0x32);
}

#[test]
fn add_register_to_index() {
    let (cpu, _) = run(&[0xA1, 0x00, 0x60, 0x20, 0xF0, 0x1E], 3);
    assert_eq!(cpu.index_register(), 0x120);
}

#[test]
fn block_store_and_load() {
    // V0..V2 = 1, 2, 3; I = 0x300; store V0..V2; clear V0..V2; load V0..V1
    let rom = [
        0x60, 1, 0x61, 2, 0x62, 3, 0xA3, 0x00, 0xF2, 0x55, 0x60, 0, 0x61, 0, 0x62, 0, 0xF1, 0x65,
    ];
    let (cpu, _) = run(&rom, 9);
    assert_eq!(&cpu.memory().data()[0x300..0x304], &[1, 2, 3, 0]);
    assert_eq!(cpu.register(0), 1);
    assert_eq!(cpu.register(1), 2);
    assert_eq!(cpu.register(2), 0);
}

#[test]
fn block_load_past_end_of_memory_fails() {
    let (mut cpu, mut bus) = run(&[0xAF, 0xFE, 0xF2, 0x65], 1);
    assert_eq!(cpu.tick(&mut bus, 0), Err(Chip8Error::AddressOutOfRange));
    assert_eq!(cpu.register(0), 0);
}

#[test]
fn timers_through_registers() {
    // V0 = 30; delay = V0; sound = V0; V1 = delay
    let (cpu, bus) = run(&[0x60, 30, 0xF0, 0x15, 0xF0, 0x18, 0xF1, 0x07], 4);
    assert_eq!(cpu.register(1), 30);
    assert_eq!(bus.delay_timer(), 30);
    assert!(bus.sound_active());
}

#[test]
fn key_wait_halts_until_a_key_is_down() {
    let (mut cpu, mut bus) = boot(&[0xF3, 0x0A]);
    cpu.tick(&mut bus, 0).unwrap();
    assert_eq!(cpu.pc(), 0x200);
    bus.set_key(9);
    bus.set_key(5);
    cpu.tick(&mut bus, 0).unwrap();
    assert_eq!(cpu.pc(), 0x202);
    assert_eq!(cpu.register(3), 5);
}

#[test]
fn key_skips() {
    let (mut cpu, mut bus) = boot(&[0x60, 0x07, 0xE0, 0x9E, 0x00, 0x00, 0xE0, 0xA1]);
    bus.set_key(7);
    cpu.tick(&mut bus, 0).unwrap();
    cpu.tick(&mut bus, 0).unwrap();
    assert_eq!(cpu.pc(), 0x206);
    cpu.tick(&mut bus, 0).unwrap();
    assert_eq!(cpu.pc(), 0x208);
}

#[test]
fn key_index_out_of_range_is_refused() {
    let (mut cpu, mut bus) = run(&[0x60, 0x10, 0xE0, 0x9E], 1);
    assert_eq!(cpu.tick(&mut bus, 0), Err(Chip8Error::InvalidKey));
}

#[test]
fn draw_twice_restores_screen_and_sets_collision() {
    // I = glyph 0; V0 = V1 = 0; draw twice
    let (mut cpu, mut bus) = run(&[0xA0, 0x00, 0xD0, 0x15, 0xD0, 0x15], 2);
    assert_eq!(cpu.register(0xF), 0);
    assert!(bus.display()[0]);
    cpu.tick(&mut bus, 0).unwrap();
    assert_eq!(cpu.register(0xF), 1);
    assert!(bus.display().iter().all(|p| !p));
}

#[test]
fn draw_wraps_at_right_edge() {
    // V0 = 60; V1 = 0; I = 0x208; draw one row of 0xFF
    let (_, bus) = run(&[0x60, 60, 0x61, 0, 0xA2, 0x08, 0xD0, 0x11, 0xFF], 4);
    let d = bus.display();
    for x in (60..64).chain(0..4) {
        assert!(d[x], "column {} should be set", x);
    }
    assert!(!d[4]);
    assert!(!d[59]);
}

#[test]
fn clear_screen() {
    let (_, bus) = run(&[0xA0, 0x00, 0xD0, 0x15, 0x00, 0xE0], 3);
    assert!(bus.display().iter().all(|p| !p));
}

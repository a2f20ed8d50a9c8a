use rust8::{Chip8, Chip8Error};

#[test]
fn tick_without_program_does_nothing() {
    let mut chip = Chip8::new();
    assert_eq!(chip.tick(0), Ok(()));
    assert!(!chip.check_pixel(0, 0));
}

#[test]
fn load_and_draw_digit() {
    let mut chip = Chip8::new();
    // V0 = 0xA; I = glyph(V0); V1 = 0; draw 5 rows at (V1, V1)
    chip.load(vec![0x60, 0x0A, 0xF0, 0x29, 0x61, 0x00, 0xD1, 0x15]).unwrap();
    for _ in 0..4 {
        chip.tick(0).unwrap();
    }
    // glyph A, rows F0 90 F0 90 90
    assert!(chip.check_pixel(0, 0) && chip.check_pixel(3, 0));
    assert!(chip.check_pixel(0, 1) && !chip.check_pixel(1, 1) && chip.check_pixel(3, 1));
    assert!(!chip.check_pixel(4, 0));
}

#[test]
fn load_refuses_oversized_rom() {
    let mut chip = Chip8::new();
    assert_eq!(chip.load(vec![0; 4000]), Err(Chip8Error::RomTooLarge));
    assert_eq!(chip.tick(0), Ok(()));
}

#[test]
fn update_counts_timers_down() {
    let mut chip = Chip8::new();
    chip.load(vec![0x60, 60, 0xF0, 0x15]).unwrap();
    chip.tick(0).unwrap();
    chip.tick(0).unwrap();
    assert_eq!(chip.bus().delay_timer(), 60);
    chip.update(500_000_000);
    assert_eq!(chip.bus().delay_timer(), 30);
}

#[test]
fn tick_reports_fatal_errors() {
    let mut chip = Chip8::new();
    chip.load(vec![0x00, 0xEE]).unwrap();
    assert_eq!(chip.tick(0), Err(Chip8Error::StackUnderflow));
}

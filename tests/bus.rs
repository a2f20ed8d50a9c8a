use rust8::bus::{PIXEL_COUNT, TIMER_UNIT};
use rust8::memory::USER_OFFSET;
use rust8::{Bus, Chip8Error, Memory, WINDOW_HEIGHT, WINDOW_WIDTH};

fn sprite_memory(rows: &[u8]) -> Memory {
    Memory::new(&rows.to_vec()).unwrap()
}

#[test]
fn new_bus_is_blank() {
    let bus = Bus::new();
    assert_eq!(bus.display().len(), WINDOW_WIDTH * WINDOW_HEIGHT);
    assert!(bus.display().iter().all(|p| !p));
    assert_eq!(bus.any_key(), None);
    assert_eq!(bus.delay_timer(), 0);
    assert!(!bus.sound_active());
}

#[test]
fn draw_sets_pixels_and_reports_no_collision() {
    let memory = sprite_memory(&[0b1010_0000]);
    let mut bus = Bus::new();
    assert_eq!(bus.draw_display(&memory, USER_OFFSET, (2, 3), 1), Ok(false));
    let d = bus.display();
    assert!(d[3 * 64 + 2]);
    assert!(!d[3 * 64 + 3]);
    assert!(d[3 * 64 + 4]);
    assert_eq!(d.iter().filter(|p| **p).count(), 2);
}

#[test]
fn draw_twice_restores_framebuffer() {
    let memory = sprite_memory(&[0xFF, 0x81, 0x3C]);
    let mut bus = Bus::new();
    bus.draw_display(&memory, 0, (10, 10), 5).unwrap();
    let before: Vec<bool> = bus.display().to_vec();
    assert_eq!(bus.draw_display(&memory, USER_OFFSET, (7, 30), 3), Ok(false));
    assert_eq!(bus.draw_display(&memory, USER_OFFSET, (7, 30), 3), Ok(true));
    assert_eq!(bus.display().to_vec(), before);
}

#[test]
fn draw_wraps_at_both_edges() {
    let memory = sprite_memory(&[0xFF, 0xFF]);
    let mut bus = Bus::new();
    bus.draw_display(&memory, USER_OFFSET, (60, 31), 2).unwrap();
    let d = bus.display();
    for x in (60..64).chain(0..4) {
        assert!(d[31 * 64 + x]);
        assert!(d[x]);
    }
    assert_eq!(d.iter().filter(|p| **p).count(), 16);
}

#[test]
fn draw_position_is_taken_modulo_screen() {
    let memory = sprite_memory(&[0x80]);
    let mut bus = Bus::new();
    bus.draw_display(&memory, USER_OFFSET, (64 + 5, 32 + 2), 1).unwrap();
    assert!(bus.display()[2 * 64 + 5]);
}

#[test]
fn draw_past_end_of_memory_is_refused() {
    let memory = sprite_memory(&[]);
    let mut bus = Bus::new();
    assert_eq!(bus.draw_display(&memory, 0xFFE, (0, 0), 3), Err(Chip8Error::AddressOutOfRange));
    assert!(bus.display().iter().all(|p| !p));
    assert_eq!(bus.draw_display(&memory, 0xFFE, (0, 0), 2), Ok(false));
}

#[test]
fn clear_display_blanks_everything() {
    let memory = sprite_memory(&[]);
    let mut bus = Bus::new();
    bus.draw_display(&memory, 0, (0, 0), 15).unwrap();
    assert!(bus.display().iter().any(|p| *p));
    bus.clear_display();
    assert_eq!(bus.display().iter().filter(|p| **p).count(), 0);
    assert_eq!(bus.display().len(), PIXEL_COUNT);
}

#[test]
fn keys_latch_and_lowest_wins() {
    let mut bus = Bus::new();
    bus.set_key(0xC);
    bus.set_key(0x3);
    assert!(bus.check_key(0xC));
    assert!(!bus.check_key(0x4));
    assert_eq!(bus.any_key(), Some(0x3));
    bus.clear_key(0x3);
    assert_eq!(bus.any_key(), Some(0xC));
    bus.clear_key(0xC);
    assert_eq!(bus.any_key(), None);
}

#[test]
fn delay_timer_decays_to_zero() {
    let mut bus = Bus::new();
    bus.set_delay_timer(30);
    bus.update_timers(500_000_000);
    assert_eq!(bus.delay_timer(), 0);
}

#[test]
fn timers_clamp_at_zero() {
    let mut bus = Bus::new();
    bus.set_delay_timer(10);
    bus.set_sound_timer(10);
    bus.update_timers(10_000_000_000);
    assert_eq!(bus.delay_timer(), 0);
    assert!(!bus.sound_active());
    bus.update_timers(u64::MAX);
    assert_eq!(bus.delay_timer(), 0);
}

#[test]
fn timer_partial_decay_truncates() {
    let mut bus = Bus::new();
    bus.set_delay_timer(30);
    bus.set_sound_timer(1);
    // a quarter second is 15 ticks
    bus.update_timers(250_000_000);
    assert_eq!(bus.delay_timer(), 15);
    assert!(!bus.sound_active());
    // a tenth of a tick leaves 14.9, read as 14
    bus.update_timers(TIMER_UNIT / 600);
    assert_eq!(bus.delay_timer(), 14);
}

#[test]
fn sound_active_until_timer_runs_out() {
    let mut bus = Bus::new();
    bus.set_sound_timer(2);
    assert!(bus.sound_active());
    bus.update_timers(1_000_000_000 / 60);
    assert!(bus.sound_active());
    bus.update_timers(1_000_000_000 / 60);
    assert!(bus.sound_active());
    bus.update_timers(2);
    assert!(!bus.sound_active());
}

#[test]
fn reset_clears_screen_keys_and_timers() {
    let memory = sprite_memory(&[]);
    let mut bus = Bus::new();
    bus.draw_display(&memory, 0, (0, 0), 5).unwrap();
    bus.set_key(1);
    bus.set_delay_timer(200);
    bus.set_sound_timer(200);
    bus.reset();
    assert!(bus.display().iter().all(|p| !p));
    assert_eq!(bus.any_key(), None);
    assert_eq!(bus.delay_timer(), 0);
    assert!(!bus.sound_active());
}

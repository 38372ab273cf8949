use chip8::{Chip8, Chip8Error, DISPLAY_SIZE, DISPLAY_WIDTH};

fn chip_with_program(program: &[u8]) -> Chip8 {
    let mut chip8 = Chip8::new();
    chip8.load_program(program).unwrap();
    chip8
}

fn run(chip8: &mut Chip8, cycles: usize) {
    for _ in 0..cycles {
        assert!(chip8.next_cycle_in_bounds());
        chip8.cycle().unwrap();
    }
}

#[test]
fn loads_program_at_0x200() {
    let mut chip8 = Chip8::new();
    chip8.load_program(&[0x60, 0x2A]).unwrap();
    assert_eq!(chip8.fetch_opcode(), 0x602A);
}

#[test]
fn executes_register_load_and_add() {
    let mut chip8 = chip_with_program(&[0x60, 0x01, 0x70, 0xFF]);
    chip8.cycle().unwrap();
    chip8.cycle().unwrap();
    assert_eq!(chip8.v[0], 0);
}

#[test]
fn draws_sprite_and_sets_collision() {
    let mut chip8 = chip_with_program(&[
        0x60, 0x00, // V0 = 0
        0x61, 0x00, // V1 = 0
        0xA3, 0x00, // I = 0x300
        0xD0, 0x11, // draw 1 row
        0xD0, 0x11, // draw again, collision
    ]);
    chip8.memory[0x300] = 0b1000_0000;

    for _ in 0..4 {
        chip8.cycle().unwrap();
    }
    assert!(chip8.display[0]);

    chip8.cycle().unwrap();
    assert!(!chip8.display[0]);
    assert_eq!(chip8.v[0xF], 1);
}

#[test]
fn waits_for_key_press() {
    let mut chip8 = chip_with_program(&[
        0xF0, 0x0A, // wait for key into V0
        0x61, 0x01, // V1 = 1
    ]);

    chip8.cycle().unwrap();
    chip8.cycle().unwrap();
    assert_eq!(chip8.v[1], 0);

    chip8.set_key(0xA, true);
    chip8.cycle().unwrap();
    assert_eq!(chip8.v[0], 0xA);
    assert_eq!(chip8.v[1], 1);
}

#[test]
fn new_machine_holds_font_and_starts_at_program() {
    let chip8 = Chip8::new();
    assert_eq!(&chip8.memory[0x50..0x55], &[0xF0, 0x90, 0x90, 0x90, 0xF0]);
    assert_eq!(&chip8.memory[0x9B..0xA0], &[0xF0, 0x80, 0xF0, 0x80, 0x80]);
    assert_eq!(chip8.memory[0x4F], 0);
    assert_eq!(chip8.memory[0xA0], 0);
    assert_eq!(chip8.fetch_opcode(), 0x0000);
    assert!(chip8.display.iter().all(|p| !p));
    assert!(!chip8.sound_active());
}

#[test]
fn default_is_new() {
    let a = Chip8::default();
    let b = Chip8::new();
    assert_eq!(a.memory, b.memory);
    assert_eq!(a.v, b.v);
}

#[test]
fn program_too_large_is_refused() {
    let mut chip8 = Chip8::new();
    let big = vec![0xAAu8; 3585];
    assert_eq!(
        chip8.load_program(&big),
        Err(Chip8Error::ProgramTooLarge { size: 3585, capacity: 3584 })
    );
    assert_eq!(chip8.memory[0x200], 0);
    let fits = vec![0xABu8; 3584];
    assert_eq!(chip8.load_program(&fits), Ok(()));
    assert_eq!(chip8.memory[0x200], 0xAB);
    assert_eq!(chip8.memory[0xFFF], 0xAB);
}

#[test]
fn call_then_return_resumes_after_call() {
    let mut chip8 = chip_with_program(&[
        0x22, 0x06, // 0x200: call 0x206
        0x61, 0x05, // 0x202: V1 = 5
        0x12, 0x02, // 0x204: jump 0x202
        0x62, 0x07, // 0x206: V2 = 7
        0x00, 0xEE, // 0x208: return
    ]);
    run(&mut chip8, 3);
    assert_eq!(chip8.v[2], 7);
    assert_eq!(chip8.fetch_opcode(), 0x6105);
    run(&mut chip8, 1);
    assert_eq!(chip8.v[1], 5);
}

#[test]
fn return_with_empty_stack_underflows() {
    let mut chip8 = chip_with_program(&[0x00, 0xEE]);
    assert_eq!(chip8.cycle(), Err(Chip8Error::StackUnderflow));
}

#[test]
fn sixteen_nested_calls_fit_and_the_next_overflows() {
    let mut chip8 = chip_with_program(&[0x22, 0x00]); // call 0x200 forever
    run(&mut chip8, 16);
    assert_eq!(chip8.cycle(), Err(Chip8Error::StackOverflow));
}

#[test]
fn unknown_opcodes_are_reported() {
    for op in [0x0123u16, 0x5121, 0x812F, 0x9121, 0xE0FF, 0xF0FF] {
        let mut chip8 = chip_with_program(&[(op >> 8) as u8, op as u8]);
        assert_eq!(chip8.cycle(), Err(Chip8Error::UnknownOpcode(op)));
    }
}

#[test]
fn add_sets_carry() {
    let mut chip8 = chip_with_program(&[0x60, 0xFF, 0x61, 0x02, 0x80, 0x14]);
    run(&mut chip8, 3);
    assert_eq!(chip8.v[0], 0x01);
    assert_eq!(chip8.v[0xF], 1);

    let mut chip8 = chip_with_program(&[0x60, 0x10, 0x61, 0x02, 0x80, 0x14]);
    run(&mut chip8, 3);
    assert_eq!(chip8.v[0], 0x12);
    assert_eq!(chip8.v[0xF], 0);
}

#[test]
fn subtract_sets_not_borrow() {
    let mut chip8 = chip_with_program(&[0x60, 0x01, 0x61, 0x02, 0x80, 0x15]);
    run(&mut chip8, 3);
    assert_eq!(chip8.v[0], 0xFF);
    assert_eq!(chip8.v[0xF], 0);

    let mut chip8 = chip_with_program(&[0x60, 0x01, 0x61, 0x02, 0x80, 0x17]);
    run(&mut chip8, 3);
    assert_eq!(chip8.v[0], 0x01);
    assert_eq!(chip8.v[0xF], 1);
}

#[test]
fn logic_operations() {
    let mut chip8 = chip_with_program(&[
        0x60, 0b1100, 0x61, 0b1010, 0x62, 0b1100, 0x63, 0b1100, 0x64, 0x00,
        0x80, 0x11, // V0 |= V1
        0x82, 0x12, // V2 &= V1
        0x83, 0x13, // V3 ^= V1
        0x84, 0x10, // V4 = V1
    ]);
    run(&mut chip8, 9);
    assert_eq!(chip8.v[0], 0b1110);
    assert_eq!(chip8.v[2], 0b1000);
    assert_eq!(chip8.v[3], 0b0110);
    assert_eq!(chip8.v[4], 0b1010);
}

#[test]
fn shifts_keep_the_lost_bit() {
    let mut chip8 = chip_with_program(&[0x60, 0x83, 0x80, 0x06]);
    run(&mut chip8, 2);
    assert_eq!(chip8.v[0], 0x41);
    assert_eq!(chip8.v[0xF], 1);

    let mut chip8 = chip_with_program(&[0x60, 0x83, 0x80, 0x0E]);
    run(&mut chip8, 2);
    assert_eq!(chip8.v[0], 0x06);
    assert_eq!(chip8.v[0xF], 1);

    // Shifting the flag register itself: the flag is written first.
    let mut chip8 = chip_with_program(&[0x6F, 0x03, 0x8F, 0xF6]);
    run(&mut chip8, 2);
    assert_eq!(chip8.v[0xF], 0);
}

#[test]
fn bcd_stores_decimal_digits() {
    let mut chip8 = chip_with_program(&[0x60, 254, 0xA3, 0x00, 0xF0, 0x33]);
    run(&mut chip8, 3);
    assert_eq!(&chip8.memory[0x300..0x303], &[2, 5, 4]);
}

#[test]
fn store_then_load_registers_round_trip() {
    let mut chip8 = chip_with_program(&[
        0x60, 0x11, 0x61, 0x22, 0x62, 0x33, 0xA3, 0x00,
        0xF2, 0x55, // store V0..=V2
        0x60, 0x00, 0x61, 0x00, 0x62, 0x00, 0x63, 0x44,
        0xF2, 0x65, // load V0..=V2
    ]);
    run(&mut chip8, 10);
    assert_eq!(&chip8.memory[0x300..0x304], &[0x11, 0x22, 0x33, 0x00]);
    assert_eq!(&chip8.v[0..4], &[0x11, 0x22, 0x33, 0x44]);
}

#[test]
fn skips_on_comparisons() {
    // 3XKK skips when equal, 4XKK when not equal.
    let mut chip8 = chip_with_program(&[0x60, 0x05, 0x30, 0x05, 0x61, 0x01, 0x40, 0x05, 0x62, 0x01]);
    run(&mut chip8, 4);
    assert_eq!(chip8.v[1], 0);
    assert_eq!(chip8.v[2], 1);

    // 5XY0 skips when equal, 9XY0 when not equal.
    let mut chip8 = chip_with_program(&[0x60, 0x05, 0x61, 0x05, 0x50, 0x10, 0x62, 0x01, 0x90, 0x10, 0x63, 0x01]);
    run(&mut chip8, 5);
    assert_eq!(chip8.v[2], 0);
    assert_eq!(chip8.v[3], 1);
}

#[test]
fn key_skips_follow_the_keypad() {
    let mut chip8 = chip_with_program(&[0x60, 0x07, 0xE0, 0x9E, 0x61, 0x01, 0xE0, 0xA1, 0x62, 0x01]);
    chip8.set_key(7, true);
    run(&mut chip8, 4);
    assert_eq!(chip8.v[1], 0);
    assert_eq!(chip8.v[2], 1);

    // A register value that names no key counts as released.
    let mut chip8 = chip_with_program(&[0x60, 0x20, 0xE0, 0xA1, 0x61, 0x01, 0x62, 0x01]);
    run(&mut chip8, 3);
    assert_eq!(chip8.v[1], 0);
    assert_eq!(chip8.v[2], 1);
}

#[test]
fn set_key_ignores_keys_beyond_the_keypad() {
    let mut chip8 = chip_with_program(&[0xF0, 0x0A, 0x61, 0x01]);
    run(&mut chip8, 1);
    chip8.set_key(16, true);
    run(&mut chip8, 1);
    assert_eq!(chip8.v[1], 0);
    chip8.set_key(3, false);
    run(&mut chip8, 1);
    assert_eq!(chip8.v[1], 0);
    chip8.set_key(3, true);
    run(&mut chip8, 1);
    assert_eq!(chip8.v[0], 3);
    assert_eq!(chip8.v[1], 1);
}

#[test]
fn jumps_and_index_register() {
    // 1NNN jumps; BNNN jumps to NNN + V0; ANNN sets I.
    let mut chip8 = chip_with_program(&[0x12, 0x04, 0x61, 0x01, 0x60, 0x02, 0xB2, 0x08, 0x62, 0x01, 0x63, 0x01]);
    run(&mut chip8, 3);
    assert_eq!(chip8.fetch_opcode(), 0x6301);
    run(&mut chip8, 1);
    assert_eq!(chip8.v[1], 0);
    assert_eq!(chip8.v[2], 0);
    assert_eq!(chip8.v[3], 1);
}

#[test]
fn font_address_and_index_add() {
    let mut chip8 = chip_with_program(&[
        0x60, 0x0A, // V0 = 0xA
        0xF0, 0x29, // I = font of A
        0xF1, 0x65, // V0, V1 = memory[I], memory[I + 1]
    ]);
    run(&mut chip8, 3);
    assert_eq!(chip8.v[0], 0xF0);
    assert_eq!(chip8.v[1], 0x90);

    let mut chip8 = chip_with_program(&[0xA3, 0x00, 0x60, 0x10, 0xF0, 0x1E, 0xF0, 0x65]);
    chip8.memory[0x310] = 0x5A;
    run(&mut chip8, 4);
    assert_eq!(chip8.v[0], 0x5A);
}

#[test]
fn random_byte_comes_from_the_generator() {
    let mut chip8 = chip_with_program(&[0xC0, 0xFF, 0xC1, 0x0F]);
    run(&mut chip8, 2);
    assert_eq!(chip8.v[0], 0x4A);
    assert_eq!(chip8.v[1], 0x0F & 0x0F);
}

#[test]
fn timers_count_down_to_zero() {
    let mut chip8 = chip_with_program(&[0x60, 0x02, 0xF0, 0x18, 0xF0, 0x15, 0xF1, 0x07]);
    run(&mut chip8, 3);
    assert!(chip8.sound_active());
    chip8.tick_timers();
    assert!(chip8.sound_active());
    chip8.tick_timers();
    assert!(!chip8.sound_active());
    chip8.tick_timers();
    assert!(!chip8.sound_active());
    run(&mut chip8, 1);
    assert_eq!(chip8.v[1], 0);
}

#[test]
fn draw_flag_is_taken_once() {
    let mut chip8 = chip_with_program(&[0x00, 0xE0, 0x60, 0x01]);
    assert!(chip8.take_draw_flag());
    assert!(!chip8.take_draw_flag());
    run(&mut chip8, 1);
    assert!(chip8.take_draw_flag());
    run(&mut chip8, 1);
    assert!(!chip8.take_draw_flag());
}

#[test]
fn clear_screen_blanks_every_pixel() {
    let mut chip8 = chip_with_program(&[0xA0, 0x50, 0xD0, 0x05, 0x00, 0xE0]);
    run(&mut chip8, 2);
    assert!(chip8.display().iter().any(|p| *p));
    run(&mut chip8, 1);
    assert!(chip8.display().iter().all(|p| !p));
}

#[test]
fn sprites_wrap_around_the_screen() {
    // Draw the font's 0 at (62, 30): columns 62, 63, 0, 1 and rows 30, 31, 0, 1, 2.
    let mut chip8 = chip_with_program(&[0x60, 62, 0x61, 30, 0xA0, 0x50, 0xD0, 0x15]);
    run(&mut chip8, 4);
    let lit = |x: usize, y: usize| chip8.display()[y * DISPLAY_WIDTH + x];
    assert!(lit(62, 30) && lit(63, 30) && lit(0, 30) && lit(1, 30));
    assert!(lit(62, 31) && !lit(63, 31) && !lit(0, 31) && lit(1, 31));
    assert!(lit(62, 2) && lit(1, 2));
    assert!(!lit(2, 30));
    assert_eq!(chip8.v[0xF], 0);
    assert_eq!(chip8.display().iter().filter(|p| **p).count(), 14);
}

#[test]
fn drawing_twice_restores_the_display() {
    let mut chip8 = chip_with_program(&[0x60, 10, 0x61, 5, 0xA0, 0x55, 0xD0, 0x15, 0xD0, 0x15]);
    run(&mut chip8, 4);
    assert_eq!(chip8.v[0xF], 0);
    run(&mut chip8, 1);
    assert_eq!(chip8.v[0xF], 1);
    assert!(chip8.display().iter().all(|p| !p));
    assert_eq!(chip8.display().len(), DISPLAY_SIZE);
}

#[test]
fn cycle_bounds_are_reported() {
    // Jumping to the last byte of memory leaves no room for an opcode.
    let mut chip8 = chip_with_program(&[0x1F, 0xFF]);
    run(&mut chip8, 1);
    assert!(!chip8.next_cycle_in_bounds());

    // BCD at the very end of memory would write past it.
    let mut chip8 = chip_with_program(&[0xAF, 0xFE, 0xF0, 0x33]);
    run(&mut chip8, 1);
    assert!(!chip8.next_cycle_in_bounds());

    // A sprite of zero rows reads nothing.
    let mut chip8 = chip_with_program(&[0xAF, 0xFF, 0x6E, 0x01, 0xFE, 0x1E, 0xD0, 0x00]);
    run(&mut chip8, 3);
    assert!(chip8.next_cycle_in_bounds());
    chip8.cycle().unwrap();

    // Waiting for a key never touches memory.
    let mut chip8 = chip_with_program(&[0xF0, 0x0A]);
    run(&mut chip8, 1);
    assert!(chip8.next_cycle_in_bounds());
}

#[test]
fn failed_instruction_changes_nothing_but_pc() {
    let mut chip8 = chip_with_program(&[0x60, 0x42, 0x81, 0x2F, 0x61, 0x07]);
    run(&mut chip8, 1);
    let memory = chip8.memory;
    assert_eq!(chip8.cycle(), Err(Chip8Error::UnknownOpcode(0x812F)));
    assert_eq!(chip8.v[0], 0x42);
    assert_eq!(chip8.v[1], 0);
    assert_eq!(chip8.memory, memory);
    // The failed opcode was consumed; the next one is up.
    assert_eq!(chip8.fetch_opcode(), 0x6107);
}

use chip8::render::{
    clear, draw_frame, draw_game_screen, draw_menu, draw_pong_screen, draw_text, fill_rect, glyph,
    score_text, BG_COLOR, FG_COLOR, FRONTEND_HEIGHT, FRONTEND_SIZE, FRONTEND_WIDTH, GAME_BORDER,
    MENU_ACCENT, MENU_BG, MENU_DIM, MENU_FG,
};
use chip8::{Chip8, DISPLAY_SIZE};

fn frame() -> Vec<u32> {
    vec![0; FRONTEND_SIZE]
}

fn at(buffer: &[u32], x: usize, y: usize) -> u32 {
    buffer[y * FRONTEND_WIDTH + x]
}

#[test]
fn clear_fills_every_pixel() {
    let mut buffer = vec![1u32; 10];
    clear(&mut buffer, 7);
    assert!(buffer.iter().all(|p| *p == 7));
}

#[test]
fn fill_rect_fills_exactly_the_rectangle() {
    let mut buffer = frame();
    fill_rect(&mut buffer, 10, 20, 3, 2, 9);
    assert_eq!(buffer.iter().filter(|p| **p == 9).count(), 6);
    assert_eq!(at(&buffer, 10, 20), 9);
    assert_eq!(at(&buffer, 12, 21), 9);
    assert_eq!(at(&buffer, 13, 20), 0);
    assert_eq!(at(&buffer, 10, 22), 0);
}

#[test]
fn fill_rect_clips_at_the_frame_edges() {
    let mut buffer = frame();
    fill_rect(&mut buffer, FRONTEND_WIDTH - 2, FRONTEND_HEIGHT - 1, 10, 10, 5);
    assert_eq!(buffer.iter().filter(|p| **p == 5).count(), 2);
    assert_eq!(at(&buffer, FRONTEND_WIDTH - 1, FRONTEND_HEIGHT - 1), 5);
    // Nothing wraps onto the next row.
    assert_eq!(at(&buffer, 0, 0), 0);

    let mut buffer = frame();
    fill_rect(&mut buffer, FRONTEND_WIDTH, 0, 4, 4, 5);
    fill_rect(&mut buffer, 0, FRONTEND_HEIGHT, 4, 4, 5);
    assert!(buffer.iter().all(|p| *p == 0));
}

#[test]
fn glyphs_ignore_case_and_miss_unknown_characters() {
    assert_eq!(glyph('a'), glyph('A'));
    assert_eq!(glyph('0'), Some([0x0E, 0x11, 0x13, 0x15, 0x19, 0x11, 0x0E]));
    assert_eq!(glyph(':'), Some([0x00, 0x04, 0x04, 0x00, 0x04, 0x04, 0x00]));
    assert_eq!(glyph('?'), None);
    assert_eq!(glyph(' '), None);
}

#[test]
fn draw_text_draws_glyph_cells_and_advances() {
    let mut buffer = frame();
    draw_text(&mut buffer, 0, 0, "I", 1, 3);
    // Top row of I is 0x0E: columns 1, 2, 3.
    assert_eq!(at(&buffer, 0, 0), 0);
    assert_eq!(at(&buffer, 1, 0), 3);
    assert_eq!(at(&buffer, 3, 0), 3);
    assert_eq!(at(&buffer, 4, 0), 0);
    assert_eq!(buffer.iter().filter(|p| **p == 3).count(), 11);

    // A space advances by four cells, another character by six.
    let mut buffer = frame();
    draw_text(&mut buffer, 0, 0, " -", 2, 4);
    assert_eq!(at(&buffer, 8, 6), 4);
    assert_eq!(at(&buffer, 7, 6), 0);
    let mut buffer = frame();
    draw_text(&mut buffer, 0, 0, "?-", 1, 4);
    assert_eq!(at(&buffer, 6, 3), 4);
    assert_eq!(buffer.iter().filter(|p| **p == 4).count(), 5);
}

#[test]
fn score_text_is_decimal() {
    assert_eq!(score_text(0, 0), "0   0");
    assert_eq!(score_text(7, 120), "7   120");
    assert_eq!(score_text(255, 42), "255   42");
}

#[test]
fn draw_frame_copies_the_display() {
    let mut display = [false; DISPLAY_SIZE];
    display[0] = true;
    display[DISPLAY_SIZE - 1] = true;
    let mut buffer = vec![0u32; DISPLAY_SIZE + 1];
    draw_frame(&display, &mut buffer);
    assert_eq!(buffer[0], FG_COLOR);
    assert_eq!(buffer[1], BG_COLOR);
    assert_eq!(buffer[DISPLAY_SIZE - 1], FG_COLOR);
    assert_eq!(buffer[DISPLAY_SIZE], 0);

    let mut short = vec![0u32; 2];
    draw_frame(&display, &mut short);
    assert_eq!(short, vec![FG_COLOR, BG_COLOR]);
}

#[test]
fn menu_screen() {
    let mut buffer = frame();
    draw_menu(&mut buffer);
    assert_eq!(at(&buffer, 0, 0), MENU_BG);
    // Top row of C at (82, 46), scale 5: 0x0E, so column 1 is lit.
    assert_eq!(at(&buffer, 82 + 5, 46), MENU_FG);
    assert_eq!(at(&buffer, 82, 46), MENU_BG);
}

#[test]
fn game_screen_shows_the_display() {
    let mut chip8 = Chip8::new();
    chip8.load_program(&[0xD0, 0x01]).unwrap();
    chip8.memory[0] = 0x80;
    chip8.cycle().unwrap();
    let mut buffer = frame();
    draw_game_screen(&mut buffer, "RPS.CH8", &chip8);
    assert_eq!(at(&buffer, 64, 58), FG_COLOR);
    assert_eq!(at(&buffer, 71, 65), FG_COLOR);
    assert_eq!(at(&buffer, 72, 58), BG_COLOR);
    assert_eq!(at(&buffer, 60, 54), GAME_BORDER);
    assert_eq!(at(&buffer, 274, 16), MENU_BG);
}

#[test]
fn game_screen_beeps_while_sound_plays() {
    let mut chip8 = Chip8::new();
    chip8.load_program(&[0x60, 0x05, 0xF0, 0x18]).unwrap();
    chip8.cycle().unwrap();
    chip8.cycle().unwrap();
    let mut buffer = frame();
    draw_game_screen(&mut buffer, "X", &chip8);
    // Top row of B (0x1E) at (274, 16), scale 2: column 0 is lit.
    assert_eq!(at(&buffer, 274, 16), MENU_ACCENT);
}

#[test]
fn pong_screen_layout() {
    let mut buffer = frame();
    draw_pong_screen(&mut buffer, 150, 100, 300, 200, 3, 12);
    assert_eq!(at(&buffer, 34, 150), MENU_FG);
    assert_eq!(at(&buffer, 43, 207), MENU_FG);
    assert_eq!(at(&buffer, 44, 150), MENU_BG);
    assert_eq!(at(&buffer, 596, 100), MENU_FG);
    assert_eq!(at(&buffer, 300, 200), MENU_ACCENT);
    assert_eq!(at(&buffer, 307, 207), MENU_ACCENT);
    assert_eq!(at(&buffer, 318, 46), MENU_DIM);
    assert_eq!(at(&buffer, 318, 58), MENU_BG);
    assert_eq!(at(&buffer, 318, 310), MENU_DIM);
}

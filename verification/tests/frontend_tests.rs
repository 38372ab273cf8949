use chip8::frontend::{apply_keyboard, frontend_step, screen_after, FrontendAction, Pressed, Screen};
use chip8::{Chip8, Chip8Error};

fn keys(enter: bool, space: bool, p: bool, backspace: bool, r: bool) -> Pressed {
    Pressed { enter, space, p, backspace, r }
}

const NONE: Pressed = Pressed { enter: false, space: false, p: false, backspace: false, r: false };

#[test]
fn menu_controls() {
    assert_eq!(frontend_step(Screen::Menu, NONE), FrontendAction::Nothing);
    assert_eq!(frontend_step(Screen::Menu, keys(true, false, false, false, false)), FrontendAction::StartGame);
    assert_eq!(frontend_step(Screen::Menu, keys(false, true, false, false, false)), FrontendAction::StartGame);
    assert_eq!(frontend_step(Screen::Menu, keys(false, false, true, false, false)), FrontendAction::StartPong);
    // Enter wins over P; Backspace and R do nothing in the menu.
    assert_eq!(frontend_step(Screen::Menu, keys(true, false, true, false, false)), FrontendAction::StartGame);
    assert_eq!(frontend_step(Screen::Menu, keys(false, false, false, true, true)), FrontendAction::Nothing);
}

#[test]
fn pong_controls() {
    assert_eq!(frontend_step(Screen::Pong, NONE), FrontendAction::UpdatePong { then_reset: false });
    assert_eq!(
        frontend_step(Screen::Pong, keys(false, false, false, false, true)),
        FrontendAction::UpdatePong { then_reset: true }
    );
    assert_eq!(frontend_step(Screen::Pong, keys(false, false, false, true, true)), FrontendAction::ToMenu);
    assert_eq!(
        frontend_step(Screen::Pong, keys(true, true, true, false, false)),
        FrontendAction::UpdatePong { then_reset: false }
    );
}

#[test]
fn game_controls() {
    assert_eq!(frontend_step(Screen::Game, NONE), FrontendAction::UpdateGame);
    assert_eq!(frontend_step(Screen::Game, keys(false, false, false, false, true)), FrontendAction::ResetGame);
    assert_eq!(frontend_step(Screen::Game, keys(false, false, false, true, true)), FrontendAction::ToMenu);
}

#[test]
fn screens_follow_actions() {
    assert_eq!(screen_after(Screen::Menu, FrontendAction::StartGame), Screen::Game);
    assert_eq!(screen_after(Screen::Menu, FrontendAction::StartPong), Screen::Pong);
    assert_eq!(screen_after(Screen::Game, FrontendAction::ToMenu), Screen::Menu);
    assert_eq!(screen_after(Screen::Pong, FrontendAction::UpdatePong { then_reset: true }), Screen::Pong);
    assert_eq!(screen_after(Screen::Game, FrontendAction::ResetGame), Screen::Game);
    assert_eq!(screen_after(Screen::Menu, FrontendAction::Nothing), Screen::Menu);
}

#[test]
fn keyboard_drives_the_keypad_in_keymap_order() {
    // Wait for a key into V0, then V1 = 1.
    let mut chip8 = Chip8::new();
    chip8.load_program(&[0xF0, 0x0A, 0x61, 0x01, 0xE0, 0x9E]).unwrap();
    chip8.cycle().unwrap();
    // Keyboard keys Q (keypad 4) and V (keypad F) held: Q comes first in the keymap.
    let mut down = [false; 16];
    down[4] = true;
    down[15] = true;
    apply_keyboard(&mut chip8, down);
    assert_eq!(chip8.v[0], 0x4);
    assert!(chip8.keypad[0x4] && chip8.keypad[0xF]);
    assert!(!chip8.keypad[0x1]);
    // Keyboard key X drives keypad 0.
    let mut down = [false; 16];
    down[13] = true;
    apply_keyboard(&mut chip8, down);
    assert!(chip8.keypad[0x0] && !chip8.keypad[0x4] && !chip8.keypad[0xF]);
}

#[test]
fn error_messages() {
    assert_eq!(
        Chip8Error::ProgramTooLarge { size: 4000, capacity: 3584 }.message(),
        "program is 4000 bytes, but only 3584 bytes fit"
    );
    assert_eq!(Chip8Error::StackOverflow.message(), "stack overflow");
    assert_eq!(Chip8Error::StackUnderflow.message(), "stack underflow");
    assert_eq!(Chip8Error::UnknownOpcode(0x0123).message(), "unknown opcode: 0x0123");
    assert_eq!(Chip8Error::UnknownOpcode(0xF0FF).message(), "unknown opcode: 0xf0ff");
    assert_eq!(Chip8Error::ProgramTooLarge { size: 0, capacity: 10 }.message(), "program is 0 bytes, but only 10 bytes fit");
}

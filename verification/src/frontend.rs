//! The arcade front end's decisions: which screen runs, what each key press
//! does there, and how the keyboard drives the CHIP-8 keypad.
use vstd::prelude::*;

use crate::machine::Chip8;
use crate::spec::{set_key_spec, Machine};

verus! {

/// The screen the front end shows.
#[derive(Debug, Clone, Copy, PartialEq, Eq, Structural)]
pub enum Screen {
    Menu,
    Pong,
    Game,
}

/// The front-end keys pressed since the last frame.
#[derive(Debug, Clone, Copy, PartialEq, Eq, Structural)]
pub struct Pressed {
    pub enter: bool,
    pub space: bool,
    pub p: bool,
    pub backspace: bool,
    pub r: bool,
}

/// What the front end does this frame.
#[derive(Debug, Clone, Copy, PartialEq, Eq, Structural)]
pub enum FrontendAction {
    /// Stay on the current screen without running anything.
    Nothing,
    /// Leave the menu for the CHIP-8 game.
    StartGame,
    /// Leave the menu for Pong.
    StartPong,
    /// Return to the menu.
    ToMenu,
    /// Run one Pong frame, then restart the match if asked.
    UpdatePong { then_reset: bool },
    /// Restart the CHIP-8 game instead of running a frame.
    ResetGame,
    /// Run one frame of the CHIP-8 game.
    UpdateGame,
}

/// The controls: in the menu Enter or Space starts the game and P starts
/// Pong; in either game Backspace returns to the menu; in the CHIP-8 game R
/// resets instead of running; in Pong the frame runs and R then restarts
/// the match.
pub open spec fn frontend_step_spec(screen: Screen, keys: Pressed) -> FrontendAction {
    match screen {
        Screen::Menu => if keys.enter || keys.space {
            FrontendAction::StartGame
        } else if keys.p {
            FrontendAction::StartPong
        } else {
            FrontendAction::Nothing
        },
        Screen::Pong => if keys.backspace {
            FrontendAction::ToMenu
        } else {
            FrontendAction::UpdatePong { then_reset: keys.r }
        },
        Screen::Game => if keys.backspace {
            FrontendAction::ToMenu
        } else if keys.r {
            FrontendAction::ResetGame
        } else {
            FrontendAction::UpdateGame
        },
    }
}

/// The screen shown after `action` is carried out on `screen`.
pub open spec fn screen_after_spec(screen: Screen, action: FrontendAction) -> Screen {
    match action {
        FrontendAction::StartGame => Screen::Game,
        FrontendAction::StartPong => Screen::Pong,
        FrontendAction::ToMenu => Screen::Menu,
        _ => screen,
    }
}

/// The controls as a law over every combination of keys:
/// - Backspace on either game screen returns to the menu, whatever else is pressed;
/// - without Backspace, R resets the CHIP-8 game, and Pong runs its frame
///   then restarts the match exactly when R is pressed;
/// - in the menu, Enter or Space starts the game, otherwise P starts Pong,
///   and no other key does anything;
/// - no screen is left by any other means.
pub proof fn controls(keys: Pressed)
    ensures
        keys.backspace ==> frontend_step_spec(Screen::Game, keys) == FrontendAction::ToMenu,
        keys.backspace ==> frontend_step_spec(Screen::Pong, keys) == FrontendAction::ToMenu,
        !keys.backspace && keys.r ==> frontend_step_spec(Screen::Game, keys) == FrontendAction::ResetGame,
        !keys.backspace && !keys.r ==> frontend_step_spec(Screen::Game, keys) == FrontendAction::UpdateGame,
        !keys.backspace ==> frontend_step_spec(Screen::Pong, keys) == (FrontendAction::UpdatePong { then_reset: keys.r }),
        keys.enter || keys.space ==> frontend_step_spec(Screen::Menu, keys) == FrontendAction::StartGame,
        !keys.enter && !keys.space && keys.p ==> frontend_step_spec(Screen::Menu, keys) == FrontendAction::StartPong,
        !keys.enter && !keys.space && !keys.p ==> frontend_step_spec(Screen::Menu, keys) == FrontendAction::Nothing,
        screen_after_spec(Screen::Menu, frontend_step_spec(Screen::Menu, keys)) == (
            if keys.enter || keys.space { Screen::Game } else if keys.p { Screen::Pong } else { Screen::Menu }),
        screen_after_spec(Screen::Game, frontend_step_spec(Screen::Game, keys)) == (
            if keys.backspace { Screen::Menu } else { Screen::Game }),
        screen_after_spec(Screen::Pong, frontend_step_spec(Screen::Pong, keys)) == (
            if keys.backspace { Screen::Menu } else { Screen::Pong }),
{
}

/// Decides this frame's action from the current screen and the keys pressed.
pub fn frontend_step(screen: Screen, keys: Pressed) -> (a: FrontendAction)
    ensures
        a == frontend_step_spec(screen, keys),
{
    match screen {
        Screen::Menu => {
            if keys.enter || keys.space {
                FrontendAction::StartGame
            } else if keys.p {
                FrontendAction::StartPong
            } else {
                FrontendAction::Nothing
            }
        },
        Screen::Pong => {
            if keys.backspace {
                FrontendAction::ToMenu
            } else {
                FrontendAction::UpdatePong { then_reset: keys.r }
            }
        },
        Screen::Game => {
            if keys.backspace {
                FrontendAction::ToMenu
            } else if keys.r {
                FrontendAction::ResetGame
            } else {
                FrontendAction::UpdateGame
            }
        },
    }
}

/// The screen shown after `action` is carried out on `screen`.
pub fn screen_after(screen: Screen, action: FrontendAction) -> (next: Screen)
    ensures
        next == screen_after_spec(screen, action),
{
    match action {
        FrontendAction::StartGame => Screen::Game,
        FrontendAction::StartPong => Screen::Pong,
        FrontendAction::ToMenu => Screen::Menu,
        _ => screen,
    }
}

/// The keypad key driven by each keyboard key, for the keyboard keys
/// `1 2 3 4 / Q W E R / A S D F / Z X C V` in that order.
pub open spec fn keymap() -> Seq<usize> {
    seq![0x1, 0x2, 0x3, 0xC, 0x4, 0x5, 0x6, 0xD, 0x7, 0x8, 0x9, 0xE, 0xA, 0x0, 0xB, 0xF]
}

/// Every keypad key is driven by exactly one keyboard key.
pub proof fn keymap_covers_keypad_once()
    ensures
        keymap().len() == 16,
        forall|j: int| 0 <= j < 16 ==> #[trigger] keymap()[j] < 16,
        forall|i: int, j: int| 0 <= i < 16 && 0 <= j < 16 && i != j ==> keymap()[i] != keymap()[j],
{
}

/// The machine after the first `k` keyboard keys have been passed to the
/// keypad in keymap order, key `j` held down when `down[j]`.
pub open spec fn keyboard_spec(s: Machine, down: Seq<bool>, k: int) -> Machine
    decreases k,
{
    if k <= 0 {
        s
    } else {
        set_key_spec(keyboard_spec(s, down, k - 1), keymap()[k - 1], down[k - 1])
    }
}

/// Passes the state of the 16 mapped keyboard keys to the keypad, in
/// keymap order; the first pressed key completes a pending key wait.
pub fn apply_keyboard(chip8: &mut Chip8, down: [bool; 16])
    requires
        old(chip8).wf(),
    ensures
        final(chip8).wf(),
        final(chip8)@ == keyboard_spec(old(chip8)@, down@, 16),
{
    let keypad_keys: [usize; 16] = [0x1, 0x2, 0x3, 0xC, 0x4, 0x5, 0x6, 0xD, 0x7, 0x8, 0x9, 0xE, 0xA, 0x0, 0xB, 0xF];
    assert(keypad_keys@ =~= keymap());
    let mut k: usize = 0;
    while k < 16
        invariant
            k <= 16,
            keypad_keys@ == keymap(),
            chip8.wf(),
            chip8@ == keyboard_spec(old(chip8)@, down@, k as int),
        decreases 16 - k,
    {
        chip8.set_key(keypad_keys[k], down[k]);
        k += 1;
    }
}

} // verus!

# chip8

A CHIP-8 interpreter and the software renderer of its arcade front end,
verified with Verus.

- `src/spec.rs` — the mathematical model of the machine (`Machine`) and the
  meaning of every instruction (`execute_spec`, `cycle_spec`).
- `src/machine.rs` — the interpreter (`Chip8`); each method's contract is
  stated over the model.
- `src/laws.rs` — properties of the instruction set proved over the model:
  call/return, store/load round trips, sprite drawing, flags, invariants.
- `src/frontend.rs` — the front end's controls (`frontend_step`) and the
  keyboard-to-keypad mapping (`apply_keyboard`).
- `src/text.rs` — decimal and hexadecimal text and the error messages.
- `src/render.rs` — rectangles, the 5x7 bitmap font, text and the menu, game
  and Pong screens, each specified pixel by pixel.
- `app/` — the window, reading the keyboard, timing, and the Pong physics, around the library.

pub mod frontend;
pub mod laws;
pub mod machine;
pub mod render;
pub mod spec;
pub mod text;

pub use machine::{
    Chip8, Chip8Error, DISPLAY_HEIGHT, DISPLAY_SIZE, DISPLAY_WIDTH, MEMORY_SIZE, PROGRAM_START,
};

//! The logic of partty, a terminal emulator: colours, the grid and its
//! control sequences, keyboard and mouse input, and inline pictures, each
//! function proved against its contract.
pub mod color;
pub mod screen;
pub mod clip;
pub mod grid;
pub mod image;
pub mod sixel;
pub mod shell;
pub mod fill;
pub mod input;

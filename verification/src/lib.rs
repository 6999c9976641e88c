//! A terminal for a native surface: what a terminal emulator shows, turned into
//! the text, the colors and the rectangles that a frame is drawn from.
//!
//! The emulator is `alacritty_terminal`'s. What it shows is read into plain
//! values ([`emulator`]), resolved into colored spans ([`grid`], [`color`],
//! [`theme`]), hashed to tell an idle terminal ([`digest`]), laid out as text
//! ([`layout`]) and placed in pixels ([`frame`], [`cursor`]). [`terminal`] and
//! [`surface`] hold the state between frames and decide what the shell is told.
//! [`laws`] and [`drawing`] state what holds across all of this.
//!
//! Windows, the GPU, the shell's process and floating-point lengths are left to
//! the program around this library.
pub mod color;
pub mod cursor;
pub mod digest;
pub mod drawing;
pub mod emulator;
pub mod frame;
pub mod grid;
pub mod laws;
pub mod layout;
pub mod surface;
pub mod terminal;
pub mod text;
pub mod theme;

pub use surface::TerminalSurface;
pub use terminal::TerminalBackend;

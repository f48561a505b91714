//! Encoding of images as DEC sixel graphics, and the terminal facts it relies on.
pub mod code;
pub mod encoder;
pub mod environment;
pub mod laws;
mod registry;
pub mod settings;
pub mod sixel;
pub mod terminal;

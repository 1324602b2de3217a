//! Verified core of the toyterm terminal emulator: the control-function
//! parser, the sixel graphics decoders, the screen model and the
//! UTF-8 chunking of pty output.

pub mod stream;
pub mod basics;
pub mod sixel_codec;
pub mod sixel;
pub mod vt;
pub mod utils;
pub mod control_function;
pub mod terminal;

pub mod font;
pub mod cache;
pub mod view;
pub mod window;
pub mod input;
pub mod multiplexer;

//! Verified core of a console terminal emulator: the character grid and the
//! escape-sequence handling that drives it, the payload decoders of the
//! graphics protocols (Sixel, Kitty graphics), colour specifications, the
//! image registry, and selection, search and copy-mode state.

pub mod ascii;
pub mod issue;
pub mod pane;
pub mod session;
pub mod terminal;
pub mod ui;
pub mod utils;

//! Terminal emulation: the character grid, the handling of escape
//! sequences, the decoders of the graphics protocols, and the selection,
//! search and image bookkeeping of a terminal.

pub mod codec;
pub mod compose;
pub mod dcs;
pub mod graphics;
pub mod grid;
pub mod images;
pub mod input;
pub mod kitty;
pub mod notify;
pub mod osc;
pub mod parser;
pub mod selection;
pub mod sixel;
pub mod term;
pub mod textops;
pub mod urls;

pub use images::{AnimationState, ImageFrame, ImageRegistry, TerminalImage};
pub use notify::{Notification, NotificationProgress};
pub use selection::{CopyModeState, SearchState, Selection};
pub use term::{DcsHandler, Terminal};

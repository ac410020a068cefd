//! Utility functions shared across the terminal modules.

pub mod color;

pub use color::{parse_hex_color, parse_osc_color};

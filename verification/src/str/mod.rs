//! String buffers of fixed capacity.

pub mod error;
pub mod redo;
pub mod slot_str;
pub mod slot_string;
pub mod terminated;

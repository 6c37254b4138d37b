//! String buffers whose length is fixed by a type.

pub mod array_str;
pub mod array_string;
pub mod error;
pub mod pod;

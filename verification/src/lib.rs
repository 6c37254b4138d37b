//! Specialized collections and integer encodings, each with the behaviour its
//! contracts state.

pub mod couple;
pub mod frovec;
pub mod cyclic;
pub mod pack;
pub mod schema;
pub mod intern;
pub mod mem;
pub mod address;
pub mod attack;
pub mod str;
pub mod tlmem;
pub mod ts;
pub mod utf8;
pub mod variant_map;
pub mod slot;
pub mod slab;

//! Effects that are cast into a space: what they are made of, how they are
//! put together, and the spaces that hold them.

pub mod effects;
pub mod presets;
pub mod spaces;
pub mod safety;

//! Merged reading of the columns of a stored block.

pub mod chunks;
pub mod entries;
pub mod errors;
pub mod merge_io;
pub mod ranges;
pub mod reader;
pub mod scalar;
pub mod schema;
pub mod text;

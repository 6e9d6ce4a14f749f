//! Binary wire primitives decoded into and encoded from a dynamic tagged value.

pub mod cursor;
pub mod get_bytes;
pub mod value;
pub mod numbers;
pub mod primitives;
pub mod varint;
pub mod count;
pub mod text;

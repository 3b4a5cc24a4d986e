//! Presentation helpers: escaped byte rendering and request/response
//! classification of a segment's direction.

pub mod byte;
pub mod conn;

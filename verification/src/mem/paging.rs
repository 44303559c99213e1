//! Page tables.
pub mod sv32;

//! Wildcard byte-signature scanning and safe in-place patching of executable images.

pub mod command;
pub mod locator;
pub mod notation;
pub mod patch;
pub mod session;
pub mod signature;
pub mod text;

//! The SHA-2 family.
mod sha512;

pub use crate::sha256::{sha256, SHA256};
pub use sha512::{sha512, SHA512};

//! Base64 text in any alphabet of 64 characters.
pub mod alphabet;
mod from_base64;
mod to_base64;

pub use from_base64::{decoded, position, FromBase64};
pub use to_base64::{encoded, pad_count, sextet, text_len, ToBase64};

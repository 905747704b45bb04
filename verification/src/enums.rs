//! Small value types shared by the whole crate.
mod bit;
mod block_size;
mod case;
mod endian;

pub use bit::Bit;
pub use block_size::BlockSize;
pub use case::Case;
pub use endian::Endian;

//! Serial Flash Loader protocol: handshake matching, frames and the loader.

pub mod crc;
pub mod frame;
pub mod loader;
pub mod magic;

pub use frame::{Cmd, Frame, Resp, TryFromU8Error};
pub use loader::SflLoader;
pub use magic::{MagicMatcher, MAGIC, MAGIC_RESPONSE};

//! Single-file transfer over a byte stream: the wire framing of a transfer,
//! the accounting of the streaming copy, and the renaming of a destination
//! whose name is already taken.

pub mod big_endian;
pub mod copier;
pub mod decimal;
pub mod error;
pub mod names;
pub mod pattern;
pub mod receiver;
pub mod resolver;
pub mod sender;
pub mod wire;

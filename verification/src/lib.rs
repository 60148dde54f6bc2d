//! Decoding of ID3v2.3 tags: the ten-byte tag header, the optional extended
//! header, frames, and the text conventions of frame payloads.
//!
//! Every function is stated over sequences of bytes and proved against that
//! statement.

pub mod bytes;
pub mod error;
pub mod extended_header;
pub mod frame;
pub mod header;
pub mod reader;
pub mod std_specs;
pub mod sync_safe;
pub mod text;

pub use error::{ID3Error, SyncSafeError};
pub use extended_header::ExtendedHeader;
pub use frame::{read_frames, Frame, FrameHeader};
pub use header::{header_exists, Header};
pub use reader::Reader;
pub use sync_safe::SyncSafe;
pub use text::{ascii_from_bytes, string_from_bytes, utf16_from_bytes};

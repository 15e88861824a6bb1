//! Incremental UTF-8 decoding of a byte stream.
//!
//! A [`Stream`] wraps any sequential byte producer (a [`ByteSource`]) and
//! yields one decoded unit per step: a Unicode scalar value, a [`Utf8Error`]
//! describing the exact bytes of a malformed encoding, or end-of-stream.
//! Malformed input is reported precisely and the stream resynchronizes, so
//! decoding continues from the next unconsumed byte.

pub mod decode;
pub mod error;
pub mod source;
pub mod stream;

pub use error::Error;
pub use error::Utf8Error;
pub use source::ByteSource;
pub use source::NextByte;
pub use source::SliceSource;
pub use stream::Stream;


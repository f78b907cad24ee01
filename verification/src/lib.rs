//! Typed, fallible reading and writing of binary data over an in-memory
//! byte stream, together with a configurable Tag-Length-Value record codec
//! and a family of value validators.

pub mod be;
pub mod crc;
pub mod error;
pub mod le;
pub mod numcodec;
pub mod reader;
pub mod stream;
pub mod tlv;
pub mod validator;
pub mod varint;
pub mod writer;

pub use reader::SafeRead;
pub use stream::ByteCursor;
pub use writer::SafeWrite;

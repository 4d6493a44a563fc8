//! The Bencode codec: tokens, byte-stream reader and writer, and the drivers
//! that decode and encode structured values.

pub mod canonical;
pub mod codec;
pub mod decoder;
pub mod deserializer;
pub mod error;
pub mod exact;
pub mod grammar;
pub mod laws;
pub mod reader;
pub mod serializer;
pub mod tokens;
pub mod value;
pub mod writer;

//! Chunked authenticated encryption of byte streams under one 256-bit key,
//! and the text, token and listing tools built around it.
//!
//! A stream is a fresh 7-byte base nonce followed by the plaintext's chunks,
//! each sealed with ChaCha20-Poly1305 under a nonce made of the base nonce,
//! the chunk's 32-bit big-endian index and a last-chunk flag. `ChunkWriter`
//! and `ChunkReader` do this a slice at a time with one chunk of buffer;
//! `encrypt` and `decrypt` do it for whole buffers.
pub mod cipher;
pub mod cli;
pub mod encoding;
pub mod error;
pub mod frame;
pub mod jwt;
pub mod listing;
pub mod nonce;
pub mod reader;
pub mod session;
pub mod text;
pub mod writer;

pub use cli::{DataFormat, SubCommandOpt, TextAction, TextOpts};
pub use encoding::{base64_decode, base64_encode, reader_content_str, Base64Charset};
pub use error::StreamError;
pub use reader::ChunkReader;
pub use session::{decrypt, encrypt};
pub use writer::ChunkWriter;

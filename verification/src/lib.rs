//! Makes the descriptor of a collection of files: the files are read as one stream,
//! the stream is cut into pieces of a fixed length, each piece is hashed, and the digests
//! are written out with the files' lengths and paths, the tracker and the time of creation.
//!
//! - [`read`]: byte sources and the reader that joins a list of them into one stream.
//! - [`memory`]: a source that holds its bytes in memory.
//! - [`digest`]: SHA-1, and how a stream falls into pieces.
//! - [`pieces`]: hashing a stream piece by piece.
//! - [`model`]: the descriptor's values and their wire format.
//! - [`bencode`]: the values of the wire format, written by `serde_bencode`.
//! - [`make`]: the whole way from sources to the bytes of a descriptor.
//! - [`error`]: what can go wrong.

pub mod bencode;
pub mod digest;
pub mod error;
pub mod make;
pub mod memory;
pub mod model;
pub mod pieces;
pub mod read;

//! Paired readers and writers built by stacking transformations on top of a
//! shared in-memory store. Data written through a stack can be read back
//! through the same stack, each layer undoing on the read side what it did on
//! the write side.
use vstd::prelude::*;

pub mod checksum;
pub mod compression;
pub mod pipeline;
pub mod process;
pub mod stream_cipher;
pub mod string;
pub mod transform;
pub mod vec;

pub use checksum::{crc32_of, crc_fed};
pub use compression::{CoderBuilder, Compression, CompressionBuilder, Deflate, Gz, Zlib};
pub use pipeline::{Pipeline, RwBuilder};
pub use process::ChildBuilder;
pub use string::AdhocWriter;
pub use string::Builder as StringBuilder;
pub use transform::Transform;
pub use vec::Builder as VecBuilder;

verus! {

/// Errors reported by readers, writers and sinks.
#[derive(Debug, PartialEq, Eq, Structural, Clone, Copy)]
pub enum Error {
    /// A stream cipher refused to go on (its keystream is exhausted).
    Cipher,
    /// A codec could not encode the data, or the data read back is not
    /// something its decoder accepts.
    Codec,
    /// The bytes read back are not valid UTF-8.
    Utf8,
    /// The output handle of an attached process was already claimed.
    NoStdout,
    /// The input handle of an attached process was already claimed.
    NoStdin,
}

} // verus!

//! Error type for DGDS parsing and decompression.
use vstd::prelude::*;

verus! {

/// Errors produced while reading or decoding DGDS resources.
#[derive(Debug, Clone, PartialEq, Eq)]
pub enum DgdsError {
    /// Not enough bytes left to satisfy a read.
    UnexpectedEof {
        /// Human-readable description of what was being read.
        context: &'static str,
        /// Number of bytes the read required (absolute end position).
        needed: usize,
        /// Number of bytes actually available.
        available: usize,
    },
    /// A 4-byte chunk tag did not match what the format requires.
    BadTag {
        /// What was being parsed when the tag was checked.
        context: &'static str,
        /// The expected tag.
        expected: [u8; 4],
        /// The tag actually found.
        found: [u8; 4],
    },
    /// Unsupported/unknown compression method byte.
    UnknownCompression(u8),
    /// The data was structurally invalid in some other way.
    Malformed(String),
}

impl DgdsError {
    /// Convenience constructor for [`DgdsError::UnexpectedEof`].
    pub fn eof(context: &'static str, needed: usize, available: usize) -> (e: Self)
        ensures
            e == (DgdsError::UnexpectedEof { context, needed, available }),
    {
        DgdsError::UnexpectedEof { context, needed, available }
    }
}

/// Builds a `Malformed` message from a fixed description.
pub fn malformed(msg: &str) -> (e: DgdsError)
    ensures
        e is Malformed,
        e->Malformed_0@ == msg@,
{
    DgdsError::Malformed(msg.to_owned())
}

} // verus!

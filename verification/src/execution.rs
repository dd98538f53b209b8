//! The execution policy of compression and decompression.

use vstd::prelude::*;

verus! {

/// How the blocks of a field are coded: one after the other, or in chunks of
/// consecutive blocks, `chunk_size` blocks each (zero for one chunk per
/// thread of `threads`), each chunk coded into a stream of its own and the
/// chunks' bits joined in order. The chunks are coded one after the other
/// here; every policy produces the same stream and the same field.
#[derive(Debug, Clone, Copy, PartialEq, Eq, Structural, Hash, Default)]
pub enum ZfpExecution {
    /// Serial (single-threaded) execution: the default.
    #[default]
    Serial,
    /// Chunked execution, with the chunk layout of a thread pool.
    Rayon { threads: u32, chunk_size: u32 },
}

} // verus!

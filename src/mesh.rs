//! A chunk column as the client renders it.
use vstd::prelude::*;

use crate::chunk::Chunk;

verus! {

/// A chunk column that a renderer draws, building its mesh when it is next
/// drawn.
pub struct MeshChunk {
    chunk: Chunk,
}

impl MeshChunk {
    pub closed spec fn chunk_spec(&self) -> Chunk {
        self.chunk
    }

    pub fn new(chunk: Chunk) -> (r: MeshChunk)
        ensures
            r.chunk_spec() == chunk,
    {
        MeshChunk { chunk }
    }

    /// The column to draw.
    pub fn chunk(&self) -> (r: &Chunk)
        ensures
            *r == self.chunk_spec(),
    {
        &self.chunk
    }
}

} // verus!

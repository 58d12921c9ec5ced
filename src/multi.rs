//! A chunk column kept once per protocol version, each with the block ids
//! of its version.
use vstd::prelude::*;

use crate::chunk::{chunk_proto_of, in_column, Chunk, ChunkKind, DEFAULT_LAYERS};
use crate::pos::{Pos, PosError};
use crate::proto::ProtoChunk;
use crate::version::{BlockVersion, TypeConverter};

verus! {

/// A column held for several versions at once. Block ids come in and go out
/// in the ids of the primary version.
pub struct MultiChunk {
    primary: BlockVersion,
    versions: Vec<BlockVersion>,
    chunks: Vec<Chunk>,
}

impl MultiChunk {
    pub closed spec fn primary_spec(&self) -> BlockVersion {
        self.primary
    }

    /// The versions held, each with its column at the same index.
    pub closed spec fn versions_spec(&self) -> Seq<BlockVersion> {
        self.versions@
    }

    pub closed spec fn chunks_spec(&self) -> Seq<Chunk> {
        self.chunks@
    }

    pub closed spec fn wf(&self) -> bool {
        &&& self.versions@.len() == self.chunks@.len()
        &&& self.versions@.len() >= 1
        &&& self.versions@[0] == self.primary
        &&& forall|k: int|
            0 <= k < self.chunks@.len() ==> (#[trigger] self.chunks@[k]).wf()
                && self.chunks@[k].layers_spec() == DEFAULT_LAYERS
    }

    /// The column at index 0 is the one of the primary version.
    pub proof fn lemma_primary_first(&self)
        requires
            self.wf(),
        ensures
            self.versions_spec().len() >= 1,
            self.chunks_spec().len() == self.versions_spec().len(),
            self.versions_spec()[0] == self.primary_spec(),
            forall|k: int|
                0 <= k < self.chunks_spec().len() ==> (#[trigger] self.chunks_spec()[k]).wf()
                    && self.chunks_spec()[k].layers_spec() == DEFAULT_LAYERS,
    {
    }

    /// An empty column, held for the oldest version only, which is also the
    /// primary one.
    pub fn new() -> (r: MultiChunk)
        ensures
            r.wf(),
            r.primary_spec() == BlockVersion::V1_8,
            r.versions_spec() == seq![BlockVersion::V1_8],
            forall|i: int| #[trigger] r.chunks_spec()[0].layer(i) is None,
    {
        let mut versions: Vec<BlockVersion> = Vec::new();
        versions.push(BlockVersion::V1_8);
        let mut chunks: Vec<Chunk> = Vec::new();
        chunks.push(Chunk::new(ChunkKind::Fixed));
        let r = MultiChunk { primary: BlockVersion::V1_8, versions, chunks };
        assert(r.versions@ =~= seq![BlockVersion::V1_8]);
        r
    }

    /// Sets the block at `p` to `ty`, a latest id, in every version held,
    /// each with its own id for it. Fails, changing nothing, when `p` is not
    /// in the column.
    pub fn set_block(&mut self, p: Pos, ty: u32, conv: &TypeConverter) -> (r: Result<(), PosError>)
        requires
            old(self).wf(),
            conv.wf(),
        ensures
            final(self).wf(),
            final(self).primary_spec() == old(self).primary_spec(),
            final(self).versions_spec() == old(self).versions_spec(),
            final(self).versions_spec()[0] == final(self).primary_spec(),
            r == if in_column(p, DEFAULT_LAYERS as nat) {
                Ok::<(), PosError>(())
            } else {
                Err(PosError::OutOfBounds(p))
            },
            r is Err ==> *final(self) == *old(self),
            r is Ok ==> forall|k: int, q: Pos|
                0 <= k < old(self).chunks_spec().len() && in_column(q, DEFAULT_LAYERS as nat) ==> #[trigger] final(self).chunks_spec()[k].block_at(q) == if q == p {
                    conv.old_id(ty, old(self).versions_spec()[k])
                } else {
                    old(self).chunks_spec()[k].block_at(q)
                },
    {
        if !(p.x >= 0 && p.x < 16 && p.z >= 0 && p.z < 16 && p.y >= 0 && p.y < 256) {
            return Err(p.err());
        }
        let n = self.chunks.len();
        let mut k: usize = 0;
        while k < n
            invariant
                self.wf(),
                conv.wf(),
                in_column(p, DEFAULT_LAYERS as nat),
                n == self.chunks@.len(),
                k <= n,
                self.primary == old(self).primary,
                self.versions == old(self).versions,
                forall|j: int, q: Pos|
                    0 <= j < n && in_column(q, DEFAULT_LAYERS as nat) ==> #[trigger] self.chunks@[j].block_at(q) == if j
                        < k && q == p {
                        conv.old_id(ty, self.versions@[j])
                    } else {
                        old(self).chunks@[j].block_at(q)
                    },
            decreases n - k,
        {
            let id = conv.to_old(ty, self.versions[k]);
            let ghost before = self.chunks@;
            let c = &mut self.chunks[k];
            let _ = c.set_block(p, id);
            proof {
                assert forall|j: int| 0 <= j < n && j != k implies self.chunks@[j] == before[j] by {}
                assert forall|j: int| 0 <= j < self.chunks@.len() implies (
                #[trigger] self.chunks@[j]).wf() && self.chunks@[j].layers_spec() == DEFAULT_LAYERS by {
                    assert(j != k ==> self.chunks@[j] == before[j]);
                }
            }
            k += 1;
        }
        Ok(())
    }

    /// The block at `p`, in the ids of the primary version. Fails when `p`
    /// is not in the column.
    pub fn get_block(&self, p: Pos) -> (r: Result<u32, PosError>)
        requires
            self.wf(),
        ensures
            self.versions_spec()[0] == self.primary_spec(),
            r == if in_column(p, DEFAULT_LAYERS as nat) {
                Ok::<u32, PosError>(self.chunks_spec()[0].block_at(p))
            } else {
                Err(PosError::OutOfBounds(p))
            },
    {
        self.chunks[0].get_block(p)
    }

    /// The version whose ids [`get_block`](Self::get_block) returns.
    pub fn primary(&self) -> (r: BlockVersion)
        ensures
            r == self.primary_spec(),
    {
        self.primary
    }

    /// The wire form of the column for version `v`, if it is held.
    pub fn to_proto(&self, v: BlockVersion) -> (r: Option<ProtoChunk>)
        requires
            self.wf(),
        ensures
            r is Some <==> self.versions_spec().contains(v),
            r is Some ==> exists|k: int|
                0 <= k < self.versions_spec().len() && self.versions_spec()[k] == v
                    && #[trigger] chunk_proto_of(r->Some_0, self.chunks_spec()[k]),
    {
        let mut k: usize = 0;
        while k < self.versions.len()
            invariant
                self.wf(),
                k <= self.versions@.len(),
                forall|j: int| 0 <= j < k ==> self.versions@[j] != v,
            decreases self.versions@.len() - k,
        {
            if self.versions[k] == v {
                let p = self.chunks[k].to_latest_proto();
                assert(chunk_proto_of(p, self.chunks@[k as int]));
                assert(self.versions_spec()[k as int] == v);
                assert(chunk_proto_of(p, self.chunks_spec()[k as int]));
                let r = Some(p);
                assert(chunk_proto_of(r->Some_0, self.chunks_spec()[k as int]));
                return r;
            }
            k += 1;
        }
        None
    }
}

} // verus!

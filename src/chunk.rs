//! A chunk column: sixteen sections stacked along the height, each made on
//! its first write.
use std::collections::HashMap;
use vstd::prelude::*;

use crate::pos::{cell_index, in_section, Pos, PosError};
use crate::proto::{ProtoChunk, ProtoSection};
use crate::section::{count_ids, filled, in_box, mapped_by, valid_box, Section};

verus! {

broadcast use {vstd::std_specs::hash::group_hash_axioms, Section::lemma_view_len};

/// The number of sections in a column of a world of the usual height.
pub const DEFAULT_LAYERS: usize = 16;

/// A bound on the number of sections in a column, under which every height
/// fits in an `i32`.
pub const MAX_LAYERS: usize = 0x0800_0000;

/// Which protocol generation a chunk is stored for. Sections are held in
/// the paletted form either way; the kind tells the wire layer which layout
/// to send.
#[derive(Clone, Copy, Debug, PartialEq, Eq, Structural)]
pub enum ChunkKind {
    /// The fixed layout of the oldest protocol versions.
    Fixed,
    /// The paletted layout of every later version.
    Paletted,
}

/// Whether `p` lies in a column of `layers` sections: `x` and `z` in
/// `0..16`, `y` in `0..16 * layers`.
pub open spec fn in_column(p: Pos, layers: nat) -> bool {
    0 <= p.x < 16 && 0 <= p.z < 16 && 0 <= p.y < 16 * layers
}

/// The section index of a height within the column.
pub open spec fn layer_of(p: Pos) -> int {
    p.y as int / 16
}

/// The position of `p` within its section.
pub open spec fn local(p: Pos) -> Pos {
    Pos { x: p.x, y: (p.y as int % 16) as i32, z: p.z }
}

/// Whether `q` lies in the box `min..=max`.
pub open spec fn in_column_box(q: Pos, min: Pos, max: Pos) -> bool {
    min.x <= q.x <= max.x && min.y <= q.y <= max.y && min.z <= q.z <= max.z
}

/// How filling the box `min..=max` of a column ends.
pub open spec fn fill_result(min: Pos, max: Pos, layers: nat) -> Result<(), PosError> {
    if !in_column(min, layers) {
        Err(PosError::OutOfBounds(min))
    } else if !in_column(max, layers) {
        Err(PosError::OutOfBounds(max))
    } else if layer_of(max) < layer_of(min) {
        Err(PosError::OutOfBounds(max))
    } else {
        Ok(())
    }
}

/// Whether `p` is the wire form of `s` with its own block ids.
pub open spec fn latest_proto_of(p: ProtoSection, s: Section) -> bool {
    &&& p.palette@ == s.palette_spec()
    &&& p.bits_per_block == s.bits_spec()
    &&& p.non_air_blocks == 4096 - s.amounts_spec()[0]
    &&& p.non_air_blocks == 4096 - count_ids(s@, 0)
    &&& p.data@ == s.words_spec()
}

/// Whether `r` is the wire form of the column `c`: each section that was
/// made, under its index, with its own block ids.
pub open spec fn chunk_proto_of(r: ProtoChunk, c: Chunk) -> bool {
    &&& forall|k: i32| #[trigger] r.sections@.contains_key(k) ==> 0 <= k < c.layers_spec()
    &&& forall|i: int|
        0 <= i < c.layers_spec() ==> (r.sections@.contains_key(i as i32) <==> #[trigger] c.layer(
            i,
        ) is Some)
    &&& forall|i: int|
        0 <= i < c.layers_spec() && #[trigger] c.layer(i) is Some ==> latest_proto_of(
            r.sections@[i as i32],
            c.layer(i)->Some_0,
        )
}

/// Whether `p` is the wire form of `s` with its block ids passed through `f`.
pub open spec fn old_proto_of<F: Fn(u32) -> u32>(f: F, p: ProtoSection, s: Section) -> bool {
    &&& mapped_by(f, s.palette_spec(), p.palette@)
    &&& p.bits_per_block == s.bits_spec()
    &&& p.non_air_blocks == 4096 - s.amounts_spec()[0]
    &&& p.non_air_blocks == 4096 - count_ids(s@, 0)
    &&& p.data@ == s.words_spec()
}

/// A chunk column. It cannot be cloned: use [`Section::duplicate`] on the
/// sections where a copy is needed.
pub struct Chunk {
    sections: Vec<Option<Section>>,
    kind: ChunkKind,
    layers: usize,
}

impl Chunk {
    /// The section at index `i`, if it was made.
    pub closed spec fn layer(&self, i: int) -> Option<Section> {
        if 0 <= i < self.sections@.len() {
            self.sections@[i]
        } else {
            None
        }
    }

    pub closed spec fn kind_spec(&self) -> ChunkKind {
        self.kind
    }

    /// The number of sections that the column can hold.
    pub closed spec fn layers_spec(&self) -> nat {
        self.layers as nat
    }

    pub closed spec fn wf(&self) -> bool {
        &&& self.layers <= MAX_LAYERS
        &&& self.sections@.len() <= self.layers
        &&& forall|i: int| 0 <= i < self.sections@.len() ==> (#[trigger] self.sections@[i] matches Some(
            s,
        ) ==> s.wf())
    }

    /// The block at `p`, a position in the column: air where no section
    /// was made.
    pub open spec fn block_at(&self, p: Pos) -> u32 {
        match self.layer(layer_of(p)) {
            Some(s) => s@[cell_index(local(p))],
            None => 0,
        }
    }

    /// An empty column of the given kind, of the usual height.
    pub fn new(kind: ChunkKind) -> (r: Chunk)
        ensures
            r.wf(),
            r.kind_spec() == kind,
            r.layers_spec() == DEFAULT_LAYERS,
            forall|i: int| #[trigger] r.layer(i) is None,
    {
        Chunk { sections: Vec::new(), kind, layers: DEFAULT_LAYERS }
    }

    /// An empty column of the given kind, `layers` sections high, for worlds
    /// of another height.
    pub fn with_layers(kind: ChunkKind, layers: usize) -> (r: Chunk)
        requires
            layers <= MAX_LAYERS,
        ensures
            r.wf(),
            r.kind_spec() == kind,
            r.layers_spec() == layers,
            forall|i: int| #[trigger] r.layer(i) is None,
    {
        Chunk { sections: Vec::new(), kind, layers }
    }

    /// The number of sections that the column can hold.
    pub fn layer_count(&self) -> (r: usize)
        ensures
            r == self.layers_spec(),
    {
        self.layers
    }

    /// Which protocol generation this chunk is stored for.
    pub fn kind(&self) -> (r: ChunkKind)
        ensures
            r == self.kind_spec(),
    {
        self.kind
    }

    fn check(&self, pos: Pos) -> (r: Result<(), PosError>)
        requires
            self.wf(),
        ensures
            r == if in_column(pos, self.layers_spec()) {
                Ok::<(), PosError>(())
            } else {
                Err(PosError::OutOfBounds(pos))
            },
    {
        if pos.x < 0 || pos.x >= 16 || pos.z < 0 || pos.z >= 16 || pos.y < 0 || pos.y as i64 >= 16
            * self.layers as i64 {
            Err(pos.err())
        } else {
            Ok(())
        }
    }

    /// Makes the section at `index` where it is missing.
    fn make_layer(&mut self, index: usize)
        requires
            old(self).wf(),
            index < old(self).layers,
        ensures
            final(self).wf(),
            final(self).kind == old(self).kind,
            final(self).layers == old(self).layers,
            final(self).sections@.len() > index,
            final(self).sections@[index as int] is Some,
            final(self).sections@.len() >= old(self).sections@.len(),
            forall|p: Pos|
                in_column(p, old(self).layers_spec()) ==> #[trigger] final(self).block_at(p) == old(
                    self,
                ).block_at(p),
            forall|i: int| i != index ==> #[trigger] final(self).layer(i) == old(self).layer(i),
    {
        while self.sections.len() <= index
            invariant
                self.wf(),
                self.kind == old(self).kind,
                self.layers == old(self).layers,
                index < self.layers,
                self.sections@.len() >= old(self).sections@.len(),
                forall|i: int| #[trigger] self.layer(i) == old(self).layer(i),
            decreases index + 1 - self.sections@.len(),
        {
            let ghost before = *self;
            self.sections.push(None);
            assert forall|i: int| #[trigger] self.layer(i) == old(self).layer(i) by {
                assert(self.layer(i) == before.layer(i));
            }
        }
        if self.sections[index].is_none() {
            let ghost before = *self;
            self.sections.set(index, Some(Section::new()));
            assert forall|p: Pos| in_column(p, self.layers_spec()) implies #[trigger] self.block_at(p) == before.block_at(
                p,
            ) by {
                if layer_of(p) == index {
                }
            }
            assert forall|i: int| i != index implies #[trigger] self.layer(i) == before.layer(i) by {}
        }
    }

    /// Sets the block at `pos` to `ty`. Fails, changing nothing, when `pos`
    /// is not in the column.
    pub fn set_block(&mut self, pos: Pos, ty: u32) -> (r: Result<(), PosError>)
        requires
            old(self).wf(),
        ensures
            final(self).wf(),
            final(self).kind_spec() == old(self).kind_spec(),
            final(self).layers_spec() == old(self).layers_spec(),
            r == if in_column(pos, old(self).layers_spec()) {
                Ok::<(), PosError>(())
            } else {
                Err(PosError::OutOfBounds(pos))
            },
            r is Err ==> *final(self) == *old(self),
            r is Ok ==> forall|q: Pos|
                in_column(q, old(self).layers_spec()) ==> #[trigger] final(self).block_at(q) == if q == pos {
                    ty
                } else {
                    old(self).block_at(q)
                },
    {
        match self.check(pos) {
            Err(e) => {
                return Err(e);
            },
            Ok(()) => {},
        }
        let index = pos.chunk_y() as usize;
        self.make_layer(index);
        let ghost mid = *self;
        let local_pos = Pos::new(pos.x(), pos.chunk_rel_y(), pos.z());
        assert(mid.sections@[index as int] matches Some(s) && s.wf());
        assert(local_pos == local(pos));
        assert(layer_of(pos) == index);
        match &mut self.sections[index] {
            Some(s) => {
                s.set_block(local_pos, ty);
            },
            None => {},
        }
        proof {
            let old_s = mid.sections@[index as int]->Some_0;
            assert(self.sections@.len() == mid.sections@.len());
            assert(forall|i: int| 0 <= i < self.sections@.len() && i != index ==> self.sections@[i] == mid.sections@[i]);
            assert(self.sections@[index as int] matches Some(s2) && s2@ == old_s@.update(cell_index(local(pos)), ty));
            assert forall|i: int| 0 <= i < self.sections@.len() implies (
            #[trigger] self.sections@[i] matches Some(s) ==> s.wf()) by {
                assert(i != index ==> self.sections@[i] == mid.sections@[i]);
            }
            assert forall|q: Pos| in_column(q, self.layers_spec()) implies #[trigger] self.block_at(q) == if q == pos {
                ty
            } else {
                old(self).block_at(q)
            } by {
                assert(mid.block_at(q) == old(self).block_at(q));
                if layer_of(q) != index {
                    assert(self.layer(layer_of(q)) == mid.layer(layer_of(q)));
                } else if q != pos {
                    assert(local(q).y == q.y % 16);
                    assert(q.x != pos.x || q.z != pos.z || local(q).y != local(pos).y);
                    assert(cell_index(local(q)) != cell_index(local(pos)));
                }
            }
        }
        Ok(())
    }

    /// Sets every block in the box `min..=max` to `ty`, making the sections
    /// that the box reaches. Fails, changing nothing, when `min` or `max` is
    /// not in the column, or when `max` lies in a lower section than `min`.
    pub fn fill(&mut self, min: Pos, max: Pos, ty: u32) -> (r: Result<(), PosError>)
        requires
            old(self).wf(),
        ensures
            final(self).wf(),
            final(self).kind_spec() == old(self).kind_spec(),
            final(self).layers_spec() == old(self).layers_spec(),
            r == fill_result(min, max, old(self).layers_spec()),
            r is Err ==> *final(self) == *old(self),
            r is Ok ==> forall|q: Pos|
                in_column(q, old(self).layers_spec()) ==> #[trigger] final(self).block_at(q) == if in_column_box(q, min, max) {
                    ty
                } else {
                    old(self).block_at(q)
                },
    {
        match self.check(min) {
            Err(e) => {
                return Err(e);
            },
            Ok(()) => {},
        }
        match self.check(max) {
            Err(e) => {
                return Err(e);
            },
            Ok(()) => {},
        }
        let min_index = min.chunk_y() as usize;
        let max_index = max.chunk_y() as usize;
        if max_index < min_index {
            return Err(max.err());
        }
        if min.x > max.x || min.z > max.z || min.y > max.y {
            return Ok(());
        }
        let mut index = min_index;
        while index <= max_index
            invariant
                self.wf(),
                self.kind == old(self).kind,
                self.layers == old(self).layers,
                in_column(min, self.layers_spec()),
                in_column(max, self.layers_spec()),
                min.x <= max.x && min.z <= max.z && min.y <= max.y,
                min_index == layer_of(min),
                max_index == layer_of(max),
                min_index <= index <= max_index + 1,
                max_index < self.layers,
                forall|q: Pos|
                    in_column(q, self.layers_spec()) ==> #[trigger] self.block_at(q) == if in_column_box(q, min, max)
                        && layer_of(q) < index {
                        ty
                    } else {
                        old(self).block_at(q)
                    },
            decreases max_index + 1 - index,
        {
            let ghost before = *self;
            self.make_layer(index);
            let ghost mid = *self;
            let base = index as i32 * 16;
            let lo = if min.y > base {
                min.y - base
            } else {
                0
            };
            let hi = if max.y < base + 15 {
                max.y - base
            } else {
                15
            };
            let smin = Pos::new(min.x, lo, min.z);
            let smax = Pos::new(max.x, hi, max.z);
            assert(valid_box(smin, smax));
            assert(mid.sections@[index as int] matches Some(s) && s.wf());
            match &mut self.sections[index] {
                Some(s) => {
                    s.fill(smin, smax, ty);
                },
                None => {},
            }
            proof {
                let old_s = mid.sections@[index as int]->Some_0;
                assert(self.sections@[index as int] matches Some(s2) && s2@ == filled(
                    old_s@,
                    smin,
                    smax,
                    ty,
                ));
                assert forall|i: int| 0 <= i < self.sections@.len() implies (
                #[trigger] self.sections@[i] matches Some(s) ==> s.wf()) by {
                    assert(i != index ==> self.sections@[i] == mid.sections@[i]);
                }
                assert forall|q: Pos| in_column(q, self.layers_spec()) implies #[trigger] self.block_at(q) == if in_column_box(
                    q,
                    min,
                    max,
                ) && layer_of(q) < index + 1 {
                    ty
                } else {
                    old(self).block_at(q)
                } by {
                    assert(mid.block_at(q) == before.block_at(q));
                    if layer_of(q) != index {
                        assert(self.layer(layer_of(q)) == mid.layer(layer_of(q)));
                    } else {
                        let c = cell_index(local(q));
                        assert(local(q).y == q.y - base);
                        assert(c % 16 == q.x);
                        assert((c / 16) % 16 == q.z);
                        assert(c / 256 == q.y - base);
                        assert(in_box(c, smin, smax) == in_column_box(q, min, max));
                    }
                }
            }
            index += 1;
        }
        Ok(())
    }

    /// The block at `pos`: air where no section was made. Fails when `pos`
    /// is not in the column.
    pub fn get_block(&self, pos: Pos) -> (r: Result<u32, PosError>)
        requires
            self.wf(),
        ensures
            r == if in_column(pos, self.layers_spec()) {
                Ok::<u32, PosError>(self.block_at(pos))
            } else {
                Err(PosError::OutOfBounds(pos))
            },
    {
        match self.check(pos) {
            Err(e) => {
                return Err(e);
            },
            Ok(()) => {},
        }
        let index = pos.chunk_y() as usize;
        if index >= self.sections.len() {
            return Ok(0);
        }
        match &self.sections[index] {
            Some(s) => {
                assert(s.wf());
                Ok(s.get_block(Pos::new(pos.x(), pos.chunk_rel_y(), pos.z())))
            },
            None => Ok(0),
        }
    }

    /// The wire form of this column: each section that was made, under its
    /// index, with its own block ids.
    pub fn to_latest_proto(&self) -> (r: ProtoChunk)
        requires
            self.wf(),
        ensures
            chunk_proto_of(r, *self),
    {
        let mut sections: HashMap<i32, ProtoSection> = HashMap::new();
        let mut i: usize = 0;
        while i < self.sections.len()
            invariant
                self.wf(),
                i <= self.sections@.len(),
                forall|k: i32| #[trigger] sections@.contains_key(k) ==> 0 <= k < i,
                forall|j: int|
                    0 <= j < i ==> (sections@.contains_key(j as i32) <==> #[trigger] self.layer(
                        j,
                    ) is Some),
                forall|j: int|
                    0 <= j < i && #[trigger] self.layer(j) is Some ==> latest_proto_of(
                        sections@[j as i32],
                        self.layer(j)->Some_0,
                    ),
            decreases self.sections@.len() - i,
        {
            match &self.sections[i] {
                Some(s) => {
                    assert(s.wf());
                    sections.insert(i as i32, s.to_latest_proto());
                },
                None => {},
            }
            i += 1;
        }
        ProtoChunk { sections }
    }

    /// The wire form of this column, with each block id of each palette
    /// passed through `f`.
    pub fn to_old_proto<F: Fn(u32) -> u32>(&self, f: F) -> (r: ProtoChunk)
        requires
            self.wf(),
            forall|v: u32| #[trigger] f.requires((v,)),
        ensures
            forall|k: i32| #[trigger] r.sections@.contains_key(k) ==> 0 <= k < self.layers_spec(),
            forall|i: int|
                0 <= i < self.layers_spec() ==> (r.sections@.contains_key(i as i32)
                    <==> #[trigger] self.layer(i) is Some),
            forall|i: int|
                0 <= i < self.layers_spec() && #[trigger] self.layer(i) is Some ==> old_proto_of(
                    f,
                    r.sections@[i as i32],
                    self.layer(i)->Some_0,
                ),
    {
        let mut sections: HashMap<i32, ProtoSection> = HashMap::new();
        let mut i: usize = 0;
        while i < self.sections.len()
            invariant
                self.wf(),
                forall|v: u32| #[trigger] f.requires((v,)),
                i <= self.sections@.len(),
                forall|k: i32| #[trigger] sections@.contains_key(k) ==> 0 <= k < i,
                forall|j: int|
                    0 <= j < i ==> (sections@.contains_key(j as i32) <==> #[trigger] self.layer(
                        j,
                    ) is Some),
                forall|j: int|
                    0 <= j < i && #[trigger] self.layer(j) is Some ==> old_proto_of(
                        f,
                        sections@[j as i32],
                        self.layer(j)->Some_0,
                    ),
            decreases self.sections@.len() - i,
        {
            match &self.sections[i] {
                Some(s) => {
                    assert(s.wf());
                    sections.insert(i as i32, s.to_old_proto(&f));
                },
                None => {},
            }
            i += 1;
        }
        ProtoChunk { sections }
    }
}

/// A block set in a column reads back as set, every other block of the
/// column is kept, and a column where nothing was set reads as air.
pub proof fn lemma_chunk_round_trip(before: &Chunk, after: &Chunk, p: Pos, v: u32)
    requires
        before.wf(),
        in_column(p, before.layers_spec()),
        forall|q: Pos|
            in_column(q, before.layers_spec()) ==> #[trigger] after.block_at(q) == if q == p {
                v
            } else {
                before.block_at(q)
            },
    ensures
        after.block_at(p) == v,
        forall|q: Pos| in_column(q, before.layers_spec()) && q != p ==> #[trigger] after.block_at(q) == before.block_at(q),
        (forall|i: int| #[trigger] before.layer(i) is None) ==> forall|q: Pos|
            in_column(q, before.layers_spec()) && q != p ==> #[trigger] after.block_at(q) == 0,
{
}

} // verus!

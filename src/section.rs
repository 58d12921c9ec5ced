//! One 16x16x16 section: a palette of the block ids that it holds and, per
//! cell, the index of its block in that palette, packed in a bit array.
use std::collections::HashMap;
use vstd::arithmetic::power2::{lemma2_to64, pow2};
use vstd::bits::{lemma_u64_pow2_no_overflow, lemma_u64_shl_is_mul};
use vstd::prelude::*;

use crate::bits::{lemma_low_mask_grow, low_mask, read_one, BitArray, ENTRIES};
use crate::pos::{cell_index, in_section, Pos};
use crate::proto::{shape_error, validate_proto, wire_error, ProtoSection, WireError};

verus! {

broadcast use {vstd::std_specs::hash::group_hash_axioms, BitArray::lemma_len};

/// How many of the values in `s` are `k`.
pub open spec fn count(s: Seq<u64>, k: u64) -> nat
    decreases s.len(),
{
    if s.len() == 0 {
        0
    } else {
        count(s.drop_last(), k) + if s.last() == k {
            1nat
        } else {
            0nat
        }
    }
}

/// `s` with every value at or above `t` moved one up, or one down.
pub open spec fn shifted(s: Seq<u64>, t: u64, up: bool) -> Seq<u64> {
    Seq::new(
        s.len(),
        |i: int|
            if s[i] >= t {
                if up {
                    (s[i] + 1) as u64
                } else {
                    (s[i] - 1) as u64
                }
            } else {
                s[i]
            },
    )
}

/// Strictly ascending, hence without duplicates.
pub open spec fn sorted(s: Seq<u32>) -> bool {
    forall|i: int, j: int| 0 <= i < j < s.len() ==> s[i] < s[j]
}

/// `m` maps every entry of `p` to its index, and nothing else.
pub open spec fn reverse_of(m: Map<u32, usize>, p: Seq<u32>) -> bool {
    &&& forall|k: int| 0 <= k < p.len() ==> #[trigger] m.contains_key(p[k]) && m[p[k]] == k
    &&& forall|g: u32| #[trigger] m.contains_key(g) ==> exists|k: int| 0 <= k < p.len() && p[k] == g
}

proof fn lemma_count_update(s: Seq<u64>, i: int, v: u64, k: u64)
    requires
        0 <= i < s.len(),
    ensures
        count(s.update(i, v), k) == count(s, k) - (if s[i] == k {
            1int
        } else {
            0int
        }) + (if v == k {
            1int
        } else {
            0int
        }),
    decreases s.len(),
{
    let t = s.update(i, v);
    if i == s.len() - 1 {
        assert(t.drop_last() =~= s.drop_last());
    } else {
        assert(t.drop_last() =~= s.drop_last().update(i, v));
        lemma_count_update(s.drop_last(), i, v, k);
    }
}

proof fn lemma_count_le(s: Seq<u64>, k: u64)
    ensures
        count(s, k) <= s.len(),
    decreases s.len(),
{
    if s.len() > 0 {
        lemma_count_le(s.drop_last(), k);
    }
}

proof fn lemma_count_zero(s: Seq<u64>, k: u64, i: int)
    requires
        count(s, k) == 0,
        0 <= i < s.len(),
    ensures
        s[i] != k,
    decreases s.len(),
{
    if i < s.len() - 1 {
        lemma_count_zero(s.drop_last(), k, i);
    }
}

proof fn lemma_count_absent(s: Seq<u64>, k: u64)
    requires
        forall|i: int| 0 <= i < s.len() ==> s[i] != k,
    ensures
        count(s, k) == 0,
    decreases s.len(),
{
    if s.len() > 0 {
        lemma_count_absent(s.drop_last(), k);
    }
}

proof fn lemma_count_shift_up(s: Seq<u64>, t: u64, k: u64)
    requires
        forall|i: int| 0 <= i < s.len() ==> s[i] < u64::MAX,
    ensures
        count(shifted(s, t, true), k) == if k < t {
            count(s, k)
        } else if k == t {
            0
        } else {
            count(s, (k - 1) as u64)
        },
    decreases s.len(),
{
    if s.len() > 0 {
        assert(shifted(s, t, true).drop_last() =~= shifted(s.drop_last(), t, true));
        lemma_count_shift_up(s.drop_last(), t, k);
    }
}

proof fn lemma_count_shift_down(s: Seq<u64>, t: u64, k: u64)
    requires
        t >= 1,
        count(s, t) == 0,
    ensures
        count(shifted(s, t, false), k) == if k < t {
            count(s, k)
        } else if k < u64::MAX {
            count(s, (k + 1) as u64)
        } else {
            0
        },
    decreases s.len(),
{
    if s.len() > 0 {
        assert(shifted(s, t, false).drop_last() =~= shifted(s.drop_last(), t, false));
        assert(count(s.drop_last(), t) == 0);
        lemma_count_shift_down(s.drop_last(), t, k);
    }
}

/// Ascending `u32` values leave at least `k` values below the one at `k`.
proof fn lemma_sorted_index_le(s: Seq<u32>, k: int)
    requires
        sorted(s),
        0 <= k < s.len(),
    ensures
        k <= s[k],
    decreases k,
{
    if k > 0 {
        lemma_sorted_index_le(s, k - 1);
    }
}

proof fn lemma_insert_ids(s: Seq<u32>, p: int, v: u32)
    requires
        0 <= p <= s.len(),
    ensures
        s.insert(p, v).to_set() == s.to_set().insert(v),
{
    let t = s.insert(p, v);
    assert forall|x: u32| t.contains(x) <==> s.to_set().insert(v).contains(x) by {
        if t.contains(x) {
            let k = choose|k: int| 0 <= k < t.len() && t[k] == x;
            if k < p {
                assert(s[k] == x);
            } else if k > p {
                assert(s[k - 1] == x);
            }
        }
        if s.contains(x) {
            let k = choose|k: int| 0 <= k < s.len() && s[k] == x;
            if k < p {
                assert(t[k] == x);
            } else {
                assert(t[k + 1] == x);
            }
        }
        if x == v {
            assert(t[p] == v);
        }
    }
    assert(t.to_set() =~= s.to_set().insert(v));
}

proof fn lemma_remove_ids(s: Seq<u32>, k: int)
    requires
        sorted(s),
        0 <= k < s.len(),
    ensures
        s.remove(k).to_set() == s.to_set().remove(s[k]),
{
    let t = s.remove(k);
    assert forall|x: u32| t.contains(x) <==> s.to_set().remove(s[k]).contains(x) by {
        if t.contains(x) {
            let j = choose|j: int| 0 <= j < t.len() && t[j] == x;
            if j < k {
                assert(s[j] == x && s[j] < s[k]);
            } else {
                assert(s[j + 1] == x && s[k] < s[j + 1]);
            }
        }
        if s.contains(x) && x != s[k] {
            let j = choose|j: int| 0 <= j < s.len() && s[j] == x;
            if j < k {
                assert(t[j] == x);
            } else {
                assert(t[j - 1] == x);
            }
        }
    }
    assert(t.to_set() =~= s.to_set().remove(s[k]));
}

/// The mask of `w` bits is one less than `2^w`.
pub proof fn lemma_mask_pow2(w: u64)
    requires
        1 <= w <= 64,
    ensures
        low_mask(w) + 1 == pow2(w as nat),
{
    if w < 64 {
        lemma_u64_pow2_no_overflow(w as nat);
        lemma_u64_shl_is_mul(1, w);
    } else {
        lemma2_to64();
    }
}

/// The width after adding an entry to a palette of `len` entries indexed
/// with `bits` bits: one more bit where `len + 1` entries would reach
/// `2^bits`.
pub open spec fn widened(len: nat, bits: u64) -> u64 {
    if len + 1 >= pow2(bits as nat) {
        (bits + 1) as u64
    } else {
        bits
    }
}

/// Whether `p` holds, at each index, what `f` gave for the id of `a` there.
pub open spec fn mapped_by<F: Fn(u32) -> u32>(f: F, a: Seq<u32>, p: Seq<u32>) -> bool {
    &&& p.len() == a.len()
    &&& forall|i: int| 0 <= i < p.len() ==> f.ensures((a[i],), #[trigger] p[i])
}

/// Each id of `ids` passed through `f`.
pub fn map_ids<F: Fn(u32) -> u32>(ids: &Vec<u32>, f: &F) -> (r: Vec<u32>)
    requires
        forall|v: u32| #[trigger] f.requires((v,)),
    ensures
        r@.len() == ids@.len(),
        forall|i: int| 0 <= i < r@.len() ==> f.ensures((ids@[i],), #[trigger] r@[i]),
{
    let mut r: Vec<u32> = Vec::new();
    let mut i: usize = 0;
    while i < ids.len()
        invariant
            i <= ids@.len(),
            r@.len() == i,
            forall|v: u32| #[trigger] f.requires((v,)),
            forall|j: int| 0 <= j < i ==> f.ensures((ids@[j],), #[trigger] r@[j]),
        decreases ids@.len() - i,
    {
        let v = f(ids[i]);
        r.push(v);
        i += 1;
    }
    r
}

/// The map from each entry of `palette` to its index.
fn reverse_map(palette: &Vec<u32>) -> (m: HashMap<u32, usize>)
    requires
        sorted(palette@),
    ensures
        reverse_of(m@, palette@),
{
    let mut m: HashMap<u32, usize> = HashMap::new();
    let mut k: usize = 0;
    while k < palette.len()
        invariant
            k <= palette@.len(),
            sorted(palette@),
            forall|j: int| 0 <= j < k ==> #[trigger] m@.contains_key(palette@[j]) && m@[palette@[j]] == j,
            forall|g: u32| #[trigger]
                m@.contains_key(g) ==> exists|j: int| 0 <= j < k && palette@[j] == g,
        decreases palette@.len() - k,
    {
        let g = palette[k];
        m.insert(g, k);
        proof {
            assert forall|g2: u32| #[trigger] m@.contains_key(g2) implies exists|j: int|
                0 <= j < k + 1 && palette@[j] == g2 by {
                if g2 != g {
                    let j = choose|j: int| 0 <= j < k && palette@[j] == g2;
                    assert(0 <= j < k + 1 && palette@[j] == g2);
                } else {
                    assert(palette@[k as int] == g2);
                }
            }
        }
        k += 1;
    }
    m
}

/// One 16x16x16 cube of blocks.
#[derive(Debug)]
pub struct Section {
    /// The palette index of every cell, at `y * 256 + z * 16 + x`.
    data: BitArray,
    /// The block ids of the palette, ascending; the first is air (`0`).
    palette: Vec<u32>,
    /// For each palette entry, how many cells hold it.
    block_amounts: Vec<u32>,
    /// Each block id of the palette, mapped to its index.
    reverse_palette: HashMap<u32, usize>,
}

impl View for Section {
    type V = Seq<u32>;

    /// The block id of each of the 4096 cells.
    closed spec fn view(&self) -> Seq<u32> {
        Seq::new(ENTRIES as nat, |i: int| self.palette@[self.data@[i] as int])
    }
}

/// Whether the cell with index `i` lies in the box `min..=max`.
pub open spec fn in_box(i: int, min: Pos, max: Pos) -> bool {
    min.x <= i % 16 <= max.x && min.z <= (i / 16) % 16 <= max.z && min.y <= i / 256 <= max.y
}

/// The cells of `v` with those inside the box `min..=max` set to `ty`.
pub open spec fn filled(v: Seq<u32>, min: Pos, max: Pos, ty: u32) -> Seq<u32> {
    Seq::new(v.len(), |i: int| if in_box(i, min, max) { ty } else { v[i] })
}

/// Whether `min..=max` is a box within a section.
pub open spec fn valid_box(min: Pos, max: Pos) -> bool {
    in_section(min) && in_section(max) && min.x <= max.x && min.y <= max.y && min.z <= max.z
}

fn cell_in_box(i: usize, min: Pos, max: Pos) -> (r: bool)
    requires
        i < ENTRIES,
        valid_box(min, max),
    ensures
        r == in_box(i as int, min, max),
{
    let x = (i % 16) as i32;
    let z = ((i / 16) % 16) as i32;
    let y = (i / 256) as i32;
    min.x <= x && x <= max.x && min.z <= z && z <= max.z && min.y <= y && y <= max.y
}

impl Section {
    /// A section always has 4096 cells.
    pub broadcast proof fn lemma_view_len(s: &Section)
        ensures
            #[trigger] s@.len() == ENTRIES,
    {
    }

    /// The number of bits that each palette index takes.
    pub closed spec fn bits_spec(&self) -> u64 {
        self.data.width_spec()
    }

    /// The palette index held by each cell.
    pub closed spec fn cells(&self) -> Seq<u64> {
        self.data@
    }

    pub closed spec fn palette_spec(&self) -> Seq<u32> {
        self.palette@
    }

    pub closed spec fn amounts_spec(&self) -> Seq<u32> {
        self.block_amounts@
    }

    pub closed spec fn reverse_spec(&self) -> Map<u32, usize> {
        self.reverse_palette@
    }

    /// The words of the packed cells, in their wire order.
    pub closed spec fn words_spec(&self) -> Seq<u64> {
        self.data.words_spec()
    }

    /// The block ids of the palette after the cell `i` is set to `ty`: those
    /// before, with `ty`, but without the cell's old block where no other
    /// cell holds it and it is not air.
    pub open spec fn ids_after_set(&self, i: int, ty: u32) -> Set<u32> {
        let g = self@[i];
        let added = self.palette_spec().to_set().insert(ty);
        if g != 0 && g != ty && forall|j: int| 0 <= j < ENTRIES && j != i ==> self@[j] != g {
            added.remove(g)
        } else {
            added
        }
    }

    /// Every palette entry but air is held by at least one cell.
    pub open spec fn pruned(&self) -> bool {
        forall|k: int| 1 <= k < self.palette_spec().len() ==> #[trigger] self.amounts_spec()[k] > 0
    }

    pub closed spec fn wf(&self) -> bool {
        &&& self.data.wf()
        &&& self.palette@.len() >= 1
        &&& self.palette@[0] == 0
        &&& sorted(self.palette@)
        &&& self.palette@.len() <= low_mask(self.data.width_spec()) + 1
        &&& self.block_amounts@.len() == self.palette@.len()
        &&& forall|k: int|
            0 <= k < self.palette@.len() ==> #[trigger] self.block_amounts@[k] == count(
                self.data@,
                k as u64,
            )
        &&& forall|i: int| 0 <= i < ENTRIES ==> #[trigger] self.data@[i] < self.palette@.len()
        &&& reverse_of(self.reverse_palette@, self.palette@)
    }

    /// An empty section: every cell is air, the palette is `[0]` and each
    /// index takes 4 bits.
    pub fn new() -> (r: Section)
        ensures
            r.wf(),
            r@ == Seq::new(ENTRIES as nat, |i: int| 0u32),
            r.bits_spec() == 4,
            r.palette_spec() == seq![0u32],
            r.amounts_spec() == seq![4096u32],
            r.pruned(),
    {
        let data = BitArray::new(4);
        let palette: Vec<u32> = vec![0u32];
        let block_amounts: Vec<u32> = vec![4096u32];
        let reverse_palette = reverse_map(&palette);
        let r = Section { data, palette, block_amounts, reverse_palette };
        proof {
            assert(low_mask(4) == 15) by (bit_vector);
            Self::lemma_count_all(r.data@, 0);
            assert(r@ =~= Seq::new(ENTRIES as nat, |i: int| 0u32));
            assert(r.palette@ =~= seq![0u32]);
            assert(r.block_amounts@ =~= seq![4096u32]);
        }
        r
    }

    /// A sequence whose values are all `k` counts `k` at each place.
    proof fn lemma_count_all(s: Seq<u64>, k: u64)
        requires
            forall|i: int| 0 <= i < s.len() ==> s[i] == k,
        ensures
            count(s, k) == s.len(),
        decreases s.len(),
    {
        if s.len() > 0 {
            Self::lemma_count_all(s.drop_last(), k);
        }
    }

    /// The cell index of a position in the section.
    fn index(pos: Pos) -> (r: usize)
        requires
            in_section(pos),
        ensures
            r == cell_index(pos),
            r < ENTRIES,
    {
        (pos.y as usize) * 256 + (pos.z as usize) * 16 + pos.x as usize
    }

    /// The palette index held by the cell at `pos`.
    fn get_palette(&self, pos: Pos) -> (r: usize)
        requires
            self.wf(),
            in_section(pos),
        ensures
            r == self.cells()[cell_index(pos)],
            r < self.palette_spec().len(),
    {
        let i = Self::index(pos);
        let v = self.data.get(i);
        let n = self.palette.len();
        assert(self.data@[i as int] < n);
        v as usize
    }

    /// The block id at `pos`.
    pub fn get_block(&self, pos: Pos) -> (r: u32)
        requires
            self.wf(),
            in_section(pos),
        ensures
            r == self@[cell_index(pos)],
    {
        let id = self.get_palette(pos);
        self.palette[id]
    }

    /// The number of bits that each palette index takes.
    pub fn bits_per_block(&self) -> (r: u64)
        ensures
            r == self.bits_spec(),
    {
        self.data.width()
    }

    /// The block ids of the palette, ascending.
    pub fn palette(&self) -> (r: &Vec<u32>)
        ensures
            r@ == self.palette_spec(),
    {
        &self.palette
    }

    /// How many cells hold each palette entry.
    pub fn block_amounts(&self) -> (r: &Vec<u32>)
        ensures
            r@ == self.amounts_spec(),
    {
        &self.block_amounts
    }

    /// The number of cells that are not air.
    pub fn non_air_blocks(&self) -> (r: u32)
        requires
            self.wf(),
        ensures
            r == 4096 - self.amounts_spec()[0],
            r == 4096 - count_ids(self@, 0),
    {
        proof {
            lemma_count_le(self.data@, 0);
            assert(self.block_amounts@[0] == count(self.data@, 0));
            lemma_counts(self);
        }
        4096 - self.block_amounts[0]
    }

    /// The palette index of the block id `ty`, if it is in the palette.
    pub fn palette_index(&self, ty: u32) -> (r: Option<usize>)
        requires
            self.wf(),
        ensures
            r matches Some(k) ==> k < self.palette_spec().len() && self.palette_spec()[k as int] == ty,
            r is None ==> !self.palette_spec().contains(ty),
    {
        match self.reverse_palette.get(&ty) {
            Some(k) => {
                proof {
                    let j = choose|j: int| 0 <= j < self.palette@.len() && self.palette@[j] == ty;
                    assert(self.reverse_palette@.contains_key(self.palette@[j]));
                }
                Some(*k)
            },
            None => {
                proof {
                    if self.palette@.contains(ty) {
                        let j = choose|j: int| 0 <= j < self.palette@.len() && self.palette@[j] == ty;
                        assert(self.reverse_palette@.contains_key(self.palette@[j]));
                    }
                }
                None
            },
        }
    }

    /// Adds `shift_amount` (one up or one down) to every palette index at or
    /// above `id`. Used after the palette changed.
    fn shift_all_above(&mut self, id: u64, shift_amount: i32)
        requires
            old(self).data.wf(),
            shift_amount == 1 || shift_amount == -1,
            shift_amount == 1 ==> forall|i: int|
                0 <= i < ENTRIES && #[trigger] old(self).data@[i] >= id ==> old(self).data@[i] + 1
                    <= low_mask(old(self).data.width_spec()),
            shift_amount == -1 ==> id >= 1,
        ensures
            final(self).data.wf(),
            final(self).data.width_spec() == old(self).data.width_spec(),
            final(self).data@ == shifted(old(self).data@, id, shift_amount == 1),
            final(self).palette == old(self).palette,
            final(self).block_amounts == old(self).block_amounts,
            final(self).reverse_palette == old(self).reverse_palette,
    {
        let ghost orig = self.data@;
        let ghost up = shift_amount == 1;
        let mut i: usize = 0;
        while i < ENTRIES
            invariant
                self.data.wf(),
                self.data.width_spec() == old(self).data.width_spec(),
                orig == old(self).data@,
                up == (shift_amount == 1),
                shift_amount == 1 || shift_amount == -1,
                up ==> forall|i: int|
                    0 <= i < ENTRIES && #[trigger] orig[i] >= id ==> orig[i] + 1 <= low_mask(
                        self.data.width_spec(),
                    ),
                !up ==> id >= 1,
                i <= ENTRIES,
                forall|k: int| 0 <= k < i ==> #[trigger] self.data@[k] == shifted(orig, id, up)[k],
                forall|k: int| i <= k < ENTRIES ==> #[trigger] self.data@[k] == orig[k],
                self.palette == old(self).palette,
                self.block_amounts == old(self).block_amounts,
                self.reverse_palette == old(self).reverse_palette,
            decreases ENTRIES - i,
        {
            let v = self.data.get(i);
            if v >= id {
                proof {
                    self.data.lemma_fits(i as int);
                }
                if shift_amount == 1 {
                    self.data.set(i, v + 1);
                } else {
                    self.data.set(i, v - 1);
                }
            }
            i += 1;
        }
        assert(self.data@ =~= shifted(orig, id, up));
    }

    /// Widens every palette index by one bit.
    fn increase_bits_per_block(&mut self)
        requires
            old(self).wf(),
            old(self).bits_spec() < 64,
        ensures
            final(self).data.wf(),
            final(self).bits_spec() == old(self).bits_spec() + 1,
            final(self).data@ == old(self).data@,
            final(self).palette == old(self).palette,
            final(self).block_amounts == old(self).block_amounts,
            final(self).reverse_palette == old(self).reverse_palette,
    {
        let w = self.data.width();
        proof {
            lemma_low_mask_grow(w);
            assert forall|i: int| 0 <= i < ENTRIES implies #[trigger] self.data@[i] <= low_mask(
                (w + 1) as u64,
            ) by {
                self.data.lemma_fits(i);
            }
        }
        self.data.resize(w + 1);
    }

    /// Adds `ty` to the palette at its place in the ascending order, widening
    /// the indices first when the palette would outgrow them. Every cell keeps
    /// its block; the new entry has no cells. Returns its index.
    fn insert(&mut self, ty: u32) -> (r: usize)
        requires
            old(self).wf(),
            !old(self).palette@.contains(ty),
        ensures
            final(self).wf(),
            r <= old(self).palette@.len(),
            final(self).palette@ == old(self).palette@.insert(r as int, ty),
            final(self).block_amounts@ == old(self).block_amounts@.insert(r as int, 0),
            final(self).data@ == shifted(old(self).data@, r as u64, true),
            final(self).bits_spec() == widened(old(self).palette@.len(), old(self).bits_spec()),
            final(self)@ == old(self)@,
    {
        let w = self.data.width();
        let n = self.palette.len();
        proof {
            lemma_mask_pow2(w);
            lemma_palette_len(self);
            lemma2_to64();
        }
        if w < 64 && n as u64 >= BitArray::max_value(w) {
            self.increase_bits_per_block();
            proof {
                lemma_low_mask_grow(w);
            }
        }
        let ghost w2 = self.data.width_spec();
        let ghost cells0 = self.data@;
        let ghost pal0 = self.palette@;
        let ghost amt0 = self.block_amounts@;
        assert(pal0.len() + 1 <= low_mask(w2) + 1);
        let mut p: usize = 0;
        while p < self.palette.len() && self.palette[p] < ty
            invariant
                p <= self.palette@.len(),
                forall|j: int| 0 <= j < p ==> self.palette@[j] < ty,
            decreases self.palette@.len() - p,
        {
            p += 1;
        }
        proof {
            if p < pal0.len() {
                assert(pal0[p as int] != ty);
            }
        }
        self.palette.insert(p, ty);
        self.block_amounts.insert(p, 0);
        let ghost pal1 = self.palette@;
        assert(sorted(pal1)) by {
            assert forall|i: int, j: int| 0 <= i < j < pal1.len() implies pal1[i] < pal1[j] by {
                if j < p {
                } else if j == p {
                } else if i < p {
                } else if i == p {
                    assert(pal0[j - 1] >= pal0[p as int]);
                } else {
                }
            }
        }
        self.reverse_palette = reverse_map(&self.palette);
        assert forall|i: int| 0 <= i < ENTRIES && #[trigger] cells0[i] >= p implies cells0[i] + 1
            <= low_mask(w2) by {
            assert(cells0[i] < pal0.len());
        }
        self.shift_all_above(p as u64, 1);
        proof {
            let cells1 = self.data@;
            assert forall|k: int| 0 <= k < pal1.len() implies #[trigger] self.block_amounts@[k]
                == count(cells1, k as u64) by {
                assert forall|i: int| 0 <= i < ENTRIES implies cells0[i] < u64::MAX by {
                    assert(cells0[i] < pal0.len());
                }
                lemma_count_shift_up(cells0, p as u64, k as u64);
                if k > p {
                    assert(amt0[k - 1] == count(cells0, (k - 1) as u64));
                } else if k < p {
                    assert(amt0[k] == count(cells0, k as u64));
                }
            }
            assert forall|i: int| 0 <= i < ENTRIES implies #[trigger] cells1[i] < pal1.len() by {
                assert(cells0[i] < pal0.len());
            }
            assert(self@ =~= old(self)@) by {
                assert forall|i: int| 0 <= i < ENTRIES implies #[trigger] self@[i] == old(self)@[i] by {
                    assert(cells0[i] < pal0.len());
                }
            }
        }
        p
    }

    /// Takes the entry `id`, which no cell holds, out of the palette, and
    /// moves every index above it one down. Every cell keeps its block.
    fn remove(&mut self, id: usize)
        requires
            old(self).wf(),
            0 < id < old(self).palette@.len(),
            old(self).block_amounts@[id as int] == 0,
        ensures
            final(self).wf(),
            final(self).palette@ == old(self).palette@.remove(id as int),
            final(self).block_amounts@ == old(self).block_amounts@.remove(id as int),
            final(self).data@ == shifted(old(self).data@, id as u64, false),
            final(self).bits_spec() == old(self).bits_spec(),
            final(self)@ == old(self)@,
    {
        let ghost cells0 = self.data@;
        let ghost pal0 = self.palette@;
        let ghost amt0 = self.block_amounts@;
        self.palette.remove(id);
        self.block_amounts.remove(id);
        let ghost pal1 = self.palette@;
        assert(sorted(pal1)) by {
            assert forall|i: int, j: int| 0 <= i < j < pal1.len() implies pal1[i] < pal1[j] by {
                if j < id {
                } else if i < id {
                    assert(pal0[i] < pal0[j + 1]);
                } else {
                    assert(pal0[i + 1] < pal0[j + 1]);
                }
            }
        }
        self.reverse_palette = reverse_map(&self.palette);
        self.shift_all_above(id as u64, -1);
        proof {
            let cells1 = self.data@;
            assert(count(cells0, id as u64) == 0);
            assert forall|k: int| 0 <= k < pal1.len() implies #[trigger] self.block_amounts@[k]
                == count(cells1, k as u64) by {
                lemma_count_shift_down(cells0, id as u64, k as u64);
                if k >= id {
                    assert(amt0[k + 1] == count(cells0, (k + 1) as u64));
                } else {
                    assert(amt0[k] == count(cells0, k as u64));
                }
            }
            assert forall|i: int| 0 <= i < ENTRIES implies #[trigger] cells1[i] < pal1.len() by {
                assert(cells0[i] < pal0.len());
                lemma_count_zero(cells0, id as u64, i);
            }
            assert(self@ =~= old(self)@) by {
                assert forall|i: int| 0 <= i < ENTRIES implies #[trigger] self@[i] == old(self)@[i] by {
                    assert(cells0[i] < pal0.len());
                    lemma_count_zero(cells0, id as u64, i);
                }
            }
        }
    }

    /// Moves the cell `i` from palette entry `prev` to `id`, keeping the
    /// counts.
    fn move_cell(&mut self, i: usize, prev: usize, id: usize)
        requires
            old(self).wf(),
            i < ENTRIES,
            old(self).data@[i as int] == prev,
            id < old(self).palette@.len(),
            id != prev,
        ensures
            final(self).wf(),
            final(self).data@ == old(self).data@.update(i as int, id as u64),
            final(self).palette == old(self).palette,
            final(self).block_amounts@ == old(self).block_amounts@.update(
                id as int,
                (old(self).block_amounts@[id as int] + 1) as u32,
            ).update(prev as int, (old(self).block_amounts@[prev as int] - 1) as u32),
            final(self).bits_spec() == old(self).bits_spec(),
            final(self)@ == old(self)@.update(i as int, old(self).palette@[id as int]),
    {
        let ghost cells0 = self.data@;
        let ghost amt0 = self.block_amounts@;
        proof {
            lemma_count_le(cells0, id as u64);
            assert(amt0[id as int] == count(cells0, id as u64));
            assert(amt0[prev as int] == count(cells0, prev as u64));
            if count(cells0, prev as u64) == 0 {
                lemma_count_zero(cells0, prev as u64, i as int);
            }
        }
        self.data.set(i, id as u64);
        let a = self.block_amounts[id] + 1;
        self.block_amounts.set(id, a);
        let b = self.block_amounts[prev] - 1;
        self.block_amounts.set(prev, b);
        proof {
            let cells1 = self.data@;
            assert forall|k: int| 0 <= k < self.palette@.len() implies #[trigger] self.block_amounts@[k]
                == count(cells1, k as u64) by {
                lemma_count_update(cells0, i as int, id as u64, k as u64);
                assert(amt0[k] == count(cells0, k as u64));
            }
            assert forall|j: int| 0 <= j < ENTRIES implies #[trigger] cells1[j]
                < self.palette@.len() by {
                assert(cells0[j] < self.palette@.len());
            }
            assert(self@ =~= old(self)@.update(i as int, old(self).palette@[id as int]));
        }
    }

    /// Sets the block at `pos` to `ty`, adding `ty` to the palette when it is
    /// new and pruning the entry that the cell held when no cell holds it any
    /// more (air is never pruned).
    pub fn set_block(&mut self, pos: Pos, ty: u32)
        requires
            old(self).wf(),
            in_section(pos),
        ensures
            final(self).wf(),
            final(self)@ == old(self)@.update(cell_index(pos), ty),
            final(self).bits_spec() == if old(self).palette_spec().contains(ty) {
                old(self).bits_spec()
            } else {
                widened(old(self).palette_spec().len(), old(self).bits_spec())
            },
            sorted(final(self).palette_spec()),
            final(self).palette_spec().to_set() == old(self).ids_after_set(cell_index(pos), ty),
            old(self).pruned() ==> final(self).pruned(),
    {
        let i = Self::index(pos);
        let mut prev = self.get_palette(pos);
        let palette_id: usize;
        match self.palette_index(ty) {
            Some(p) => {
                if prev == p {
                    assert(self@ =~= old(self)@.update(cell_index(pos), ty));
                    assert(self.palette@.to_set() =~= old(self).ids_after_set(cell_index(pos), ty));
                    return ;
                }
                assert(old(self).pruned() ==> forall|k: int|
                    1 <= k < self.palette@.len() && k != p ==> #[trigger] self.block_amounts@[k] > 0) by {
                    if old(self).pruned() {
                        assert forall|k: int| 1 <= k < self.palette@.len() && k != p implies #[trigger] self.block_amounts@[k] > 0 by {
                            assert(old(self).amounts_spec()[k] > 0);
                        }
                    }
                }
                palette_id = p;
            },
            None => {
                let n = self.palette.len();
                assert(prev < n);
                assert(ty != 0) by {
                    assert(old(self).palette@[0] == 0);
                }
                let p = self.insert(ty);
                assert(p >= 1) by {
                    assert(self.palette@[0] == 0);
                }
                assert(old(self).pruned() ==> forall|k: int|
                    1 <= k < self.palette@.len() && k != p ==> #[trigger] self.block_amounts@[k] > 0) by {
                    if old(self).pruned() {
                        assert forall|k: int| 1 <= k < self.palette@.len() && k != p implies #[trigger] self.block_amounts@[k] > 0 by {
                            if k > p {
                                assert(old(self).amounts_spec()[k - 1] > 0);
                            } else {
                                assert(old(self).amounts_spec()[k] > 0);
                            }
                        }
                    }
                }
                if p <= prev {
                    prev += 1;
                }
                palette_id = p;
            },
        }
        let ghost mid = self@;
        let ghost pal1 = self.palette@;
        let ghost g = old(self)@[i as int];
        assert(self.data@[i as int] == prev);
        assert(self.palette@[palette_id as int] == ty);
        assert(pal1[prev as int] == g);
        assert(pal1.to_set() == old(self).palette@.to_set().insert(ty)) by {
            if old(self).palette@.contains(ty) {
                assert(pal1 == old(self).palette@);
                assert(pal1.to_set() =~= old(self).palette@.to_set().insert(ty));
            } else {
                lemma_insert_ids(old(self).palette@, palette_id as int, ty);
            }
        }
        assert(old(self).pruned() ==> forall|k: int|
            1 <= k < self.palette@.len() && k != palette_id ==> #[trigger] self.block_amounts@[k] > 0);
        let ghost before_move = self.block_amounts@;
        proof {
            lemma_count_le(self.data@, palette_id as u64);
            assert(before_move[palette_id as int] == count(self.data@, palette_id as u64));
        }
        self.move_cell(i, prev, palette_id);
        let ghost am = self.block_amounts@;
        assert(old(self).pruned() ==> forall|k: int|
            1 <= k < self.palette@.len() && k != prev ==> #[trigger] am[k] > 0) by {
            if old(self).pruned() {
                assert forall|k: int| 1 <= k < self.palette@.len() && k != prev implies #[trigger] am[k] > 0 by {
                    if k != palette_id {
                        assert(before_move[k] > 0);
                    }
                }
            }
        }
        assert(self@ =~= old(self)@.update(cell_index(pos), ty)) by {
            assert forall|j: int| 0 <= j < ENTRIES && j != i implies #[trigger] self@[j] == mid[j] by {
            }
        }
        let ghost cells2 = self.data@;
        proof {
            let gone = g != 0 && g != ty && forall|j: int| 0 <= j < ENTRIES && j != i ==> old(self)@[j] != g;
            assert(self.palette@ == pal1);
            assert((prev != 0) == (g != 0)) by {
                if prev != 0 {
                    assert(pal1[0] < pal1[prev as int]);
                }
            }
            assert(g != ty) by {
                assert(pal1[prev as int] != pal1[palette_id as int]);
            }
            assert((count(cells2, prev as u64) == 0) == (forall|j: int| 0 <= j < ENTRIES && j != i ==> old(self)@[j] != g)) by {
                if count(cells2, prev as u64) == 0 {
                    assert forall|j: int| 0 <= j < ENTRIES && j != i implies old(self)@[j] != g by {
                        lemma_count_zero(cells2, prev as u64, j);
                        assert(self@[j] == old(self)@[j]);
                        assert(self@[j] == pal1[cells2[j] as int]);
                        if pal1[cells2[j] as int] == g {
                            assert(cells2[j] < pal1.len());
                            if cells2[j] < prev {
                                assert(pal1[cells2[j] as int] < pal1[prev as int]);
                            } else if cells2[j] > prev {
                                assert(pal1[prev as int] < pal1[cells2[j] as int]);
                            }
                        }
                    }
                } else if forall|j: int| 0 <= j < ENTRIES && j != i ==> old(self)@[j] != g {
                    assert forall|j: int| 0 <= j < cells2.len() implies cells2[j] != prev by {
                        if j != i {
                            assert(old(self)@[j] != g);
                            assert(self@[j] == old(self)@[j]);
                            assert(self@[j] == pal1[cells2[j] as int]);
                        }
                    }
                    lemma_count_absent(cells2, prev as u64);
                }
            }
            assert(self.block_amounts@[prev as int] == count(cells2, prev as u64));
            assert((self.block_amounts@[prev as int] == 0 && prev != 0) == gone);
        }
        if self.block_amounts[prev] == 0 && prev != 0 {
            assert(prev < self.palette@.len());
            self.remove(prev);
            proof {
                lemma_remove_ids(pal1, prev as int);
                assert(self.palette@.to_set() =~= old(self).ids_after_set(cell_index(pos), ty));
            }
            assert(old(self).pruned() ==> self.pruned()) by {
                if old(self).pruned() {
                    assert forall|k: int| 1 <= k < self.palette_spec().len() implies #[trigger] self.amounts_spec()[k] > 0 by {
                        if k >= prev {
                            assert(am[k + 1] > 0);
                        } else {
                            assert(am[k] > 0);
                        }
                    }
                }
            }
        } else {
            assert(self.palette@.to_set() =~= old(self).ids_after_set(cell_index(pos), ty));
        }
    }

    /// A section whose cells all hold `ty`, which is not air.
    fn full_of(ty: u32) -> (r: Section)
        requires
            ty != 0,
        ensures
            r.wf(),
            r@ == Seq::new(ENTRIES as nat, |i: int| ty),
            r.bits_spec() == 4,
            r.palette_spec() == seq![0u32, ty],
            r.amounts_spec() == seq![0u32, 4096u32],
            r.pruned(),
    {
        let words: Vec<u64> = vec![0x1111_1111_1111_1111u64; 256];
        let ghost w0 = words@;
        let data = match BitArray::from_words(4, words) {
            Ok(d) => d,
            Err(_) => {
                assert(false);
                BitArray::new(4)
            },
        };
        proof {
            assert forall|i: int| 0 <= i < ENTRIES implies #[trigger] data@[i] == 1u64 by {
                let b = i * 4;
                let s = (b % 64) as u64;
                assert(w0[b / 64] == 0x1111_1111_1111_1111u64);
                assert(s % 4 == 0);
                assert(read_one(0x1111_1111_1111_1111u64, s, 4) == 1u64) by (bit_vector)
                    requires
                        s % 4 == 0,
                        s < 64,
                ;
            }
        }
        let palette: Vec<u32> = vec![0u32, ty];
        let block_amounts: Vec<u32> = vec![0u32, 4096u32];
        let reverse_palette = reverse_map(&palette);
        let r = Section { data, palette, block_amounts, reverse_palette };
        proof {
            assert(low_mask(4) == 15) by (bit_vector);
            Self::lemma_count_all(r.data@, 1);
            lemma_count_absent(r.data@, 0);
            assert(r@ =~= Seq::new(ENTRIES as nat, |i: int| ty));
            assert(r.palette@ =~= seq![0u32, ty]);
            assert(r.block_amounts@ =~= seq![0u32, 4096u32]);
        }
        r
    }

    /// Sets every block in the box `min..=max` to `ty`. Filling the whole
    /// section builds it anew; otherwise the cells of the box leave their
    /// entries, the entries that no cell holds any more are pruned (air is
    /// never pruned), and then the cells take `ty`.
    pub fn fill(&mut self, min: Pos, max: Pos, ty: u32)
        requires
            old(self).wf(),
            valid_box(min, max),
        ensures
            final(self).wf(),
            final(self)@ == filled(old(self)@, min, max, ty),
            final(self).pruned(),
            (min == Pos { x: 0, y: 0, z: 0 } && max == Pos { x: 15, y: 15, z: 15 }) ==> {
                &&& final(self).bits_spec() == 4
                &&& ty == 0 ==> final(self).palette_spec() == seq![0u32]
                    && final(self).amounts_spec() == seq![4096u32]
                &&& ty != 0 ==> final(self).palette_spec() == seq![0u32, ty]
                    && final(self).amounts_spec() == seq![0u32, 4096u32]
            },
    {
        if min == Pos::new(0, 0, 0) && max == Pos::new(15, 15, 15) {
            if ty == 0 {
                *self = Section::new();
            } else {
                *self = Section::full_of(ty);
            }
            assert(self@ =~= filled(old(self)@, min, max, ty));
            return ;
        }
        let ghost v0 = self@;
        let ghost pal0 = self.palette@;
        let mut i: usize = 0;
        while i < ENTRIES
            invariant
                self.wf(),
                self.palette@ == pal0,
                pal0[0] == 0,
                v0.len() == ENTRIES,
                valid_box(min, max),
                i <= ENTRIES,
                forall|k: int| 0 <= k < i ==> #[trigger] self@[k] == filled(v0, min, max, 0)[k],
                forall|k: int| i <= k < ENTRIES ==> #[trigger] self@[k] == v0[k],
            decreases ENTRIES - i,
        {
            if cell_in_box(i, min, max) {
                let v = self.data.get(i);
                let n = self.palette.len();
                assert(self.data@[i as int] < n);
                let prev = v as usize;
                if prev != 0 {
                    self.move_cell(i, prev, 0);
                }
                assert(self@[i as int] == 0);
            }
            assert(self@[i as int] == filled(v0, min, max, 0)[i as int]);
            i += 1;
        }
        let ghost v1 = self@;
        assert(v1 =~= filled(v0, min, max, 0));
        let mut k: usize = self.palette.len();
        while k > 1
            invariant
                self.wf(),
                self@ == v1,
                k <= self.palette@.len(),
                forall|j: int| k <= j < self.palette@.len() && j >= 1 ==> #[trigger] self.block_amounts@[j] > 0,
            decreases k,
        {
            k -= 1;
            if self.block_amounts[k] == 0 {
                self.remove(k);
            }
        }
        assert(self.pruned());
        let p = match self.palette_index(ty) {
            Some(p) => p,
            None => self.insert(ty),
        };
        assert(self.palette@[p as int] == ty);
        assert(forall|j: int| 1 <= j < self.palette@.len() && j != p ==> #[trigger] self.block_amounts@[j] > 0);
        let ghost first = cell_index(min);
        assert(in_box(first, min, max)) by {
            assert(first % 16 == min.x);
            assert((first / 16) % 16 == min.z);
            assert(first / 256 == min.y);
        }
        let mut i: usize = 0;
        while i < ENTRIES
            invariant
                self.wf(),
                p < self.palette@.len(),
                self.palette@[p as int] == ty,
                v0.len() == ENTRIES,
                v1 == filled(v0, min, max, 0),
                valid_box(min, max),
                i <= ENTRIES,
                forall|k: int| 0 <= k < i ==> #[trigger] self@[k] == filled(v0, min, max, ty)[k],
                forall|k: int| i <= k < ENTRIES ==> #[trigger] self@[k] == v1[k],
                forall|j: int| 1 <= j < self.palette@.len() && j != p ==> #[trigger] self.block_amounts@[j] > 0,
                self.palette@[0] == 0,
                sorted(self.palette@),
            decreases ENTRIES - i,
        {
            if cell_in_box(i, min, max) {
                let v = self.data.get(i);
                let n = self.palette.len();
                assert(self.data@[i as int] < n);
                let prev = v as usize;
                assert(self@[i as int] == 0);
                assert(prev == 0) by {
                    if prev != 0 {
                        assert(self.palette@[0] < self.palette@[prev as int]);
                    }
                }
                if prev != p {
                    self.move_cell(i, prev, p);
                }
                assert(self@[i as int] == ty);
            }
            assert(self@[i as int] == filled(v0, min, max, ty)[i as int]);
            i += 1;
        }
        assert(self@ =~= filled(old(self)@, min, max, ty));
        proof {
            if p != 0 {
                assert(self@[first] == ty);
                assert(self.data@[first] == p) by {
                    let c = self.data@[first];
                    if c != p {
                        if c < p {
                            assert(self.palette@[c as int] < self.palette@[p as int]);
                        } else {
                            assert(self.palette@[p as int] < self.palette@[c as int]);
                        }
                    }
                }
                if count(self.data@, p as u64) == 0 {
                    lemma_count_zero(self.data@, p as u64, first);
                }
                assert(self.block_amounts@[p as int] == count(self.data@, p as u64));
            }
        }
    }

    /// An independent copy of this section.
    pub fn duplicate(&self) -> (r: Section)
        requires
            self.wf(),
        ensures
            r.wf(),
            r@ == self@,
            r.bits_spec() == self.bits_spec(),
            r.palette_spec() == self.palette_spec(),
            r.amounts_spec() == self.amounts_spec(),
            r.words_spec() == self.words_spec(),
    {
        Section {
            data: self.data.duplicate(),
            palette: self.palette.clone(),
            block_amounts: self.block_amounts.clone(),
            reverse_palette: reverse_map(&self.palette),
        }
    }

    /// Builds a section from its palette, its bits per block and its packed
    /// words, checking them all.
    fn from_parts(palette: Vec<u32>, bits: u32, data: Vec<u64>) -> (r: Result<Section, WireError>)
        ensures
            match wire_error(palette@, bits, data@) {
                Some(e) => r == Err::<Section, WireError>(e),
                None => r is Ok,
            },
            r matches Ok(s) ==> {
                &&& s.wf()
                &&& s.palette_spec() == palette@
                &&& s.bits_spec() == bits
                &&& s.words_spec() == data@
                &&& s.cells() == BitArray::decode(data@, bits as u64)
            },
    {
        let ghost p0 = palette@;
        let ghost d0 = data@;
        let pb = ProtoSection { palette, bits_per_block: bits, non_air_blocks: 0, data };
        match validate_proto(&pb) {
            Err(e) => {
                return Err(e);
            },
            Ok(()) => {},
        }
        let ProtoSection { palette: pal, bits_per_block: _, non_air_blocks: _, data: words_vec } = pb;
        let ghost words = data@;
        let arr = match BitArray::from_words(bits as u64, words_vec) {
            Ok(a) => a,
            Err(d) => {
                assert(false);
                return Err(WireError::DataLength(d.len()));
            },
        };
        let n = pal.len();
        let mut amounts: Vec<u32> = vec![0u32; n];
        let mut i: usize = 0;
        while i < ENTRIES
            invariant
                arr.wf(),
                arr@ == BitArray::decode(words, bits as u64),
                words == d0,
                pal@ == p0,
                palette@ == p0,
                data@ == d0,
                shape_error(pal@, bits, words.len()) is None,
                n == pal@.len(),
                amounts@.len() == n,
                i <= ENTRIES,
                forall|k: int| 0 <= k < n ==> #[trigger] amounts@[k] == count(arr@.take(i as int), k as u64),
                forall|j: int| 0 <= j < i ==> #[trigger] arr@[j] < n,
            decreases ENTRIES - i,
        {
            let v = arr.get(i);
            if v >= n as u64 {
                assert(BitArray::decode(d0, bits as u64)[i as int] >= p0.len());
                assert(wire_error(p0, bits, d0) == Some(WireError::IndexOutOfPalette));
                return Err(WireError::IndexOutOfPalette);
            }
            let ghost before = amounts@;
            proof {
                lemma_count_le(arr@.take(i as int), v);
                assert(before[v as int] == count(arr@.take(i as int), v));
            }
            let c = amounts[v as usize] + 1;
            amounts.set(v as usize, c);
            proof {
                assert forall|k: int| 0 <= k < n implies #[trigger] amounts@[k] == count(
                    arr@.take(i + 1),
                    k as u64,
                ) by {
                    assert(arr@.take(i + 1).drop_last() =~= arr@.take(i as int));
                    assert(before[k] == count(arr@.take(i as int), k as u64));
                }
            }
            i += 1;
        }
        assert(arr@.take(ENTRIES as int) =~= arr@);
        let reverse_palette = reverse_map(&pal);
        let r = Section { data: arr, palette: pal, block_amounts: amounts, reverse_palette };
        assert(r.cells() =~= BitArray::decode(words, bits as u64));
        Ok(r)
    }

    /// Reads a section from the wire, keeping its block ids.
    pub fn from_latest_proto(pb: ProtoSection) -> (r: Result<Section, WireError>)
        ensures
            match wire_error(pb.palette@, pb.bits_per_block, pb.data@) {
                Some(e) => r == Err::<Section, WireError>(e),
                None => r is Ok,
            },
            r matches Ok(s) ==> {
                &&& s.wf()
                &&& s.palette_spec() == pb.palette@
                &&& s.bits_spec() == pb.bits_per_block
                &&& s.words_spec() == pb.data@
                &&& s.cells() == BitArray::decode(pb.data@, pb.bits_per_block as u64)
            },
    {
        Section::from_parts(pb.palette, pb.bits_per_block, pb.data)
    }

    /// Reads a section from the wire, passing each block id of its palette
    /// through `f`. The ids that come out must still be ascending and start
    /// with air.
    pub fn from_old_proto<F: Fn(u32) -> u32>(pb: ProtoSection, f: &F) -> (r: Result<
        Section,
        WireError,
    >)
        requires
            forall|v: u32| #[trigger] f.requires((v,)),
        ensures
            exists|p: Seq<u32>|
                {
                    &&& #[trigger] mapped_by(*f, pb.palette@, p)
                    &&& match wire_error(p, pb.bits_per_block, pb.data@) {
                        Some(e) => r == Err::<Section, WireError>(e),
                        None => r is Ok,
                    }
                    &&& r matches Ok(s) ==> {
                        &&& s.wf()
                        &&& s.palette_spec() == p
                        &&& s.bits_spec() == pb.bits_per_block
                        &&& s.words_spec() == pb.data@
                        &&& s.cells() == BitArray::decode(pb.data@, pb.bits_per_block as u64)
                    }
                },
    {
        let palette = map_ids(&pb.palette, f);
        let r = Section::from_parts(palette, pb.bits_per_block, pb.data);
        assert(mapped_by(*f, pb.palette@, palette@));
        r
    }

    /// The wire form of this section, with its own block ids.
    pub fn to_latest_proto(&self) -> (r: ProtoSection)
        requires
            self.wf(),
        ensures
            r.palette@ == self.palette_spec(),
            r.bits_per_block == self.bits_spec(),
            r.non_air_blocks == 4096 - self.amounts_spec()[0],
            r.non_air_blocks == 4096 - count_ids(self@, 0),
            r.data@ == self.words_spec(),
    {
        ProtoSection {
            palette: self.palette.clone(),
            bits_per_block: self.data.width() as u32,
            non_air_blocks: self.non_air_blocks() as i32,
            data: self.data.words().clone(),
        }
    }

    /// The wire form of this section, with each block id of its palette
    /// passed through `f`.
    pub fn to_old_proto<F: Fn(u32) -> u32>(&self, f: &F) -> (r: ProtoSection)
        requires
            self.wf(),
            forall|v: u32| #[trigger] f.requires((v,)),
        ensures
            r.palette@.len() == self.palette_spec().len(),
            forall|i: int|
                0 <= i < r.palette@.len() ==> f.ensures(
                    (self.palette_spec()[i],),
                    #[trigger] r.palette@[i],
                ),
            r.bits_per_block == self.bits_spec(),
            r.non_air_blocks == 4096 - self.amounts_spec()[0],
            r.non_air_blocks == 4096 - count_ids(self@, 0),
            r.data@ == self.words_spec(),
    {
        ProtoSection {
            palette: map_ids(&self.palette, f),
            bits_per_block: self.data.width() as u32,
            non_air_blocks: self.non_air_blocks() as i32,
            data: self.data.words().clone(),
        }
    }
}

/// The sum of the entries of `a`.
pub open spec fn total(a: Seq<u32>) -> int
    decreases a.len(),
{
    if a.len() == 0 {
        0
    } else {
        total(a.drop_last()) + a.last()
    }
}

/// How many of the values in `s` are below `n`, counted value by value.
pub open spec fn count_below(s: Seq<u64>, n: nat) -> nat
    decreases n,
{
    if n == 0 {
        0
    } else {
        count_below(s, (n - 1) as nat) + count(s, (n - 1) as u64)
    }
}

proof fn lemma_count_below_last(s: Seq<u64>, n: nat)
    requires
        s.len() > 0,
        n <= u64::MAX + 1,
    ensures
        count_below(s, n) == count_below(s.drop_last(), n) + if s.last() < n {
            1nat
        } else {
            0nat
        },
    decreases n,
{
    if n > 0 {
        lemma_count_below_last(s, (n - 1) as nat);
    }
}

proof fn lemma_count_below_all(s: Seq<u64>, n: nat)
    requires
        n <= u64::MAX + 1,
        forall|i: int| 0 <= i < s.len() ==> s[i] < n,
    ensures
        count_below(s, n) == s.len(),
    decreases s.len(),
{
    if s.len() > 0 {
        lemma_count_below_last(s, n);
        lemma_count_below_all(s.drop_last(), n);
    } else {
        lemma_count_below_empty(s, n);
    }
}

proof fn lemma_count_below_empty(s: Seq<u64>, n: nat)
    requires
        s.len() == 0,
    ensures
        count_below(s, n) == 0,
    decreases n,
{
    if n > 0 {
        lemma_count_below_empty(s, (n - 1) as nat);
    }
}

proof fn lemma_total_counts(a: Seq<u32>, s: Seq<u64>, n: nat)
    requires
        n <= a.len(),
        forall|k: int| 0 <= k < a.len() ==> #[trigger] a[k] == count(s, k as u64),
    ensures
        total(a.take(n as int)) == count_below(s, n),
    decreases n,
{
    if n > 0 {
        assert(a.take(n as int).drop_last() =~= a.take(n - 1));
        lemma_total_counts(a, s, (n - 1) as nat);
    }
}

/// How many of the block ids in `v` are `g`.
pub open spec fn count_ids(v: Seq<u32>, g: u32) -> nat
    decreases v.len(),
{
    if v.len() == 0 {
        0
    } else {
        count_ids(v.drop_last(), g) + if v.last() == g {
            1nat
        } else {
            0nat
        }
    }
}

proof fn lemma_count_mapped(c: Seq<u64>, pal: Seq<u32>, k: int)
    requires
        sorted(pal),
        0 <= k < pal.len(),
        pal.len() <= u64::MAX,
        forall|i: int| 0 <= i < c.len() ==> c[i] < pal.len(),
    ensures
        count(c, k as u64) == count_ids(Seq::new(c.len(), |i: int| pal[c[i] as int]), pal[k]),
    decreases c.len(),
{
    let v = Seq::new(c.len(), |i: int| pal[c[i] as int]);
    if c.len() > 0 {
        let d = c.drop_last();
        assert(v.drop_last() =~= Seq::new(d.len(), |i: int| pal[d[i] as int]));
        lemma_count_mapped(d, pal, k);
        let l = c.last();
        assert(l < pal.len());
        assert((l as int == k) == (pal[l as int] == pal[k])) by {
            if (l as int) < k {
                assert(pal[l as int] < pal[k]);
            } else if (l as int) > k {
                assert(pal[k] < pal[l as int]);
            }
        }
    }
}

/// What the counts of a section mean: for each palette entry, the number
/// of cells holding it, that is, of cells whose block is its id; each cell
/// holds an entry of the palette.
pub proof fn lemma_counts(s: &Section)
    requires
        s.wf(),
    ensures
        s.cells().len() == ENTRIES,
        s.amounts_spec().len() == s.palette_spec().len(),
        s.palette_spec()[0] == 0,
        sorted(s.palette_spec()),
        forall|i: int|
            0 <= i < ENTRIES ==> #[trigger] s.cells()[i] < s.palette_spec().len() && s@[i]
                == s.palette_spec()[s.cells()[i] as int],
        forall|k: int|
            0 <= k < s.palette_spec().len() ==> #[trigger] s.amounts_spec()[k] == count(
                s.cells(),
                k as u64,
            ),
        forall|k: int|
            0 <= k < s.palette_spec().len() ==> #[trigger] s.amounts_spec()[k] == count_ids(
                s@,
                s.palette_spec()[k],
            ),
        s.amounts_spec()[0] == count_ids(s@, 0),
{
    assert forall|k: int| 0 <= k < s.palette_spec().len() implies #[trigger] s.amounts_spec()[k]
        == count_ids(s@, s.palette_spec()[k]) by {
        lemma_palette_len(s);
        lemma_count_mapped(s.cells(), s.palette_spec(), k);
        assert(s@ =~= Seq::new(s.cells().len(), |i: int| s.palette_spec()[s.cells()[i] as int]));
    }
    assert(s.amounts_spec()[0] == count_ids(s@, s.palette_spec()[0]));
}

/// Whatever `set_block` and `fill` did before, the occupancy counts of a
/// section add up to its 4096 cells.
pub proof fn lemma_occupancy_total(s: &Section)
    requires
        s.wf(),
    ensures
        total(s.amounts_spec()) == 4096,
{
    let n = s.palette_spec().len();
    lemma_total_counts(s.amounts_spec(), s.cells(), n);
    assert(s.amounts_spec().take(n as int) =~= s.amounts_spec());
    lemma_count_below_all(s.cells(), n);
}

/// The palette of a section is strictly ascending, so without duplicates,
/// and the reverse palette maps each of its entries back to its index and
/// holds nothing else.
pub proof fn lemma_palette_sorted(s: &Section)
    requires
        s.wf(),
    ensures
        sorted(s.palette_spec()),
        reverse_of(s.reverse_spec(), s.palette_spec()),
{
}

/// Air (`0`) is always the first palette entry, and the reverse palette
/// finds it there.
pub proof fn lemma_air_present(s: &Section)
    requires
        s.wf(),
    ensures
        s.palette_spec().len() >= 1,
        s.palette_spec()[0] == 0,
        s.reverse_spec().contains_key(0),
        s.reverse_spec()[0] == 0,
{
    assert(s.reverse_spec().contains_key(s.palette_spec()[0]));
}

/// A palette holds distinct `u32` ids, so at most `2^32` of them.
proof fn lemma_palette_len(s: &Section)
    requires
        s.wf(),
    ensures
        s.palette_spec().len() <= 0x1_0000_0000,
{
    let n = s.palette_spec().len();
    lemma_sorted_index_le(s.palette_spec(), n - 1);
}

/// The bits per block can always index the whole palette.
pub proof fn lemma_width_sufficient(s: &Section)
    requires
        s.wf(),
    ensures
        s.palette_spec().len() <= pow2(s.bits_spec() as nat),
{
    lemma_mask_pow2(s.bits_spec());
}

/// `v` with the layers `0..n` filled with `ty`, one layer after another.
pub open spec fn fill_layers(v: Seq<u32>, n: nat, ty: u32) -> Seq<u32>
    decreases n,
{
    if n == 0 {
        v
    } else {
        let y = (n - 1) as i32;
        filled(fill_layers(v, (n - 1) as nat, ty), Pos { x: 0, y, z: 0 }, Pos { x: 15, y, z: 15 }, ty)
    }
}

proof fn lemma_fill_layers(v: Seq<u32>, n: nat, ty: u32)
    requires
        v.len() == ENTRIES,
        n <= 16,
    ensures
        fill_layers(v, n, ty).len() == ENTRIES,
        forall|i: int|
            0 <= i < ENTRIES ==> #[trigger] fill_layers(v, n, ty)[i] == if i / 256 < n {
                ty
            } else {
                v[i]
            },
    decreases n,
{
    if n > 0 {
        lemma_fill_layers(v, (n - 1) as nat, ty);
    }
}

/// Filling the sixteen layers of a section one by one, through the
/// cell-by-cell path of `fill`, gives the same cells as filling the whole
/// section at once, through its shortcut.
pub proof fn lemma_fill_by_layers(a: Seq<u32>, b: Seq<u32>, ty: u32)
    requires
        a.len() == ENTRIES,
        b.len() == ENTRIES,
    ensures
        fill_layers(a, 16, ty) == filled(
            b,
            Pos { x: 0, y: 0, z: 0 },
            Pos { x: 15, y: 15, z: 15 },
            ty,
        ),
{
    lemma_fill_layers(a, 16, ty);
    lemma_fill_whole(b, b, ty);
    assert(fill_layers(a, 16, ty) =~= Seq::new(ENTRIES as nat, |i: int| ty));
}

/// `v` with cell `cells[k]` set to `ids[k]`, for each `k` in order.
pub open spec fn set_all(v: Seq<u32>, cells: Seq<int>, ids: Seq<u32>) -> Seq<u32>
    decreases cells.len(),
{
    if cells.len() == 0 || ids.len() == 0 {
        v
    } else {
        set_all(v, cells.drop_last(), ids.drop_last()).update(cells.last(), ids.last())
    }
}

/// After setting distinct cells one after another, each holds the block
/// set there and every other cell keeps its block, however the palette and
/// the width changed on the way.
pub proof fn lemma_set_all(v: Seq<u32>, cells: Seq<int>, ids: Seq<u32>)
    requires
        v.len() == ENTRIES,
        cells.len() == ids.len(),
        forall|k: int| 0 <= k < cells.len() ==> 0 <= #[trigger] cells[k] < ENTRIES,
        forall|j: int, k: int| 0 <= j < k < cells.len() ==> cells[j] != cells[k],
    ensures
        set_all(v, cells, ids).len() == ENTRIES,
        forall|k: int| 0 <= k < cells.len() ==> set_all(v, cells, ids)[#[trigger] cells[k]] == ids[k],
        forall|i: int|
            0 <= i < ENTRIES && !cells.contains(i) ==> #[trigger] set_all(v, cells, ids)[i] == v[i],
    decreases cells.len(),
{
    if cells.len() > 0 {
        let c = cells.drop_last();
        let d = ids.drop_last();
        lemma_set_all(v, c, d);
        assert forall|k: int| 0 <= k < cells.len() implies set_all(v, cells, ids)[#[trigger] cells[k]]
            == ids[k] by {
            if k < cells.len() - 1 {
                assert(c[k] == cells[k]);
            }
        }
        assert forall|i: int| 0 <= i < ENTRIES && !cells.contains(i) implies #[trigger] set_all(
            v,
            cells,
            ids,
        )[i] == v[i] by {
            if c.contains(i) {
                let k = choose|k: int| 0 <= k < c.len() && c[k] == i;
                assert(cells[k] == i);
            }
            assert(cells[cells.len() - 1] != i);
        }
    }
}

/// Setting a cell and reading it back gives the block that was set.
pub proof fn lemma_round_trip(s: &Section, p: Pos, v: u32)
    requires
        s.wf(),
        in_section(p),
    ensures
        s@.update(cell_index(p), v)[cell_index(p)] == v,
{
}

/// Filling the whole section gives the same block in every cell, whatever
/// the section held before; so the whole-section shortcut of `fill` and the
/// cell-by-cell path agree.
pub proof fn lemma_fill_whole(a: Seq<u32>, b: Seq<u32>, ty: u32)
    requires
        a.len() == ENTRIES,
        b.len() == ENTRIES,
    ensures
        filled(a, Pos { x: 0, y: 0, z: 0 }, Pos { x: 15, y: 15, z: 15 }, ty) == Seq::new(
            ENTRIES as nat,
            |i: int| ty,
        ),
        filled(a, Pos { x: 0, y: 0, z: 0 }, Pos { x: 15, y: 15, z: 15 }, ty) == filled(
            b,
            Pos { x: 0, y: 0, z: 0 },
            Pos { x: 15, y: 15, z: 15 },
            ty,
        ),
{
    assert(filled(a, Pos { x: 0, y: 0, z: 0 }, Pos { x: 15, y: 15, z: 15 }, ty) =~= Seq::new(
        ENTRIES as nat,
        |i: int| ty,
    ));
    assert(filled(b, Pos { x: 0, y: 0, z: 0 }, Pos { x: 15, y: 15, z: 15 }, ty) =~= Seq::new(
        ENTRIES as nat,
        |i: int| ty,
    ));
}

} // verus!

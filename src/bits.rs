//! A dense array of 4096 fixed-width unsigned values packed into 64-bit
//! words. A value may straddle two words: its low bits then sit at the top of
//! the first word and its high bits at the bottom of the next one.
use vstd::prelude::*;

verus! {

/// Number of values held by every bit array.
pub const ENTRIES: usize = 4096;

/// The mask of the low `n` bits of a word.
pub open spec fn low_mask(n: u64) -> u64 {
    if n >= 64 {
        0xffff_ffff_ffff_ffffu64
    } else {
        ((1u64 << n) - 1) as u64
    }
}

/// Whether `x` and `y` hold the same bits in positions `lo..hi`.
pub open spec fn same_bits(x: u64, y: u64, lo: u64, hi: u64) -> bool {
    lo >= hi || ((x ^ y) >> lo) & low_mask((hi - lo) as u64) == 0
}

/// Reads `w` bits of one word, starting at bit `s`.
pub open spec fn read_one(x: u64, s: u64, w: u64) -> u64 {
    (x >> s) & low_mask(w)
}

/// Reads `w` bits starting at bit `s` of `x` and going on into `y`.
pub open spec fn read_two(x: u64, y: u64, s: u64, w: u64) -> u64 {
    ((x >> s) | (y << ((64 - s) as u64))) & low_mask(w)
}

/// Writes `v` into the `w` bits of `x` that start at bit `s`; where the
/// field runs past the top of `x`, the bits that fit.
pub open spec fn write_low(x: u64, v: u64, s: u64, w: u64) -> u64 {
    (x & !(low_mask(w) << s)) | (v << s)
}

/// Writes the high bits of `v` that did not fit above bit `s` of the
/// previous word into the bottom of `y`.
pub open spec fn write_high(y: u64, v: u64, s: u64, w: u64) -> u64 {
    (y & !(low_mask(w) >> ((64 - s) as u64))) | (v >> ((64 - s) as u64))
}

proof fn lemma_same_bits_refl(x: u64, lo: u64, hi: u64)
    ensures
        same_bits(x, x, lo, hi),
{
    assert(same_bits(x, x, lo, hi)) by (bit_vector);
}

proof fn lemma_read_one_frame(x: u64, y: u64, s: u64, w: u64)
    requires
        1 <= w,
        s + w <= 64,
        same_bits(x, y, s, (s + w) as u64),
    ensures
        read_one(x, s, w) == read_one(y, s, w),
{
    assert(read_one(x, s, w) == read_one(y, s, w)) by (bit_vector)
        requires
            1 <= w,
            s + w <= 64,
            same_bits(x, y, s, (s + w) as u64),
    ;
}

proof fn lemma_read_two_frame(x1: u64, x2: u64, y1: u64, y2: u64, s: u64, w: u64)
    requires
        0 < s < 64,
        w <= 64,
        s + w > 64,
        same_bits(x1, y1, s, 64),
        same_bits(x2, y2, 0, (s + w - 64) as u64),
    ensures
        read_two(x1, x2, s, w) == read_two(y1, y2, s, w),
{
    assert(read_two(x1, x2, s, w) == read_two(y1, y2, s, w)) by (bit_vector)
        requires
            0 < s < 64,
            w <= 64,
            s + w > 64,
            same_bits(x1, y1, s, 64),
            same_bits(x2, y2, 0, (s + w - 64) as u64),
    ;
}

proof fn lemma_write_one(x: u64, v: u64, s: u64, w: u64)
    requires
        1 <= w,
        s + w <= 64,
        v <= low_mask(w),
    ensures
        read_one(write_low(x, v, s, w), s, w) == v,
{
    assert(read_one(write_low(x, v, s, w), s, w) == v) by (bit_vector)
        requires
            1 <= w,
            s + w <= 64,
            v <= low_mask(w),
    ;
}

proof fn lemma_write_two(x: u64, y: u64, v: u64, s: u64, w: u64)
    requires
        0 < s < 64,
        w <= 64,
        s + w > 64,
        v <= low_mask(w),
    ensures
        read_two(write_low(x, v, s, w), write_high(y, v, s, w), s, w) == v,
{
    assert(read_two(write_low(x, v, s, w), write_high(y, v, s, w), s, w) == v) by (bit_vector)
        requires
            0 < s < 64,
            w <= 64,
            s + w > 64,
            v <= low_mask(w),
    ;
}

/// Writing a field at `s..s + w` keeps every range `c..d` outside it.
proof fn lemma_write_low_frame(x: u64, v: u64, s: u64, w: u64, c: u64, d: u64)
    requires
        1 <= w <= 64,
        s < 64,
        v <= low_mask(w),
        c <= d <= 64,
        d <= s || s + w <= c,
    ensures
        same_bits(x, write_low(x, v, s, w), c, d),
{
    assert(same_bits(x, write_low(x, v, s, w), c, d)) by (bit_vector)
        requires
            1 <= w <= 64,
            s < 64,
            v <= low_mask(w),
            c <= d <= 64,
            d <= s || s + w <= c,
    ;
}

/// Writing the high part of a split field keeps every range `c..d` above it.
proof fn lemma_write_high_frame(y: u64, v: u64, s: u64, w: u64, c: u64, d: u64)
    requires
        0 < s < 64,
        w <= 64,
        s + w > 64,
        v <= low_mask(w),
        s + w - 64 <= c <= d <= 64,
    ensures
        same_bits(y, write_high(y, v, s, w), c, d),
{
    assert(same_bits(y, write_high(y, v, s, w), c, d)) by (bit_vector)
        requires
            0 < s < 64,
            w <= 64,
            s + w > 64,
            v <= low_mask(w),
            s + w - 64 <= c <= d <= 64,
    ;
}

/// The value at index `i` of the words `data` packed at width `w`.
pub open spec fn entry_at(data: Seq<u64>, w: u64, i: int) -> u64 {
    let b = i * w;
    let f = b / 64;
    let s = (b % 64) as u64;
    if s + w <= 64 {
        read_one(data[f], s, w)
    } else {
        read_two(data[f], data[f + 1], s, w)
    }
}

/// The words `data` after `v` was written at index `i`, width `w`.
pub open spec fn written(data: Seq<u64>, w: u64, i: int, v: u64) -> Seq<u64> {
    let b = i * w;
    let f = b / 64;
    let s = (b % 64) as u64;
    if s + w <= 64 {
        data.update(f, write_low(data[f], v, s, w))
    } else {
        data.update(f, write_low(data[f], v, s, w)).update(f + 1, write_high(data[f + 1], v, s, w))
    }
}

proof fn lemma_slot_bounds(w: u64, i: int, j: int)
    requires
        1 <= w <= 64,
        0 <= i < ENTRIES,
        0 <= j < ENTRIES,
    ensures
        0 <= i * w,
        i * w + w <= 64 * (64 * w),
        i < j ==> i * w + w <= j * w,
{
    assert(0 <= i * w) by (nonlinear_arith)
        requires
            0 <= i,
            1 <= w,
    ;
    assert(i * w + w <= 64 * (64 * w)) by (nonlinear_arith)
        requires
            i < 4096,
            1 <= w,
    ;
    assert(i < j ==> i * w + w <= j * w) by (nonlinear_arith)
        requires
            1 <= w,
    ;
}

/// Every value read at width `w` fits in `w` bits.
proof fn lemma_entry_fits(data: Seq<u64>, w: u64, i: int)
    requires
        1 <= w <= 64,
    ensures
        entry_at(data, w, i) <= low_mask(w),
{
    let b = i * w;
    let f = b / 64;
    let s = (b % 64) as u64;
    let x = data[f];
    let y = data[f + 1];
    assert(read_one(x, s, w) <= low_mask(w)) by (bit_vector);
    assert(read_two(x, y, s, w) <= low_mask(w)) by (bit_vector);
}

/// Writing index `i` keeps the value at every other index `j`.
proof fn lemma_write_frame(d0: Seq<u64>, w: u64, i: int, j: int, v: u64)
    requires
        1 <= w <= 64,
        d0.len() == 64 * w,
        0 <= i < ENTRIES,
        0 <= j < ENTRIES,
        i != j,
        v <= low_mask(w),
    ensures
        entry_at(written(d0, w, i, v), w, j) == entry_at(d0, w, j),
{
    let d1 = written(d0, w, i, v);
    lemma_slot_bounds(w, i, j);
    lemma_slot_bounds(w, j, i);
    let bi = i * w;
    let fi = bi / 64;
    let si = (bi % 64) as u64;
    let bj = j * w;
    let fj = bj / 64;
    let sj = (bj % 64) as u64;
    assert(bi == 64 * fi + si);
    assert(bj == 64 * fj + sj);
    if sj + w <= 64 {
        let c = sj;
        let e = (sj + w) as u64;
        if fj == fi {
            lemma_write_low_frame(d0[fi], v, si, w, c, e);
        } else if si + w > 64 && fj == fi + 1 {
            lemma_write_high_frame(d0[fj], v, si, w, c, e);
        } else {
            lemma_same_bits_refl(d0[fj], c, e);
        }
        lemma_read_one_frame(d0[fj], d1[fj], sj, w);
    } else {
        let e = (sj + w - 64) as u64;
        if fj == fi {
            lemma_write_low_frame(d0[fi], v, si, w, sj, 64);
        } else if si + w > 64 && fj == fi + 1 {
            lemma_write_high_frame(d0[fj], v, si, w, sj, 64);
        } else {
            lemma_same_bits_refl(d0[fj], sj, 64);
        }
        if fj + 1 == fi {
            lemma_write_low_frame(d0[fi], v, si, w, 0, e);
        } else {
            lemma_same_bits_refl(d0[fj + 1], 0, e);
        }
        lemma_read_two_frame(d0[fj], d0[fj + 1], d1[fj], d1[fj + 1], sj, w);
    }
}

/// Writing index `i` stores `v` there.
proof fn lemma_write_here(d0: Seq<u64>, w: u64, i: int, v: u64)
    requires
        1 <= w <= 64,
        d0.len() == 64 * w,
        0 <= i < ENTRIES,
        v <= low_mask(w),
    ensures
        entry_at(written(d0, w, i, v), w, i) == v,
{
    lemma_slot_bounds(w, i, i);
    let bi = i * w;
    let fi = bi / 64;
    let si = (bi % 64) as u64;
    if si + w <= 64 {
        lemma_write_one(d0[fi], v, si, w);
    } else {
        lemma_write_two(d0[fi], d0[fi + 1], v, si, w);
    }
}

/// One more bit doubles the mask and adds one.
pub proof fn lemma_low_mask_grow(w: u64)
    requires
        1 <= w < 64,
    ensures
        low_mask((w + 1) as u64) == 2 * low_mask(w) + 1,
        low_mask(w) >= 1,
{
    assert(low_mask((w + 1) as u64) == 2 * low_mask(w) + 1 && low_mask(w) >= 1) by (bit_vector)
        requires
            1 <= w < 64,
    ;
}

/// 4096 values of `width` bits each, packed into `64 * width` words.
#[derive(Debug)]
pub struct BitArray {
    width: u64,
    data: Vec<u64>,
}

impl View for BitArray {
    type V = Seq<u64>;

    closed spec fn view(&self) -> Seq<u64> {
        Seq::new(ENTRIES as nat, |i: int| entry_at(self.data@, self.width, i))
    }
}

impl BitArray {
    /// The number of bits that each value takes.
    pub closed spec fn width_spec(&self) -> u64 {
        self.width
    }

    /// The backing words, in their wire order.
    pub closed spec fn words_spec(&self) -> Seq<u64> {
        self.data@
    }

    pub open spec fn wf(&self) -> bool {
        1 <= self.width_spec() <= 64 && self.words_spec().len() == 64 * self.width_spec()
    }

    /// What a bit array built from `data` at width `w` holds.
    pub open spec fn decode(data: Seq<u64>, w: u64) -> Seq<u64> {
        Seq::new(ENTRIES as nat, |i: int| entry_at(data, w, i))
    }

    /// A bit array always holds 4096 values.
    pub broadcast proof fn lemma_len(a: &BitArray)
        ensures
            #[trigger] a@.len() == ENTRIES,
    {
    }

    /// Every value fits in the width.
    pub proof fn lemma_fits(&self, i: int)
        requires
            self.wf(),
            0 <= i < ENTRIES,
        ensures
            self@[i] <= low_mask(self.width_spec()),
    {
        lemma_entry_fits(self.data@, self.width, i);
    }

    /// An array of zeros at the given width.
    pub fn new(width: u64) -> (r: BitArray)
        requires
            1 <= width <= 64,
        ensures
            r.wf(),
            r.width_spec() == width,
            r@ == Seq::new(ENTRIES as nat, |i: int| 0u64),
    {
        let n = 64 * width as usize;
        let data: Vec<u64> = vec![0u64; n];
        let r = BitArray { width, data };
        assert forall|i: int| 0 <= i < ENTRIES implies #[trigger] r@[i] == 0u64 by {
            let b = i * width;
            let s = (b % 64) as u64;
            assert(read_one(0u64, s, width) == 0u64) by (bit_vector);
            assert(read_two(0u64, 0u64, s, width) == 0u64) by (bit_vector);
            lemma_slot_bounds(width, i, i);
        }
        assert(r@ =~= Seq::new(ENTRIES as nat, |i: int| 0u64));
        r
    }

    /// Takes over words in the packed layout. Fails, giving the words back,
    /// when their number is not `64 * width`.
    pub fn from_words(width: u64, data: Vec<u64>) -> (r: Result<BitArray, Vec<u64>>)
        requires
            1 <= width <= 64,
        ensures
            data@.len() == 64 * width <==> r is Ok,
            r matches Ok(a) ==> a.wf() && a.width_spec() == width && a.words_spec() == data@
                && a@ == Self::decode(data@, width),
            r matches Err(d) ==> d == data,
    {
        if data.len() == 64 * width as usize {
            Ok(BitArray { width, data })
        } else {
            Err(data)
        }
    }

    /// An independent copy.
    pub fn duplicate(&self) -> (r: BitArray)
        ensures
            r.width_spec() == self.width_spec(),
            r.words_spec() == self.words_spec(),
            r@ == self@,
    {
        BitArray { width: self.width, data: self.data.clone() }
    }

    pub fn width(&self) -> (r: u64)
        ensures
            r == self.width_spec(),
    {
        self.width
    }

    /// The backing words, in their wire order.
    pub fn words(&self) -> (r: &Vec<u64>)
        ensures
            r@ == self.words_spec(),
    {
        &self.data
    }

    /// The largest value that `w` bits hold.
    pub fn max_value(w: u64) -> (r: u64)
        requires
            1 <= w <= 64,
        ensures
            r == low_mask(w),
    {
        if w == 64 {
            0xffff_ffff_ffff_ffffu64
        } else {
            assert(1u64 << w >= 1) by (bit_vector)
                requires
                    w < 64,
            ;
            (1u64 << w) - 1
        }
    }

    /// The value at index `i`.
    pub fn get(&self, i: usize) -> (r: u64)
        requires
            self.wf(),
            i < ENTRIES,
        ensures
            r == self@[i as int],
    {
        proof {
            lemma_slot_bounds(self.width, i as int, i as int);
        }
        let w = self.width;
        let b = i as u64 * w;
        let f = (b / 64) as usize;
        let s = b % 64;
        let mask = Self::max_value(w);
        if s + w <= 64 {
            (self.data[f] >> s) & mask
        } else {
            let second = 64 - s;
            ((self.data[f] >> s) | (self.data[f + 1] << second)) & mask
        }
    }

    /// Stores `v` at index `i`, keeping every other value.
    pub fn set(&mut self, i: usize, v: u64)
        requires
            old(self).wf(),
            i < ENTRIES,
            v <= low_mask(old(self).width_spec()),
        ensures
            final(self).wf(),
            final(self).width_spec() == old(self).width_spec(),
            final(self)@ == old(self)@.update(i as int, v),
    {
        proof {
            lemma_slot_bounds(self.width, i as int, i as int);
        }
        let ghost d0 = self.data@;
        let w = self.width;
        let b = i as u64 * w;
        let f = (b / 64) as usize;
        let s = b % 64;
        let mask = Self::max_value(w);
        if s + w <= 64 {
            let x = self.data[f];
            self.data.set(f, (x & !(mask << s)) | (v << s));
        } else {
            let second = 64 - s;
            let x = self.data[f];
            self.data.set(f, (x & !(mask << s)) | (v << s));
            let y = self.data[f + 1];
            self.data.set(f + 1, (y & !(mask >> second)) | (v >> second));
        }
        proof {
            assert(self.data@ == written(d0, w, i as int, v));
            assert forall|j: int| 0 <= j < ENTRIES implies #[trigger] self@[j] == old(self)@.update(
                i as int,
                v,
            )[j] by {
                if j == i {
                    lemma_write_here(d0, w, i as int, v);
                } else {
                    lemma_write_frame(d0, w, i as int, j, v);
                }
            }
            assert(self@ =~= old(self)@.update(i as int, v));
        }
    }

    /// Re-encodes every value at `width`, keeping all of them.
    pub fn resize(&mut self, width: u64)
        requires
            old(self).wf(),
            1 <= width <= 64,
            forall|i: int| 0 <= i < ENTRIES ==> #[trigger] old(self)@[i] <= low_mask(width),
        ensures
            final(self).wf(),
            final(self).width_spec() == width,
            final(self)@ == old(self)@,
    {
        let mut out = BitArray::new(width);
        let mut i: usize = 0;
        while i < ENTRIES
            invariant
                self.wf(),
                out.wf(),
                out.width_spec() == width,
                i <= ENTRIES,
                forall|i: int| 0 <= i < ENTRIES ==> #[trigger] self@[i] <= low_mask(width),
                forall|k: int| 0 <= k < i ==> #[trigger] out@[k] == self@[k],
            decreases ENTRIES - i,
        {
            let v = self.get(i);
            out.set(i, v);
            i += 1;
        }
        assert(out@ =~= self@);
        *self = out;
    }
}

} // verus!

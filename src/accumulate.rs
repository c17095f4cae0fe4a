use vstd::prelude::*;

verus! {

/// The map after writing each `(column, intensity)` pair at `base + column`,
/// in order.
pub open spec fn apply_diffs(map: Seq<u8>, base: int, diffs: Seq<(usize, u8)>) -> Seq<u8>
    decreases diffs.len(),
{
    if diffs.len() == 0 {
        map
    } else {
        let prev = apply_diffs(map, base, diffs.drop_last());
        let last = diffs.last();
        let p = base + last.0 as int;
        if 0 <= p < prev.len() {
            prev.update(p, last.1)
        } else {
            prev
        }
    }
}

/// Whether some pair of `diffs` writes position `p` of a row starting at `base`.
pub open spec fn touches(base: int, diffs: Seq<(usize, u8)>, p: int) -> bool {
    exists|k: int| 0 <= k < diffs.len() && base + diffs[k].0 as int == p
}

/// A fresh map: `len` positions, all white.
pub open spec fn blank_map(len: nat) -> Seq<u8> {
    Seq::new(len, |i: int| 0xFFu8)
}

/// A position that no pair of a row writes keeps its value.
pub proof fn lemma_untouched_keeps_value(map: Seq<u8>, base: int, diffs: Seq<(usize, u8)>, p: int)
    requires
        !touches(base, diffs, p),
    ensures
        apply_diffs(map, base, diffs).len() == map.len(),
        0 <= p < map.len() ==> apply_diffs(map, base, diffs)[p] == map[p],
    decreases diffs.len(),
{
    if diffs.len() > 0 {
        let init = diffs.drop_last();
        assert forall|k: int| 0 <= k < init.len() implies base + init[k].0 as int != p by {
            assert(init[k] == diffs[k]);
        }
        lemma_untouched_keeps_value(map, base, init, p);
        assert(base + diffs[diffs.len() - 1].0 as int != p);
    }
}

/// Owner of the difference map (one byte per pixel, white where unchanged)
/// and of the running count of differing pixels.
pub struct DiffAccumulator {
    width: usize,
    height: usize,
    map: Vec<u8>,
    count: usize,
}

impl DiffAccumulator {
    pub closed spec fn spec_width(&self) -> nat {
        self.width as nat
    }

    pub closed spec fn spec_height(&self) -> nat {
        self.height as nat
    }

    /// The difference map, row after row.
    pub closed spec fn spec_map(&self) -> Seq<u8> {
        self.map@
    }

    pub closed spec fn spec_count(&self) -> nat {
        self.count as nat
    }

    /// The map holds exactly one byte per pixel.
    pub open spec fn well_formed(&self) -> bool {
        &&& self.spec_map().len() == self.spec_width() * self.spec_height()
        &&& self.spec_width() * self.spec_height() <= usize::MAX
    }

    /// Allocates a `width` by `height` map filled with 0xFF and a zero count.
    pub fn new(width: usize, height: usize) -> (r: DiffAccumulator)
        requires
            width * height <= usize::MAX,
        ensures
            r.well_formed(),
            r.spec_width() == width,
            r.spec_height() == height,
            r.spec_map() == blank_map(width as nat * height as nat),
            r.spec_count() == 0,
    {
        let len = width * height;
        let mut map: Vec<u8> = Vec::with_capacity(len);
        let mut i: usize = 0;
        while i < len
            invariant
                i <= len,
                map@ == blank_map(i as nat),
            decreases len - i,
        {
            map.push(0xFF);
            i = i + 1;
            assert(map@ =~= blank_map(i as nat));
        }
        DiffAccumulator { width, height, map, count: 0 }
    }

    /// Writes each `(column, intensity)` pair of row `row` into the map and
    /// counts one difference per pair.
    pub fn apply_row(&mut self, row: usize, diffs: &Vec<(usize, u8)>)
        requires
            old(self).well_formed(),
            row < old(self).spec_height(),
            forall|k: int| 0 <= k < diffs@.len() ==> (#[trigger] diffs@[k]).0 < old(self).spec_width(),
            old(self).spec_count() + diffs@.len() <= usize::MAX,
        ensures
            final(self).well_formed(),
            final(self).spec_width() == old(self).spec_width(),
            final(self).spec_height() == old(self).spec_height(),
            final(self).spec_map() == apply_diffs(
                old(self).spec_map(),
                row * old(self).spec_width(),
                diffs@,
            ),
            final(self).spec_count() == old(self).spec_count() + diffs@.len(),
    {
        let width = self.width;
        assert(row * width + width <= width * self.height) by (nonlinear_arith)
            requires row < self.height, width == self.width;
        assert(row * width <= row * width + width) by (nonlinear_arith)
            requires width >= 0;
        let base = row * width;
        let mut i: usize = 0;
        while i < diffs.len()
            invariant
                self.width == width,
                self.height == old(self).height,
                base == row * width,
                base + width <= width * self.height,
                self.map@.len() == old(self).map@.len(),
                old(self).map@.len() == width * self.height,
                width * self.height <= usize::MAX,
                forall|k: int| 0 <= k < diffs@.len() ==> (#[trigger] diffs@[k]).0 < width,
                i <= diffs@.len(),
                self.map@ == apply_diffs(old(self).map@, base as int, diffs@.subrange(0, i as int)),
                self.count == old(self).count + i,
                old(self).count + diffs@.len() <= usize::MAX,
            decreases diffs@.len() - i,
        {
            let (col, v) = diffs[i];
            let ghost prefix = diffs@.subrange(0, i as int);
            proof {
                lemma_apply_len(old(self).map@, base as int, prefix);
                assert(diffs@.subrange(0, i + 1).drop_last() =~= prefix);
            }
            self.map.set(base + col, v);
            self.count = self.count + 1;
            i = i + 1;
        }
        assert(diffs@.subrange(0, diffs@.len() as int) =~= diffs@);
    }

    pub fn width(&self) -> (r: usize)
        ensures
            r == self.spec_width(),
    {
        self.width
    }

    pub fn height(&self) -> (r: usize)
        ensures
            r == self.spec_height(),
    {
        self.height
    }

    /// Number of differing pixels applied so far.
    pub fn diff_count(&self) -> (r: usize)
        ensures
            r == self.spec_count(),
    {
        self.count
    }

    /// The difference map, row after row.
    pub fn diff_map(&self) -> (r: &Vec<u8>)
        ensures
            r@ == self.spec_map(),
    {
        &self.map
    }

    /// Hands the difference map over, ending the accumulation.
    pub fn into_map(self) -> (r: Vec<u8>)
        ensures
            r@ == self.spec_map(),
    {
        self.map
    }
}

/// Writing pairs never changes the map's length.
pub proof fn lemma_apply_len(map: Seq<u8>, base: int, diffs: Seq<(usize, u8)>)
    ensures
        apply_diffs(map, base, diffs).len() == map.len(),
    decreases diffs.len(),
{
    if diffs.len() > 0 {
        lemma_apply_len(map, base, diffs.drop_last());
    }
}

} // verus!

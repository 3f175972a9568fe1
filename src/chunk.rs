//! A chunk's columns before encoding: surface heights, slope profiles and
//! overlays on a 16x16 grid, indexed by `z * 16 + x`.
use crate::overlay::{apply_overlay_slot, arbitrate, ColumnOverlay, OverlayView};
use crate::slope::{evaluate_spec, SlopeProfile, SmoothingSettings};
use vstd::prelude::*;

verus! {

/// Number of columns in a chunk.
pub const COLUMNS_PER_CHUNK: usize = 256;

pub open spec fn column_index(x: int, z: int) -> int {
    z * 16 + x
}

pub open spec fn opt_overlay_view(o: Option<ColumnOverlay>) -> Option<OverlayView> {
    match o {
        Some(c) => Some(c@),
        None => None,
    }
}

/// Largest of the known heights, if any.
pub open spec fn max_height_spec(hs: Seq<Option<i32>>) -> Option<i32>
    decreases hs.len(),
{
    if hs.len() == 0 {
        None
    } else {
        let rest = max_height_spec(hs.drop_last());
        match hs.last() {
            None => rest,
            Some(h) => match rest {
                None => Some(h),
                Some(m) => Some(if h > m { h } else { m }),
            },
        }
    }
}

/// The columns of one chunk.
#[derive(Debug)]
pub struct ChunkHeights {
    pub heights: Vec<Option<i32>>,
    pub slopes: Vec<SlopeProfile>,
    pub overlays: Vec<Option<ColumnOverlay>>,
}

impl ChunkHeights {
    /// Every grid has one entry per column.
    pub open spec fn wf(&self) -> bool {
        &&& self.heights@.len() == COLUMNS_PER_CHUNK
        &&& self.slopes@.len() == COLUMNS_PER_CHUNK
        &&& self.overlays@.len() == COLUMNS_PER_CHUNK
    }

    /// A chunk with no known column, no overlay, and flat profiles of
    /// `max_smoothing_radius` radii.
    pub fn new(max_smoothing_radius: usize) -> (r: Self)
        ensures
            r.wf(),
            forall|i: int| 0 <= i < 256 ==> (#[trigger] r.heights@[i]).is_none(),
            forall|i: int| 0 <= i < 256 ==> (#[trigger] r.overlays@[i]).is_none(),
            forall|i: int| 0 <= i < 256 ==> (#[trigger] r.slopes@[i]).stats@.len() == max_smoothing_radius,
    {
        let mut heights: Vec<Option<i32>> = Vec::new();
        let mut slopes: Vec<SlopeProfile> = Vec::new();
        let mut overlays: Vec<Option<ColumnOverlay>> = Vec::new();
        let mut i: usize = 0;
        while i < COLUMNS_PER_CHUNK
            invariant
                i <= COLUMNS_PER_CHUNK,
                heights@.len() == i,
                slopes@.len() == i,
                overlays@.len() == i,
                forall|k: int| 0 <= k < i ==> (#[trigger] heights@[k]).is_none(),
                forall|k: int| 0 <= k < i ==> (#[trigger] overlays@[k]).is_none(),
                forall|k: int| 0 <= k < i ==> (#[trigger] slopes@[k]).stats@.len() == max_smoothing_radius,
            decreases COLUMNS_PER_CHUNK - i,
        {
            heights.push(None);
            slopes.push(SlopeProfile::empty(max_smoothing_radius));
            overlays.push(None);
            i = i + 1;
        }
        ChunkHeights { heights, slopes, overlays }
    }

    /// Records the surface height and slope profile of column `(x, z)`.
    pub fn set(&mut self, x: usize, z: usize, height: i32, slope_profile: SlopeProfile)
        requires
            old(self).wf(),
            x < 16,
            z < 16,
        ensures
            final(self).wf(),
            final(self).heights@ == old(self).heights@.update(column_index(x as int, z as int), Some(height)),
            final(self).slopes@ == old(self).slopes@.update(column_index(x as int, z as int), slope_profile),
            final(self).overlays@ == old(self).overlays@,
    {
        let idx = z * 16 + x;
        self.heights.set(idx, Some(height));
        self.slopes.set(idx, slope_profile);
    }

    /// Surface height of column `(x, z)`, if known.
    pub fn column(&self, x: usize, z: usize) -> (r: Option<i32>)
        requires
            self.wf(),
            x < 16,
            z < 16,
        ensures
            r == self.heights@[column_index(x as int, z as int)],
    {
        self.heights[z * 16 + x]
    }

    /// Slope of column `(x, z)` under the given smoothing, in millidegrees.
    pub fn slope(&self, x: usize, z: usize, settings: &SmoothingSettings) -> (r: u32)
        requires
            self.wf(),
            x < 16,
            z < 16,
        ensures
            r as int == evaluate_spec(self.slopes@[column_index(x as int, z as int)].stats@, *settings),
    {
        self.slopes[z * 16 + x].evaluate(settings)
    }

    /// Highest known surface of the chunk.
    pub fn max_height(&self) -> (r: Option<i32>)
        requires
            self.wf(),
        ensures
            r == max_height_spec(self.heights@),
    {
        let mut best: Option<i32> = None;
        let mut i: usize = 0;
        while i < self.heights.len()
            invariant
                i <= self.heights@.len(),
                best == max_height_spec(self.heights@.subrange(0, i as int)),
            decreases self.heights@.len() - i,
        {
            assert(self.heights@.subrange(0, i + 1).drop_last() =~= self.heights@.subrange(0, i as int));
            match self.heights[i] {
                Some(h) => {
                    best = match best {
                        None => Some(h),
                        Some(m) => Some(if h > m { h } else { m }),
                    };
                },
                None => {},
            }
            i = i + 1;
        }
        assert(self.heights@.subrange(0, self.heights@.len() as int) =~= self.heights@);
        best
    }

    /// Paints `overlay` onto column `(x, z)`; the column keeps its current
    /// overlay only when that one outranks the new one.
    pub fn apply_overlay(&mut self, x: usize, z: usize, overlay: ColumnOverlay)
        requires
            old(self).wf(),
            x < 16,
            z < 16,
        ensures
            final(self).wf(),
            final(self).heights@ == old(self).heights@,
            final(self).slopes@ == old(self).slopes@,
            final(self).overlays@.len() == 256,
            forall|i: int| 0 <= i < 256 && i != column_index(x as int, z as int) ==> #[trigger] final(self).overlays@[i] == old(self).overlays@[i],
            final(self).overlays@[column_index(x as int, z as int)].is_some(),
            final(self).overlays@[column_index(x as int, z as int)].unwrap()@ == arbitrate(
                opt_overlay_view(old(self).overlays@[column_index(x as int, z as int)]),
                overlay@,
            ),
    {
        let idx = z * 16 + x;
        let mut slot: Option<ColumnOverlay> = None;
        std::mem::swap(&mut slot, &mut self.overlays[idx]);
        apply_overlay_slot(&mut slot, overlay);
        self.overlays.set(idx, slot);
    }

    /// The overlay column `(x, z)` holds, if any.
    pub fn overlay(&self, x: usize, z: usize) -> (r: Option<&ColumnOverlay>)
        requires
            self.wf(),
            x < 16,
            z < 16,
        ensures
            match r {
                Some(o) => self.overlays@[column_index(x as int, z as int)] == Some(*o),
                None => self.overlays@[column_index(x as int, z as int)].is_none(),
            },
    {
        self.overlays[z * 16 + x].as_ref()
    }
}

} // verus!

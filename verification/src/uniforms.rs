//! The per-frame uniform block the kernels read.
use vstd::prelude::*;

verus! {

/// Frame counter, RNG time seed, and the view-control fields (the latter
/// are read-only to the core).
#[derive(Clone, Copy, PartialEq, Eq, Structural, Debug)]
pub struct Uniform {
    pub itime: u32,
    pub frame_num: u32,
    pub slice: u32,
    pub slice_axis: u32,
    pub rendering_view: u32,
}

impl Uniform {
    /// A fresh uniform block: frame zero, slicing along the third axis,
    /// occupancy view.
    pub fn new(itime: u32) -> (u: Uniform)
        ensures
            u.itime == itime,
            u.frame_num == 0,
            u.slice == 0,
            u.slice_axis == 2,
            u.rendering_view == 0,
    {
        Uniform { itime, frame_num: 0, slice: 0, slice_axis: 2, rendering_view: 0 }
    }

    /// Advance to the next frame with a fresh time seed.
    pub fn next_frame(&mut self, itime: u32)
        requires
            old(self).frame_num < u32::MAX,
        ensures
            final(self).frame_num == old(self).frame_num + 1,
            final(self).itime == itime,
            final(self).slice == old(self).slice,
            final(self).slice_axis == old(self).slice_axis,
            final(self).rendering_view == old(self).rendering_view,
    {
        self.frame_num = self.frame_num + 1;
        self.itime = itime;
    }
}

} // verus!

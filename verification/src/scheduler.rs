//! The per-step dispatch sequence: which kernels run, against which of the
//! two lattice buffers, and when statistics are read back.
use vstd::prelude::*;

verus! {

/// One device action of a step, in order of submission.  Buffer indices
/// name one of the two lattice copies.
#[derive(Clone, Copy, PartialEq, Eq, Structural, Debug)]
pub enum StepAction {
    DispatchRdme { input: usize, output: usize },
    DispatchCme { input: usize, output: usize },
    TexturePass { output: usize },
    CopyLattice { from: usize, to: usize },
    CopyOccupancy { from: usize, to: usize },
    ReadStatistics,
}

/// The buffer the kernels read on this frame.
pub open spec fn spec_input_buffer(frame_num: u32) -> int {
    if frame_num % 2 == 0 {
        1
    } else {
        0
    }
}

/// The buffer the kernels write on this frame.
pub open spec fn spec_output_buffer(frame_num: u32) -> int {
    if frame_num % 2 == 0 {
        0
    } else {
        1
    }
}

/// The buffer the kernels read on this frame.
pub fn input_buffer(frame_num: u32) -> (i: usize)
    ensures
        i == spec_input_buffer(frame_num),
{
    if frame_num % 2 == 0 {
        1
    } else {
        0
    }
}

/// The buffer the kernels write on this frame.
pub fn output_buffer(frame_num: u32) -> (o: usize)
    ensures
        o == spec_output_buffer(frame_num),
{
    frame_num as usize % 2
}

/// On every frame the kernels read one buffer and write the other.
pub proof fn lemma_buffers_distinct(frame_num: u32)
    ensures
        spec_input_buffer(frame_num) != spec_output_buffer(frame_num),
{
}

/// Statistics are read back every `write_freq` frames, never on frame
/// zero.
pub open spec fn spec_should_read_back(frame_num: u32, write_freq: u32) -> bool {
    &&& frame_num % write_freq == 0
    &&& frame_num > 0
}

/// Statistics read-back cadence.
pub fn should_read_back(frame_num: u32, write_freq: u32) -> (b: bool)
    requires
        write_freq > 0,
    ensures
        b == spec_should_read_back(frame_num, write_freq),
{
    frame_num % write_freq == 0 && frame_num > 0
}

/// The full dispatch sequence of one step: hopping, then reactions, then
/// the texture payload, then the copy that re-equalises the two buffers,
/// then — on cadence — the statistics read-back.
pub fn step_plan(frame_num: u32, write_freq: u32) -> (plan: Vec<StepAction>)
    requires
        write_freq > 0,
    ensures
        plan@.len() == (if spec_should_read_back(frame_num, write_freq) {
            6int
        } else {
            5int
        }),
        plan@[0] == (StepAction::DispatchRdme {
            input: spec_input_buffer(frame_num) as usize,
            output: spec_output_buffer(frame_num) as usize,
        }),
        plan@[1] == (StepAction::DispatchCme {
            input: spec_input_buffer(frame_num) as usize,
            output: spec_output_buffer(frame_num) as usize,
        }),
        plan@[2] == (StepAction::TexturePass {
            output: spec_output_buffer(frame_num) as usize,
        }),
        plan@[3] == (StepAction::CopyLattice {
            from: spec_output_buffer(frame_num) as usize,
            to: spec_input_buffer(frame_num) as usize,
        }),
        plan@[4] == (StepAction::CopyOccupancy {
            from: spec_output_buffer(frame_num) as usize,
            to: spec_input_buffer(frame_num) as usize,
        }),
        spec_should_read_back(frame_num, write_freq) ==> plan@[5] == StepAction::ReadStatistics,
{
    let input = input_buffer(frame_num);
    let output = output_buffer(frame_num);
    let mut plan: Vec<StepAction> = Vec::new();
    plan.push(StepAction::DispatchRdme { input, output });
    plan.push(StepAction::DispatchCme { input, output });
    plan.push(StepAction::TexturePass { output });
    plan.push(StepAction::CopyLattice { from: output, to: input });
    plan.push(StepAction::CopyOccupancy { from: output, to: input });
    if should_read_back(frame_num, write_freq) {
        plan.push(StepAction::ReadStatistics);
    }
    plan
}


/// The scalar payload of the final-texture kernel for one voxel: the
/// occupancy, the region label, or the reservoir mask, by the
/// `rendering_view` selector.
pub open spec fn spec_texture_payload(
    rendering_view: u32,
    occupancy: u32,
    region: u32,
    reservoir: u32,
) -> u32 {
    if rendering_view == 1 {
        region
    } else if rendering_view == 2 {
        reservoir
    } else {
        occupancy
    }
}

/// The scalar payload of the final-texture kernel for one voxel.
pub fn texture_payload(rendering_view: u32, occupancy: u32, region: u32, reservoir: u32) -> (p:
    u32)
    ensures
        p == spec_texture_payload(rendering_view, occupancy, region, reservoir),
{
    if rendering_view == 1 {
        region
    } else if rendering_view == 2 {
        reservoir
    } else {
        occupancy
    }
}

/// The face-adjacent neighbour of the voxel with linear index `v` along
/// one of the six directions, or nothing at the grid boundary.
pub fn face_neighbour(res: [u32; 3], v: usize, dir: u32) -> (r: Option<usize>)
    requires
        0 < res[0] && 0 < res[1] && 0 < res[2],
        res[0] * res[1] * res[2] < 0x1000_0000,
        (v as int) < res[0] * res[1] * res[2],
        dir < 6,
    ensures
        match r {
            Some(n) => {
                &&& (n as int) < res[0] * res[1] * res[2]
                &&& n != v
                &&& n as int == crate::regions::lin_index(
                    res,
                    crate::regions::site_i(res, v as int) + (if dir == 0 {
                        -1int
                    } else if dir == 1 {
                        1int
                    } else {
                        0int
                    }),
                    crate::regions::site_j(res, v as int) + (if dir == 2 {
                        -1int
                    } else if dir == 3 {
                        1int
                    } else {
                        0int
                    }),
                    crate::regions::site_k(res, v as int) + (if dir == 4 {
                        -1int
                    } else if dir == 5 {
                        1int
                    } else {
                        0int
                    }),
                )
            },
            None => true,
        },
{
    proof {
        crate::regions::lemma_linear_site(res, v as int);
    }
    let r1 = res[1] as usize;
    let r2 = res[2] as usize;
    proof {
        let a = res[0] as int;
        let b = res[1] as int;
        let c = res[2] as int;
        assert(0 < b * c <= a * b * c) by (nonlinear_arith)
            requires
                0 < a && 0 < b && 0 < c,
        ;
    }
    let r12 = r1 * r2;
    let i = v / r12;
    let j = (v / r2) % r1;
    let k = v % r2;
    let (ni, nj, nk): (usize, usize, usize) = if dir == 0 {
        if i == 0 {
            return None;
        }
        (i - 1, j, k)
    } else if dir == 1 {
        if i + 1 >= res[0] as usize {
            return None;
        }
        (i + 1, j, k)
    } else if dir == 2 {
        if j == 0 {
            return None;
        }
        (i, j - 1, k)
    } else if dir == 3 {
        if j + 1 >= res[1] as usize {
            return None;
        }
        (i, j + 1, k)
    } else if dir == 4 {
        if k == 0 {
            return None;
        }
        (i, j, k - 1)
    } else {
        if k + 1 >= res[2] as usize {
            return None;
        }
        (i, j, k + 1)
    };
    proof {
        crate::regions::lemma_lin_index_bounds(res, ni as int, nj as int, nk as int);
    }
    let n = ni * r12 + nj * r2 + nk;
    proof {
        assert(n as int == crate::regions::lin_index(res, ni as int, nj as int, nk as int));
        if n == v {
            assert(crate::regions::site_i(res, n as int) == ni as int);
            assert(crate::regions::site_i(res, v as int) == ni as int);
        }
    }
    Some(n)
}

} // verus!

//! Region descriptors and their exact voxel-inclusion tests.
//!
//! Every coordinate is a fixed-point physical length (`FIXED_ONE` units per
//! physical unit) bounded by `COORD_BOUND`, so each test below is exact
//! integer arithmetic with all intermediates inside `i128`.
use vstd::prelude::*;

use crate::params::COORD_BOUND;

verus! {

/// Square, in spec arithmetic.
pub open spec fn sq(a: int) -> int {
    a * a
}

/// All three components within the painter's coordinate bound.
pub open spec fn coords_bounded(a: [i64; 3]) -> bool {
    forall|d: int| 0 <= d < 3 ==> -COORD_BOUND <= #[trigger] a[d] <= COORD_BOUND
}

/// An axis-aligned box `p0 <= pos < pf` holds the position.
pub open spec fn in_cube_at(p0: [i64; 3], pf: [i64; 3], x: int, y: int, z: int) -> bool {
    &&& p0[0] <= x < pf[0]
    &&& p0[1] <= y < pf[1]
    &&& p0[2] <= z < pf[2]
}

/// Squared distance from the centre.
pub open spec fn dist_sq(c: [i64; 3], x: int, y: int, z: int) -> int {
    sq(x - c[0]) + sq(y - c[1]) + sq(z - c[2])
}

/// Strictly inside the ball of the given radius.
pub open spec fn in_sphere_at(center: [i64; 3], radius: i64, x: int, y: int, z: int) -> bool {
    dist_sq(center, x, y, z) < sq(radius as int)
}

/// Inside the ball and on the side of the centre plane that `direction`
/// points into.
pub open spec fn in_semisphere_at(
    center: [i64; 3],
    radius: i64,
    direction: [i64; 3],
    x: int,
    y: int,
    z: int,
) -> bool {
    &&& in_sphere_at(center, radius, x, y, z)
    &&& (x - center[0]) * direction[0] + (y - center[1]) * direction[1] + (z - center[2])
        * direction[2] >= 0
}

/// Between the two end planes of the axis `pf - p0` and within `radius` of
/// the axis: the squared cross product of `pos - p0` with the axis is
/// compared against `radius^2` times the squared axis length.
pub open spec fn in_cylinder_at(p0: [i64; 3], pf: [i64; 3], radius: i64, x: int, y: int, z: int) -> bool {
    let v0 = pf[0] - p0[0];
    let v1 = pf[1] - p0[1];
    let v2 = pf[2] - p0[2];
    let w0 = x - p0[0];
    let w1 = y - p0[1];
    let w2 = z - p0[2];
    let u0 = x - pf[0];
    let u1 = y - pf[1];
    let u2 = z - pf[2];
    &&& u0 * v0 + u1 * v1 + u2 * v2 <= 0
    &&& w0 * v0 + w1 * v1 + w2 * v2 >= 0
    &&& sq(w1 * v2 - w2 * v1) + sq(w2 * v0 - w0 * v2) + sq(w0 * v1 - w1 * v0) <= sq(
        radius as int,
    ) * (sq(v0) + sq(v1) + sq(v2))
}

/// A paintable primitive; composites are expanded into these before
/// painting.
#[derive(Clone, Copy)]
pub enum Shape {
    Cube { p0: [i64; 3], pf: [i64; 3] },
    Sphere { center: [i64; 3], radius: i64 },
    SemiSphere { center: [i64; 3], radius: i64, direction: [i64; 3] },
    Cylinder { p0: [i64; 3], pf: [i64; 3], radius: i64 },
}

/// All coordinates of the primitive within the painter's bound.
pub open spec fn shape_bounded(s: Shape) -> bool {
    match s {
        Shape::Cube { p0, pf } => coords_bounded(p0) && coords_bounded(pf),
        Shape::Sphere { center, radius } => coords_bounded(center) && 0 <= radius <= COORD_BOUND,
        Shape::SemiSphere { center, radius, direction } => coords_bounded(center) && coords_bounded(
            direction,
        ) && 0 <= radius <= COORD_BOUND,
        Shape::Cylinder { p0, pf, radius } => coords_bounded(p0) && coords_bounded(pf) && 0
            <= radius <= COORD_BOUND,
    }
}

/// Does the primitive cover the fixed-point position `(x, y, z)`?
pub open spec fn shape_covers(s: Shape, x: int, y: int, z: int) -> bool {
    match s {
        Shape::Cube { p0, pf } => in_cube_at(p0, pf, x, y, z),
        Shape::Sphere { center, radius } => in_sphere_at(center, radius, x, y, z),
        Shape::SemiSphere { center, radius, direction } => in_semisphere_at(
            center,
            radius,
            direction,
            x,
            y,
            z,
        ),
        Shape::Cylinder { p0, pf, radius } => in_cylinder_at(p0, pf, radius, x, y, z),
    }
}

/// Exact test for `shape_covers`.
pub fn shape_contains(s: &Shape, pos: &[i64; 3]) -> (b: bool)
    requires
        shape_bounded(*s),
        coords_bounded(*pos),
    ensures
        b == shape_covers(*s, pos[0] as int, pos[1] as int, pos[2] as int),
{
    match s {
        Shape::Cube { p0, pf } => cube_contains(p0, pf, pos),
        Shape::Sphere { center, radius } => sphere_contains(center, *radius, pos),
        Shape::SemiSphere { center, radius, direction } => semisphere_contains(
            center,
            *radius,
            direction,
            pos,
        ),
        Shape::Cylinder { p0, pf, radius } => cylinder_contains(p0, pf, *radius, pos),
    }
}

/// `|a * b| <= ba * bb` whenever `|a| <= ba` and `|b| <= bb`.
pub proof fn lemma_mul_bound(a: int, b: int, ba: int, bb: int)
    requires
        -ba <= a <= ba,
        -bb <= b <= bb,
        0 <= ba,
        0 <= bb,
    ensures
        -(ba * bb) <= a * b <= ba * bb,
{
    assert(-(ba * bb) <= a * b <= ba * bb) by (nonlinear_arith)
        requires
            -ba <= a <= ba,
            -bb <= b <= bb,
            0 <= ba,
            0 <= bb,
    ;
}

/// Exact test for `in_cube_at`.
pub fn cube_contains(p0: &[i64; 3], pf: &[i64; 3], pos: &[i64; 3]) -> (b: bool)
    ensures
        b == in_cube_at(*p0, *pf, pos[0] as int, pos[1] as int, pos[2] as int),
{
    p0[0] <= pos[0] && pos[0] < pf[0] && p0[1] <= pos[1] && pos[1] < pf[1] && p0[2] <= pos[2]
        && pos[2] < pf[2]
}

/// Exact test for `in_sphere_at`.
pub fn sphere_contains(center: &[i64; 3], radius: i64, pos: &[i64; 3]) -> (b: bool)
    requires
        coords_bounded(*center),
        coords_bounded(*pos),
        0 <= radius <= COORD_BOUND,
    ensures
        b == in_sphere_at(*center, radius, pos[0] as int, pos[1] as int, pos[2] as int),
{
    let dx = (pos[0] as i128) - (center[0] as i128);
    let dy = (pos[1] as i128) - (center[1] as i128);
    let dz = (pos[2] as i128) - (center[2] as i128);
    proof {
        lemma_mul_bound(dx as int, dx as int, 0x4000_0000, 0x4000_0000);
        lemma_mul_bound(dy as int, dy as int, 0x4000_0000, 0x4000_0000);
        lemma_mul_bound(dz as int, dz as int, 0x4000_0000, 0x4000_0000);
        lemma_mul_bound(radius as int, radius as int, 0x2000_0000, 0x2000_0000);
    }
    let dist = dx * dx + dy * dy + dz * dz;
    let r2 = (radius as i128) * (radius as i128);
    dist < r2
}

/// Exact test for `in_semisphere_at`.
pub fn semisphere_contains(center: &[i64; 3], radius: i64, direction: &[i64; 3], pos: &[i64; 3]) -> (b:
    bool)
    requires
        coords_bounded(*center),
        coords_bounded(*direction),
        coords_bounded(*pos),
        0 <= radius <= COORD_BOUND,
    ensures
        b == in_semisphere_at(
            *center,
            radius,
            *direction,
            pos[0] as int,
            pos[1] as int,
            pos[2] as int,
        ),
{
    let dx = (pos[0] as i128) - (center[0] as i128);
    let dy = (pos[1] as i128) - (center[1] as i128);
    let dz = (pos[2] as i128) - (center[2] as i128);
    proof {
        lemma_mul_bound(dx as int, direction[0] as int, 0x4000_0000, 0x2000_0000);
        lemma_mul_bound(dy as int, direction[1] as int, 0x4000_0000, 0x2000_0000);
        lemma_mul_bound(dz as int, direction[2] as int, 0x4000_0000, 0x2000_0000);
    }
    let side = dx * (direction[0] as i128) + dy * (direction[1] as i128) + dz * (direction[2]
        as i128);
    if side < 0 {
        return false;
    }
    sphere_contains(center, radius, pos)
}

/// Exact test for `in_cylinder_at`.
pub fn cylinder_contains(p0: &[i64; 3], pf: &[i64; 3], radius: i64, pos: &[i64; 3]) -> (b: bool)
    requires
        coords_bounded(*p0),
        coords_bounded(*pf),
        coords_bounded(*pos),
        0 <= radius <= COORD_BOUND,
    ensures
        b == in_cylinder_at(*p0, *pf, radius, pos[0] as int, pos[1] as int, pos[2] as int),
{
    let v0 = (pf[0] as i128) - (p0[0] as i128);
    let v1 = (pf[1] as i128) - (p0[1] as i128);
    let v2 = (pf[2] as i128) - (p0[2] as i128);
    let w0 = (pos[0] as i128) - (p0[0] as i128);
    let w1 = (pos[1] as i128) - (p0[1] as i128);
    let w2 = (pos[2] as i128) - (p0[2] as i128);
    let u0 = (pos[0] as i128) - (pf[0] as i128);
    let u1 = (pos[1] as i128) - (pf[1] as i128);
    let u2 = (pos[2] as i128) - (pf[2] as i128);
    proof {
        lemma_mul_bound(u0 as int, v0 as int, 0x4000_0000, 0x4000_0000);
        lemma_mul_bound(u1 as int, v1 as int, 0x4000_0000, 0x4000_0000);
        lemma_mul_bound(u2 as int, v2 as int, 0x4000_0000, 0x4000_0000);
        lemma_mul_bound(w0 as int, v0 as int, 0x4000_0000, 0x4000_0000);
        lemma_mul_bound(w1 as int, v1 as int, 0x4000_0000, 0x4000_0000);
        lemma_mul_bound(w2 as int, v2 as int, 0x4000_0000, 0x4000_0000);
    }
    let proj_f = u0 * v0 + u1 * v1 + u2 * v2;
    if proj_f > 0 {
        return false;
    }
    let proj_0 = w0 * v0 + w1 * v1 + w2 * v2;
    if proj_0 < 0 {
        return false;
    }
    proof {
        lemma_mul_bound(w1 as int, v2 as int, 0x4000_0000, 0x4000_0000);
        lemma_mul_bound(w2 as int, v1 as int, 0x4000_0000, 0x4000_0000);
        lemma_mul_bound(w2 as int, v0 as int, 0x4000_0000, 0x4000_0000);
        lemma_mul_bound(w0 as int, v2 as int, 0x4000_0000, 0x4000_0000);
        lemma_mul_bound(w0 as int, v1 as int, 0x4000_0000, 0x4000_0000);
        lemma_mul_bound(w1 as int, v0 as int, 0x4000_0000, 0x4000_0000);
    }
    let cx = w1 * v2 - w2 * v1;
    let cy = w2 * v0 - w0 * v2;
    let cz = w0 * v1 - w1 * v0;
    proof {
        lemma_mul_bound(cx as int, cx as int, 0x2000_0000_0000_0000, 0x2000_0000_0000_0000);
        lemma_mul_bound(cy as int, cy as int, 0x2000_0000_0000_0000, 0x2000_0000_0000_0000);
        lemma_mul_bound(cz as int, cz as int, 0x2000_0000_0000_0000, 0x2000_0000_0000_0000);
        lemma_mul_bound(v0 as int, v0 as int, 0x4000_0000, 0x4000_0000);
        lemma_mul_bound(v1 as int, v1 as int, 0x4000_0000, 0x4000_0000);
        lemma_mul_bound(v2 as int, v2 as int, 0x4000_0000, 0x4000_0000);
        lemma_mul_bound(radius as int, radius as int, 0x2000_0000, 0x2000_0000);
    }
    let cross_sq = cx * cx + cy * cy + cz * cz;
    let axis_sq = v0 * v0 + v1 * v1 + v2 * v2;
    let r_sq = (radius as i128) * (radius as i128);
    proof {
        lemma_mul_bound(r_sq as int, axis_sq as int, 0x4000_0000_0000_0000, 0x4000_0000_0000_0000);
    }
    cross_sq <= r_sq * axis_sq
}


/// Floor division by a positive divisor, matching spec-level integer
/// division.
pub fn floor_div(a: i64, b: i64) -> (q: i64)
    requires
        0 < b,
        -0x2000_0000_0000_0000 <= a <= 0x2000_0000_0000_0000,
        b <= 0x2000_0000_0000_0000,
    ensures
        q == a as int / b as int,
{
    if a >= 0 {
        let qu = (a as u64) / (b as u64);
        qu as i64
    } else {
        let na = -a;
        let nau = na as u64;
        let bu = b as u64;
        let qq = nau / bu;
        let rr = nau % bu;
        proof {
            vstd::arithmetic::div_mod::lemma_fundamental_div_mod(nau as int, bu as int);
            vstd::arithmetic::div_mod::lemma_mod_division_less_than_divisor(nau as int, bu as int);
            vstd::arithmetic::div_mod::lemma_div_pos_is_pos(nau as int, bu as int);
            vstd::arithmetic::div_mod::lemma_div_is_ordered(nau as int, nau as int, bu as int);
            vstd::arithmetic::div_mod::lemma_div_nonincreasing(nau as int, bu as int);
            assert(nau as int == (bu as int) * (qq as int) + (rr as int));
            assert(a as int == -(nau as int));
            assert(a as int == (-(qq as int)) * (b as int) + 0 - rr) by (nonlinear_arith)
                requires
                    nau as int == (bu as int) * (qq as int) + (rr as int),
                    a as int == -(nau as int),
                    bu as int == b as int,
            ;
            assert((-(qq as int) - 1) * (b as int) == (-(qq as int)) * (b as int) - b)
                by (nonlinear_arith);
            if rr == 0 {
                vstd::arithmetic::div_mod::lemma_fundamental_div_mod_converse(
                    a as int,
                    b as int,
                    -(qq as int),
                    0,
                );
            } else {
                vstd::arithmetic::div_mod::lemma_fundamental_div_mod_converse(
                    a as int,
                    b as int,
                    -(qq as int) - 1,
                    b - rr,
                );
            }
        }
        if rr == 0 {
            -(qq as i64)
        } else {
            -(qq as i64) - 1
        }
    }
}

} // verus!

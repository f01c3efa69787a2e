use rdme_sim::geometry::{cylinder_contains, floor_div, semisphere_contains};
use rdme_sim::params::{LatticeParams, FIXED_ONE};
use rdme_sim::regions::RegionType;
use rdme_sim::simulation::Simulation;

#[test]
fn capsid_paints_two_labels_matching_naive_predicate() {
    // a 0.8 x 0.8 x 2.0 box at 64 x 64 x 128: after the capsid there are
    // exactly two labels beside the background, and their union equals the
    // naive capsid predicate (outer cylinder plus the two outer caps)
    let vs: i64 = 819; // 0.0125 physical units, fixed point
    let params = LatticeParams::new([64, 64, 128], [vs, vs, vs], 0, 0);
    let mut sim = Simulation::new(params);
    let to_fp = |x: f64| (x * FIXED_ONE as f64) as i64;
    let center = [to_fp(0.4), to_fp(0.4), to_fp(1.0)];
    let dir = [0i64, 0, FIXED_ONE];
    let internal_radius = to_fp(0.37);
    let external_radius = to_fp(0.4);
    let total_length = to_fp(2.0);
    sim.add_region(
        RegionType::Capsid {
            shell_name: "membrane".to_string(),
            interior_name: "interior".to_string(),
            center,
            dir,
            internal_radius,
            external_radius,
            total_length,
        },
        0,
    )
    .unwrap();
    assert_eq!(sim.regions.types.len(), 3);
    // recompute the axis endpoints the way the painter does
    let cl = total_length - 2 * external_radius;
    let off = [
        floor_div(dir[0] * cl, 2 * FIXED_ONE),
        floor_div(dir[1] * cl, 2 * FIXED_ONE),
        floor_div(dir[2] * cl, 2 * FIXED_ONE),
    ];
    let p0 = [center[0] - off[0], center[1] - off[1], center[2] - off[2]];
    let pf = [center[0] + off[0], center[1] + off[1], center[2] + off[2]];
    let neg_dir = [-dir[0], -dir[1], -dir[2]];
    let mut shell = 0u64;
    let mut interior = 0u64;
    for i in 0..64i64 {
        for j in 0..64i64 {
            for k in 0..128i64 {
                let u = (i * 64 * 128 + j * 128 + k) as usize;
                let pos = [i * vs, j * vs, k * vs];
                let cyl_out = cylinder_contains(&p0, &pf, external_radius, &pos);
                let cap1 = semisphere_contains(&p0, external_radius, &neg_dir, &pos);
                let cap2 = semisphere_contains(&pf, external_radius, &dir, &pos);
                let cyl_in = cylinder_contains(&p0, &pf, internal_radius, &pos);
                let in1 = semisphere_contains(&p0, internal_radius, &neg_dir, &pos);
                let in2 = semisphere_contains(&pf, internal_radius, &dir, &pos);
                let naive = cyl_out || cap1 || cap2 || cyl_in || in1 || in2;
                let label = sim.regions.regions[u];
                assert_eq!(label != 0, naive);
                // the interior is the inner composite, except where an
                // outer cap painted later overrides the inner cylinder rim
                let inner_wins = in1 || in2 || (cyl_in && !cap1 && !cap2);
                if naive {
                    assert_eq!(label, if inner_wins { 2 } else { 1 });
                }
                match label {
                    1 => shell += 1,
                    2 => interior += 1,
                    _ => {}
                }
            }
        }
    }
    assert!(shell > 0 && interior > 0);
    // join volume: shell + interior + background voxels cover the grid
    let total: u64 = sim.regions.volumes.iter().map(|&v| v as u64).sum();
    assert_eq!(total, 64 * 64 * 128);
    assert_eq!(sim.regions.volumes[1] as u64, shell);
    assert_eq!(sim.regions.volumes[2] as u64, interior);
}

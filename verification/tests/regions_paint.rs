use rdme_sim::geometry::Shape;
use rdme_sim::params::{LatticeParams, FIXED_ONE};
use rdme_sim::regions::RegionType;
use rdme_sim::simulation::Simulation;

fn unit_params(res: [u32; 3]) -> LatticeParams {
    LatticeParams::new(res, [FIXED_ONE, FIXED_ONE, FIXED_ONE], 0, 0)
}

#[test]
fn background_covers_everything() {
    let sim = Simulation::new(unit_params([4, 4, 4]));
    assert_eq!(sim.regions.volumes.len(), 1);
    assert_eq!(sim.regions.volumes[0], 64);
    for &l in sim.regions.regions.iter() {
        assert_eq!(l, 0);
    }
}

#[test]
fn paint_cube_labels_exact() {
    let mut sim = Simulation::new(unit_params([4, 4, 4]));
    let p0 = [0i64, 0, 0];
    let pf = [2 * FIXED_ONE, 2 * FIXED_ONE, 2 * FIXED_ONE];
    sim.add_region(
        RegionType::Cube { name: "box".to_string(), p0, pf },
        0,
    )
    .unwrap();
    // the painted cube holds voxels with every coordinate below two
    let mut painted = 0u32;
    for i in 0..4usize {
        for j in 0..4usize {
            for k in 0..4usize {
                let u = i * 16 + j * 4 + k;
                let expect = i < 2 && j < 2 && k < 2;
                assert_eq!(sim.regions.regions[u] == 1, expect);
                if expect {
                    painted += 1;
                }
            }
        }
    }
    assert_eq!(painted, 8);
    // volume accounting follows the labels (I4)
    assert_eq!(sim.regions.volumes[0], 64 - 8);
    assert_eq!(sim.regions.volumes[1], 8);
    assert_eq!(
        sim.regions.volumes.iter().map(|&v| v as u64).sum::<u64>(),
        64
    );
}

#[test]
fn paint_sphere_matches_predicate() {
    let mut sim = Simulation::new(unit_params([8, 8, 8]));
    let center = [4 * FIXED_ONE, 4 * FIXED_ONE, 4 * FIXED_ONE];
    let radius = 3 * FIXED_ONE;
    sim.add_region(
        RegionType::Sphere { name: "ball".to_string(), center, radius },
        0,
    )
    .unwrap();
    for i in 0..8i64 {
        for j in 0..8i64 {
            for k in 0..8i64 {
                let u = (i * 64 + j * 8 + k) as usize;
                let pos = [i * FIXED_ONE, j * FIXED_ONE, k * FIXED_ONE];
                let inside =
                    rdme_sim::geometry::sphere_contains(&center, radius, &pos);
                assert_eq!(sim.regions.regions[u] == 1, inside);
            }
        }
    }
    assert_eq!(
        sim.regions.volumes.iter().map(|&v| v as u64).sum::<u64>(),
        512
    );
}

#[test]
fn paint_then_join_back_restores_labels() {
    // painting over the background and joining the fresh label back into
    // the background reproduces the original label tensor
    let mut sim = Simulation::new(unit_params([4, 4, 4]));
    let before: Vec<u32> = sim.regions.regions.clone();
    sim.add_region(
        RegionType::Cube {
            name: "patch".to_string(),
            p0: [FIXED_ONE, FIXED_ONE, FIXED_ONE],
            pf: [3 * FIXED_ONE, 3 * FIXED_ONE, 3 * FIXED_ONE],
        },
        0,
    )
    .unwrap();
    assert_ne!(sim.regions.regions, before);
    sim.regions.join(1, 0);
    assert_eq!(sim.regions.regions, before);
    assert_eq!(sim.regions.volumes[0], 64);
}

#[test]
fn prepare_regions_groups_voxels() {
    let mut sim = Simulation::new(unit_params([4, 4, 4]));
    sim.add_region(
        RegionType::Cube {
            name: "box".to_string(),
            p0: [0, 0, 0],
            pf: [FIXED_ONE, 4 * FIXED_ONE, 4 * FIXED_ONE],
        },
        0,
    )
    .unwrap();
    sim.prepare_regions();
    let ib = sim.regions.index_buffer.as_ref().unwrap();
    assert_eq!(ib.len(), 2);
    assert_eq!(ib[0].len() as u32, sim.regions.volumes[0]);
    assert_eq!(ib[1].len() as u32, sim.regions.volumes[1]);
    for &u in ib[1].iter() {
        assert_eq!(sim.regions.regions[u as usize], 1);
    }
    // entries come in strictly increasing linear order
    for w in ib[1].windows(2) {
        assert!(w[0] < w[1]);
    }
}

#[test]
fn shells_paint_interior_over_shell() {
    let mut sim = Simulation::new(unit_params([8, 8, 8]));
    let center = [4 * FIXED_ONE, 4 * FIXED_ONE, 4 * FIXED_ONE];
    sim.add_region(
        RegionType::SphericalShell {
            shell_name: "wall".to_string(),
            interior_name: "lumen".to_string(),
            center,
            internal_radius: 2 * FIXED_ONE,
            external_radius: 3 * FIXED_ONE,
        },
        0,
    )
    .unwrap();
    for i in 0..8i64 {
        for j in 0..8i64 {
            for k in 0..8i64 {
                let u = (i * 64 + j * 8 + k) as usize;
                let pos = [i * FIXED_ONE, j * FIXED_ONE, k * FIXED_ONE];
                let inner = rdme_sim::geometry::sphere_contains(&center, 2 * FIXED_ONE, &pos);
                let outer = rdme_sim::geometry::sphere_contains(&center, 3 * FIXED_ONE, &pos);
                let expect: u32 = if inner {
                    2
                } else if outer {
                    1
                } else {
                    0
                };
                assert_eq!(sim.regions.regions[u], expect);
            }
        }
    }
}

#[test]
fn cube_shape_contains_is_half_open() {
    let p0 = [0i64, 0, 0];
    let pf = [FIXED_ONE, FIXED_ONE, FIXED_ONE];
    assert!(rdme_sim::geometry::shape_contains(
        &Shape::Cube { p0, pf },
        &[0, 0, 0]
    ));
    assert!(!rdme_sim::geometry::shape_contains(
        &Shape::Cube { p0, pf },
        &[FIXED_ONE, 0, 0]
    ));
}

use rdme_sim::errors::SimError;
use rdme_sim::params::{LatticeParams, FIXED_ONE};
use rdme_sim::regions::RegionType;
use rdme_sim::simulation::Simulation;
use rdme_sim::SITE_CAPACITY;

fn unit_params(res: [u32; 3]) -> LatticeParams {
    LatticeParams::new(res, [FIXED_ONE, FIXED_ONE, FIXED_ONE], 0, 0)
}

#[test]
fn seeding_by_count_sums_exactly() {
    // seeding N particles by count, then summing concentration over the
    // whole volume, yields exactly N
    let mut sim = Simulation::new(unit_params([4, 4, 4]));
    sim.prepare_regions();
    sim.add_particle_count("A".to_string(), &"background".to_string(), 100, false, false)
        .unwrap();
    let totals = sim.concentration_totals();
    assert_eq!(totals.len(), 2);
    assert_eq!(totals[0], 0);
    assert_eq!(totals[1], 100);
}

#[test]
fn fill_region_places_one_per_voxel() {
    let mut sim = Simulation::new(unit_params([3, 3, 3]));
    sim.prepare_regions();
    sim.fill_region("F".to_string(), &"background".to_string(), false)
        .unwrap();
    let totals = sim.concentration_totals();
    assert_eq!(totals[1], 27);
    for v in 0..27usize {
        assert_eq!(sim.lattices[0].occupancy[v], 1);
        assert_eq!(sim.lattices[0].lattice[v * SITE_CAPACITY as usize], 1);
    }
}

#[test]
fn saturated_region_refuses_more_seeding() {
    // a one-voxel region takes SITE_CAPACITY particles and no more: the
    // next seeding call reports the region as saturated
    let mut sim = Simulation::new(unit_params([1, 1, 1]));
    sim.prepare_regions();
    sim.add_particle_count(
        "A".to_string(),
        &"background".to_string(),
        SITE_CAPACITY,
        false,
        false,
    )
    .unwrap();
    assert_eq!(sim.lattices[0].occupancy[0], SITE_CAPACITY);
    let r = sim.add_particle_count("B".to_string(), &"background".to_string(), 1, false, false);
    assert_eq!(r, Err(SimError::RegionSaturated));
}

#[test]
fn unknown_region_is_reported() {
    let mut sim = Simulation::new(unit_params([2, 2, 2]));
    sim.prepare_regions();
    let r = sim.add_particle_count("A".to_string(), &"nowhere".to_string(), 1, false, false);
    assert_eq!(r, Err(SimError::UnknownRegion));
}

#[test]
fn concentration_seeding_uses_region_volume() {
    // concentration 0.5 over a 64-voxel region rounds down to 32 particles
    let mut sim = Simulation::new(unit_params([4, 4, 4]));
    sim.prepare_regions();
    sim.add_particle_concentration(
        "A".to_string(),
        &"background".to_string(),
        FIXED_ONE / 2,
        false,
        false,
    )
    .unwrap();
    let totals = sim.concentration_totals();
    assert_eq!(totals[1], 32);
}

#[test]
fn reservoir_seeding_pins_concentration_to_one() {
    // every reservoir voxel's histogram entry for the reservoir species is
    // exactly one, and no token is placed
    let mut sim = Simulation::new(unit_params([4, 4, 4]));
    sim.prepare_regions();
    sim.add_particle_count("Iex".to_string(), &"background".to_string(), 10, false, true)
        .unwrap();
    let mut marked = 0u32;
    for v in 0..64usize {
        assert_eq!(sim.lattices[0].occupancy[v], 0);
        let c = sim.lattices[0].concentrations[v * 2 + 1];
        if sim.lattices[0].reservoir[v] == 1 {
            assert_eq!(c, 1);
            marked += 1;
        } else {
            assert_eq!(c, 0);
        }
    }
    assert_eq!(marked, 10);
}

#[test]
fn reservoir_conflict_on_same_voxel() {
    let mut sim = Simulation::new(unit_params([1, 1, 1]));
    sim.prepare_regions();
    sim.add_particle_count("R".to_string(), &"background".to_string(), 1, false, true)
        .unwrap();
    // the single voxel is reserved; a second reservoir species cannot land
    let r = sim.add_particle_count("S".to_string(), &"background".to_string(), 1, false, true);
    assert_eq!(r, Err(SimError::RegionSaturated));
    let direct = sim.lattices[0].add_reservoir_idx(0, 1);
    assert_eq!(direct, Err(SimError::ReservoirConflict));
}

#[test]
fn cannot_fit_random_walk() {
    // a walk whose safety margin exceeds the grid cannot place its first
    // block and reports CannotFit
    let mut sim = Simulation::new(unit_params([4, 4, 4]));
    sim.prepare_regions();
    let r = sim.particle_random_walk(
        "W".to_string(),
        &"background".to_string(),
        100 * FIXED_ONE,
        FIXED_ONE,
        FIXED_ONE,
        false,
    );
    assert_eq!(r, Err(SimError::CannotFit));
}

#[test]
fn site_index_round_trip() {
    let sim = Simulation::new(unit_params([3, 4, 5]));
    let l = &sim.lattices[0];
    assert_eq!(l.site_to_idx([0, 0, 0]), 0);
    assert_eq!(l.site_to_idx([1, 0, 0]), 20);
    assert_eq!(l.site_to_idx([0, 1, 0]), 5);
    assert_eq!(l.site_to_idx([2, 3, 4]), 2 * 20 + 3 * 5 + 4);
}

#[test]
fn fill_region_refuses_full_voxels() {
    let mut sim = Simulation::new(unit_params([1, 1, 1]));
    sim.prepare_regions();
    sim.add_particle_count(
        "A".to_string(),
        &"background".to_string(),
        SITE_CAPACITY,
        false,
        false,
    )
    .unwrap();
    let r = sim.fill_region("B".to_string(), &"background".to_string(), false);
    assert_eq!(r, Err(SimError::SiteFull));
}

use rdme_sim::params::{LatticeParams, FIXED_ONE};
use rdme_sim::simulation::Simulation;
use rdme_sim::SITE_CAPACITY;

fn unit_params(res: [u32; 3]) -> LatticeParams {
    LatticeParams::new(res, [FIXED_ONE, FIXED_ONE, FIXED_ONE], 0, 0)
}

#[test]
fn hop_conserves_mass() {
    // a committed hop moves one token and changes no species' total
    let mut sim = Simulation::new(unit_params([4, 4, 4]));
    sim.prepare_regions();
    sim.add_particle_count("A".to_string(), &"background".to_string(), 100, false, false)
        .unwrap();
    let before = sim.concentration_totals();
    // hop whatever sits in the first occupied voxel to its face neighbour
    let l0 = &mut sim.lattices[0];
    let mut from = None;
    for v in 0..63usize {
        if l0.occupancy[v] > 0 && l0.occupancy[v + 1] < SITE_CAPACITY {
            from = Some(v);
            break;
        }
    }
    let v = from.expect("some voxel holds a token with a free neighbour");
    let occ_from = l0.occupancy[v];
    let occ_to = l0.occupancy[v + 1];
    let moved = l0.rdme_hop(v, v + 1, 1);
    assert!(moved);
    assert_eq!(l0.occupancy[v], occ_from - 1);
    assert_eq!(l0.occupancy[v + 1], occ_to + 1);
    let after = sim.concentration_totals();
    assert_eq!(before, after);
}

#[test]
fn hop_into_full_voxel_stays() {
    let mut sim = Simulation::new(unit_params([2, 1, 1]));
    sim.prepare_regions();
    sim.fill_region("A".to_string(), &"background".to_string(), false)
        .unwrap();
    let l0 = &mut sim.lattices[0];
    // fill voxel 1 to capacity by hand
    for _ in 1..SITE_CAPACITY {
        assert!(l0.add_particle_idx(1, 1).is_ok());
    }
    let before_occ = l0.occupancy.clone();
    let moved = l0.rdme_hop(0, 1, 1);
    assert!(!moved);
    assert_eq!(l0.occupancy, before_occ);
}

#[test]
fn reaction_applies_stoichiometry() {
    // A + B -> C in one voxel: counts move by the row and the slots are
    // rebuilt densely in species order
    let mut sim = Simulation::new(unit_params([1, 1, 1]));
    sim.prepare_regions();
    sim.add_particle_count("A".to_string(), &"background".to_string(), 2, false, false)
        .unwrap();
    sim.add_particle_count("B".to_string(), &"background".to_string(), 1, false, false)
        .unwrap();
    sim.add_particle_count("C".to_string(), &"background".to_string(), 0, false, false)
        .unwrap();
    sim.add_reaction(
        &vec!["A".to_string(), "B".to_string()],
        &vec!["C".to_string()],
        0,
    )
    .unwrap();
    let row = sim.stoichiometry_matrix[0].clone();
    assert_eq!(row, vec![0, -1, -1, 1]);
    let l0 = &mut sim.lattices[0];
    let applied = l0.cme_apply(0, &row);
    assert!(applied);
    assert_eq!(l0.concentrations[1], 1); // A: 2 - 1
    assert_eq!(l0.concentrations[2], 0); // B: 1 - 1
    assert_eq!(l0.concentrations[3], 1); // C: 0 + 1
    assert_eq!(l0.occupancy[0], 2);
    // slots are dense and ordered by species ID
    assert_eq!(l0.lattice[0], 1);
    assert_eq!(l0.lattice[1], 3);
    for s in 2..SITE_CAPACITY as usize {
        assert_eq!(l0.lattice[s], 0);
    }
}

#[test]
fn reaction_without_reactants_does_not_apply() {
    let mut sim = Simulation::new(unit_params([1, 1, 1]));
    sim.prepare_regions();
    sim.add_particle_count("A".to_string(), &"background".to_string(), 0, false, false)
        .unwrap();
    sim.add_particle_count("B".to_string(), &"background".to_string(), 0, false, false)
        .unwrap();
    let row = vec![0, -1, 1];
    let l0 = &mut sim.lattices[0];
    let before = l0.concentrations.clone();
    let applied = l0.cme_apply(0, &row);
    assert!(!applied);
    assert_eq!(l0.concentrations, before);
}

#[test]
fn reservoir_voxel_is_frozen_by_reactions() {
    // reservoir voxels never change their token multiset as a result of
    // reactions
    let mut sim = Simulation::new(unit_params([1, 1, 1]));
    sim.prepare_regions();
    sim.add_particle_count("R".to_string(), &"background".to_string(), 1, false, true)
        .unwrap();
    sim.add_particle_count("P".to_string(), &"background".to_string(), 0, false, false)
        .unwrap();
    let row = vec![0, 0, 1];
    let l0 = &mut sim.lattices[0];
    let before_conc = l0.concentrations.clone();
    let applied = l0.cme_apply(0, &row);
    assert!(!applied);
    assert_eq!(l0.concentrations, before_conc);
}

#[test]
fn idle_step_is_a_no_op() {
    // with an empty reaction set and no hop committing, repeated steps
    // leave the lattice byte-identical
    let mut sim = Simulation::new(unit_params([2, 2, 2]));
    sim.prepare_regions();
    sim.add_particle_count("A".to_string(), &"background".to_string(), 5, false, false)
        .unwrap();
    sim.sync_buffers();
    let lattice_before = sim.lattices[0].lattice.clone();
    let conc_before = sim.lattices[0].concentrations.clone();
    let zero_row = vec![0, 0];
    for _ in 0..3 {
        for v in 0..8usize {
            // an all-zero stoichiometry row reapplies the voxel unchanged
            let l0 = &mut sim.lattices[0];
            l0.cme_apply(v, &zero_row);
        }
        sim.sync_buffers();
    }
    assert_eq!(sim.lattices[0].lattice, lattice_before);
    assert_eq!(sim.lattices[0].concentrations, conc_before);
    assert_eq!(sim.lattices[1].lattice, lattice_before);
}

#[test]
fn sync_buffers_equalises_state() {
    // after the closing copy of a step, both lattice buffers hold
    // identical token and occupancy state
    let mut sim = Simulation::new(unit_params([3, 3, 3]));
    sim.prepare_regions();
    sim.add_particle_count("A".to_string(), &"background".to_string(), 9, false, false)
        .unwrap();
    assert_ne!(sim.lattices[0].occupancy, sim.lattices[1].occupancy);
    sim.sync_buffers();
    assert_eq!(sim.lattices[0].lattice, sim.lattices[1].lattice);
    assert_eq!(sim.lattices[0].occupancy, sim.lattices[1].occupancy);
}

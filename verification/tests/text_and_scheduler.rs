use rdme_sim::errors::SimError;
use rdme_sim::params::{LatticeParams, FIXED_ONE};
use rdme_sim::preprocessor::{include_targets, line_is_include, ShaderBuilder};
use rdme_sim::scheduler::{input_buffer, output_buffer, should_read_back, StepAction};
use rdme_sim::simulation::Simulation;
use rdme_sim::statistics::StatisticsGroup;
use rdme_sim::uniforms::Uniform;
use rdme_sim::utils::{numeric_token, parse_reaction_equation, split_comma, split_whitespace};

fn unit_params(res: [u32; 3]) -> LatticeParams {
    LatticeParams::new(res, [FIXED_ONE, FIXED_ONE, FIXED_ONE], 0, 0)
}

#[test]
fn split_whitespace_tokenises() {
    let words = split_whitespace("  A +  B ->\tC ");
    assert_eq!(words, vec!["A", "+", "B", "->", "C"]);
    assert_eq!(split_whitespace(""), Vec::<String>::new());
    assert_eq!(split_whitespace("   "), Vec::<String>::new());
}

#[test]
fn split_comma_keeps_empty_fields() {
    assert_eq!(split_comma("a,b,c"), vec!["a", "b", "c"]);
    assert_eq!(split_comma("a,,c"), vec!["a", "", "c"]);
    assert_eq!(split_comma(""), vec![""]);
    assert_eq!(split_comma("x,"), vec!["x", ""]);
}

#[test]
fn numeric_tokens_are_recognised() {
    assert!(numeric_token(&"2".to_string()));
    assert!(numeric_token(&"3.5".to_string()));
    assert!(numeric_token(&"-0.25".to_string()));
    assert!(numeric_token(&".5".to_string()));
    assert!(!numeric_token(&"A".to_string()));
    assert!(!numeric_token(&"+".to_string()));
    assert!(!numeric_token(&"->".to_string()));
    assert!(!numeric_token(&"1.2.3".to_string()));
    assert!(!numeric_token(&"".to_string()));
}

#[test]
fn reaction_equation_parses() {
    let (reactants, products, multipliers) = parse_reaction_equation("2 A + B -> C");
    assert_eq!(reactants, vec!["A", "B"]);
    assert_eq!(products, vec!["C"]);
    assert_eq!(multipliers, vec!["2"]);
    let (r2, p2, m2) = parse_reaction_equation("C -> A + B");
    assert_eq!(r2, vec!["C"]);
    assert_eq!(p2, vec!["A", "B"]);
    assert!(m2.is_empty());
}

#[test]
fn include_lines_are_recognised() {
    let line = "//!include rng.wgsl util.wgsl".to_string();
    assert!(line_is_include(&line));
    assert_eq!(include_targets(&line), vec!["rng.wgsl", "util.wgsl"]);
    assert!(!line_is_include(&"// plain comment".to_string()));
    let b = ShaderBuilder::new("fn main() {}".to_string());
    assert_eq!(b.source_string, "fn main() {}");
}

#[test]
fn step_plan_orders_kernels_and_copies() {
    let sim = Simulation::new(unit_params([2, 2, 2]));
    let plan = sim.step(0, 10);
    assert_eq!(plan.len(), 5);
    assert_eq!(plan[0], StepAction::DispatchRdme { input: 1, output: 0 });
    assert_eq!(plan[1], StepAction::DispatchCme { input: 1, output: 0 });
    assert_eq!(plan[2], StepAction::TexturePass { output: 0 });
    assert_eq!(plan[3], StepAction::CopyLattice { from: 0, to: 1 });
    assert_eq!(plan[4], StepAction::CopyOccupancy { from: 0, to: 1 });
    let plan10 = sim.step(10, 10);
    assert_eq!(plan10.len(), 6);
    assert_eq!(plan10[5], StepAction::ReadStatistics);
}

#[test]
fn buffer_parity_alternates() {
    assert_eq!(input_buffer(0), 1);
    assert_eq!(output_buffer(0), 0);
    assert_eq!(input_buffer(1), 0);
    assert_eq!(output_buffer(1), 1);
    assert_ne!(input_buffer(7), output_buffer(7));
}

#[test]
fn read_back_cadence_skips_frame_zero() {
    assert!(!should_read_back(0, 5));
    assert!(!should_read_back(3, 5));
    assert!(should_read_back(5, 5));
    assert!(should_read_back(10, 5));
}

#[test]
fn statistics_queue_is_fifo() {
    let mut g = StatisticsGroup::new();
    g.register("A".to_string(), 1);
    g.push_sample("A".to_string(), 42, 10);
    g.push_sample("A".to_string(), 43, 20);
    let first = g.pop_sample().unwrap();
    assert_eq!(first.value, 42);
    assert_eq!(first.iteration_count, 10);
    let second = g.pop_sample().unwrap();
    assert_eq!(second.value, 43);
    assert!(g.pop_sample().is_none());
}

#[test]
fn uniforms_advance_frames() {
    let mut u = Uniform::new(7);
    assert_eq!(u.frame_num, 0);
    assert_eq!(u.slice_axis, 2);
    u.next_frame(9);
    assert_eq!(u.frame_num, 1);
    assert_eq!(u.itime, 9);
}

#[test]
fn reaction_errors_are_reported() {
    let mut sim = Simulation::new(unit_params([2, 2, 2]));
    sim.prepare_regions();
    sim.add_particle_count("A".to_string(), &"background".to_string(), 1, false, false)
        .unwrap();
    let too_many = vec![
        "A".to_string(),
        "A".to_string(),
        "A".to_string(),
        "A".to_string(),
    ];
    assert_eq!(
        sim.add_reaction(&too_many, &vec![], 0),
        Err(SimError::Arity)
    );
    assert_eq!(
        sim.add_reaction(&vec!["Z".to_string()], &vec![], 0),
        Err(SimError::UnknownSpecies)
    );
    sim.add_reaction(&vec!["A".to_string()], &vec!["A".to_string(), "A".to_string()], 0)
        .unwrap();
    // A -> 2A nets +1 for A
    assert_eq!(sim.stoichiometry_matrix[0], vec![0, 1]);
    assert_eq!(sim.reactions_idx[0], [0, 0, 1]);
}

#[test]
fn sparse_region_scatters_inside_parent() {
    let mut sim = Simulation::new(unit_params([12, 12, 12]));
    let r = sim.add_sparse_region(
        "dots".to_string(),
        rdme_sim::regions::RegionType::Sphere {
            name: "basis".to_string(),
            center: [0, 0, 0],
            radius: 2 * FIXED_ONE,
        },
        &"background".to_string(),
        20,
        0,
    );
    assert!(r.is_ok());
    assert_eq!(sim.regions.types.len(), 2);
    let painted: u64 = sim
        .regions
        .regions
        .iter()
        .filter(|&&l| l == 1)
        .count() as u64;
    assert!(painted >= 20);
    assert_eq!(sim.regions.volumes[1] as u64, painted);
}

#[test]
fn rate_setters_touch_only_their_entries() {
    let mut sim = Simulation::new(unit_params([2, 2, 2]));
    sim.add_region(
        rdme_sim::regions::RegionType::Cube {
            name: "half".to_string(),
            p0: [0, 0, 0],
            pf: [FIXED_ONE, 2 * FIXED_ONE, 2 * FIXED_ONE],
        },
        7,
    )
    .unwrap();
    sim.prepare_regions();
    sim.add_particle_count("A".to_string(), &"background".to_string(), 1, false, false)
        .unwrap();
    let before: Vec<Vec<Vec<u32>>> = sim.diffusion_matrix.rates.clone();
    sim.set_diffusion_rate_particle(&"A".to_string(), &"half".to_string(), 99)
        .unwrap();
    for a in 0..2 {
        for b in 0..2 {
            for s in 0..2 {
                let expect = if a == 1 && b == 1 && s == 1 {
                    99
                } else {
                    before[a][b][s]
                };
                assert_eq!(sim.diffusion_matrix.rates[a][b][s], expect);
            }
        }
    }
    assert_eq!(
        sim.set_transition_rate(&"half".to_string(), &"nowhere".to_string(), 1),
        Err(SimError::UnknownRegion)
    );
    sim.set_transition_rate(&"background".to_string(), &"half".to_string(), 55)
        .unwrap();
    assert_eq!(sim.diffusion_matrix.rates[0][1][0], 55);
    assert_eq!(sim.diffusion_matrix.rates[0][1][1], 55);
    assert_eq!(sim.diffusion_matrix.rates[1][0][0], 0);
}

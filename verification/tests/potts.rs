use rand::rngs::StdRng;
use rand::{RngExt, SeedableRng};
use random_lattice_models::graph::{Graph, SquareLattice};
use random_lattice_models::model::potts_model::{
    initial_configuration, matching_bonds, neighbor_matches, propose_state,
};
use random_lattice_models::sampler::PottsHeatBathSampler;

#[test]
fn energy_counts_matching_neighbors() {
    let lattice = SquareLattice::new(2, 2, false);
    let coupling: f64 = 1.0;
    let config: Vec<u8> = vec![0, 0, 0, 0];
    let energy: f64 = -coupling * matching_bonds(&lattice, &config) as f64;
    assert_eq!(energy, -4.0);
}

#[test]
fn matching_bonds_counts_only_equal_ends() {
    let lattice = SquareLattice::new(3, 2, false);
    // Rows: [0 0 1] and [2 0 1]: horizontal matches 0-1; vertical 1-4, 2-5.
    let config = vec![0u8, 0, 1, 2, 0, 1];
    assert_eq!(matching_bonds(&lattice, &config), 3);
}

#[test]
fn neighbor_matches_counts_each_state() {
    let lattice = SquareLattice::new(3, 3, false);
    let config = vec![0u8, 1, 0, 2, 5, 1, 0, 1, 0];
    // Neighbours of the centre: 3 (2), 5 (1), 1 (1), 7 (1).
    assert_eq!(neighbor_matches(&lattice, &config, 4, 1), 3);
    assert_eq!(neighbor_matches(&lattice, &config, 4, 2), 1);
    assert_eq!(neighbor_matches(&lattice, &config, 4, 5), 0);
}

#[test]
fn changing_a_state_changes_matching_bonds_by_local_matches() {
    let lattice = SquareLattice::new(3, 3, false);
    let config = vec![0u8, 1, 0, 2, 5, 1, 0, 1, 0];
    for site in 0..9 {
        for v in 0u8..6 {
            let mut changed = config.clone();
            changed[site] = v;
            let diff: i64 = matching_bonds(&lattice, &changed) as i64 - matching_bonds(&lattice, &config) as i64;
            let local: i64 = neighbor_matches(&lattice, &config, site, v) as i64
                - neighbor_matches(&lattice, &config, site, config[site]) as i64;
            assert_eq!(diff, local);
        }
    }
}

#[test]
fn random_states_lie_below_q() {
    let lattice = SquareLattice::new(6, 5, false);
    let mut rng = StdRng::seed_from_u64(3);
    let config = initial_configuration(&lattice, 3, &mut rng);
    assert_eq!(config.len(), 30);
    assert!(config.iter().all(|&s| s < 3));
    for _ in 0..100 {
        assert!(propose_state(3, &mut rng) < 3);
    }
}

#[test]
fn q_above_a_byte_wraps() {
    let lattice = SquareLattice::new(4, 4, false);
    let mut rng = StdRng::seed_from_u64(5);
    let config = initial_configuration(&lattice, 258, &mut rng);
    assert!(config.iter().all(|&s| s < 2));
}

#[test]
fn heat_bath_sampler_counts_and_sets_states() {
    let lattice = SquareLattice::new(3, 3, false);
    let mut sampler = PottsHeatBathSampler::new(&lattice, 4, 11);
    assert_eq!(sampler.configuration().len(), 9);
    assert!(sampler.configuration().iter().all(|&s| s < 4));
    for site in 0..9 {
        sampler.set_state(site, 2);
    }
    sampler.set_state(4, 3);
    let counts = sampler.match_counts(4);
    assert_eq!(counts, vec![0, 0, 4, 0]);
    let corner = sampler.match_counts(0);
    assert_eq!(corner, vec![0, 0, 2, 0]);
    assert_eq!(sampler.configuration()[4], 3);
    let _ = sampler.rng();
    assert_eq!(sampler.configuration()[4], 3);
}

#[test]
fn renaming_states_keeps_matching_bonds() {
    let lattice = SquareLattice::new(3, 3, true);
    let config = vec![0u8, 1, 0, 2, 5, 1, 0, 1, 0];
    let renamed: Vec<u8> = config.iter().map(|&s| s.wrapping_mul(3).wrapping_add(7)).collect();
    assert_eq!(matching_bonds(&lattice, &renamed), matching_bonds(&lattice, &config));
}

#[test]
fn setting_states_leaves_the_generator_alone() {
    let lattice = SquareLattice::new(3, 3, false);
    let mut touched = PottsHeatBathSampler::new(&lattice, 4, 21);
    let mut untouched = PottsHeatBathSampler::new(&lattice, 4, 21);
    for site in 0..9 {
        touched.set_state(site, site % 4);
        let _ = touched.match_counts(site);
    }
    let a: u64 = touched.rng().random();
    let b: u64 = untouched.rng().random();
    assert_eq!(a, b);
}

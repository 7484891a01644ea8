use rand::rngs::StdRng;
use rand::{RngExt, SeedableRng};
use random_lattice_models::graph::{Graph, SquareLattice};
use random_lattice_models::model::ising_model::BoundaryCondition;
use random_lattice_models::sampler::{update_seed, ParallelIsingSampler, SpinFlipProposal};

/// The Metropolis decision of an Ising model with the given parameters.
fn metropolis_accepts(coupling: f64, field: f64, temperature: f64, p: &SpinFlipProposal) -> bool {
    let mut rng = StdRng::seed_from_u64(p.seed);
    let current: f64 = if p.current { 1.0 } else { -1.0 };
    let candidate: f64 = if p.candidate { 1.0 } else { -1.0 };
    let delta: f64 = if current == candidate {
        0.0
    } else {
        -coupling * (candidate - current) * p.neighbor_spin_sum as f64 - field * (candidate - current)
    };
    let probability: f64 = if delta <= 0.0 { 1.0 } else { (-delta / temperature).exp() };
    rng.random_bool(probability)
}

#[test]
fn parallel_sampler_preserves_fixed_plus_boundary() {
    let graph = SquareLattice::new(8, 8, false);
    let mut sampler = ParallelIsingSampler::new(&graph, BoundaryCondition::FixedPlus, 42);
    for sweep in 0..10 {
        for color in 0..2 {
            sampler.begin_phase(sweep, color);
            let accepted: Vec<bool> = sampler
                .pending()
                .iter()
                .map(|p| metropolis_accepts(1.0, 0.0, 2.0, p))
                .collect();
            sampler.finish_phase(&accepted);
        }
    }

    for site in 0..graph.site_count() {
        if graph.is_boundary(site) {
            assert!(sampler.configuration()[site]);
        }
    }
}

#[test]
fn update_seed_mixes_its_inputs() {
    assert_eq!(update_seed(42, 0, 0, 0), 5505024);
    assert_eq!(update_seed(12345, 3, 1, 17), 34811087010);
    assert_eq!(update_seed(u64::MAX, 1, 0, 0), 0);
    assert_eq!(update_seed((1u64 << 63) + 5, 2, 1, 5), 8650919342);
}

#[test]
fn colour_classes_of_a_four_by_four_lattice() {
    let graph = SquareLattice::new(4, 4, true);
    let sampler = ParallelIsingSampler::new(&graph, BoundaryCondition::Free, 1);
    assert_eq!(sampler.sites_of_color(0), vec![0, 2, 5, 7, 8, 10, 13, 15]);
    assert_eq!(sampler.sites_of_color(1), vec![1, 3, 4, 6, 9, 11, 12, 14]);
    assert!(sampler.sites_of_color(2).is_empty());
}

#[test]
fn a_phase_proposes_the_free_sites_of_its_colour() {
    let graph = SquareLattice::new(4, 3, false);
    let mut sampler = ParallelIsingSampler::new(&graph, BoundaryCondition::FixedMinus, 7);
    sampler.begin_phase(3, 1);
    let sites: Vec<usize> = sampler.pending().iter().map(|p| p.site).collect();
    // Interior sites are 5 and 6; only 6 has colour 1.
    assert_eq!(sites, vec![6]);
    let p = sampler.pending()[0];
    let config = sampler.configuration().to_vec();
    assert_eq!(p.seed, update_seed(7, 3, 1, 6));
    assert_eq!(p.current, config[6]);
    assert_eq!(p.candidate, !config[6]);
    let sum: i64 = graph.neighbors(6).iter().map(|&n| if config[n] { 1 } else { -1 }).sum();
    assert_eq!(p.neighbor_spin_sum, sum);
}

#[test]
fn finishing_a_phase_applies_exactly_the_accepted_flips() {
    let graph = SquareLattice::new(4, 4, true);
    let mut sampler = ParallelIsingSampler::new(&graph, BoundaryCondition::Free, 99);
    let before = sampler.configuration().to_vec();
    sampler.begin_phase(0, 0);
    let proposals: Vec<SpinFlipProposal> = sampler.pending().to_vec();
    assert_eq!(proposals.len(), 8);
    let accepted: Vec<bool> = (0..proposals.len()).map(|i| i % 2 == 0).collect();
    sampler.finish_phase(&accepted);
    let after = sampler.configuration().to_vec();
    for site in 0..16 {
        let flipped = proposals
            .iter()
            .zip(&accepted)
            .any(|(p, &a)| a && p.site == site);
        assert_eq!(after[site], if flipped { !before[site] } else { before[site] });
    }
    assert!(sampler.pending().is_empty());
    // The neighbour sums the proposals carried still hold after the phase.
    for p in &proposals {
        let sum: i64 = graph.neighbors(p.site).iter().map(|&n| if after[n] { 1 } else { -1 }).sum();
        assert_eq!(sum, p.neighbor_spin_sum);
    }
}

#[test]
fn update_seeds_differ_between_sites_and_colours() {
    for seed in [0u64, 42, u64::MAX] {
        for site in 0..64usize {
            for other in 0..64usize {
                if site != other {
                    assert_ne!(update_seed(seed, 5, 1, site), update_seed(seed, 5, 1, other));
                }
            }
            assert_ne!(update_seed(seed, 5, 0, site), update_seed(seed, 5, 1, site));
        }
    }
}

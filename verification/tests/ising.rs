use rand::rngs::StdRng;
use rand::SeedableRng;
use random_lattice_models::graph::{Graph, SquareLattice};
use random_lattice_models::model::ising_model::{
    bond_alignment, magnetization, neighbor_spin_sum, propose_spin, spin_change, BoundaryCondition,
};

#[test]
fn fixed_plus_boundary_is_initialized_on_every_edge_site() {
    let graph = SquareLattice::new(4, 3, false);
    let boundary = BoundaryCondition::FixedPlus;
    let mut rng = StdRng::seed_from_u64(1);
    let configuration = boundary.initial_configuration(&graph, &mut rng);

    for site in 0..graph.site_count() {
        if graph.is_boundary(site) {
            assert!(configuration[site]);
        }
    }
}

#[test]
fn fixed_minus_boundary_is_not_updated_by_sampler_hook() {
    let graph = SquareLattice::new(4, 3, false);
    let boundary = BoundaryCondition::FixedMinus;

    for site in 0..graph.site_count() {
        assert_eq!(boundary.is_site_fixed(&graph, site), graph.is_boundary(site));
    }
}

#[test]
fn fixed_minus_boundary_is_initialized_down() {
    let graph = SquareLattice::new(5, 5, false);
    let mut rng = StdRng::seed_from_u64(9);
    let configuration = BoundaryCondition::FixedMinus.initial_configuration(&graph, &mut rng);
    assert_eq!(configuration.len(), 25);
    for site in 0..graph.site_count() {
        if graph.is_boundary(site) {
            assert!(!configuration[site]);
        }
    }
}

#[test]
fn free_boundary_fixes_no_site() {
    let graph = SquareLattice::new(4, 3, false);
    for site in 0..graph.site_count() {
        assert!(!BoundaryCondition::Free.is_site_fixed(&graph, site));
    }
    let periodic = SquareLattice::new(4, 4, true);
    for site in 0..periodic.site_count() {
        assert!(!BoundaryCondition::FixedPlus.is_site_fixed(&periodic, site));
    }
}

#[test]
fn aligned_square_has_all_bonds_aligned() {
    let graph = SquareLattice::new(2, 2, false);
    assert_eq!(bond_alignment(&graph, &[true; 4]), 4);
    assert_eq!(bond_alignment(&graph, &[false; 4]), 4);
    assert_eq!(magnetization(&graph, &[true; 4]), 4);
    assert_eq!(magnetization(&graph, &[false; 4]), -4);
}

#[test]
fn checkerboard_has_all_bonds_opposed() {
    let graph = SquareLattice::new(2, 2, false);
    let config = [true, false, false, true];
    assert_eq!(bond_alignment(&graph, &config), -4);
    assert_eq!(magnetization(&graph, &config), 0);
}

#[test]
fn periodic_width_two_counts_double_bonds_twice() {
    let graph = SquareLattice::new(2, 2, true);
    // Every site has each other site of its row and column twice as neighbour.
    assert_eq!(bond_alignment(&graph, &[true; 4]), 8);
}

#[test]
fn neighbor_spin_sum_of_centre() {
    let graph = SquareLattice::new(3, 3, false);
    let config = [true, true, false, false, true, true, true, false, true];
    // Neighbours of 4 are 3 (down), 5 (up), 1 (up), 7 (down).
    assert_eq!(neighbor_spin_sum(&graph, &config, 4), 0);
    // Neighbours of 0 are 1 (up), 3 (down).
    assert_eq!(neighbor_spin_sum(&graph, &config, 0), 0);
    // Neighbours of 2 are 1 (up), 5 (up).
    assert_eq!(neighbor_spin_sum(&graph, &config, 2), 2);
}

#[test]
fn spin_change_and_proposal() {
    assert_eq!(spin_change(true, true), 0);
    assert_eq!(spin_change(false, true), 2);
    assert_eq!(spin_change(true, false), -2);
    assert!(!propose_spin(true));
    assert!(propose_spin(false));
}

#[test]
fn a_flip_changes_the_alignment_by_the_local_term() {
    let graph = SquareLattice::new(3, 3, false);
    let config = vec![true, true, false, false, true, true, true, false, true];
    for site in 0..9 {
        let mut flipped = config.clone();
        flipped[site] = !config[site];
        let before: i128 = bond_alignment(&graph, &config);
        let after: i128 = bond_alignment(&graph, &flipped);
        let local: i128 = spin_change(config[site], flipped[site]) as i128
            * neighbor_spin_sum(&graph, &config, site) as i128;
        assert_eq!(after - before, local);
        let dm: i64 = magnetization(&graph, &flipped) - magnetization(&graph, &config);
        assert_eq!(dm, spin_change(config[site], flipped[site]));
    }
}

#[test]
fn longer_configuration_ignores_extra_entries() {
    let graph = SquareLattice::new(2, 1, false);
    assert_eq!(magnetization(&graph, &[true, true, false, false]), 2);
    assert_eq!(bond_alignment(&graph, &[true, false, true]), -1);
}

#[test]
fn reversing_every_spin_keeps_alignment_and_negates_magnetization() {
    let graph = SquareLattice::new(3, 4, false);
    let config = vec![true, true, false, false, true, true, true, false, true, false, false, true];
    let reversed: Vec<bool> = config.iter().map(|b| !b).collect();
    assert_eq!(bond_alignment(&graph, &reversed), bond_alignment(&graph, &config));
    assert_eq!(magnetization(&graph, &reversed), -magnetization(&graph, &config));
}

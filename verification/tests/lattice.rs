use random_lattice_models::graph::{Graph, SquareLattice};

#[test]
fn lattice_reports_its_dimensions() {
    let lattice = SquareLattice::new(4, 3, true);
    assert_eq!(lattice.width(), 4);
    assert_eq!(lattice.height(), 3);
    assert!(lattice.periodic());
    assert_eq!(lattice.site_count(), 12);
}

#[test]
fn free_lattice_neighbors_of_interior_and_corner_sites() {
    let lattice = SquareLattice::new(3, 3, false);
    // Centre (1, 1): left, right, below, above.
    assert_eq!(lattice.neighbors(4), vec![3, 5, 1, 7]);
    // Corner (0, 0): only right and above.
    assert_eq!(lattice.neighbors(0), vec![1, 3]);
    // Corner (2, 2): only left and below.
    assert_eq!(lattice.neighbors(8), vec![7, 5]);
    // Edge (1, 0): left, right, above.
    assert_eq!(lattice.neighbors(1), vec![0, 2, 4]);
}

#[test]
fn periodic_lattice_neighbors_wrap_around() {
    let lattice = SquareLattice::new(4, 4, true);
    assert_eq!(lattice.neighbors(0), vec![3, 1, 12, 4]);
    assert_eq!(lattice.neighbors(15), vec![14, 12, 11, 3]);
}

#[test]
fn periodic_lattice_of_width_two_lists_a_neighbor_twice() {
    let lattice = SquareLattice::new(2, 3, true);
    assert_eq!(lattice.neighbors(0), vec![1, 1, 4, 2]);
}

#[test]
fn periodic_lattice_of_width_one_is_its_own_horizontal_neighbor() {
    let lattice = SquareLattice::new(1, 3, true);
    assert_eq!(lattice.neighbors(1), vec![1, 1, 0, 2]);
}

#[test]
fn neighbor_relation_is_symmetric_on_small_lattices() {
    for &(w, h, p) in &[(3usize, 4usize, false), (4, 4, true), (2, 3, true), (5, 1, false)] {
        let lattice = SquareLattice::new(w, h, p);
        let n: usize = lattice.site_count();
        for s in 0..n {
            for t in 0..n {
                let st: usize = lattice.neighbors(s).iter().filter(|&&x| x == t).count();
                let ts: usize = lattice.neighbors(t).iter().filter(|&&x| x == s).count();
                assert_eq!(st, ts);
            }
        }
    }
}

#[test]
fn boundary_sites_of_a_free_lattice() {
    let lattice = SquareLattice::new(4, 3, false);
    let boundary: Vec<bool> = (0..12).map(|s| lattice.is_boundary(s)).collect();
    assert_eq!(
        boundary,
        vec![true, true, true, true, true, false, false, true, true, true, true, true]
    );
    // Interior sites have four neighbours, boundary sites fewer.
    for s in 0..12 {
        assert_eq!(lattice.is_boundary(s), lattice.neighbors(s).len() < 4);
    }
}

#[test]
fn periodic_lattice_has_no_boundary() {
    let lattice = SquareLattice::new(4, 3, true);
    for s in 0..12 {
        assert!(!lattice.is_boundary(s));
        assert_eq!(lattice.neighbors(s).len(), 4);
    }
}

#[test]
fn single_row_lattice_is_all_boundary() {
    let lattice = SquareLattice::new(5, 1, false);
    for s in 0..5 {
        assert!(lattice.is_boundary(s));
    }
}

#[test]
fn empty_graph_has_no_sites_and_no_neighbors() {
    let empty = ();
    assert_eq!(empty.site_count(), 0);
    assert!(empty.neighbors(7).is_empty());
}

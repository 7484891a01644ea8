//! The q-state Potts model's combinatorics: random states, the count of
//! matching bonds its energy is made of, and how it changes with one site.
use vstd::prelude::*;
use rand::rngs::StdRng;
use crate::graph::{as_ints, Graph, LatticeShape, SquareLattice};
use crate::lattice_laws::{lemma_neighbor_count, lemma_neighbors_are_sites};
use crate::model::bonds::{bond_sum, lemma_bond_sum_relabel, lemma_bond_sum_update, local_sum, symmetric, upper_bond_sum};
use crate::random::random_below;

verus! {

/// 1 for two equal states, 0 for two different ones.
pub open spec fn same_state() -> spec_fn(u8, u8) -> int {
    |a: u8, b: u8| if a == b {
        1int
    } else {
        0int
    }
}

/// The number of bonds of the lattice whose two ends hold the same state; the
/// Potts energy is `-coupling` times this.
pub open spec fn matching_bond_count(shape: LatticeShape, config: Seq<u8>) -> int {
    bond_sum(shape, config, same_state(), shape.site_count() as int)
}

/// The number of sites in `nbrs` that hold `state`.
pub open spec fn state_matches(config: Seq<u8>, nbrs: Seq<int>, state: u8) -> int {
    local_sum(config, same_state(), state, nbrs)
}

/// The states a q-state model draws: `0..q`, with `q` taken modulo 256 as a
/// byte.
pub open spec fn state_bound(q: usize) -> int {
    q as int % 256
}

/// A starting configuration: each site, in order, gets a state drawn from
/// `rng` below `q` (taken as a byte).
pub fn initial_configuration(graph: &SquareLattice, q: usize, rng: &mut StdRng) -> (config: Vec<u8>)
    requires
        graph@.wf(),
        state_bound(q) > 0,
    ensures
        config@.len() == graph@.site_count(),
        forall|i: int| 0 <= i < config@.len() ==> #[trigger] config@[i] < state_bound(q),
{
    let bound: u8 = (q % 256) as u8;
    let n: usize = graph.site_count();
    let mut config: Vec<u8> = Vec::new();
    let mut site: usize = 0;
    while site < n
        invariant
            n == graph@.site_count(),
            bound == state_bound(q),
            bound > 0,
            site <= n,
            config@.len() == site,
            forall|i: int| 0 <= i < config@.len() ==> #[trigger] config@[i] < bound,
        decreases n - site,
    {
        let state: u8 = random_below(rng, bound);
        config.push(state);
        site += 1;
    }
    config
}

/// The state a Metropolis step proposes: a fresh draw below `q` (as a byte).
pub fn propose_state(q: usize, rng: &mut StdRng) -> (candidate: u8)
    requires
        state_bound(q) > 0,
    ensures
        candidate < state_bound(q),
{
    random_below(rng, (q % 256) as u8)
}

/// The number of bonds whose two ends hold the same state.
pub fn matching_bonds(graph: &SquareLattice, configuration: &[u8]) -> (total: u128)
    requires
        graph@.wf(),
        configuration@.len() >= graph@.site_count(),
    ensures
        total == matching_bond_count(graph@, configuration@),
{
    let ghost shape = graph@;
    let ghost f = same_state();
    let n: usize = graph.site_count();
    let mut total: u128 = 0;
    let mut site: usize = 0;
    while site < n
        invariant
            shape == graph@,
            shape.wf(),
            f == same_state(),
            n == shape.site_count(),
            site <= n,
            configuration@.len() >= n,
            total == bond_sum(shape, configuration@, f, site as int),
            total <= 4 * site,
        decreases n - site,
    {
        let neighbors = graph.neighbors(site);
        let ghost nbrs = as_ints(neighbors@);
        proof {
            lemma_neighbors_are_sites(shape, site as int);
            lemma_neighbor_count(shape, site as int);
        }
        let state: u8 = configuration[site];
        let mut upper: u128 = 0;
        let mut j: usize = 0;
        while j < neighbors.len()
            invariant
                nbrs == as_ints(neighbors@),
                nbrs == shape.neighbors(site as int),
                nbrs.len() <= 4,
                forall|i: int| 0 <= i < nbrs.len() ==> shape.is_site(#[trigger] nbrs[i]),
                shape.wf(),
                f == same_state(),
                site < n,
                n == shape.site_count(),
                configuration@.len() >= n,
                state == configuration@[site as int],
                j <= neighbors.len(),
                upper == upper_bond_sum(configuration@, f, site as int, nbrs.take(j as int)),
                upper <= j,
            decreases neighbors.len() - j,
        {
            let neighbor: usize = neighbors[j];
            assert(shape.is_site(nbrs[j as int]));
            if neighbor > site && configuration[neighbor] == state {
                upper = upper + 1;
            }
            assert(nbrs.take(j + 1).drop_last() =~= nbrs.take(j as int));
            j += 1;
        }
        assert(nbrs.take(neighbors.len() as int) =~= nbrs);
        total = total + upper;
        site += 1;
    }
    total
}

/// The number of neighbours of `site` that hold `state`.
pub fn neighbor_matches(graph: &SquareLattice, configuration: &[u8], site: usize, state: u8) -> (count: usize)
    requires
        graph@.wf(),
        graph@.is_site(site as int),
        configuration@.len() >= graph@.site_count(),
    ensures
        count == state_matches(configuration@, graph@.neighbors(site as int), state),
        count <= 4,
{
    let ghost shape = graph@;
    let neighbors = graph.neighbors(site);
    let ghost nbrs = as_ints(neighbors@);
    proof {
        lemma_neighbors_are_sites(shape, site as int);
        lemma_neighbor_count(shape, site as int);
    }
    let mut count: usize = 0;
    let mut j: usize = 0;
    while j < neighbors.len()
        invariant
            nbrs == as_ints(neighbors@),
            nbrs == shape.neighbors(site as int),
            nbrs.len() <= 4,
            forall|i: int| 0 <= i < nbrs.len() ==> shape.is_site(#[trigger] nbrs[i]),
            configuration@.len() >= shape.site_count(),
            j <= neighbors.len(),
            count == state_matches(configuration@, nbrs.take(j as int), state),
            count <= j,
        decreases neighbors.len() - j,
    {
        let neighbor: usize = neighbors[j];
        assert(shape.is_site(nbrs[j as int]));
        if configuration[neighbor] == state {
            count = count + 1;
        }
        assert(nbrs.take(j + 1).drop_last() =~= nbrs.take(j as int));
        j += 1;
    }
    assert(nbrs.take(neighbors.len() as int) =~= nbrs);
    count
}

/// Setting `site` to `v` changes the number of matching bonds by the number
/// of its neighbours that hold `v` less the number that hold its old state.
/// This holds on every lattice on which no site neighbours itself.
pub proof fn lemma_matching_bonds_change(shape: LatticeShape, config: Seq<u8>, site: int, v: u8)
    requires
        shape.wf(),
        config.len() >= shape.site_count(),
        shape.is_site(site),
        !shape.periodic || (shape.width >= 2 && shape.height >= 2),
    ensures
        matching_bond_count(shape, config.update(site, v)) - matching_bond_count(shape, config)
            == state_matches(config, shape.neighbors(site), v) - state_matches(
            config,
            shape.neighbors(site),
            config[site],
        ),
{
    let f = same_state();
    assert(symmetric(f)) by {
        assert forall|a: u8, b: u8| #[trigger] f(a, b) == f(b, a) by {}
    }
    lemma_bond_sum_update(shape, config, f, site, v);
}

/// The matching-bond count, and so the Potts energy, depends only on which
/// neighbours agree, not on the names of the states: renaming the states by
/// any one-to-one map leaves it unchanged.
pub proof fn lemma_relabel_states(shape: LatticeShape, config: Seq<u8>, rename: spec_fn(u8) -> u8)
    requires
        shape.wf(),
        config.len() >= shape.site_count(),
        forall|a: u8, b: u8| #[trigger] rename(a) == #[trigger] rename(b) ==> a == b,
    ensures
        matching_bond_count(shape, config.map_values(rename)) == matching_bond_count(shape, config),
{
    let f = same_state();
    assert forall|a: u8, b: u8| #[trigger] f(rename(a), rename(b)) == f(a, b) by {
        if rename(a) == rename(b) {
            assert(a == b);
        }
    }
    lemma_bond_sum_relabel(shape, config, f, rename, shape.site_count() as int);
}

} // verus!

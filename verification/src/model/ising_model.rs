//! The Ising model's combinatorics: boundary spins, the spin sums its energy
//! is made of, and how they change when one spin flips.
use vstd::prelude::*;
use rand::rngs::StdRng;
use crate::graph::{as_ints, Graph, LatticeShape, SquareLattice};
use crate::lattice_laws::{lemma_neighbor_count, lemma_neighbors_are_sites};
use crate::model::bonds::{bond_sum, lemma_bond_sum_relabel, lemma_bond_sum_update, local_sum, symmetric, upper_bond_sum};
use crate::random::random_ratio;

verus! {

/// The boundary conditions of an Ising model on a lattice with free edges.
#[derive(Debug, Clone, Copy, PartialEq, Eq, Structural)]
pub enum BoundaryCondition {
    Free,
    FixedPlus,
    FixedMinus,
}

/// The value of a spin: +1 for up (`true`), -1 for down.
pub open spec fn spin(up: bool) -> int {
    if up {
        1
    } else {
        -1
    }
}

/// The product of two spins: +1 when they agree, -1 when they differ.
pub open spec fn spin_product() -> spec_fn(bool, bool) -> int {
    |a: bool, b: bool| if a == b {
        1int
    } else {
        -1int
    }
}

/// The sum of `s_i * s_j` over the bonds of the lattice, each counted once.
pub open spec fn alignment(shape: LatticeShape, config: Seq<bool>) -> int {
    bond_sum(shape, config, spin_product(), shape.site_count() as int)
}

/// The sum of the first `k` spins.
pub open spec fn spin_total(config: Seq<bool>, k: int) -> int
    decreases k,
{
    if k <= 0 {
        0
    } else {
        spin_total(config, k - 1) + spin(config[k - 1])
    }
}

/// The sum of the spins at the sites in `nbrs`.
pub open spec fn spin_sum(config: Seq<bool>, nbrs: Seq<int>) -> int
    decreases nbrs.len(),
{
    if nbrs.len() == 0 {
        0
    } else {
        spin_sum(config, nbrs.drop_last()) + spin(config[nbrs.last()])
    }
}

/// The spin that the boundary condition fixes at a site, if any: boundary
/// sites of a free lattice are held up or down, every other site is free.
pub open spec fn fixed_spin(shape: LatticeShape, boundary: BoundaryCondition, site: int) -> Option<bool> {
    if !shape.is_boundary(site) {
        None
    } else {
        match boundary {
            BoundaryCondition::Free => None,
            BoundaryCondition::FixedPlus => Some(true),
            BoundaryCondition::FixedMinus => Some(false),
        }
    }
}

/// A configuration of the lattice's sites that holds every fixed spin.
pub open spec fn respects_boundary(shape: LatticeShape, boundary: BoundaryCondition, config: Seq<bool>) -> bool {
    forall|site: int|
        0 <= site < shape.site_count() && #[trigger] fixed_spin(shape, boundary, site) is Some
            ==> config[site] == fixed_spin(shape, boundary, site)->0
}

impl BoundaryCondition {
    fn boundary_spin(&self, graph: &SquareLattice, site: usize) -> (s: Option<bool>)
        requires
            graph@.wf(),
        ensures
            s == fixed_spin(graph@, *self, site as int),
    {
        if !graph.is_boundary(site) {
            return None;
        }
        match self {
            BoundaryCondition::Free => None,
            BoundaryCondition::FixedPlus => Some(true),
            BoundaryCondition::FixedMinus => Some(false),
        }
    }

    /// Whether the boundary condition holds the spin at `site` fixed, so that
    /// no sampler may change it.
    pub fn is_site_fixed(&self, graph: &SquareLattice, site: usize) -> (fixed: bool)
        requires
            graph@.wf(),
        ensures
            fixed == fixed_spin(graph@, *self, site as int) is Some,
    {
        self.boundary_spin(graph, site).is_some()
    }

    /// A starting configuration: each fixed site holds its fixed spin, every
    /// other site gets a fair coin flip from `rng`, site by site in order.
    pub fn initial_configuration(&self, graph: &SquareLattice, rng: &mut StdRng) -> (config: Vec<bool>)
        requires
            graph@.wf(),
        ensures
            config@.len() == graph@.site_count(),
            respects_boundary(graph@, *self, config@),
    {
        let n: usize = graph.site_count();
        let mut config: Vec<bool> = Vec::new();
        let mut site: usize = 0;
        while site < n
            invariant
                graph@.wf(),
                n == graph@.site_count(),
                site <= n,
                config@.len() == site,
                forall|s: int|
                    0 <= s < site && #[trigger] fixed_spin(graph@, *self, s) is Some ==> config@[s]
                        == fixed_spin(graph@, *self, s)->0,
            decreases n - site,
        {
            let spin = match self.boundary_spin(graph, site) {
                Some(fixed) => fixed,
                None => random_ratio(rng, 1, 2),
            };
            config.push(spin);
            site += 1;
        }
        config
    }
}

/// The spin a Metropolis step proposes: the flipped one.
pub fn propose_spin(current: bool) -> (candidate: bool)
    ensures
        candidate == !current,
{
    !current
}

/// The sum of `s_i * s_j` over the bonds of the lattice; the Ising energy is
/// `-coupling` times this, minus `field` times the magnetization.
pub fn bond_alignment(graph: &SquareLattice, configuration: &[bool]) -> (total: i128)
    requires
        graph@.wf(),
        configuration@.len() >= graph@.site_count(),
    ensures
        total == alignment(graph@, configuration@),
{
    let ghost shape = graph@;
    let ghost f = spin_product();
    let n: usize = graph.site_count();
    let mut total: i128 = 0;
    let mut site: usize = 0;
    while site < n
        invariant
            shape == graph@,
            shape.wf(),
            f == spin_product(),
            n == shape.site_count(),
            site <= n,
            configuration@.len() >= n,
            total == bond_sum(shape, configuration@, f, site as int),
            -4 * site <= total <= 4 * site,
        decreases n - site,
    {
        let neighbors = graph.neighbors(site);
        let ghost nbrs = as_ints(neighbors@);
        proof {
            lemma_neighbors_are_sites(shape, site as int);
            lemma_neighbor_count(shape, site as int);
        }
        let spin = configuration[site];
        let mut upper: i128 = 0;
        let mut j: usize = 0;
        while j < neighbors.len()
            invariant
                nbrs == as_ints(neighbors@),
                nbrs == shape.neighbors(site as int),
                nbrs.len() <= 4,
                forall|i: int| 0 <= i < nbrs.len() ==> shape.is_site(#[trigger] nbrs[i]),
                shape.wf(),
                f == spin_product(),
                site < n,
                n == shape.site_count(),
                configuration@.len() >= n,
                spin == configuration@[site as int],
                j <= neighbors.len(),
                upper == upper_bond_sum(configuration@, f, site as int, nbrs.take(j as int)),
                -(j as int) <= upper <= j,
            decreases neighbors.len() - j,
        {
            let neighbor: usize = neighbors[j];
            assert(shape.is_site(nbrs[j as int]));
            if neighbor > site {
                if configuration[neighbor] == spin {
                    upper = upper + 1;
                } else {
                    upper = upper - 1;
                }
            }
            assert(nbrs.take(j + 1).drop_last() =~= nbrs.take(j as int));
            j += 1;
        }
        assert(nbrs.take(neighbors.len() as int) =~= nbrs);
        total = total + upper;
        site += 1;
    }
    total
}

/// The sum of the spins of the lattice's sites (the first `site_count`
/// entries of the configuration).
pub fn magnetization(graph: &SquareLattice, configuration: &[bool]) -> (total: i64)
    requires
        graph@.wf(),
        configuration@.len() >= graph@.site_count(),
    ensures
        total == spin_total(configuration@, graph@.site_count() as int),
{
    let n: usize = graph.site_count();
    let mut total: i64 = 0;
    let mut site: usize = 0;
    while site < n
        invariant
            n == graph@.site_count(),
            n <= isize::MAX,
            site <= n,
            configuration@.len() >= n,
            total == spin_total(configuration@, site as int),
            -(site as int) <= total <= site,
        decreases n - site,
    {
        if configuration[site] {
            total = total + 1;
        } else {
            total = total - 1;
        }
        site += 1;
    }
    total
}

/// The sum of the spins neighbouring `site`: flipping that site from `s` to
/// `-s` changes the bond alignment by `-2 * s` times this sum.
pub fn neighbor_spin_sum(graph: &SquareLattice, configuration: &[bool], site: usize) -> (total: i64)
    requires
        graph@.wf(),
        graph@.is_site(site as int),
        configuration@.len() >= graph@.site_count(),
    ensures
        total == spin_sum(configuration@, graph@.neighbors(site as int)),
        -4 <= total <= 4,
{
    let ghost shape = graph@;
    let neighbors = graph.neighbors(site);
    let ghost nbrs = as_ints(neighbors@);
    proof {
        lemma_neighbors_are_sites(shape, site as int);
        lemma_neighbor_count(shape, site as int);
    }
    let mut total: i64 = 0;
    let mut j: usize = 0;
    while j < neighbors.len()
        invariant
            nbrs == as_ints(neighbors@),
            nbrs == shape.neighbors(site as int),
            nbrs.len() <= 4,
            forall|i: int| 0 <= i < nbrs.len() ==> shape.is_site(#[trigger] nbrs[i]),
            configuration@.len() >= shape.site_count(),
            j <= neighbors.len(),
            total == spin_sum(configuration@, nbrs.take(j as int)),
            -(j as int) <= total <= j,
        decreases neighbors.len() - j,
    {
        let neighbor: usize = neighbors[j];
        assert(shape.is_site(nbrs[j as int]));
        if configuration[neighbor] {
            total = total + 1;
        } else {
            total = total - 1;
        }
        assert(nbrs.take(j + 1).drop_last() =~= nbrs.take(j as int));
        j += 1;
    }
    assert(nbrs.take(neighbors.len() as int) =~= nbrs);
    total
}

/// The change of a spin from `current` to `candidate`: 0 when they agree,
/// +2 or -2 otherwise.
pub fn spin_change(current: bool, candidate: bool) -> (change: i64)
    ensures
        change == spin(candidate) - spin(current),
{
    if current == candidate {
        0
    } else if candidate {
        2
    } else {
        -2
    }
}

/// With a fixed boundary condition the fixed sites are exactly the boundary
/// sites, held up under `FixedPlus` and down under `FixedMinus`; with a free
/// boundary condition no site is fixed.
pub proof fn lemma_fixed_sites_are_boundary(shape: LatticeShape, boundary: BoundaryCondition, site: int)
    ensures
        boundary == BoundaryCondition::Free ==> fixed_spin(shape, boundary, site) is None,
        boundary != BoundaryCondition::Free ==> (fixed_spin(shape, boundary, site) is Some
            <==> shape.is_boundary(site)),
        fixed_spin(shape, boundary, site) is Some ==> fixed_spin(shape, boundary, site)->0 == (
        boundary == BoundaryCondition::FixedPlus),
{
}

/// The configuration with every spin reversed.
pub open spec fn flipped(config: Seq<bool>) -> Seq<bool> {
    config.map_values(|b: bool| !b)
}

/// Reversing every spin keeps every bond's alignment and negates the
/// magnetization; so the energy with field `h` of the reversed configuration
/// is the energy with field `-h` of the original one, and with no field the
/// energy is unchanged.
pub proof fn lemma_global_flip(shape: LatticeShape, config: Seq<bool>)
    requires
        shape.wf(),
        config.len() >= shape.site_count(),
    ensures
        alignment(shape, flipped(config)) == alignment(shape, config),
        spin_total(flipped(config), shape.site_count() as int) == -spin_total(
            config,
            shape.site_count() as int,
        ),
{
    let f = spin_product();
    let m = |b: bool| !b;
    assert forall|a: bool, b: bool| #[trigger] f(m(a), m(b)) == f(a, b) by {}
    lemma_bond_sum_relabel(shape, config, f, m, shape.site_count() as int);
    lemma_spin_total_flip(config, shape.site_count() as int);
}

proof fn lemma_spin_total_flip(config: Seq<bool>, k: int)
    requires
        k <= config.len(),
    ensures
        spin_total(flipped(config), k) == -spin_total(config, k),
    decreases k,
{
    if k > 0 {
        lemma_spin_total_flip(config, k - 1);
    }
}

/// Two configurations that agree on a set of sites have the same spin sum
/// over it.
pub proof fn lemma_spin_sum_agree(a: Seq<bool>, b: Seq<bool>, nbrs: Seq<int>)
    requires
        forall|k: int| 0 <= k < nbrs.len() ==> a[#[trigger] nbrs[k]] == b[nbrs[k]],
    ensures
        spin_sum(a, nbrs) == spin_sum(b, nbrs),
    decreases nbrs.len(),
{
    if nbrs.len() > 0 {
        let prefix = nbrs.drop_last();
        assert forall|k: int| 0 <= k < prefix.len() implies a[#[trigger] prefix[k]] == b[prefix[k]] by {
            assert(prefix[k] == nbrs[k]);
        }
        lemma_spin_sum_agree(a, b, prefix);
        assert(a[nbrs[nbrs.len() - 1]] == b[nbrs[nbrs.len() - 1]]);
    }
}

/// The local sum of spin products at one site is its spin times the sum of
/// its neighbours' spins.
proof fn lemma_local_alignment(config: Seq<bool>, v: bool, nbrs: Seq<int>)
    ensures
        local_sum(config, spin_product(), v, nbrs) == spin(v) * spin_sum(config, nbrs),
    decreases nbrs.len(),
{
    if nbrs.len() > 0 {
        lemma_local_alignment(config, v, nbrs.drop_last());
    }
    if v {
        assert(spin(v) * spin_sum(config, nbrs) == spin_sum(config, nbrs));
    } else {
        assert(spin(v) * spin_sum(config, nbrs) == -spin_sum(config, nbrs));
    }
}

/// The sum of the first `k` spins changes by the change of one spin among them.
proof fn lemma_spin_total_update(config: Seq<bool>, site: int, v: bool, k: int)
    requires
        0 <= site < config.len(),
        k <= config.len(),
    ensures
        spin_total(config.update(site, v), k) - spin_total(config, k) == if site < k {
            spin(v) - spin(config[site])
        } else {
            0
        },
    decreases k,
{
    if k > 0 {
        lemma_spin_total_update(config, site, v, k - 1);
    }
}

/// Setting the spin at `site` to `v` changes the bond alignment by the change
/// of that spin times the sum of its neighbours' spins, and the magnetization
/// by the change of that spin; so the energy difference of two
/// configurations one flip apart is what a Metropolis step computes locally.
/// This holds on every lattice on which no site neighbours itself.
pub proof fn lemma_flip_energy_change(shape: LatticeShape, config: Seq<bool>, site: int, v: bool)
    requires
        shape.wf(),
        config.len() >= shape.site_count(),
        shape.is_site(site),
        !shape.periodic || (shape.width >= 2 && shape.height >= 2),
    ensures
        alignment(shape, config.update(site, v)) - alignment(shape, config) == (spin(v) - spin(
            config[site],
        )) * spin_sum(config, shape.neighbors(site)),
        spin_total(config.update(site, v), shape.site_count() as int) - spin_total(
            config,
            shape.site_count() as int,
        ) == spin(v) - spin(config[site]),
{
    let f = spin_product();
    assert(symmetric(f)) by {
        assert forall|a: bool, b: bool| #[trigger] f(a, b) == f(b, a) by {}
    }
    lemma_bond_sum_update(shape, config, f, site, v);
    let nbrs = shape.neighbors(site);
    lemma_local_alignment(config, v, nbrs);
    lemma_local_alignment(config, config[site], nbrs);
    let total: int = spin_sum(config, nbrs);
    if v {
        if config[site] {
            assert((spin(v) - spin(config[site])) * total == 0) by (nonlinear_arith)
                requires
                    spin(v) - spin(config[site]) == 0,
            ;
        } else {
            assert((spin(v) - spin(config[site])) * total == 2 * total);
        }
    } else {
        if config[site] {
            assert((spin(v) - spin(config[site])) * total == -2 * total);
        } else {
            assert((spin(v) - spin(config[site])) * total == 0) by (nonlinear_arith)
                requires
                    spin(v) - spin(config[site]) == 0,
            ;
        }
    }
    lemma_spin_total_update(config, site, v, shape.site_count() as int);
}

} // verus!

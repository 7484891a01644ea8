//! The decisions of the lattice samplers. The floating-point acceptance and
//! heat-bath weights are left to the caller; the library decides which sites
//! are updated, with which inputs, and applies the outcome.
use vstd::prelude::*;
use rand::rngs::StdRng;
use crate::graph::{as_ints, Graph, LatticeShape, SquareLattice};
use crate::lattice_laws::{lemma_checkerboard_neighbors_differ, lemma_neighbors_are_sites};
use crate::model::ising_model::{fixed_spin, lemma_spin_sum_agree, neighbor_spin_sum, respects_boundary, spin_sum, BoundaryCondition};
use crate::model::potts_model::{initial_configuration, neighbor_matches, state_bound, state_matches};
use crate::random::seeded_rng;

verus! {

/// `x` rotated left by `n` bits, for `0 < n < 64`.
pub open spec fn rotated_left(x: u64, n: u32) -> u64 {
    (x << n) | (x >> ((64 - n) as u32))
}

/// `x` rotated left by `n` bits, `0 < n < 64`: the bits shifted out at the
/// left come back in at the right.
fn rotate_left(x: u64, n: u32) -> (r: u64)
    requires
        0 < n < 64,
    ensures
        r == rotated_left(x, n),
{
    (x << n) | (x >> (64 - n))
}

/// The seed of the generator that decides one site's update in one sweep and
/// colour phase of the checkerboard sampler.
pub open spec fn update_seed_of(seed: u64, sweep: usize, color: usize, site: usize) -> u64 {
    rotated_left(vstd::wrapping::u64_specs::wrapping_add(seed, sweep as u64), 17)
        ^ vstd::wrapping::u64_specs::wrapping_mul(color as u64, 0x9E37_79B9)
        ^ vstd::wrapping::u64_specs::wrapping_mul(site as u64, 0x85EB_CA6B)
}

/// Mixes the sampler's seed with the sweep, colour and site into the seed of
/// the generator for that one update.
pub fn update_seed(seed: u64, sweep: usize, color: usize, site: usize) -> (mixed: u64)
    ensures
        mixed == update_seed_of(seed, sweep, color, site),
{
    rotate_left(seed.wrapping_add(sweep as u64), 17) ^ (color as u64).wrapping_mul(0x9E37_79B9) ^ (
    site as u64).wrapping_mul(0x85EB_CA6B)
}

/// Multiplying by `k` modulo 2^64 loses nothing when `k` has an inverse
/// `inv` modulo 2^64 (`k * inv == 1 + u * 2^64`), as every odd `k` does.
proof fn lemma_wrapping_mul_injective(a: u64, b: u64, k: u64, inv: int, u: int)
    requires
        k as int * inv == 1 + u * 0x1_0000_0000_0000_0000int,
        vstd::wrapping::u64_specs::wrapping_mul(a, k) == vstd::wrapping::u64_specs::wrapping_mul(b, k),
    ensures
        a == b,
{
    let m: int = 0x1_0000_0000_0000_0000int;
    let ak: int = a as int * k as int;
    let bk: int = b as int * k as int;
    assert(ak >= 0 && bk >= 0) by (nonlinear_arith)
        requires
            ak == a as int * k as int,
            bk == b as int * k as int,
            a >= 0,
            b >= 0,
            k >= 0,
    ;
    assert(ak % m == bk % m) by {
        vstd::arithmetic::div_mod::lemma_mod_bound(ak, m);
        vstd::arithmetic::div_mod::lemma_mod_bound(bk, m);
    }
    vstd::arithmetic::div_mod::lemma_fundamental_div_mod(ak, m);
    vstd::arithmetic::div_mod::lemma_fundamental_div_mod(bk, m);
    let t: int = ak / m - bk / m;
    let d: int = a as int - b as int;
    assert(d * k == t * m) by (nonlinear_arith)
        requires
            ak == a as int * k as int,
            bk == b as int * k as int,
            ak == m * (ak / m) + ak % m,
            bk == m * (bk / m) + bk % m,
            ak % m == bk % m,
            t == ak / m - bk / m,
            d == a as int - b as int,
    ;
    let q: int = t * inv - d * u;
    assert(d == m * q) by (nonlinear_arith)
        requires
            d * k == t * m,
            k * inv == 1 + u * m,
            q == t * inv - d * u,
    ;
    if q > 0 {
        assert(m * q >= m) by (nonlinear_arith)
            requires
                q > 0,
                m > 0,
        ;
    } else if q < 0 {
        assert(m * q <= -m) by (nonlinear_arith)
            requires
                q < 0,
                m > 0,
        ;
    }
}

/// Within one sweep and colour phase, distinct sites get the seeds of
/// distinct generators; and at one site, the two colours of a sweep do too.
/// Both multipliers are odd, so mixing them in loses no information.
pub proof fn lemma_update_seed_distinct(seed: u64, sweep: usize, color: usize, other_color: usize, a: usize, b: usize)
    ensures
        a != b ==> update_seed_of(seed, sweep, color, a) != update_seed_of(seed, sweep, color, b),
        color != other_color ==> update_seed_of(seed, sweep, color, a) != update_seed_of(
            seed,
            sweep,
            other_color,
            a,
        ),
{
    let r: u64 = rotated_left(vstd::wrapping::u64_specs::wrapping_add(seed, sweep as u64), 17);
    let ca: u64 = vstd::wrapping::u64_specs::wrapping_mul(color as u64, 0x9E37_79B9);
    let cb: u64 = vstd::wrapping::u64_specs::wrapping_mul(other_color as u64, 0x9E37_79B9);
    let sa: u64 = vstd::wrapping::u64_specs::wrapping_mul(a as u64, 0x85EB_CA6B);
    let sb: u64 = vstd::wrapping::u64_specs::wrapping_mul(b as u64, 0x85EB_CA6B);
    if a != b {
        assert(a as u64 != b as u64);
        if sa == sb {
            lemma_wrapping_mul_injective(a as u64, b as u64, 0x85EB_CA6B, 2941351004705347, 358258);
        }
        assert(sa != sb ==> (r ^ ca ^ sa) != (r ^ ca ^ sb)) by (bit_vector);
    }
    if color != other_color {
        assert(color as u64 != other_color as u64);
        if ca == cb {
            lemma_wrapping_mul_injective(
                color as u64,
                other_color as u64,
                0x9E37_79B9,
                16744077200915741833,
                2409426686,
            );
        }
        assert(ca != cb ==> (r ^ ca ^ sa) != (r ^ cb ^ sa)) by (bit_vector);
    }
}

/// The sites below `k` of the given checkerboard colour, in increasing order.
pub open spec fn color_class(shape: LatticeShape, color: int, k: int) -> Seq<int>
    decreases k,
{
    if k <= 0 {
        seq![]
    } else if shape.color(k - 1) == color {
        color_class(shape, color, k - 1).push(k - 1)
    } else {
        color_class(shape, color, k - 1)
    }
}

/// The colour classes of the checkerboard: each lists, in strictly increasing
/// order, exactly the sites of its colour; every site has colour 0 or 1, so
/// the two classes partition the lattice.
pub proof fn lemma_color_class(shape: LatticeShape, color: int, k: int)
    requires
        shape.wf(),
        0 <= k <= shape.site_count(),
    ensures
        forall|i: int, j: int|
            0 <= i < j < color_class(shape, color, k).len() ==> color_class(shape, color, k)[i]
                < color_class(shape, color, k)[j],
        forall|i: int|
            0 <= i < color_class(shape, color, k).len() ==> 0 <= #[trigger] color_class(
                shape,
                color,
                k,
            )[i] < k && shape.color(color_class(shape, color, k)[i]) == color,
        forall|s: int|
            0 <= s < k && shape.color(s) == color ==> #[trigger] color_class(
                shape,
                color,
                k,
            ).contains(s),
        forall|s: int| 0 <= s < k ==> #[trigger] shape.color(s) == 0 || shape.color(s) == 1,
    decreases k,
{
    if k > 0 {
        lemma_color_class(shape, color, k - 1);
        let prev = color_class(shape, color, k - 1);
        let cur = color_class(shape, color, k);
        if shape.color(k - 1) == color {
            assert(cur[prev.len() as int] == k - 1);
            assert forall|s: int| 0 <= s < k && shape.color(s) == color implies #[trigger] cur.contains(
                s,
            ) by {
                if s == k - 1 {
                    assert(cur[prev.len() as int] == s);
                } else {
                    assert(prev.contains(s));
                    let i = choose|i: int| 0 <= i < prev.len() && prev[i] == s;
                    assert(cur[i] == s);
                }
            }
        }
        assert forall|s: int| 0 <= s < k implies #[trigger] shape.color(s) == 0 || shape.color(s)
            == 1 by {
            vstd::arithmetic::div_mod::lemma_mod_bound(shape.col(s) + shape.row(s), 2);
        }
    }
}

/// One site's update in a colour phase of the checkerboard sampler: the seed
/// of its generator, its spin, the proposed spin, and the sum of the spins
/// around it, from which the energy change follows.
#[derive(Debug, Clone, Copy, PartialEq, Eq, Structural)]
pub struct SpinFlipProposal {
    pub site: usize,
    pub seed: u64,
    pub current: bool,
    pub candidate: bool,
    pub neighbor_spin_sum: i64,
}

/// The proposal for `site` in the given sweep and colour phase.
pub open spec fn proposal_for(
    shape: LatticeShape,
    config: Seq<bool>,
    seed: u64,
    sweep: usize,
    color: usize,
    site: int,
) -> SpinFlipProposal {
    SpinFlipProposal {
        site: site as usize,
        seed: update_seed_of(seed, sweep, color, site as usize),
        current: config[site],
        candidate: !config[site],
        neighbor_spin_sum: spin_sum(config, shape.neighbors(site)) as i64,
    }
}

/// The proposals for the sites in `sites` that the boundary leaves free, in
/// the order of `sites`.
pub open spec fn proposals_for(
    shape: LatticeShape,
    boundary: BoundaryCondition,
    config: Seq<bool>,
    seed: u64,
    sweep: usize,
    color: usize,
    sites: Seq<int>,
) -> Seq<SpinFlipProposal>
    decreases sites.len(),
{
    if sites.len() == 0 {
        seq![]
    } else {
        let prev = proposals_for(shape, boundary, config, seed, sweep, color, sites.drop_last());
        if fixed_spin(shape, boundary, sites.last()) is Some {
            prev
        } else {
            prev.push(proposal_for(shape, config, seed, sweep, color, sites.last()))
        }
    }
}

/// The proposals for a list of sites are for exactly the listed sites that
/// the boundary leaves free, each the proposal for its site.
proof fn lemma_proposal_sites(
    shape: LatticeShape,
    boundary: BoundaryCondition,
    config: Seq<bool>,
    seed: u64,
    sweep: usize,
    color: usize,
    sites: Seq<int>,
)
    requires
        forall|i: int| 0 <= i < sites.len() ==> 0 <= #[trigger] sites[i] <= usize::MAX,
    ensures
        forall|s: int|
            #[trigger] sites.contains(s) && fixed_spin(shape, boundary, s) is None ==> exists|i: int|
                0 <= i < proposals_for(shape, boundary, config, seed, sweep, color, sites).len()
                    && #[trigger] proposals_for(
                    shape,
                    boundary,
                    config,
                    seed,
                    sweep,
                    color,
                    sites,
                )[i].site as int == s,
        forall|i: int|
            #![trigger proposals_for(shape, boundary, config, seed, sweep, color, sites)[i]]
            0 <= i < proposals_for(shape, boundary, config, seed, sweep, color, sites).len() ==> {
                let q = proposals_for(shape, boundary, config, seed, sweep, color, sites)[i];
                &&& sites.contains(q.site as int)
                &&& fixed_spin(shape, boundary, q.site as int) is None
                &&& q == proposal_for(shape, config, seed, sweep, color, q.site as int)
            },
    decreases sites.len(),
{
    let p = proposals_for(shape, boundary, config, seed, sweep, color, sites);
    if sites.len() > 0 {
        let rest = sites.drop_last();
        assert forall|i: int| 0 <= i < rest.len() implies 0 <= #[trigger] rest[i] <= usize::MAX by {
            assert(rest[i] == sites[i]);
        }
        lemma_proposal_sites(shape, boundary, config, seed, sweep, color, rest);
        let prev = proposals_for(shape, boundary, config, seed, sweep, color, rest);
        let last = sites.last();
        assert(0 <= sites[sites.len() - 1] <= usize::MAX);
        assert forall|s: int|
            #[trigger] sites.contains(s) && fixed_spin(shape, boundary, s) is None implies exists|i: int|
                0 <= i < p.len() && #[trigger] p[i].site as int == s by {
            let k = choose|k: int| 0 <= k < sites.len() && sites[k] == s;
            if k < rest.len() {
                assert(rest[k] == s);
                assert(rest.contains(s));
                let i = choose|i: int| 0 <= i < prev.len() && #[trigger] prev[i].site as int == s;
                assert(p[i] == prev[i]);
            } else {
                assert(p[p.len() - 1].site as int == s);
            }
        }
        assert forall|i: int| #![trigger p[i]] 0 <= i < p.len() implies {
            &&& sites.contains(p[i].site as int)
            &&& fixed_spin(shape, boundary, p[i].site as int) is None
            &&& p[i] == proposal_for(shape, config, seed, sweep, color, p[i].site as int)
        } by {
            if i < prev.len() {
                assert(p[i] == prev[i]);
                let t = prev[i].site as int;
                assert(rest.contains(t));
                let k = choose|k: int| 0 <= k < rest.len() && rest[k] == t;
                assert(sites[k] == t);
            } else {
                assert(sites[sites.len() - 1] == p[i].site as int);
            }
        }
    }
}

/// A colour phase proposes an update for exactly the free sites of its
/// colour: every site of that colour that the boundary leaves free has a
/// proposal, every proposal is for such a site, and each proposal carries the
/// seed of that site's generator, its spin, the flipped spin, and the sum of
/// its neighbours' spins.
pub proof fn lemma_phase_proposals(
    shape: LatticeShape,
    boundary: BoundaryCondition,
    config: Seq<bool>,
    seed: u64,
    sweep: usize,
    color: usize,
)
    requires
        shape.wf(),
    ensures
        ({
            let p = proposals_for(
                shape,
                boundary,
                config,
                seed,
                sweep,
                color,
                color_class(shape, color as int, shape.site_count() as int),
            );
            &&& forall|s: int|
                shape.is_site(s) && shape.color(s) == color && fixed_spin(shape, boundary, s) is None
                    ==> exists|i: int| 0 <= i < p.len() && #[trigger] p[i].site as int == s
            &&& forall|i: int|
                #![trigger p[i]]
                0 <= i < p.len() ==> {
                    &&& shape.is_site(p[i].site as int)
                    &&& shape.color(p[i].site as int) == color
                    &&& fixed_spin(shape, boundary, p[i].site as int) is None
                    &&& p[i].seed == update_seed_of(seed, sweep, color, p[i].site)
                    &&& p[i].current == config[p[i].site as int]
                    &&& p[i].candidate == !config[p[i].site as int]
                    &&& p[i].neighbor_spin_sum == spin_sum(config, shape.neighbors(p[i].site as int)) as i64
                }
        }),
{
    let n: int = shape.site_count() as int;
    let class = color_class(shape, color as int, n);
    let p = proposals_for(shape, boundary, config, seed, sweep, color, class);
    lemma_color_class(shape, color as int, n);
    assert forall|i: int| 0 <= i < class.len() implies 0 <= #[trigger] class[i] <= usize::MAX by {}
    lemma_proposal_sites(shape, boundary, config, seed, sweep, color, class);
    assert forall|s: int|
        shape.is_site(s) && shape.color(s) == color && fixed_spin(shape, boundary, s) is None
            implies exists|i: int| 0 <= i < p.len() && #[trigger] p[i].site as int == s by {
        assert(class.contains(s));
    }
    assert forall|i: int| #![trigger p[i]] 0 <= i < p.len() implies {
        &&& shape.is_site(p[i].site as int)
        &&& shape.color(p[i].site as int) == color
    } by {
        let t = p[i].site as int;
        assert(class.contains(t));
        let k = choose|k: int| 0 <= k < class.len() && class[k] == t;
        assert(class[k] == t);
    }
}

/// The configuration after applying the accepted proposals among the first
/// `k`.
pub open spec fn apply_accepted(
    config: Seq<bool>,
    proposals: Seq<SpinFlipProposal>,
    accepted: Seq<bool>,
    k: int,
) -> Seq<bool>
    decreases k,
{
    if k <= 0 {
        config
    } else {
        let prev = apply_accepted(config, proposals, accepted, k - 1);
        if accepted[k - 1] {
            prev.update(proposals[k - 1].site as int, proposals[k - 1].candidate)
        } else {
            prev
        }
    }
}

/// The state of a checkerboard Ising sampler.
pub struct ParallelIsingState {
    pub shape: LatticeShape,
    pub boundary: BoundaryCondition,
    pub configuration: Seq<bool>,
    pub seed: u64,
    pub phase_color: usize,
    pub pending: Seq<SpinFlipProposal>,
}

impl ParallelIsingState {
    /// The proposals of the open phase are for distinct free sites of one
    /// colour, in increasing order, and describe the current configuration.
    pub open spec fn pending_wf(self) -> bool {
        &&& forall|i: int, j: int|
            0 <= i < j < self.pending.len() ==> self.pending[i].site < self.pending[j].site
        &&& forall|i: int|
            #![trigger self.pending[i]]
            0 <= i < self.pending.len() ==> {
                let p = self.pending[i];
                &&& self.shape.is_site(p.site as int)
                &&& fixed_spin(self.shape, self.boundary, p.site as int) is None
                &&& self.shape.color(p.site as int) == self.phase_color
                &&& p.current == self.configuration[p.site as int]
                &&& p.candidate == !p.current
                &&& p.neighbor_spin_sum == spin_sum(
                    self.configuration,
                    self.shape.neighbors(p.site as int),
                )
            }
    }

    /// A lattice on which the checkerboard colouring is proper, a full
    /// configuration that holds every fixed spin, and well-formed proposals.
    pub open spec fn wf(self) -> bool {
        &&& self.shape.wf()
        &&& self.shape.checkerboard_proper()
        &&& self.configuration.len() == self.shape.site_count()
        &&& respects_boundary(self.shape, self.boundary, self.configuration)
        &&& self.pending_wf()
    }
}

/// A Metropolis sampler for the Ising model that updates the two colours of
/// the checkerboard in turn. Within a colour no two sites are neighbours, so
/// their updates are independent and may be decided in parallel: the caller
/// opens a phase, decides each proposal, and hands the decisions back.
pub struct ParallelIsingSampler {
    graph: SquareLattice,
    boundary: BoundaryCondition,
    configuration: Vec<bool>,
    seed: u64,
    phase_color: usize,
    pending: Vec<SpinFlipProposal>,
}

impl View for ParallelIsingSampler {
    type V = ParallelIsingState;

    closed spec fn view(&self) -> ParallelIsingState {
        ParallelIsingState {
            shape: self.graph@,
            boundary: self.boundary,
            configuration: self.configuration@,
            seed: self.seed,
            phase_color: self.phase_color,
            pending: self.pending@,
        }
    }
}

impl ParallelIsingSampler {
    /// A sampler whose starting configuration holds the fixed boundary spins
    /// and draws every other spin from a generator seeded with `seed`.
    /// A periodic lattice must have even dimensions, so that the checkerboard
    /// colouring is proper.
    pub fn new(graph: &SquareLattice, boundary: BoundaryCondition, seed: u64) -> (sampler: Self)
        requires
            graph@.wf(),
            graph@.checkerboard_proper(),
        ensures
            sampler@.wf(),
            sampler@.shape == graph@,
            sampler@.boundary == boundary,
            sampler@.seed == seed,
            sampler@.pending.len() == 0,
    {
        let mut rng = seeded_rng(seed);
        let configuration = boundary.initial_configuration(graph, &mut rng);
        Self {
            graph: *graph,
            boundary,
            configuration,
            seed,
            phase_color: 0,
            pending: Vec::new(),
        }
    }

    /// The current configuration.
    pub fn configuration(&self) -> (config: &[bool])
        ensures
            config@ == self@.configuration,
    {
        self.configuration.as_slice()
    }

    /// The proposals of the open colour phase.
    pub fn pending(&self) -> (proposals: &[SpinFlipProposal])
        ensures
            proposals@ == self@.pending,
    {
        self.pending.as_slice()
    }

    /// The sites of one checkerboard colour, in increasing order.
    pub fn sites_of_color(&self, color: usize) -> (sites: Vec<usize>)
        requires
            self@.wf(),
        ensures
            as_ints(sites@) == color_class(self@.shape, color as int, self@.shape.site_count() as int),
    {
        let ghost shape = self.graph@;
        let n: usize = self.graph.site_count();
        let width: usize = self.graph.width();
        let mut sites: Vec<usize> = Vec::new();
        let mut site: usize = 0;
        proof {
            assert(shape.width + shape.height <= shape.width * shape.height + 1) by (nonlinear_arith)
                requires
                    shape.width >= 1,
                    shape.height >= 1,
            ;
        }
        while site < n
            invariant
                shape == self.graph@,
                shape.wf(),
                shape.width + shape.height <= shape.width * shape.height + 1,
                width == shape.width,
                n == shape.site_count(),
                site <= n,
                as_ints(sites@) == color_class(shape, color as int, site as int),
            decreases n - site,
        {
            let x: usize = site % width;
            let y: usize = site / width;
            proof {
                crate::graph::lemma_coords(shape, site as int);
            }
            if (x + y) % 2 == color {
                sites.push(site);
            }
            assert(as_ints(sites@) =~= color_class(shape, color as int, site + 1));
            site += 1;
        }
        sites
    }

    /// Opens the colour phase `color` of sweep `sweep`: one proposal for each
    /// free site of that colour, in increasing order of site, computed from
    /// the current configuration. The configuration does not change.
    pub fn begin_phase(&mut self, sweep: usize, color: usize)
        requires
            old(self)@.wf(),
        ensures
            final(self)@.wf(),
            final(self)@.shape == old(self)@.shape,
            final(self)@.boundary == old(self)@.boundary,
            final(self)@.configuration == old(self)@.configuration,
            final(self)@.seed == old(self)@.seed,
            final(self)@.phase_color == color,
            final(self)@.pending == proposals_for(
                old(self)@.shape,
                old(self)@.boundary,
                old(self)@.configuration,
                old(self)@.seed,
                sweep,
                color,
                color_class(old(self)@.shape, color as int, old(self)@.shape.site_count() as int),
            ),
            forall|s: int|
                old(self)@.shape.is_site(s) && old(self)@.shape.color(s) == color && fixed_spin(
                    old(self)@.shape,
                    old(self)@.boundary,
                    s,
                ) is None ==> exists|i: int|
                    0 <= i < final(self)@.pending.len() && #[trigger] final(self)@.pending[i].site as int
                        == s,
    {
        let ghost shape = self.graph@;
        let ghost config = self.configuration@;
        let ghost n: int = shape.site_count() as int;
        let sites = self.sites_of_color(color);
        let ghost class = as_ints(sites@);
        proof {
            lemma_color_class(shape, color as int, n);
        }
        let mut proposals: Vec<SpinFlipProposal> = Vec::new();
        let mut j: usize = 0;
        while j < sites.len()
            invariant
                shape == self.graph@,
                shape.wf(),
                config == self.configuration@,
                config.len() == n,
                n == shape.site_count(),
                class == as_ints(sites@),
                class == color_class(shape, color as int, n),
                forall|a: int, b: int| 0 <= a < b < class.len() ==> class[a] < class[b],
                forall|a: int|
                    0 <= a < class.len() ==> 0 <= #[trigger] class[a] < n && shape.color(class[a])
                        == color,
                j <= sites.len(),
                proposals@ == proposals_for(
                    shape,
                    self.boundary,
                    config,
                    self.seed,
                    sweep,
                    color,
                    class.take(j as int),
                ),
                forall|a: int, b: int|
                    0 <= a < b < proposals@.len() ==> proposals@[a].site < proposals@[b].site,
                forall|a: int|
                    #![trigger proposals@[a]]
                    0 <= a < proposals@.len() ==> {
                        let p = proposals@[a];
                        &&& shape.is_site(p.site as int)
                        &&& fixed_spin(shape, self.boundary, p.site as int) is None
                        &&& shape.color(p.site as int) == color
                        &&& p.current == config[p.site as int]
                        &&& p.candidate == !p.current
                        &&& p.neighbor_spin_sum == spin_sum(config, shape.neighbors(p.site as int))
                        &&& (j < class.len() ==> p.site < class[j as int])
                    },
            decreases sites.len() - j,
        {
            let site = sites[j];
            assert(class[j as int] == site);
            if !self.boundary.is_site_fixed(&self.graph, site) {
                let sum = neighbor_spin_sum(&self.graph, self.configuration.as_slice(), site);
                let current = self.configuration[site];
                let proposal = SpinFlipProposal {
                    site,
                    seed: update_seed(self.seed, sweep, color, site),
                    current,
                    candidate: !current,
                    neighbor_spin_sum: sum,
                };
                proposals.push(proposal);
            }
            assert(class.take(j + 1).drop_last() =~= class.take(j as int));
            j += 1;
        }
        assert(class.take(sites.len() as int) =~= class);
        self.pending = proposals;
        self.phase_color = color;
        proof {
            lemma_phase_proposals(shape, self.boundary, config, self.seed, sweep, color);
        }
    }

    /// Closes the open phase: each proposal whose decision is `true` sets its
    /// site to the proposed spin; every other site keeps its spin. Fixed sites
    /// are never touched, and each proposal's neighbour sum still holds of the
    /// new configuration, since no two sites of one colour are neighbours.
    pub fn finish_phase(&mut self, accepted: &[bool])
        requires
            old(self)@.wf(),
            accepted@.len() == old(self)@.pending.len(),
        ensures
            final(self)@.wf(),
            final(self)@.shape == old(self)@.shape,
            final(self)@.boundary == old(self)@.boundary,
            final(self)@.seed == old(self)@.seed,
            final(self)@.pending.len() == 0,
            final(self)@.configuration == apply_accepted(
                old(self)@.configuration,
                old(self)@.pending,
                accepted@,
                accepted@.len() as int,
            ),
            forall|i: int|
                #![trigger old(self)@.pending[i]]
                0 <= i < old(self)@.pending.len() ==> final(self)@.configuration[old(
                    self,
                )@.pending[i].site as int] == if accepted@[i] {
                    old(self)@.pending[i].candidate
                } else {
                    old(self)@.pending[i].current
                },
            forall|site: int|
                0 <= site < old(self)@.configuration.len() && (forall|i: int|
                    0 <= i < old(self)@.pending.len() ==> #[trigger] old(self)@.pending[i].site
                        != site) ==> final(self)@.configuration[site] == old(self)@.configuration[site],
            forall|site: int|
                0 <= site < old(self)@.configuration.len() && #[trigger] fixed_spin(
                    old(self)@.shape,
                    old(self)@.boundary,
                    site,
                ) is Some ==> final(self)@.configuration[site] == old(self)@.configuration[site],
            forall|i: int|
                #![trigger old(self)@.pending[i]]
                0 <= i < old(self)@.pending.len() ==> spin_sum(
                    final(self)@.configuration,
                    old(self)@.shape.neighbors(old(self)@.pending[i].site as int),
                ) == old(self)@.pending[i].neighbor_spin_sum,
    {
        let ghost shape = self.graph@;
        let ghost config0 = self.configuration@;
        let ghost pend = self.pending@;
        let ghost color = self.phase_color;
        let mut i: usize = 0;
        while i < self.pending.len()
            invariant
                shape == self.graph@,
                pend == self.pending@,
                accepted@.len() == pend.len(),
                i <= pend.len(),
                config0.len() == shape.site_count(),
                self.configuration@.len() == config0.len(),
                self.configuration@ == apply_accepted(config0, pend, accepted@, i as int),
                forall|a: int, b: int| 0 <= a < b < pend.len() ==> pend[a].site < pend[b].site,
                forall|a: int|
                    #![trigger pend[a]]
                    0 <= a < pend.len() ==> shape.is_site(pend[a].site as int) && pend[a].current
                        == config0[pend[a].site as int] && fixed_spin(
                        shape,
                        self.boundary,
                        pend[a].site as int,
                    ) is None && shape.color(pend[a].site as int) == color
                        && pend[a].neighbor_spin_sum == spin_sum(
                        config0,
                        shape.neighbors(pend[a].site as int),
                    ),
                self.boundary == old(self)@.boundary,
                self.seed == old(self)@.seed,
                self.phase_color == color,
                shape.wf(),
                shape.checkerboard_proper(),
                respects_boundary(shape, self.boundary, config0),
                forall|a: int|
                    #![trigger pend[a]]
                    0 <= a < i ==> self.configuration@[pend[a].site as int] == if accepted@[a] {
                        pend[a].candidate
                    } else {
                        pend[a].current
                    },
                forall|t: int|
                    0 <= t < config0.len() && (forall|a: int|
                        0 <= a < i ==> #[trigger] pend[a].site != t) ==> self.configuration@[t]
                        == config0[t],
            decreases pend.len() - i,
        {
            if accepted[i] {
                let p = self.pending[i];
                self.configuration[p.site] = p.candidate;
            }
            proof {
                assert forall|t: int|
                    0 <= t < config0.len() && (forall|a: int|
                        0 <= a < i + 1 ==> #[trigger] pend[a].site != t) implies self.configuration@[t]
                    == config0[t] by {
                    assert(pend[i as int].site != t);
                }
            }
            i += 1;
        }
        self.pending = Vec::new();
        proof {
            let config1 = self.configuration@;
            assert forall|t: int|
                0 <= t < config0.len() && (forall|a: int|
                    0 <= a < pend.len() ==> #[trigger] pend[a].site != t) implies config1[t]
                == config0[t] by {}
            assert forall|site: int|
                0 <= site < shape.site_count() && #[trigger] fixed_spin(shape, self.boundary, site) is Some
                    implies config1[site] == fixed_spin(shape, self.boundary, site)->0 by {
                assert forall|a: int| 0 <= a < pend.len() implies #[trigger] pend[a].site != site by {}
            }
            assert forall|a: int|
                #![trigger pend[a]]
                0 <= a < pend.len() implies spin_sum(config1, shape.neighbors(pend[a].site as int))
                == pend[a].neighbor_spin_sum by {
                let s = pend[a].site as int;
                let nbrs = shape.neighbors(s);
                lemma_neighbors_are_sites(shape, s);
                assert forall|k: int| 0 <= k < nbrs.len() implies config1[#[trigger] nbrs[k]]
                    == config0[nbrs[k]] by {
                    assert(nbrs.contains(nbrs[k]));
                    lemma_checkerboard_neighbors_differ(shape, s, nbrs[k]);
                    assert forall|b: int| 0 <= b < pend.len() implies #[trigger] pend[b].site
                        != nbrs[k] by {}
                }
                lemma_spin_sum_agree(config1, config0, nbrs);
            }
        }
    }
}

} // verus!

verus! {

/// The state of a Potts heat-bath sampler.
pub struct PottsHeatBathState {
    pub shape: LatticeShape,
    pub q: usize,
    pub configuration: Seq<u8>,
}

impl PottsHeatBathState {
    /// A full configuration whose states all lie below `q`.
    pub open spec fn wf(self) -> bool {
        &&& self.shape.wf()
        &&& state_bound(self.q) > 0
        &&& self.configuration.len() == self.shape.site_count()
        &&& forall|i: int| 0 <= i < self.configuration.len() ==> #[trigger] self.configuration[i] < self.q
    }
}

/// A heat-bath sampler for the q-state Potts model. For each site in turn the
/// caller reads how many neighbours hold each state, draws a new state with
/// the Boltzmann weights from the sampler's generator, and sets it.
pub struct PottsHeatBathSampler {
    graph: SquareLattice,
    q: usize,
    configuration: Vec<u8>,
    rng: StdRng,
}

impl View for PottsHeatBathSampler {
    type V = PottsHeatBathState;

    closed spec fn view(&self) -> PottsHeatBathState {
        PottsHeatBathState { shape: self.graph@, q: self.q, configuration: self.configuration@ }
    }
}

impl PottsHeatBathSampler {
    /// A sampler whose generator is seeded with `seed` and whose starting
    /// configuration draws each state below `q` (taken as a byte) from it.
    pub fn new(graph: &SquareLattice, q: usize, seed: u64) -> (sampler: Self)
        requires
            graph@.wf(),
            state_bound(q) > 0,
        ensures
            sampler@.wf(),
            sampler@.shape == graph@,
            sampler@.q == q,
    {
        let mut rng = seeded_rng(seed);
        let configuration = initial_configuration(graph, q, &mut rng);
        Self { graph: *graph, q, configuration, rng }
    }

    /// The current configuration.
    pub fn configuration(&self) -> (config: &[u8])
        ensures
            config@ == self@.configuration,
    {
        self.configuration.as_slice()
    }

    /// For each state below `q`, in order, the number of neighbours of `site`
    /// that hold it (the state taken as a byte).
    pub fn match_counts(&self, site: usize) -> (counts: Vec<usize>)
        requires
            self@.wf(),
            self@.shape.is_site(site as int),
        ensures
            counts@.len() == self@.q,
            forall|state: int|
                0 <= state < self@.q ==> #[trigger] counts@[state] == state_matches(
                    self@.configuration,
                    self@.shape.neighbors(site as int),
                    (state % 256) as u8,
                ),
    {
        let mut counts: Vec<usize> = Vec::new();
        let mut state: usize = 0;
        while state < self.q
            invariant
                self@.wf(),
                self@.shape.is_site(site as int),
                state <= self.q,
                counts@.len() == state,
                forall|s: int|
                    0 <= s < state ==> #[trigger] counts@[s] == state_matches(
                        self@.configuration,
                        self@.shape.neighbors(site as int),
                        (s % 256) as u8,
                    ),
            decreases self.q - state,
        {
            let count = neighbor_matches(
                &self.graph,
                self.configuration.as_slice(),
                site,
                (state % 256) as u8,
            );
            counts.push(count);
            state += 1;
        }
        counts
    }

    /// Sets `site` to `state` (as a byte); every other site keeps its state.
    pub fn set_state(&mut self, site: usize, state: usize)
        requires
            old(self)@.wf(),
            old(self)@.shape.is_site(site as int),
            state < old(self)@.q,
        ensures
            final(self)@.wf(),
            final(self)@.shape == old(self)@.shape,
            final(self)@.q == old(self)@.q,
            final(self)@.configuration == old(self)@.configuration.update(
                site as int,
                (state % 256) as u8,
            ),
            final(self).generator() == old(self).generator(),
    {
        self.configuration[site] = (state % 256) as u8;
    }

    /// The generator that the sampler holds: the one its starting
    /// configuration was drawn from, and the one the caller draws from.
    pub closed spec fn generator(&self) -> StdRng {
        self.rng
    }

    /// The sampler's own generator, lent to the caller: it is the sampler's
    /// generator as it stands, whatever the caller leaves in it is what the
    /// sampler holds afterwards, and nothing else of the sampler changes.
    pub fn rng(&mut self) -> (rng: &mut StdRng)
        ensures
            *rng == old(self).generator(),
            final(self).generator() == *final(rng),
            final(self)@ == old(self)@,
    {
        &mut self.rng
    }
}

} // verus!

//! Sums over the bonds of a lattice, and how they change when one site of a
//! configuration changes.
use vstd::prelude::*;
use crate::graph::{count_of, LatticeShape};
use crate::lattice_laws::{lemma_neighbor_count_symmetric, lemma_neighbors_are_sites, lemma_no_self_neighbor};

verus! {

/// The sum of `f(config[site], config[n])` over the neighbours `n` in `nbrs`
/// that come after `site`, so that each bond is counted from its lower end.
pub open spec fn upper_bond_sum<V>(config: Seq<V>, f: spec_fn(V, V) -> int, site: int, nbrs: Seq<int>) -> int
    decreases nbrs.len(),
{
    if nbrs.len() == 0 {
        0
    } else {
        upper_bond_sum(config, f, site, nbrs.drop_last()) + if nbrs.last() > site {
            f(config[site], config[nbrs.last()])
        } else {
            0
        }
    }
}

/// The sum of `f` over the bonds whose lower end is one of the first `k` sites.
pub open spec fn bond_sum<V>(shape: LatticeShape, config: Seq<V>, f: spec_fn(V, V) -> int, k: int) -> int
    decreases k,
{
    if k <= 0 {
        0
    } else {
        bond_sum(shape, config, f, k - 1) + upper_bond_sum(config, f, k - 1, shape.neighbors(k - 1))
    }
}

/// The sum of `f(v, config[n])` over the neighbours `n` in `nbrs`.
pub open spec fn local_sum<V>(config: Seq<V>, f: spec_fn(V, V) -> int, v: V, nbrs: Seq<int>) -> int
    decreases nbrs.len(),
{
    if nbrs.len() == 0 {
        0
    } else {
        local_sum(config, f, v, nbrs.drop_last()) + f(v, config[nbrs.last()])
    }
}

/// The sum of `g(n)` over the elements `n` of `s` above `k`.
pub open spec fn above_sum(s: Seq<int>, g: spec_fn(int) -> int, k: int) -> int
    decreases s.len(),
{
    if s.len() == 0 {
        0
    } else {
        above_sum(s.drop_last(), g, k) + if s.last() > k {
            g(s.last())
        } else {
            0
        }
    }
}

/// The sum of `g(n)` over the elements `n` of `s` below `k`.
pub open spec fn below_sum(s: Seq<int>, g: spec_fn(int) -> int, k: int) -> int
    decreases s.len(),
{
    if s.len() == 0 {
        0
    } else {
        below_sum(s.drop_last(), g, k) + if s.last() < k {
            g(s.last())
        } else {
            0
        }
    }
}

/// The sum of `g(n)` over all elements `n` of `s`.
pub open spec fn full_sum(s: Seq<int>, g: spec_fn(int) -> int) -> int
    decreases s.len(),
{
    if s.len() == 0 {
        0
    } else {
        full_sum(s.drop_last(), g) + g(s.last())
    }
}

/// The sum of `count_of(s, n) * g(n)` over `0 <= n < k`.
pub open spec fn weighted_sum(s: Seq<int>, g: spec_fn(int) -> int, k: int) -> int
    decreases k,
{
    if k <= 0 {
        0
    } else {
        weighted_sum(s, g, k - 1) + count_of(s, k - 1) * g(k - 1)
    }
}

/// The sum of `count_of(neighbors(n), site) * g(n)` over `0 <= n < k`: the
/// bonds that reach `site` from the first `k` sites.
pub open spec fn incoming_sum(shape: LatticeShape, site: int, g: spec_fn(int) -> int, k: int) -> int
    decreases k,
{
    if k <= 0 {
        0
    } else {
        incoming_sum(shape, site, g, k - 1) + count_of(shape.neighbors(k - 1), site) * g(k - 1)
    }
}

/// How the term of a bond from a neighbour `n` changes when `site` takes the
/// value `v`.
pub open spec fn change<V>(config: Seq<V>, f: spec_fn(V, V) -> int, site: int, v: V) -> spec_fn(int) -> int {
    |n: int| f(v, config[n]) - f(config[site], config[n])
}

/// A pair function that does not depend on the order of its arguments.
pub open spec fn symmetric<V>(f: spec_fn(V, V) -> int) -> bool {
    forall|a: V, b: V| #[trigger] f(a, b) == f(b, a)
}

/// All elements of `s` index into a sequence of length `len`.
pub open spec fn indices_below(s: Seq<int>, len: int) -> bool {
    forall|i: int| 0 <= i < s.len() ==> 0 <= #[trigger] s[i] < len
}

proof fn lemma_indices_below_drop_last(s: Seq<int>, len: int)
    requires
        s.len() > 0,
        indices_below(s, len),
    ensures
        indices_below(s.drop_last(), len),
        0 <= s.last() < len,
{
    assert forall|i: int| 0 <= i < s.drop_last().len() implies 0 <= #[trigger] s.drop_last()[i]
        < len by {
        assert(s.drop_last()[i] == s[i]);
    }
}

/// The difference of two local sums is the full sum of the change.
proof fn lemma_local_sum_difference<V>(config: Seq<V>, f: spec_fn(V, V) -> int, site: int, v: V, nbrs: Seq<int>)
    ensures
        local_sum(config, f, v, nbrs) - local_sum(config, f, config[site], nbrs) == full_sum(
            nbrs,
            change(config, f, site, v),
        ),
    decreases nbrs.len(),
{
    if nbrs.len() > 0 {
        lemma_local_sum_difference(config, f, site, v, nbrs.drop_last());
    }
}

/// A full sum splits into the parts below, at and above a point.
proof fn lemma_full_sum_split(s: Seq<int>, g: spec_fn(int) -> int, k: int)
    ensures
        full_sum(s, g) == below_sum(s, g, k) + count_of(s, k) * g(k) + above_sum(s, g, k),
    decreases s.len(),
{
    if s.len() > 0 {
        lemma_full_sum_split(s.drop_last(), g, k);
        let c: int = count_of(s.drop_last(), k) as int;
        let gk: int = g(k);
        if s.last() == k {
            assert(count_of(s, k) == c + 1);
            assert((c + 1) * gk == c * gk + gk) by (nonlinear_arith);
        } else {
            assert(count_of(s, k) == c);
        }
    } else {
        assert(count_of(s, k) == 0);
    }
}

/// Raising the bound of a lower sum by one adds the terms at the old bound.
proof fn lemma_below_step(s: Seq<int>, g: spec_fn(int) -> int, k: int)
    ensures
        below_sum(s, g, k + 1) == below_sum(s, g, k) + count_of(s, k) * g(k),
    decreases s.len(),
{
    if s.len() > 0 {
        lemma_below_step(s.drop_last(), g, k);
        let c: int = count_of(s.drop_last(), k) as int;
        let gk: int = g(k);
        let a: int = below_sum(s.drop_last(), g, k);
        let b: int = below_sum(s.drop_last(), g, k + 1);
        assert(b == a + c * gk);
        if s.last() == k {
            assert(count_of(s, k) == c + 1);
            assert(below_sum(s, g, k + 1) == b + gk);
            assert(below_sum(s, g, k) == a);
            assert((c + 1) * gk == c * gk + gk) by (nonlinear_arith);
        } else {
            assert(count_of(s, k) == c);
        }
    } else {
        assert(count_of(s, k) == 0);
    }
}

/// No index lies below zero.
proof fn lemma_below_zero(s: Seq<int>, g: spec_fn(int) -> int, len: int)
    requires
        indices_below(s, len),
    ensures
        below_sum(s, g, 0) == 0,
    decreases s.len(),
{
    if s.len() > 0 {
        lemma_indices_below_drop_last(s, len);
        lemma_below_zero(s.drop_last(), g, len);
    }
}

/// Weighting each point below `k` by its count adds up the elements below `k`.
proof fn lemma_weighted_is_below(s: Seq<int>, g: spec_fn(int) -> int, k: int, len: int)
    requires
        indices_below(s, len),
        k >= 0,
    ensures
        weighted_sum(s, g, k) == below_sum(s, g, k),
    decreases k,
{
    if k == 0 {
        lemma_below_zero(s, g, len);
    } else {
        lemma_weighted_is_below(s, g, k - 1, len);
        lemma_below_step(s, g, k - 1);
    }
}

/// By the symmetry of the neighbour relation, the bonds reaching `site` from
/// the first `k` sites are the neighbours of `site` among them.
proof fn lemma_incoming_is_weighted(shape: LatticeShape, site: int, g: spec_fn(int) -> int, k: int)
    requires
        shape.wf(),
        shape.is_site(site),
        0 <= k <= shape.site_count(),
    ensures
        incoming_sum(shape, site, g, k) == weighted_sum(shape.neighbors(site), g, k),
    decreases k,
{
    if k > 0 {
        lemma_incoming_is_weighted(shape, site, g, k - 1);
        lemma_neighbor_count_symmetric(shape, k - 1, site);
    }
}

/// Changing `site` alters the bonds counted from another site `s` only where
/// they reach `site` from below.
proof fn lemma_upper_other<V>(config: Seq<V>, f: spec_fn(V, V) -> int, s: int, site: int, v: V, nbrs: Seq<int>)
    requires
        symmetric(f),
        indices_below(nbrs, config.len() as int),
        0 <= s < config.len(),
        0 <= site < config.len(),
        s != site,
    ensures
        upper_bond_sum(config.update(site, v), f, s, nbrs) - upper_bond_sum(config, f, s, nbrs) == if s
            < site {
            count_of(nbrs, site) * change(config, f, site, v)(s)
        } else {
            0
        },
    decreases nbrs.len(),
{
    if nbrs.len() > 0 {
        lemma_indices_below_drop_last(nbrs, config.len() as int);
        lemma_upper_other(config, f, s, site, v, nbrs.drop_last());
        let c: int = count_of(nbrs.drop_last(), site) as int;
        let d: int = change(config, f, site, v)(s);
        let n: int = nbrs.last();
        let c2 = config.update(site, v);
        assert(f(config[s], v) == f(v, config[s]));
        assert(f(config[s], config[site]) == f(config[site], config[s]));
        if n == site {
            assert(count_of(nbrs, site) == c + 1);
            assert((c + 1) * d == c * d + d) by (nonlinear_arith);
            assert(c2[s] == config[s]);
            assert(c2[n] == v);
        } else {
            assert(count_of(nbrs, site) == c);
            assert(c2[s] == config[s]);
            assert(c2[n] == config[n]);
        }
    } else {
        assert(count_of(nbrs, site) == 0);
    }
}

/// Changing `site` alters the bonds counted from `site` itself by the change
/// towards each neighbour above it.
proof fn lemma_upper_self<V>(config: Seq<V>, f: spec_fn(V, V) -> int, site: int, v: V, nbrs: Seq<int>)
    requires
        indices_below(nbrs, config.len() as int),
        0 <= site < config.len(),
        count_of(nbrs, site) == 0,
    ensures
        upper_bond_sum(config.update(site, v), f, site, nbrs) - upper_bond_sum(config, f, site, nbrs)
            == above_sum(nbrs, change(config, f, site, v), site),
    decreases nbrs.len(),
{
    if nbrs.len() > 0 {
        lemma_indices_below_drop_last(nbrs, config.len() as int);
        lemma_upper_self(config, f, site, v, nbrs.drop_last());
    }
}

/// The change of the bond sum over the first `k` sites when `site` takes `v`.
proof fn lemma_bond_sum_prefix<V>(shape: LatticeShape, config: Seq<V>, f: spec_fn(V, V) -> int, site: int, v: V, k: int)
    requires
        shape.wf(),
        symmetric(f),
        config.len() >= shape.site_count(),
        shape.is_site(site),
        !shape.periodic || (shape.width >= 2 && shape.height >= 2),
        0 <= k <= shape.site_count(),
    ensures
        bond_sum(shape, config.update(site, v), f, k) - bond_sum(shape, config, f, k) == if k <= site {
            incoming_sum(shape, site, change(config, f, site, v), k)
        } else {
            incoming_sum(shape, site, change(config, f, site, v), site) + above_sum(
                shape.neighbors(site),
                change(config, f, site, v),
                site,
            )
        },
    decreases k,
{
    if k > 0 {
        let s: int = k - 1;
        lemma_bond_sum_prefix(shape, config, f, site, v, s);
        lemma_neighbors_are_sites(shape, s);
        let nbrs = shape.neighbors(s);
        assert(indices_below(nbrs, config.len() as int));
        if s == site {
            lemma_no_self_neighbor(shape, site);
            lemma_upper_self(config, f, site, v, nbrs);
        } else {
            lemma_upper_other(config, f, s, site, v, nbrs);
        }
    }
}

/// Relabelling the values by a map that `f` cannot see leaves the bonds
/// counted from one site unchanged.
proof fn lemma_upper_relabel<V>(config: Seq<V>, f: spec_fn(V, V) -> int, m: spec_fn(V) -> V, s: int, nbrs: Seq<int>)
    requires
        forall|a: V, b: V| #[trigger] f(m(a), m(b)) == f(a, b),
        indices_below(nbrs, config.len() as int),
        0 <= s < config.len(),
    ensures
        upper_bond_sum(config.map_values(m), f, s, nbrs) == upper_bond_sum(config, f, s, nbrs),
    decreases nbrs.len(),
{
    if nbrs.len() > 0 {
        lemma_indices_below_drop_last(nbrs, config.len() as int);
        lemma_upper_relabel(config, f, m, s, nbrs.drop_last());
        let n: int = nbrs.last();
        assert(f(m(config[s]), m(config[n])) == f(config[s], config[n]));
    }
}

/// A bond sum sees the values only through `f`: relabelling every value by a
/// map under which `f` is unchanged leaves the sum unchanged.
pub proof fn lemma_bond_sum_relabel<V>(shape: LatticeShape, config: Seq<V>, f: spec_fn(V, V) -> int, m: spec_fn(V) -> V, k: int)
    requires
        shape.wf(),
        config.len() >= shape.site_count(),
        0 <= k <= shape.site_count(),
        forall|a: V, b: V| #[trigger] f(m(a), m(b)) == f(a, b),
    ensures
        bond_sum(shape, config.map_values(m), f, k) == bond_sum(shape, config, f, k),
    decreases k,
{
    if k > 0 {
        lemma_bond_sum_relabel(shape, config, f, m, k - 1);
        lemma_neighbors_are_sites(shape, k - 1);
        assert(indices_below(shape.neighbors(k - 1), config.len() as int));
        lemma_upper_relabel(config, f, m, k - 1, shape.neighbors(k - 1));
    }
}

/// Giving one site a new value changes a symmetric bond sum by the change of
/// that site's local sum over its neighbours. This holds on every lattice on
/// which no site neighbours itself.
pub proof fn lemma_bond_sum_update<V>(shape: LatticeShape, config: Seq<V>, f: spec_fn(V, V) -> int, site: int, v: V)
    requires
        shape.wf(),
        symmetric(f),
        config.len() >= shape.site_count(),
        shape.is_site(site),
        !shape.periodic || (shape.width >= 2 && shape.height >= 2),
    ensures
        bond_sum(shape, config.update(site, v), f, shape.site_count() as int) - bond_sum(
            shape,
            config,
            f,
            shape.site_count() as int,
        ) == local_sum(config, f, v, shape.neighbors(site)) - local_sum(
            config,
            f,
            config[site],
            shape.neighbors(site),
        ),
{
    let g = change(config, f, site, v);
    let nbrs = shape.neighbors(site);
    lemma_bond_sum_prefix(shape, config, f, site, v, shape.site_count() as int);
    lemma_incoming_is_weighted(shape, site, g, site);
    lemma_neighbors_are_sites(shape, site);
    assert(indices_below(nbrs, shape.site_count() as int));
    lemma_weighted_is_below(nbrs, g, site, shape.site_count() as int);
    lemma_no_self_neighbor(shape, site);
    lemma_full_sum_split(nbrs, g, site);
    lemma_local_sum_difference(config, f, site, v, nbrs);
}

} // verus!

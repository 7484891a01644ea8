use vstd::prelude::*;
use crate::graph::{count_of, lemma_coords, lemma_count_of_concat, lemma_count_of_contains, lemma_site_at, lemma_wrap_steps, LatticeShape};

verus! {

/// The candidate position `p` denotes the site `t`.
pub open spec fn hits(shape: LatticeShape, p: (int, int), t: int) -> bool {
    shape.locate(p).len() == 1 && shape.locate(p)[0] == t
}

/// Occurrences of `t` among the sites a candidate position denotes.
proof fn lemma_count_locate(shape: LatticeShape, p: (int, int), t: int)
    ensures
        count_of(shape.locate(p), t) == if hits(shape, p, t) {
            1nat
        } else {
            0nat
        },
        shape.locate(p).len() <= 1,
{
    let l = shape.locate(p);
    reveal_with_fuel(count_of, 2);
    if l.len() == 1 {
        assert(l.drop_last() =~= Seq::<int>::empty());
        assert(l.last() == l[0]);
    }
}

/// The occurrences of `t` among the neighbours of `s`, one term per direction.
proof fn lemma_count_neighbors(shape: LatticeShape, s: int, t: int)
    ensures
        count_of(shape.neighbors(s), t) == (if hits(shape, (shape.col(s) - 1, shape.row(s)), t) {
            1int
        } else {
            0int
        }) + (if hits(shape, (shape.col(s) + 1, shape.row(s)), t) {
            1int
        } else {
            0int
        }) + (if hits(shape, (shape.col(s), shape.row(s) - 1), t) {
            1int
        } else {
            0int
        }) + (if hits(shape, (shape.col(s), shape.row(s) + 1), t) {
            1int
        } else {
            0int
        }),
        shape.neighbors(s).len() == shape.locate((shape.col(s) - 1, shape.row(s))).len()
            + shape.locate((shape.col(s) + 1, shape.row(s))).len() + shape.locate(
            (shape.col(s), shape.row(s) - 1),
        ).len() + shape.locate((shape.col(s), shape.row(s) + 1)).len(),
{
    let x: int = shape.col(s);
    let y: int = shape.row(s);
    let a = shape.locate((x - 1, y));
    let b = shape.locate((x + 1, y));
    let c = shape.locate((x, y - 1));
    let d = shape.locate((x, y + 1));
    lemma_count_of_concat(a, b, t);
    lemma_count_of_concat(a + b, c, t);
    lemma_count_of_concat(a + b + c, d, t);
    lemma_count_locate(shape, (x - 1, y), t);
    lemma_count_locate(shape, (x + 1, y), t);
    lemma_count_locate(shape, (x, y - 1), t);
    lemma_count_locate(shape, (x, y + 1), t);
}

/// Which site a candidate position next to `t` denotes, in coordinates.
proof fn lemma_hits_coords(shape: LatticeShape, p: (int, int), t: int)
    requires
        shape.wf(),
        shape.is_site(t),
        -1 <= p.0 <= shape.width,
        -1 <= p.1 <= shape.height,
    ensures
        hits(shape, p, t) <==> if shape.periodic {
            shape.col(t) == p.0 % (shape.width as int) && shape.row(t) == p.1 % (
            shape.height as int)
        } else {
            0 <= p.0 < shape.width && 0 <= p.1 < shape.height && shape.col(t) == p.0
                && shape.row(t) == p.1
        },
{
    let w: int = shape.width as int;
    let h: int = shape.height as int;
    lemma_coords(shape, t);
    if shape.periodic {
        let qx = p.0 % w;
        let qy = p.1 % h;
        assert(0 <= qx < w && 0 <= qy < h) by {
            vstd::arithmetic::div_mod::lemma_mod_bound(p.0, w);
            vstd::arithmetic::div_mod::lemma_mod_bound(p.1, h);
        }
        lemma_site_at(shape, qx, qy);
    } else if 0 <= p.0 < w && 0 <= p.1 < h {
        lemma_site_at(shape, p.0, p.1);
    }
}

/// Stepping left from `s` reaches `t` exactly when stepping right from `t`
/// reaches `s`, and likewise downwards and upwards.
proof fn lemma_hits_pair(shape: LatticeShape, s: int, t: int)
    requires
        shape.wf(),
        shape.is_site(s),
        shape.is_site(t),
    ensures
        hits(shape, (shape.col(s) - 1, shape.row(s)), t) <==> hits(
            shape,
            (shape.col(t) + 1, shape.row(t)),
            s,
        ),
        hits(shape, (shape.col(s), shape.row(s) - 1), t) <==> hits(
            shape,
            (shape.col(t), shape.row(t) + 1),
            s,
        ),
{
    let w: int = shape.width as int;
    let h: int = shape.height as int;
    lemma_coords(shape, s);
    lemma_coords(shape, t);
    let (xs, ys, xt, yt) = (shape.col(s), shape.row(s), shape.col(t), shape.row(t));
    lemma_hits_coords(shape, (xs - 1, ys), t);
    lemma_hits_coords(shape, (xt + 1, yt), s);
    lemma_hits_coords(shape, (xs, ys - 1), t);
    lemma_hits_coords(shape, (xt, yt + 1), s);
    lemma_wrap_steps(xs, w);
    lemma_wrap_steps(ys, h);
    lemma_wrap_steps(xt, w);
    lemma_wrap_steps(yt, h);
}

/// Every neighbour of a site is a site.
pub proof fn lemma_neighbors_are_sites(shape: LatticeShape, s: int)
    requires
        shape.wf(),
        shape.is_site(s),
    ensures
        forall|i: int|
            0 <= i < shape.neighbors(s).len() ==> shape.is_site(#[trigger] shape.neighbors(s)[i]),
{
    let w: int = shape.width as int;
    let h: int = shape.height as int;
    lemma_coords(shape, s);
    let (x, y) = (shape.col(s), shape.row(s));
    assert forall|i: int| 0 <= i < shape.neighbors(s).len() implies shape.is_site(
        #[trigger] shape.neighbors(s)[i],
    ) by {
        let n = shape.neighbors(s)[i];
        lemma_count_of_contains(shape.neighbors(s), n);
        assert(shape.neighbors(s).contains(n));
        lemma_count_neighbors(shape, s, n);
        if shape.periodic {
            lemma_wrap_steps(x, w);
            lemma_wrap_steps(y, h);
            if hits(shape, (x - 1, y), n) {
                lemma_site_at(shape, (x - 1) % w, y % h);
            } else if hits(shape, (x + 1, y), n) {
                lemma_site_at(shape, (x + 1) % w, y % h);
            } else if hits(shape, (x, y - 1), n) {
                lemma_site_at(shape, x % w, (y - 1) % h);
            } else {
                lemma_site_at(shape, x % w, (y + 1) % h);
            }
        } else {
            if hits(shape, (x - 1, y), n) {
                lemma_site_at(shape, x - 1, y);
            } else if hits(shape, (x + 1, y), n) {
                lemma_site_at(shape, x + 1, y);
            } else if hits(shape, (x, y - 1), n) {
                lemma_site_at(shape, x, y - 1);
            } else {
                lemma_site_at(shape, x, y + 1);
            }
        }
    }
}

/// The neighbour relation is symmetric, with multiplicity: `t` occurs among
/// the neighbours of `s` as often as `s` occurs among the neighbours of `t`.
pub proof fn lemma_neighbor_count_symmetric(shape: LatticeShape, s: int, t: int)
    requires
        shape.wf(),
        shape.is_site(s),
        shape.is_site(t),
    ensures
        count_of(shape.neighbors(s), t) == count_of(shape.neighbors(t), s),
{
    lemma_count_neighbors(shape, s, t);
    lemma_count_neighbors(shape, t, s);
    lemma_hits_pair(shape, s, t);
    lemma_hits_pair(shape, t, s);
}

/// `t` is a neighbour of `s` exactly when `s` is a neighbour of `t`.
pub proof fn lemma_neighbors_symmetric(shape: LatticeShape, s: int, t: int)
    requires
        shape.wf(),
        shape.is_site(s),
        shape.is_site(t),
    ensures
        shape.neighbors(s).contains(t) <==> shape.neighbors(t).contains(s),
{
    lemma_neighbor_count_symmetric(shape, s, t);
    lemma_count_of_contains(shape.neighbors(s), t);
    lemma_count_of_contains(shape.neighbors(t), s);
}

/// On a free lattice, or a periodic one of even dimensions, neighbouring sites
/// always have different checkerboard colours.
pub proof fn lemma_checkerboard_neighbors_differ(shape: LatticeShape, s: int, t: int)
    requires
        shape.wf(),
        shape.checkerboard_proper(),
        shape.is_site(s),
        shape.neighbors(s).contains(t),
    ensures
        shape.color(s) != shape.color(t),
{
    let w: int = shape.width as int;
    let h: int = shape.height as int;
    lemma_neighbors_are_sites(shape, s);
    let i = choose|i: int| 0 <= i < shape.neighbors(s).len() && shape.neighbors(s)[i] == t;
    assert(shape.is_site(shape.neighbors(s)[i]));
    lemma_coords(shape, s);
    lemma_coords(shape, t);
    lemma_count_of_contains(shape.neighbors(s), t);
    lemma_count_neighbors(shape, s, t);
    let (x, y) = (shape.col(s), shape.row(s));
    lemma_hits_coords(shape, (x - 1, y), t);
    lemma_hits_coords(shape, (x + 1, y), t);
    lemma_hits_coords(shape, (x, y - 1), t);
    lemma_hits_coords(shape, (x, y + 1), t);
    lemma_wrap_steps(x, w);
    lemma_wrap_steps(y, h);
}

/// A site is never its own neighbour on a free lattice, nor on a periodic one
/// at least two sites wide and high.
pub proof fn lemma_no_self_neighbor(shape: LatticeShape, s: int)
    requires
        shape.wf(),
        shape.is_site(s),
        !shape.periodic || (shape.width >= 2 && shape.height >= 2),
    ensures
        !shape.neighbors(s).contains(s),
        count_of(shape.neighbors(s), s) == 0,
{
    let w: int = shape.width as int;
    let h: int = shape.height as int;
    lemma_coords(shape, s);
    lemma_count_of_contains(shape.neighbors(s), s);
    lemma_count_neighbors(shape, s, s);
    let (x, y) = (shape.col(s), shape.row(s));
    lemma_hits_coords(shape, (x - 1, y), s);
    lemma_hits_coords(shape, (x + 1, y), s);
    lemma_hits_coords(shape, (x, y - 1), s);
    lemma_hits_coords(shape, (x, y + 1), s);
    lemma_wrap_steps(x, w);
    lemma_wrap_steps(y, h);
}

/// Every site of a periodic lattice has four neighbours; on a free lattice a
/// site has fewer than four exactly when it lies on the boundary.
pub proof fn lemma_neighbor_count(shape: LatticeShape, s: int)
    requires
        shape.wf(),
        shape.is_site(s),
    ensures
        shape.periodic ==> shape.neighbors(s).len() == 4,
        !shape.periodic ==> (shape.is_boundary(s) <==> shape.neighbors(s).len() < 4),
        shape.neighbors(s).len() <= 4,
{
    lemma_coords(shape, s);
    lemma_count_neighbors(shape, s, s);
}

} // verus!

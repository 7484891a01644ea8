use vstd::prelude::*;
use vstd::arithmetic::div_mod::{lemma_fundamental_div_mod, lemma_fundamental_div_mod_converse};

verus! {

/// A small generic graph abstraction for finite site-based models.
///
/// Sites are the integers `0..sites()`; `adjacency(site)` lists the neighbours
/// of a site in the order in which `neighbors` returns them.
pub trait Graph {
    /// The number of sites of the graph.
    spec fn sites(&self) -> nat;

    /// Whether `site` is a valid argument of `neighbors`.
    spec fn accepts_site(&self, site: int) -> bool;

    /// The neighbours of `site`, in order and with repetitions.
    spec fn adjacency(&self, site: int) -> Seq<int>;

    /// The graph's internal invariant.
    spec fn well_formed(&self) -> bool;

    fn site_count(&self) -> (n: usize)
        requires
            self.well_formed(),
        ensures
            n == self.sites(),
    ;

    fn neighbors(&self, site: usize) -> (v: Vec<usize>)
        requires
            self.well_formed(),
            self.accepts_site(site as int),
        ensures
            as_ints(v@) == self.adjacency(site as int),
    ;
}

/// A sequence of machine indices read as mathematical integers.
pub open spec fn as_ints(s: Seq<usize>) -> Seq<int> {
    s.map_values(|v: usize| v as int)
}

/// How many times `t` occurs in `s`.
pub open spec fn count_of(s: Seq<int>, t: int) -> nat
    decreases s.len(),
{
    if s.len() == 0 {
        0
    } else {
        count_of(s.drop_last(), t) + if s.last() == t {
            1nat
        } else {
            0nat
        }
    }
}

/// Counting occurrences distributes over concatenation.
pub proof fn lemma_count_of_concat(a: Seq<int>, b: Seq<int>, t: int)
    ensures
        count_of(a + b, t) == count_of(a, t) + count_of(b, t),
    decreases b.len(),
{
    if b.len() == 0 {
        assert(a + b =~= a);
    } else {
        assert((a + b).drop_last() =~= a + b.drop_last());
        lemma_count_of_concat(a, b.drop_last(), t);
    }
}

/// An element occurs in a sequence exactly when its count is positive.
pub proof fn lemma_count_of_contains(s: Seq<int>, t: int)
    ensures
        s.contains(t) <==> count_of(s, t) > 0,
    decreases s.len(),
{
    if s.len() > 0 {
        lemma_count_of_contains(s.drop_last(), t);
        if s.drop_last().contains(t) {
            let i = choose|i: int| 0 <= i < s.drop_last().len() && s.drop_last()[i] == t;
            assert(s[i] == t);
        }
        if s.contains(t) && s.last() != t {
            let i = choose|i: int| 0 <= i < s.len() && s[i] == t;
            assert(i != s.len() - 1);
            assert(s.drop_last()[i] == t);
        }
        if s.last() == t {
            assert(s[s.len() - 1] == t);
        }
    }
}

/// The mathematical shape of a square lattice: its dimensions and whether its
/// boundary conditions are periodic.
pub struct LatticeShape {
    pub width: nat,
    pub height: nat,
    pub periodic: bool,
}

impl LatticeShape {
    /// Positive dimensions whose product fits in an `isize`, the limit on the
    /// length of any configuration vector.
    pub open spec fn wf(self) -> bool {
        &&& self.width > 0
        &&& self.height > 0
        &&& self.width * self.height <= isize::MAX
    }

    pub open spec fn site_count(self) -> nat {
        self.width * self.height
    }

    pub open spec fn is_site(self, site: int) -> bool {
        0 <= site < self.site_count()
    }

    /// The column of a site.
    pub open spec fn col(self, site: int) -> int {
        site % (self.width as int)
    }

    /// The row of a site.
    pub open spec fn row(self, site: int) -> int {
        site / (self.width as int)
    }

    /// The site at column `x` and row `y` (row-major order).
    pub open spec fn site_at(self, x: int, y: int) -> int {
        y * self.width + x
    }

    /// A site touches the edge of a lattice with free boundaries.
    pub open spec fn is_boundary(self, site: int) -> bool {
        let x: int = self.col(site);
        let y: int = self.row(site);
        !self.periodic && (x == 0 || x + 1 == self.width || y == 0 || y + 1 == self.height)
    }

    /// The site that a candidate position denotes: wrapped around on a
    /// periodic lattice, dropped when it falls outside a free one.
    pub open spec fn locate(self, p: (int, int)) -> Seq<int> {
        if self.periodic {
            seq![self.site_at(p.0 % (self.width as int), p.1 % (self.height as int))]
        } else if 0 <= p.0 < self.width && 0 <= p.1 < self.height {
            seq![self.site_at(p.0, p.1)]
        } else {
            seq![]
        }
    }

    /// The neighbours of a site: left, right, below, above, in that order.
    pub open spec fn neighbors(self, site: int) -> Seq<int> {
        let x: int = self.col(site);
        let y: int = self.row(site);
        self.locate((x - 1, y)) + self.locate((x + 1, y)) + self.locate((x, y - 1)) + self.locate(
            (x, y + 1),
        )
    }

    /// The colour of a site in the checkerboard colouring.
    pub open spec fn color(self, site: int) -> int {
        (self.col(site) + self.row(site)) % 2
    }

    /// The checkerboard colouring is proper: a free lattice, or a periodic one
    /// with even dimensions.
    pub open spec fn checkerboard_proper(self) -> bool {
        !self.periodic || (self.width % 2 == 0 && self.height % 2 == 0)
    }
}

/// A site's column and row locate it.
pub proof fn lemma_coords(shape: LatticeShape, site: int)
    requires
        shape.wf(),
        shape.is_site(site),
    ensures
        0 <= shape.col(site) < shape.width,
        0 <= shape.row(site) < shape.height,
        shape.site_at(shape.col(site), shape.row(site)) == site,
{
    let w: int = shape.width as int;
    lemma_fundamental_div_mod(site, w);
    assert(0 <= shape.col(site) < w);
    let y: int = shape.row(site);
    let x: int = shape.col(site);
    assert(w * y + x == site);
    if y < 0 {
        assert(w * y <= -w) by (nonlinear_arith)
            requires
                y < 0,
                w > 0,
        ;
    }
    if y >= shape.height {
        assert(w * y >= w * shape.height) by (nonlinear_arith)
            requires
                y >= shape.height,
                w > 0,
        ;
    }
    assert(y * w == w * y) by (nonlinear_arith);
}

/// A position inside the lattice has a site there, whose column and row are
/// that position.
pub proof fn lemma_site_at(shape: LatticeShape, x: int, y: int)
    requires
        shape.wf(),
        0 <= x < shape.width,
        0 <= y < shape.height,
    ensures
        shape.is_site(shape.site_at(x, y)),
        shape.col(shape.site_at(x, y)) == x,
        shape.row(shape.site_at(x, y)) == y,
{
    let w: int = shape.width as int;
    let h: int = shape.height as int;
    lemma_fundamental_div_mod_converse(shape.site_at(x, y), w, y, x);
    assert(y * w + x < w * h) by (nonlinear_arith)
        requires
            0 <= x < w,
            0 <= y < h,
    ;
    assert(0 <= y * w) by (nonlinear_arith)
        requires
            0 <= y,
            0 <= w,
    ;
}

/// Wrapping one step down or up around a cycle of length `n`.
pub proof fn lemma_wrap_steps(x: int, n: int)
    requires
        0 <= x < n,
    ensures
        (x - 1) % n == if x == 0 {
            n - 1
        } else {
            x - 1
        },
        (x + 1) % n == if x + 1 == n {
            0
        } else {
            x + 1
        },
        x % n == x,
{
    if x == 0 {
        lemma_fundamental_div_mod_converse(x - 1, n, -1, n - 1);
    } else {
        lemma_fundamental_div_mod_converse(x - 1, n, 0, x - 1);
    }
    if x + 1 == n {
        lemma_fundamental_div_mod_converse(x + 1, n, 1, 0);
    } else {
        lemma_fundamental_div_mod_converse(x + 1, n, 0, x + 1);
    }
    lemma_fundamental_div_mod_converse(x, n, 0, x);
}

/// A finite subsquare of Z^2 with optional periodic boundary conditions.
#[derive(Debug, Clone, Copy)]
pub struct SquareLattice {
    width: usize,
    height: usize,
    periodic: bool,
}

impl View for SquareLattice {
    type V = LatticeShape;

    closed spec fn view(&self) -> LatticeShape {
        LatticeShape { width: self.width as nat, height: self.height as nat, periodic: self.periodic }
    }
}

impl SquareLattice {
    /// A lattice of `width` by `height` sites. The dimensions must be positive,
    /// and the number of sites must fit in an `isize`.
    pub fn new(width: usize, height: usize, periodic: bool) -> (lattice: Self)
        requires
            width > 0 && height > 0,
            width * height <= isize::MAX,
        ensures
            lattice@ == (LatticeShape { width: width as nat, height: height as nat, periodic }),
            lattice@.wf(),
    {
        Self { width, height, periodic }
    }

    pub fn width(&self) -> (w: usize)
        ensures
            w == self@.width,
    {
        self.width
    }

    pub fn height(&self) -> (h: usize)
        ensures
            h == self@.height,
    {
        self.height
    }

    pub fn periodic(&self) -> (p: bool)
        ensures
            p == self@.periodic,
    {
        self.periodic
    }

    /// Whether `site` lies on the edge of a lattice with free boundaries; no
    /// site of a periodic lattice does.
    pub fn is_boundary(&self, site: usize) -> (b: bool)
        requires
            self@.wf(),
        ensures
            b == self@.is_boundary(site as int),
    {
        let x: usize = site % self.width;
        let y: usize = site / self.width;
        !self.periodic && (x == 0 || x + 1 == self.width || y == 0 || y == self.height - 1)
    }

    /// The index of the site at column `x`, row `y`.
    fn index(&self, x: usize, y: usize) -> (site: usize)
        requires
            self@.wf(),
            x < self@.width,
            y < self@.height,
        ensures
            site as int == self@.site_at(x as int, y as int),
            self@.is_site(site as int),
    {
        proof {
            lemma_site_at(self@, x as int, y as int);
        }
        y * self.width + x
    }
}

impl Graph for SquareLattice {
    open spec fn sites(&self) -> nat {
        self@.site_count()
    }

    open spec fn accepts_site(&self, site: int) -> bool {
        self@.is_site(site)
    }

    open spec fn adjacency(&self, site: int) -> Seq<int> {
        self@.neighbors(site)
    }

    open spec fn well_formed(&self) -> bool {
        self@.wf()
    }

    fn site_count(&self) -> (n: usize) {
        self.width * self.height
    }

    fn neighbors(&self, site: usize) -> (v: Vec<usize>) {
        let ghost shape = self@;
        let x: usize = site % self.width;
        let y: usize = site / self.width;
        proof {
            lemma_coords(shape, site as int);
        }
        let ghost xi = x as int;
        let ghost yi = y as int;
        let mut result: Vec<usize> = Vec::with_capacity(4);
        if self.periodic {
            proof {
                lemma_wrap_steps(xi, self.width as int);
                lemma_wrap_steps(yi, self.height as int);
            }
            let left: usize = if x == 0 { self.width - 1 } else { x - 1 };
            result.push(self.index(left, y));
            let right: usize = if x + 1 == self.width { 0 } else { x + 1 };
            result.push(self.index(right, y));
            let below: usize = if y == 0 { self.height - 1 } else { y - 1 };
            result.push(self.index(x, below));
            let above: usize = if y + 1 == self.height { 0 } else { y + 1 };
            result.push(self.index(x, above));
        } else {
            if x > 0 {
                result.push(self.index(x - 1, y));
            }
            assert(as_ints(result@) =~= shape.locate((xi - 1, yi)));
            let ghost s1 = as_ints(result@);
            if x + 1 < self.width {
                result.push(self.index(x + 1, y));
            }
            assert(as_ints(result@) =~= s1 + shape.locate((xi + 1, yi)));
            let ghost s2 = as_ints(result@);
            if y > 0 {
                result.push(self.index(x, y - 1));
            }
            assert(as_ints(result@) =~= s2 + shape.locate((xi, yi - 1)));
            let ghost s3 = as_ints(result@);
            if y + 1 < self.height {
                result.push(self.index(x, y + 1));
            }
            assert(as_ints(result@) =~= s3 + shape.locate((xi, yi + 1)));
        }
        assert(as_ints(result@) =~= shape.neighbors(site as int));
        result
    }
}

} // verus!

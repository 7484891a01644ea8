use vstd::prelude::*;
use crate::graph::{as_ints, Graph};

pub mod bonds;
pub mod ising_model;
pub mod potts_model;

verus! {

/// The empty graph: no sites, and no neighbours for any index.
impl Graph for () {
    open spec fn sites(&self) -> nat {
        0
    }

    open spec fn accepts_site(&self, site: int) -> bool {
        true
    }

    open spec fn adjacency(&self, site: int) -> Seq<int> {
        Seq::empty()
    }

    open spec fn well_formed(&self) -> bool {
        true
    }

    fn site_count(&self) -> (n: usize) {
        0
    }

    fn neighbors(&self, _site: usize) -> (v: Vec<usize>) {
        let v: Vec<usize> = Vec::new();
        assert(as_ints(v@) =~= Seq::<int>::empty());
        v
    }
}

} // verus!

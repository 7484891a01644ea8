pub mod graph;
pub mod lattice_laws;
pub mod model;
mod random;
pub mod sampler;
pub mod output;

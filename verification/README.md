# random_lattice_models

Classical lattice models (Ising and q-state Potts) on a finite square lattice,
with free or periodic boundaries, and Monte Carlo samplers for them.

The library under `src/` is verified with Verus:

- `graph`: the `Graph` abstraction and `SquareLattice`, with the mathematical
  shape of a lattice (`LatticeShape`) that the contracts speak of.
- `lattice_laws`: the neighbour relation is symmetric (with multiplicity), stays
  on the lattice, never loops on a free lattice, and is properly two-coloured by
  the checkerboard when the lattice is free or periodic with even sides.
- `model::bonds`: sums over bonds, and the law that changing one site changes a
  symmetric bond sum by that site's local sum.
- `model::ising_model`, `model::potts_model`: boundary conditions, random starting
  configurations, and the integer sums that the energies are made of.
- `sampler`: the checkerboard Ising sampler, whose colour phases are opened and
  closed by the library so that fixed spins never change, and the Potts
  heat-bath sampler's state.
- `output`: the text and grey-level renderings of a configuration.

The program under `app/` parses the command line, holds the real-valued
couplings and temperatures, makes the floating-point acceptance decisions (in
parallel for the checkerboard phases), prints, and writes images.

//! A stochastic simulation of three competing cell populations on a periodic
//! three-dimensional lattice.

pub mod bone_lattice;
pub mod lattice;
pub mod payoff_matrix;
mod random;

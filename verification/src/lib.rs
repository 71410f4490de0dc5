//! Transient thermal simulation of downhole heat exchangers (DHEs) coupled to
//! a soil volume.
//!
//! The engine works on an exact rational scalar ([`rat::Rat`]); every kernel
//! states in its contract the exact arithmetic it performs. Evaluations of
//! transcendental functions (logarithms, roots, the exponential integral) do
//! not belong to this crate's verified core: callers supply their values as
//! rational inputs.

#![allow(non_snake_case)]

pub use boundary::boundary_step;
pub use brine::{BrineMethod, TBrineDynamicParameters, TBrineStationaryParameters};
pub use error::Error;
pub use model::{
    Depth, FluidProperties, GConeParameters, MaterialProperties, SoilLayerProperties,
    SoilParameters, TBrineCalcMethod,
};
pub use numerics::{solve_tridiagonal, solve_vandermonde};
pub use rat::Rat;
pub use soil::{soil_step, T_soil_refresh, TSoilParameters};

pub mod boundary;
pub mod brine;
pub mod client_info;
pub mod error;
pub mod layers;
pub mod model;
pub mod numerics;
pub mod rat;
pub mod soil;

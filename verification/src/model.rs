//! Configuration and state records of the simulation engine.

use vstd::prelude::*;

use crate::rat::Rat;

verus! {

/// Material properties of a solid (backfill or soil).
#[derive(Clone, Copy, Debug)]
pub struct MaterialProperties {
    /// Density [kg/m^3].
    pub rho: Rat,
    /// Specific heat [J/kg/K].
    pub c: Rat,
    /// Heat conductivity [W/m/K].
    pub lambda: Rat,
}

/// Properties of the circulating brine.
#[derive(Clone, Copy, Debug)]
pub struct FluidProperties {
    /// Density [kg/m^3].
    pub rho: Rat,
    /// Specific heat [J/kg/K].
    pub c: Rat,
    /// Heat conductivity [W/m/K].
    pub lambda: Rat,
    /// Kinematic viscosity [m^2/s].
    pub nu: Rat,
}

/// Thickness of a soil layer: a finite depth, or unbounded for the last
/// layer of a column.
#[derive(Clone, Copy, Debug)]
pub enum Depth {
    Finite(Rat),
    Unbounded,
}

impl View for Depth {
    type V = Option<crate::rat::Frac>;

    open spec fn view(&self) -> Option<crate::rat::Frac> {
        match self {
            Depth::Finite(r) => Some(r@),
            Depth::Unbounded => None,
        }
    }
}

/// One soil layer with its material properties and thickness.
#[derive(Clone, Copy, Debug)]
pub struct SoilLayerProperties {
    /// Density [kg/m^3].
    pub rho: Rat,
    /// Specific heat [J/kg/K].
    pub c: Rat,
    /// Heat conductivity [W/m/K].
    pub lambda: Rat,
    /// Thickness of the layer [m].
    pub d: Depth,
}

/// Parameters of the undisturbed ground temperature profile.
#[derive(Clone, Copy, Debug)]
pub struct SoilParameters {
    /// Mean temperature of the soil [deg C].
    pub T_soil_mean: Rat,
    /// Axial temperature gradient [K/m].
    pub T_grad: Rat,
}

/// Boundary condition according to the cone formula.
#[derive(Clone, Copy, Debug)]
pub struct GConeParameters;

impl GConeParameters {
    pub fn new() -> (r: Self)
        ensures
            r == GConeParameters,
    {
        GConeParameters
    }
}

/// Choice of brine-loop model.
#[derive(Clone, Copy, Debug)]
pub enum TBrineCalcMethod {
    Dynamic,
    Stationary,
}

/// Tag for the sub-stepped advection brine model.
#[derive(Clone, Copy, Debug)]
pub struct TBrineCalcMethodDynamic {}

/// Tag for the closed-form steady-profile brine model.
#[derive(Clone, Copy, Debug)]
pub struct TBrineCalcMethodStationary {}

} // verus!

//! Shared drainage primitives: depression filling, flat resolution, flow routing, and
//! accumulation.
//!
//! Everything is serial and deterministic: a priority queue and stack orderings with fixed
//! tie-breaks, which is what keeps the nodes that route water reproducible. Heights travel as
//! order keys (see [`crate::keys`]); where a step needs arithmetic on heights, the caller passes
//! it in as a function.

pub mod area;
pub mod area_laws;
pub mod drainage;
pub mod eikonal;
pub mod eikonal_laws;
pub mod fill;
pub mod fill_laws;
pub mod flats;
pub mod flow_laws;
pub mod incise;
pub mod incise_laws;
pub mod normalize;
pub mod queue;
pub mod reach_laws;
pub mod relief_laws;
pub mod resolve;
pub mod resolve_laws;
pub mod routing;
pub mod solve_laws;
pub mod stack;
pub mod update_laws;

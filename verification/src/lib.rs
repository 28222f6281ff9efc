//! Control plane of a hierarchical fog-computing platform: placement of
//! serverless functions by auction, bid lifecycle, and per-function routing.

pub mod auction;
pub mod config;
pub mod controller;
pub mod faas;
pub mod function_life;
pub mod ids;
pub mod market;
pub mod node_life;
pub mod quantity;
pub mod router;
pub mod routing;
pub mod satisfiability;
pub mod sla;

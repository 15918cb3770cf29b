//! Computes the minimal set of production processes, and how many
//! concurrent instances of each, needed to satisfy a list of resource
//! demands from a catalog of fixed-ratio conversion recipes. The
//! catalog and demands are turned into an exact linear model over
//! rational rates (variables, balance rows, demand rows, objective);
//! an external LP solver works on that model, and its per-variable
//! values are decoded back into a production plan. Everything up to
//! and after the solver call is specified and verified here; the
//! solver itself is an outside, floating-point capability.

pub mod calc;
pub mod error;
pub mod frac;
pub mod index;
pub mod item;
pub mod laws;
pub mod model;
pub mod proliferator;
pub mod recipe;
pub mod stats;

//! A multi-rate actor runtime for integrated control-system simulations.
//!
//! A simulation is a directed graph of actors. Each actor wraps a client and
//! exchanges typed samples with its neighbours over channels. This crate holds
//! the rules of that runtime: the typed ports and their channel endpoints, the
//! rate adapter that decides on which ticks an actor reads and writes, and the
//! validation of a wired graph before it is launched.
pub mod actor;
pub mod clients;
pub mod io;
pub mod model;
pub mod rate;

pub use actor::Update;

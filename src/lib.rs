//! A fixed-size worker pool, modelled as a verified state machine, and a
//! small set of lazy iterator adapters.

pub mod queue;
pub mod model;
pub mod pool;
pub mod laws;
pub mod adapters;

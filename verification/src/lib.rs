//! An incremental computation engine: a demand-driven graph of memoized
//! computations. Each node's result depends on the results of the other
//! nodes its computation requests, and a change to an input triggers
//! re-evaluation of only the transitively affected nodes.

pub mod complex;
pub mod dense;
pub mod engine;
pub mod inflight;
pub mod introspection;
pub mod io_state;
pub mod keys;
pub mod registry;
pub mod store;
pub mod textfmt;

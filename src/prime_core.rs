//! Task bookkeeping shared with the agent runtime.
pub mod models;

//! The companion's state: its personality record, the transition engine and the
//! knowledge stores.
pub mod kb;
pub mod models;
pub mod psychology;

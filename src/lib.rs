//! An access-control engine: principals, roles and hierarchical resource
//! paths, with time-limited grants, held in ordered key-value storage.

mod text;
pub mod error;
pub mod math;
pub mod model;
pub mod path;
pub mod store;
pub mod client;
pub mod acl;
pub mod execute;
pub mod msg;
pub mod responses;
pub mod resolve;
pub mod query;
pub mod laws;
pub mod contract;

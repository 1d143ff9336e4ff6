//! A pool of memory blocks with a bounded total size.
//!
//! [`ResourcePool`] hands memory out, takes it back, keeps it for reuse, and queues the requests
//! that it has no room for. What it does is stated over [`model::PoolModel`], and [`laws`] states
//! what follows for every pool.

pub mod binary32;
pub mod blocks;
pub mod laws;
pub mod model;
pub mod observability;
pub mod ordered_map;
pub mod pool;
pub mod resource;
pub mod wait_queue;
pub mod weight;

pub use crate::observability::get_observability_server_address;
pub use crate::pool::ResourcePool;
pub use crate::resource::{
    Resource, ResourcePoolError, ResourceRequest, ResourceRequestState, ResourceResponse, WaitStep,
};

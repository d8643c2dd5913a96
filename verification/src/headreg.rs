//! The head registry: owner-signed names, database roots and manifests, sharded over the
//! membership and rewritten in place when the shard count changes.

pub mod cache;
pub mod election;
pub mod held;
pub mod registry;
pub mod reshard;
pub mod route;
pub mod rows;
pub mod search;
pub mod settle;
pub mod shard;
pub mod tally;

//! The control plane of a block-replicated filesystem: the namespace tree, the open-file table
//! with its leases, the replica map of every block, the storage-node registry, and the handler
//! that answers requests over all four.


pub mod assoc;
pub mod block;
pub mod handler;
pub mod open_table;
pub mod path;
pub mod phys;
pub mod proto;
pub mod reconcile;
pub mod store;
pub mod time;
pub mod tree;

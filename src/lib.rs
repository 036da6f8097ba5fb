//! Verified core of a group membership tree indexer: canonical Merkle trees
//! over member address sets, the decisions of the per-group sync cycle, the
//! reverse address-to-groups index and the root lookup of the query endpoint.

pub mod types;
pub mod hex_codec;
pub mod order;
pub mod merkle;
pub mod sync;
pub mod engine;
pub mod address_groups;
pub mod query;

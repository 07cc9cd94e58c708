//! Wire-level message objects for a proxy re-encryption access-control network:
//! a versioned, branded envelope around a canonical field encoding, signed node
//! metadata, fleet-state exchange messages, retrieval kits and treasure maps.

pub mod codec;
pub mod versioning;
pub mod crypto;
pub mod node_metadata;
pub mod treasure_map;
pub mod retrieval_kit;
pub mod lemmas;

//! Contact management and request correlation for a Kademlia-style node.
//!
//! Peers are named by 160-bit identifiers. [`routing::RoutingTable`] sorts
//! them into buckets by how many leading bits they share with the local
//! identifier, each bucket ([`k_bucket::KBucket`], [`routing::KBucket`])
//! bounds its size and replaces the contact heard from least recently, and
//! [`rpc::SessionTable`] matches outgoing requests with the responses that
//! come back, or with the expiry of their deadline.

pub mod contact;
pub mod clock;
pub mod id;
pub mod k_bucket;
pub mod routing;
pub mod rpc;
pub mod node;

//! Group membership reconciliation for the compute nodes of an HPC hardware
//! inventory.
//!
//! The crate holds the decisions of the reconciliation engine and none of its
//! input or output. Member lists are merged, filtered and diffed by plain
//! functions ([`reconcile`], [`group`]); the bounded fetch of many groups
//! ([`fetch`]) and the migration of nodes from one group to another
//! ([`migrate`]) are state machines that a driver steps: each step takes what
//! the driver observed and answers with what the driver has to do next.
//!
//! Around this core stand the order on node ids ([`node_id`]), the errors
//! ([`error`]), the way from node numbers to node ids ([`nid`]), the requests
//! about ethernet interfaces ([`ethernet_interfaces`]) and the handle on one
//! inventory service ([`backend_connector`]). The few calls into other crates
//! are gathered in [`outside`].

pub mod authentication;
pub mod backend_connector;
pub mod error;
pub mod ethernet_interfaces;
pub mod fetch;
pub mod group;
pub mod migrate;
pub mod nid;
pub mod node_id;
pub mod outside;
pub mod reconcile;
pub mod text;

//! Ingestion of software bills of materials into a normalized package graph.
//!
//! Documents are turned into rows keyed by content-derived identities, written
//! to a store in dependency order and in bounded batches, and read back through
//! direct and transitive relationship queries.

// texts and identifiers
pub mod digest;
pub mod text;

// the identity layer
pub mod identity;
pub mod license;

// rows and tables
pub mod record;
pub mod relationship;
pub mod sbom;
pub mod sbom_node;
pub mod sbom_package;
pub mod sbom_package_cpe_ref;
pub mod sbom_package_purl_ref;

// the graph builder and the store
pub mod chunk;
pub mod content;
pub mod graph;
pub mod store;
pub mod store_laws;

// queries
pub mod model;
pub mod query;
pub mod server;

// import runs
pub mod archive;
pub mod dataset;
pub mod progress;
pub mod runner;
pub mod runner_laws;
pub mod walker;

//! Nodes of a document and the checksums attached to them.

use vstd::prelude::*;
use crate::record::{Record, Scoped};

verus! {

/// A vertex of the graph of one document.
#[derive(Debug)]
pub struct Model {
    pub sbom_id: u128,
    pub node_id: String,
    pub name: String,
}

impl Scoped for Model {
    open spec fn scope(&self) -> u128 {
        self.sbom_id
    }

    fn belongs_to(&self, sbom_id: u128) -> (belongs: bool) {
        self.sbom_id == sbom_id
    }
}

impl Record for Model {
    type Key = (u128, Seq<char>);

    open spec fn key(&self) -> (u128, Seq<char>) {
        (self.sbom_id, self.node_id@)
    }

    fn same_key(&self, other: &Self) -> (same: bool) {
        self.sbom_id == other.sbom_id && self.node_id == other.node_id
    }

    fn duplicate(&self) -> (copy: Self) {
        Model { sbom_id: self.sbom_id, node_id: self.node_id.clone(), name: self.name.clone() }
    }
}

/// An (algorithm, digest) pair of a file or package.
#[derive(Debug)]
pub struct Checksum {
    pub algorithm: String,
    pub digest: String,
}

/// A checksum attached to a node.
#[derive(Debug)]
pub struct ChecksumModel {
    pub sbom_id: u128,
    pub node_id: String,
    pub algorithm: String,
    pub digest: String,
}

impl ChecksumModel {
    /// The node that the checksum is attached to.
    pub open spec fn node_key(&self) -> (u128, Seq<char>) {
        (self.sbom_id, self.node_id@)
    }
}

impl Scoped for ChecksumModel {
    open spec fn scope(&self) -> u128 {
        self.sbom_id
    }

    fn belongs_to(&self, sbom_id: u128) -> (belongs: bool) {
        self.sbom_id == sbom_id
    }
}

impl Record for ChecksumModel {
    type Key = (u128, Seq<char>, Seq<char>, Seq<char>);

    open spec fn key(&self) -> (u128, Seq<char>, Seq<char>, Seq<char>) {
        (self.sbom_id, self.node_id@, self.algorithm@, self.digest@)
    }

    fn same_key(&self, other: &Self) -> (same: bool) {
        self.sbom_id == other.sbom_id && self.node_id == other.node_id && self.algorithm
            == other.algorithm && self.digest == other.digest
    }

    fn duplicate(&self) -> (copy: Self) {
        ChecksumModel {
            sbom_id: self.sbom_id,
            node_id: self.node_id.clone(),
            algorithm: self.algorithm.clone(),
            digest: self.digest.clone(),
        }
    }
}

} // verus!

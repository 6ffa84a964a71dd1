//! References from package nodes to catalog identities.

use vstd::prelude::*;
use crate::record::{Record, Scoped};

verus! {

/// An external catalog reference of a package node.
#[derive(Debug)]
pub struct Model {
    pub sbom_id: u128,
    pub node_id: String,
    pub cpe_id: u128,
}

impl Model {
    /// The package node that holds the reference.
    pub open spec fn node_key(&self) -> (u128, Seq<char>) {
        (self.sbom_id, self.node_id@)
    }
}

impl Scoped for Model {
    open spec fn scope(&self) -> u128 {
        self.sbom_id
    }

    fn belongs_to(&self, sbom_id: u128) -> (belongs: bool) {
        self.sbom_id == sbom_id
    }
}

impl Record for Model {
    type Key = (u128, Seq<char>, u128);

    open spec fn key(&self) -> (u128, Seq<char>, u128) {
        (self.sbom_id, self.node_id@, self.cpe_id)
    }

    fn same_key(&self, other: &Self) -> (same: bool) {
        self.sbom_id == other.sbom_id && self.node_id == other.node_id && self.cpe_id
            == other.cpe_id
    }

    fn duplicate(&self) -> (copy: Self) {
        Model { sbom_id: self.sbom_id, node_id: self.node_id.clone(), cpe_id: self.cpe_id }
    }
}

} // verus!

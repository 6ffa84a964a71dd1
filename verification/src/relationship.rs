//! Relationships between the nodes of a document.

use vstd::prelude::*;
use crate::record::{Record, Scoped};

verus! {

/// The kind of a relationship: what the node on the left is to the node on
/// the right.
#[derive(Clone, Copy, Debug, PartialEq, Eq, Structural)]
pub enum Relationship {
    /// The left node is contained by the right node.
    ContainedBy,
    /// The left node is a dependency of the right node.
    DependencyOf,
    /// The left node is a development dependency of the right node.
    DevDependencyOf,
    /// The left node is an optional dependency of the right node.
    OptionalDependencyOf,
    /// The left node is a dependency of the right node that the environment provides.
    ProvidedDependencyOf,
    /// The left node is a test dependency of the right node.
    TestDependencyOf,
    /// The left node is a run-time dependency of the right node.
    RuntimeDependencyOf,
    /// The left node is an example of the right node.
    ExampleOf,
    /// The left node is generated from the right node.
    GeneratedFrom,
    /// The left node is an ancestor of the right node.
    AncestorOf,
    /// The left node is a variant of the right node.
    VariantOf,
    /// The left node is a build tool of the right node.
    BuildToolOf,
    /// The left node is a development tool of the right node.
    DevToolOf,
    /// The left node is described by the right node, a document.
    DescribedBy,
    /// The left node is a package of the right node.
    PackageOf,
    /// The document does not say.
    Undefined,
}

impl Relationship {
    /// Tells whether a query for this kind of relationship follows edges
    /// through any number of nodes when the caller does not say: it does for
    /// containment, and for no other kind.
    pub open spec fn transitive_by_default(self) -> bool {
        self == Relationship::ContainedBy
    }

    /// Tells whether a query for this kind of relationship follows edges
    /// through any number of nodes when the caller does not say.
    pub fn is_transitive_by_default(self) -> (transitive: bool)
        ensures
            transitive == self.transitive_by_default(),
    {
        match self {
            Relationship::ContainedBy => true,
            _ => false,
        }
    }
}

/// A directed, typed edge between two nodes of one document.
#[derive(Debug)]
pub struct PackageRelatesToPackage {
    pub sbom_id: u128,
    pub left_node_id: String,
    pub relationship: Relationship,
    pub right_node_id: String,
}

impl PackageRelatesToPackage {
    /// The node on the left.
    pub open spec fn left_key(&self) -> (u128, Seq<char>) {
        (self.sbom_id, self.left_node_id@)
    }

    /// The node on the right.
    pub open spec fn right_key(&self) -> (u128, Seq<char>) {
        (self.sbom_id, self.right_node_id@)
    }
}

impl Scoped for PackageRelatesToPackage {
    open spec fn scope(&self) -> u128 {
        self.sbom_id
    }

    fn belongs_to(&self, sbom_id: u128) -> (belongs: bool) {
        self.sbom_id == sbom_id
    }
}

impl Record for PackageRelatesToPackage {
    type Key = (u128, Seq<char>, Relationship, Seq<char>);

    open spec fn key(&self) -> (u128, Seq<char>, Relationship, Seq<char>) {
        (self.sbom_id, self.left_node_id@, self.relationship, self.right_node_id@)
    }

    fn same_key(&self, other: &Self) -> (same: bool) {
        self.sbom_id == other.sbom_id && self.left_node_id == other.left_node_id
            && self.relationship == other.relationship && self.right_node_id
            == other.right_node_id
    }

    fn duplicate(&self) -> (copy: Self) {
        PackageRelatesToPackage {
            sbom_id: self.sbom_id,
            left_node_id: self.left_node_id.clone(),
            relationship: self.relationship,
            right_node_id: self.right_node_id.clone(),
        }
    }
}

} // verus!

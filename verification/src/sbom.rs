//! Documents.

use vstd::prelude::*;
use vstd::utf8::encode_utf8;
use crate::digest::{name_based_id, uuid_v5};
use crate::record::{Record, Scoped};

verus! {

/// The namespace of document identifiers.
pub const DOCUMENT_NAMESPACE: u128 = 0x9b2c6f0e_7d41_4a53_8e2a_51c3d6f0a9b7;

/// The identifier of the document with this name and version in this
/// namespace: the same three texts give the same identifier.
pub open spec fn document_id(name: Seq<char>, version: Seq<char>, namespace: Seq<char>) -> u128 {
    name_based_id(
        name_based_id(
            name_based_id(DOCUMENT_NAMESPACE, encode_utf8(namespace)),
            encode_utf8(name),
        ),
        encode_utf8(version),
    )
}

/// Computes the identifier of a document.
pub fn identify(name: &str, version: &str, namespace: &str) -> (id: u128)
    ensures
        id == document_id(name@, version@, namespace@),
{
    let in_namespace = uuid_v5(DOCUMENT_NAMESPACE, namespace.as_bytes());
    let named = uuid_v5(in_namespace, name.as_bytes());
    uuid_v5(named, version.as_bytes())
}

/// One ingested document.
#[derive(Debug)]
pub struct Model {
    pub sbom_id: u128,
    /// The node that stands for the document itself.
    pub node_id: String,
    /// The logical name of the document.
    pub name: String,
    /// The version of the document.
    pub version: String,
    /// The identity that the source declares for the document.
    pub namespace: String,
}

/// The first document with this identifier, if there is one.
pub open spec fn find_document(documents: Seq<Model>, sbom_id: u128) -> Option<Model>
    decreases documents.len(),
{
    if documents.len() == 0 {
        None
    } else if documents.first().sbom_id == sbom_id {
        Some(documents.first())
    } else {
        find_document(documents.drop_first(), sbom_id)
    }
}

impl Scoped for Model {
    open spec fn scope(&self) -> u128 {
        self.sbom_id
    }

    fn belongs_to(&self, sbom_id: u128) -> (belongs: bool) {
        self.sbom_id == sbom_id
    }
}

impl Record for Model {
    type Key = u128;

    open spec fn key(&self) -> u128 {
        self.sbom_id
    }

    fn same_key(&self, other: &Self) -> (same: bool) {
        self.sbom_id == other.sbom_id
    }

    fn duplicate(&self) -> (copy: Self) {
        Model {
            sbom_id: self.sbom_id,
            node_id: self.node_id.clone(),
            name: self.name.clone(),
            version: self.version.clone(),
            namespace: self.namespace.clone(),
        }
    }
}

} // verus!

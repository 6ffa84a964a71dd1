//! Accumulation of the relationships of one document.

use vstd::prelude::*;
use crate::graph::package::{declares, PackageCreator};
use crate::graph::plan::CommitPlan;
use crate::relationship::{PackageRelatesToPackage, Relationship};
use crate::text::same_text;
use crate::content::Content;
use crate::sbom_node;

verus! {

/// A relationship names a node that the document never declared.
#[derive(Debug)]
pub struct DanglingReference {
    /// The identifier that no node has.
    pub node_id: String,
}

/// Tells whether `node_id` is one of `known`.
pub open spec fn among(known: Seq<String>, node_id: Seq<char>) -> bool {
    exists|i: int| 0 <= i < known.len() && (#[trigger] known[i])@ == node_id
}

/// Tells whether a node identifier is declared: by a node row of the
/// document, or as one of the identifiers known beside them.
pub open spec fn declared(nodes: Seq<sbom_node::Model>, known: Seq<String>, node_id: Seq<char>) -> bool {
    declares(nodes, node_id) || among(known, node_id)
}

/// Tells whether both ends of a relationship are declared.
pub open spec fn anchored(
    nodes: Seq<sbom_node::Model>,
    known: Seq<String>,
    edge: PackageRelatesToPackage,
) -> bool {
    declared(nodes, known, edge.left_node_id@) && declared(nodes, known, edge.right_node_id@)
}

/// Creator of relationships.
pub struct RelationshipCreator {
    sbom_id: u128,
    pub(crate) rels: Vec<PackageRelatesToPackage>,
}

impl RelationshipCreator {
    /// The document that the relationships belong to.
    pub closed spec fn sbom_id(&self) -> u128 {
        self.sbom_id
    }

    /// The buffered relationships, oldest first.
    pub closed spec fn rows(&self) -> Seq<PackageRelatesToPackage> {
        self.rels@
    }

    /// The buffered rows, table by table.
    pub open spec fn content(&self) -> Content {
        Content { relationships: self.rows(), ..Content::empty() }
    }

    /// Every relationship belongs to the creator's document.
    pub open spec fn wf(&self) -> bool {
        forall|i: int|
            0 <= i < self.rows().len() ==> (#[trigger] self.rows()[i]).sbom_id == self.sbom_id()
    }

    /// A creator of the relationships of the document `sbom_id`, with nothing
    /// buffered.
    pub fn new(sbom_id: u128) -> (creator: Self)
        ensures
            creator.wf(),
            creator.sbom_id() == sbom_id,
            creator.rows() == Seq::<PackageRelatesToPackage>::empty(),
    {
        RelationshipCreator { sbom_id, rels: Vec::new() }
    }

    /// Buffers one relationship: `left` is `relationship` of `right`.
    pub fn relate(&mut self, left: String, relationship: Relationship, right: String)
        requires
            old(self).wf(),
        ensures
            final(self).wf(),
            final(self).sbom_id() == old(self).sbom_id(),
            final(self).rows() == old(self).rows().push(
                PackageRelatesToPackage {
                    sbom_id: old(self).sbom_id(),
                    left_node_id: left,
                    relationship,
                    right_node_id: right,
                },
            ),
    {
        self.rels.push(
            PackageRelatesToPackage {
                sbom_id: self.sbom_id,
                left_node_id: left,
                relationship,
                right_node_id: right,
            },
        );
    }

    /// Checks that every relationship joins declared nodes: nodes that
    /// `sources` buffered, or whose identifier is in `known`. The error names
    /// the first identifier, in the order of the relationships and left before
    /// right, that is not declared.
    pub fn validate(&self, sources: &PackageCreator, known: &Vec<String>) -> (checked: Result<
        (),
        DanglingReference,
    >)
        ensures
            checked is Ok <==> forall|i: int|
                0 <= i < self.rows().len() ==> anchored(
                    sources.node_rows(),
                    known@,
                    #[trigger] self.rows()[i],
                ),
            checked matches Err(dangling) ==> exists|i: int|
                {
                    &&& 0 <= i < self.rows().len()
                    &&& forall|k: int|
                        0 <= k < i ==> anchored(sources.node_rows(), known@, #[trigger] self.rows()[k])
                    &&& !declared(sources.node_rows(), known@, dangling.node_id@)
                    &&& if declared(
                        sources.node_rows(),
                        known@,
                        (#[trigger] self.rows()[i]).left_node_id@,
                    ) {
                        dangling.node_id@ == self.rows()[i].right_node_id@
                    } else {
                        dangling.node_id@ == self.rows()[i].left_node_id@
                    }
                },
    {
        let mut i: usize = 0;
        while i < self.rels.len()
            invariant
                i <= self.rels.len(),
                forall|k: int|
                    0 <= k < i ==> anchored(sources.node_rows(), known@, #[trigger] self.rels@[k]),
            decreases self.rels.len() - i,
        {
            let edge = &self.rels[i];
            if !is_declared(sources, known, edge.left_node_id.as_str()) {
                assert(!anchored(sources.node_rows(), known@, self.rows()[i as int]));
                return Err(DanglingReference { node_id: edge.left_node_id.clone() });
            }
            if !is_declared(sources, known, edge.right_node_id.as_str()) {
                assert(!anchored(sources.node_rows(), known@, self.rows()[i as int]));
                return Err(DanglingReference { node_id: edge.right_node_id.clone() });
            }
            i += 1;
        }
        Ok(())
    }

    /// Ends the accumulation, together with that of the packages of the
    /// document: the rows of both, in the order and the batches in which they
    /// are to be written, so that the document is committed as a whole.
    pub fn create_with(self, packages: PackageCreator) -> (plan: CommitPlan)
        ensures
            plan.wf(),
            plan.fresh(),
            plan.content() == (Content { relationships: self.rows(), ..packages.content() }),
    {
        packages.create().with_relationships(self.rels)
    }

    /// Ends the accumulation: the relationships, in the order and the batches
    /// in which they are to be written.
    pub fn create(self) -> (plan: CommitPlan)
        ensures
            plan.wf(),
            plan.fresh(),
            plan.content() == self.content(),
    {
        CommitPlan::new(
            Vec::new(),
            Vec::new(),
            Vec::new(),
            Vec::new(),
            Vec::new(),
            Vec::new(),
            Vec::new(),
            self.rels,
        )
    }
}

/// Tells whether a node identifier is declared.
fn is_declared(sources: &PackageCreator, known: &Vec<String>, node_id: &str) -> (found: bool)
    ensures
        found == declared(sources.node_rows(), known@, node_id@),
{
    if sources.contains(node_id) {
        return true;
    }
    let mut i: usize = 0;
    while i < known.len()
        invariant
            i <= known.len(),
            forall|k: int| 0 <= k < i ==> (#[trigger] known@[k])@ != node_id@,
        decreases known.len() - i,
    {
        if same_text(known[i].as_str(), node_id) {
            assert(known@[i as int]@ == node_id@);
            return true;
        }
        i += 1;
    }
    false
}

} // verus!

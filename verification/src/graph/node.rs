//! Accumulation of the nodes of one document.

use vstd::prelude::*;
use crate::record::{has_key, Record};
use crate::sbom_node::{Checksum, ChecksumModel, Model};
use crate::text::same_text;

verus! {

/// The checksum rows of one node, one for each of its checksums, in order.
pub open spec fn checksum_rows_of(sbom_id: u128, node_id: String, checksums: Seq<Checksum>) -> Seq<
    ChecksumModel,
> {
    checksums.map_values(
        |c: Checksum|
            ChecksumModel { sbom_id, node_id, algorithm: c.algorithm, digest: c.digest },
    )
}

/// Creator of nodes and their checksums.
pub struct NodeCreator {
    sbom_id: u128,
    pub(crate) nodes: Vec<Model>,
    pub(crate) checksums: Vec<ChecksumModel>,
}

impl NodeCreator {
    /// The document that the nodes belong to.
    pub closed spec fn sbom_id(&self) -> u128 {
        self.sbom_id
    }

    /// The buffered node rows, oldest first.
    pub closed spec fn node_rows(&self) -> Seq<Model> {
        self.nodes@
    }

    /// The buffered checksum rows, oldest first.
    pub closed spec fn checksum_rows(&self) -> Seq<ChecksumModel> {
        self.checksums@
    }

    /// Every row belongs to the creator's document, and every checksum is
    /// attached to a buffered node.
    pub open spec fn wf(&self) -> bool {
        &&& forall|i: int|
            0 <= i < self.node_rows().len() ==> (#[trigger] self.node_rows()[i]).sbom_id
                == self.sbom_id()
        &&& forall|i: int|
            0 <= i < self.checksum_rows().len() ==> {
                &&& (#[trigger] self.checksum_rows()[i]).sbom_id == self.sbom_id()
                &&& has_key(self.node_rows(), self.checksum_rows()[i].node_key())
            }
    }

    /// A creator of the nodes of the document `sbom_id`, with nothing buffered.
    pub fn new(sbom_id: u128) -> (creator: Self)
        ensures
            creator.wf(),
            creator.sbom_id() == sbom_id,
            creator.node_rows() == Seq::<Model>::empty(),
            creator.checksum_rows() == Seq::<ChecksumModel>::empty(),
    {
        NodeCreator { sbom_id, nodes: Vec::new(), checksums: Vec::new() }
    }

    /// A creator of the nodes of the document `sbom_id`, with nothing
    /// buffered and room for `capacity` nodes.
    pub fn with_capacity(sbom_id: u128, capacity: usize) -> (creator: Self)
        ensures
            creator.wf(),
            creator.sbom_id() == sbom_id,
            creator.node_rows() == Seq::<Model>::empty(),
            creator.checksum_rows() == Seq::<ChecksumModel>::empty(),
    {
        NodeCreator { sbom_id, nodes: Vec::with_capacity(capacity), checksums: Vec::new() }
    }

    /// Buffers one node and its checksums.
    pub fn add(&mut self, node_id: String, name: String, checksums: Vec<Checksum>)
        requires
            old(self).wf(),
        ensures
            final(self).wf(),
            final(self).sbom_id() == old(self).sbom_id(),
            final(self).node_rows() == old(self).node_rows().push(
                Model { sbom_id: old(self).sbom_id(), node_id, name },
            ),
            final(self).checksum_rows() == old(self).checksum_rows() + checksum_rows_of(
                old(self).sbom_id(),
                node_id,
                checksums@,
            ),
    {
        let ghost before = self.checksums@;
        let ghost nodes_before = self.nodes@;
        let ghost node = Model { sbom_id: self.sbom_id, node_id, name };
        let mut i: usize = 0;
        while i < checksums.len()
            invariant
                i <= checksums.len(),
                self.sbom_id == old(self).sbom_id,
                self.nodes@ == nodes_before,
                self.checksums@ == before + checksum_rows_of(
                    self.sbom_id,
                    node_id,
                    checksums@.take(i as int),
                ),
            decreases checksums.len() - i,
        {
            self.checksums.push(
                ChecksumModel {
                    sbom_id: self.sbom_id,
                    node_id: node_id.clone(),
                    algorithm: checksums[i].algorithm.clone(),
                    digest: checksums[i].digest.clone(),
                },
            );
            assert(checksums@.take(i + 1) == checksums@.take(i as int).push(checksums@[i as int]));
            assert(self.checksums@ == before + checksum_rows_of(
                self.sbom_id,
                node_id,
                checksums@.take(i + 1),
            ));
            i += 1;
        }
        assert(checksums@.take(checksums.len() as int) == checksums@);
        self.nodes.push(Model { sbom_id: self.sbom_id, node_id, name });
        proof {
            let rows = self.nodes@;
            assert(rows[rows.len() - 1] == node);
            assert forall|k: int| 0 <= k < self.checksums@.len() implies has_key(
                rows,
                (#[trigger] self.checksums@[k]).node_key(),
            ) by {
                if k < before.len() {
                    assert(has_key(
                        old(self).node_rows(),
                        (#[trigger] old(self).checksum_rows()[k]).node_key(),
                    ));
                    let w = choose|w: int|
                        0 <= w < nodes_before.len() && (#[trigger] nodes_before[w]).key()
                            == before[k].node_key();
                    assert(rows[w].key() == before[k].node_key());
                } else {
                    assert(rows[rows.len() - 1].key() == self.checksums@[k].node_key());
                }
            }
        }
    }

    /// Ends the accumulation: the node rows and the checksum rows.
    pub fn into_rows(self) -> (rows: (Vec<Model>, Vec<ChecksumModel>))
        ensures
            rows.0@ == self.node_rows(),
            rows.1@ == self.checksum_rows(),
    {
        (self.nodes, self.checksums)
    }

    /// Tells whether a node with this identifier was buffered.
    pub fn contains(&self, node_id: &str) -> (found: bool)
        ensures
            found == exists|i: int|
                0 <= i < self.node_rows().len() && (#[trigger] self.node_rows()[i]).node_id@
                    == node_id@,
    {
        let mut i: usize = 0;
        while i < self.nodes.len()
            invariant
                i <= self.nodes.len(),
                forall|k: int| 0 <= k < i ==> (#[trigger] self.nodes@[k]).node_id@ != node_id@,
            decreases self.nodes.len() - i,
        {
            if same_text(self.nodes[i].node_id.as_str(), node_id) {
                assert(self.node_rows()[i as int].node_id@ == node_id@);
                return true;
            }
            i += 1;
        }
        false
    }

    /// The identifiers of the buffered nodes, oldest first.
    pub fn references(&self) -> (ids: Vec<String>)
        ensures
            ids@ == self.node_rows().map_values(|row: Model| row.node_id),
    {
        let mut ids: Vec<String> = Vec::with_capacity(self.nodes.len());
        let mut i: usize = 0;
        while i < self.nodes.len()
            invariant
                i <= self.nodes.len(),
                ids@ == self.nodes@.take(i as int).map_values(|row: Model| row.node_id),
            decreases self.nodes.len() - i,
        {
            ids.push(self.nodes[i].node_id.clone());
            assert(self.nodes@.take(i + 1) == self.nodes@.take(i as int).push(self.nodes@[i as int]));
            assert(ids@ == self.nodes@.take(i + 1).map_values(|row: Model| row.node_id));
            i += 1;
        }
        assert(self.nodes@.take(self.nodes.len() as int) == self.nodes@);
        ids
    }
}

} // verus!

//! What the tables of a store, or the buffers of a commit, hold.

use vstd::prelude::*;
use crate::graph::plan::{Table, TABLES};
use crate::license::{CpeLicenseAssertion, PurlLicenseAssertion};
use crate::record::{has_key, insert_all, lemma_without, unique_keys, without, Record, Scoped};
use crate::relationship::PackageRelatesToPackage;
use crate::{sbom_node, sbom_package, sbom_package_cpe_ref, sbom_package_purl_ref};

verus! {

/// The rows of each table, oldest first.
#[verifier::ext_equal]
pub struct Content {
    pub nodes: Seq<sbom_node::Model>,
    pub checksums: Seq<sbom_node::ChecksumModel>,
    pub packages: Seq<sbom_package::Model>,
    pub purl_refs: Seq<sbom_package_purl_ref::Model>,
    pub cpe_refs: Seq<sbom_package_cpe_ref::Model>,
    pub purl_license_assertions: Seq<PurlLicenseAssertion>,
    pub cpe_license_assertions: Seq<CpeLicenseAssertion>,
    pub relationships: Seq<PackageRelatesToPackage>,
}

impl Content {
    /// No row at all.
    pub open spec fn empty() -> Content {
        Content {
            nodes: Seq::empty(),
            checksums: Seq::empty(),
            packages: Seq::empty(),
            purl_refs: Seq::empty(),
            cpe_refs: Seq::empty(),
            purl_license_assertions: Seq::empty(),
            cpe_license_assertions: Seq::empty(),
            relationships: Seq::empty(),
        }
    }

    /// The number of rows of a table.
    pub open spec fn rows_in(self, table: Table) -> int {
        match table {
            Table::Nodes => self.nodes.len() as int,
            Table::Checksums => self.checksums.len() as int,
            Table::Packages => self.packages.len() as int,
            Table::PurlRefs => self.purl_refs.len() as int,
            Table::CpeRefs => self.cpe_refs.len() as int,
            Table::PurlLicenseAssertions => self.purl_license_assertions.len() as int,
            Table::CpeLicenseAssertions => self.cpe_license_assertions.len() as int,
            Table::Relationships => self.relationships.len() as int,
        }
    }

    /// The number of rows of each table, in the order of a commit.
    pub open spec fn lens(self) -> Seq<int> {
        Seq::new(TABLES as nat, |stage: int| self.rows_in(Table::at(stage)))
    }

    /// No table holds two rows with the same key.
    pub open spec fn unique(self) -> bool {
        &&& unique_keys(self.nodes)
        &&& unique_keys(self.checksums)
        &&& unique_keys(self.packages)
        &&& unique_keys(self.purl_refs)
        &&& unique_keys(self.cpe_refs)
        &&& unique_keys(self.purl_license_assertions)
        &&& unique_keys(self.cpe_license_assertions)
        &&& unique_keys(self.relationships)
    }

    /// Every row that refers to a node or to a package finds it: a checksum
    /// and a package their node, a reference its package, a relationship the
    /// nodes at both ends.
    pub open spec fn integral(self) -> bool {
        &&& forall|i: int|
            0 <= i < self.checksums.len() ==> has_key(
                self.nodes,
                (#[trigger] self.checksums[i]).node_key(),
            )
        &&& forall|i: int|
            0 <= i < self.packages.len() ==> has_key(self.nodes, (#[trigger] self.packages[i]).key())
        &&& forall|i: int|
            0 <= i < self.purl_refs.len() ==> has_key(
                self.packages,
                (#[trigger] self.purl_refs[i]).node_key(),
            )
        &&& forall|i: int|
            0 <= i < self.cpe_refs.len() ==> has_key(
                self.packages,
                (#[trigger] self.cpe_refs[i]).node_key(),
            )
        &&& forall|i: int|
            0 <= i < self.relationships.len() ==> {
                &&& has_key(self.nodes, (#[trigger] self.relationships[i]).left_key())
                &&& has_key(self.nodes, self.relationships[i].right_key())
            }
    }

    /// The rows of `self` that `present` resolves: those whose targets are
    /// rows of `present`.
    pub open spec fn resolved_by(self, present: Content) -> bool {
        &&& forall|i: int|
            0 <= i < self.checksums.len() ==> has_key(
                present.nodes,
                (#[trigger] self.checksums[i]).node_key(),
            )
        &&& forall|i: int|
            0 <= i < self.packages.len() ==> has_key(
                present.nodes,
                (#[trigger] self.packages[i]).key(),
            )
        &&& forall|i: int|
            0 <= i < self.purl_refs.len() ==> has_key(
                present.packages,
                (#[trigger] self.purl_refs[i]).node_key(),
            )
        &&& forall|i: int|
            0 <= i < self.cpe_refs.len() ==> has_key(
                present.packages,
                (#[trigger] self.cpe_refs[i]).node_key(),
            )
        &&& forall|i: int|
            0 <= i < self.relationships.len() ==> {
                &&& has_key(present.nodes, (#[trigger] self.relationships[i]).left_key())
                &&& has_key(present.nodes, self.relationships[i].right_key())
            }
    }

    /// The tables after the insert of every row of `other`, table by table
    /// and row by row; a row whose key is taken is left out.
    pub open spec fn merged(self, other: Content) -> Content {
        Content {
            nodes: insert_all(self.nodes, other.nodes),
            checksums: insert_all(self.checksums, other.checksums),
            packages: insert_all(self.packages, other.packages),
            purl_refs: insert_all(self.purl_refs, other.purl_refs),
            cpe_refs: insert_all(self.cpe_refs, other.cpe_refs),
            purl_license_assertions: insert_all(
                self.purl_license_assertions,
                other.purl_license_assertions,
            ),
            cpe_license_assertions: insert_all(
                self.cpe_license_assertions,
                other.cpe_license_assertions,
            ),
            relationships: insert_all(self.relationships, other.relationships),
        }
    }

    /// The tables without the rows of the document `sbom_id`.
    pub open spec fn without(self, sbom_id: u128) -> Content {
        Content {
            nodes: without(self.nodes, sbom_id),
            checksums: without(self.checksums, sbom_id),
            packages: without(self.packages, sbom_id),
            purl_refs: without(self.purl_refs, sbom_id),
            cpe_refs: without(self.cpe_refs, sbom_id),
            purl_license_assertions: without(self.purl_license_assertions, sbom_id),
            cpe_license_assertions: without(self.cpe_license_assertions, sbom_id),
            relationships: without(self.relationships, sbom_id),
        }
    }

    /// The rows of one table from `start` up to `end`, and nothing of the
    /// other tables.
    pub open spec fn slice(self, table: Table, start: int, end: int) -> Content {
        match table {
            Table::Nodes => Content { nodes: self.nodes.subrange(start, end), ..Content::empty() },
            Table::Checksums => Content {
                checksums: self.checksums.subrange(start, end),
                ..Content::empty()
            },
            Table::Packages => Content {
                packages: self.packages.subrange(start, end),
                ..Content::empty()
            },
            Table::PurlRefs => Content {
                purl_refs: self.purl_refs.subrange(start, end),
                ..Content::empty()
            },
            Table::CpeRefs => Content {
                cpe_refs: self.cpe_refs.subrange(start, end),
                ..Content::empty()
            },
            Table::PurlLicenseAssertions => Content {
                purl_license_assertions: self.purl_license_assertions.subrange(start, end),
                ..Content::empty()
            },
            Table::CpeLicenseAssertions => Content {
                cpe_license_assertions: self.cpe_license_assertions.subrange(start, end),
                ..Content::empty()
            },
            Table::Relationships => Content {
                relationships: self.relationships.subrange(start, end),
                ..Content::empty()
            },
        }
    }

    /// The number of rows of a table that a commit has handed out when it
    /// stands at (`stage`, `offset`): all the rows of the tables before
    /// `stage`, `offset` rows of the table at `stage`, none of the tables
    /// after it.
    pub open spec fn reached(self, table: Table, stage: int, offset: int) -> int {
        if table.stage() < stage {
            self.rows_in(table)
        } else if table.stage() == stage {
            offset
        } else {
            0
        }
    }

    /// The rows that a commit has handed out when it stands at (`stage`,
    /// `offset`).
    pub open spec fn prefix(self, stage: int, offset: int) -> Content {
        Content {
            nodes: self.nodes.take(self.reached(Table::Nodes, stage, offset)),
            checksums: self.checksums.take(self.reached(Table::Checksums, stage, offset)),
            packages: self.packages.take(self.reached(Table::Packages, stage, offset)),
            purl_refs: self.purl_refs.take(self.reached(Table::PurlRefs, stage, offset)),
            cpe_refs: self.cpe_refs.take(self.reached(Table::CpeRefs, stage, offset)),
            purl_license_assertions: self.purl_license_assertions.take(
                self.reached(Table::PurlLicenseAssertions, stage, offset),
            ),
            cpe_license_assertions: self.cpe_license_assertions.take(
                self.reached(Table::CpeLicenseAssertions, stage, offset),
            ),
            relationships: self.relationships.take(
                self.reached(Table::Relationships, stage, offset),
            ),
        }
    }
}

/// A row with a key that belongs to another document is left when the rows
/// of a document are taken out.
proof fn lemma_key_is_left<R: Scoped>(rows: Seq<R>, sbom_id: u128, key: R::Key)
    requires
        has_key(rows, key),
        forall|i: int|
            0 <= i < rows.len() && (#[trigger] rows[i]).key() == key ==> rows[i].scope() != sbom_id,
    ensures
        has_key(without(rows, sbom_id), key),
{
    lemma_without(rows, sbom_id);
    let i = choose|i: int| 0 <= i < rows.len() && (#[trigger] rows[i]).key() == key;
    let left = without(rows, sbom_id);
    assert(left.contains(rows[i]));
    let j = choose|j: int| 0 <= j < left.len() && left[j] == rows[i];
    assert(left[j].key() == key);
}

/// Taking out the rows of a document leaves the tables well formed: what is
/// left has no key twice, and every reference that is left finds its target,
/// which belongs to the same document as the reference.
pub proof fn lemma_without_keeps_well_formed(content: Content, sbom_id: u128)
    requires
        content.unique(),
        content.integral(),
    ensures
        content.without(sbom_id).unique(),
        content.without(sbom_id).integral(),
{
    let left = content.without(sbom_id);
    lemma_without(content.nodes, sbom_id);
    lemma_without(content.checksums, sbom_id);
    lemma_without(content.packages, sbom_id);
    lemma_without(content.purl_refs, sbom_id);
    lemma_without(content.cpe_refs, sbom_id);
    lemma_without(content.purl_license_assertions, sbom_id);
    lemma_without(content.cpe_license_assertions, sbom_id);
    lemma_without(content.relationships, sbom_id);
    assert forall|j: int| 0 <= j < left.checksums.len() implies has_key(
        left.nodes,
        (#[trigger] left.checksums[j]).node_key(),
    ) by {
        let row = left.checksums[j];
        let i = choose|i: int| 0 <= i < content.checksums.len() && content.checksums[i] == row;
        assert(has_key(content.nodes, content.checksums[i].node_key()));
        lemma_key_is_left(content.nodes, sbom_id, row.node_key());
    }
    assert forall|j: int| 0 <= j < left.packages.len() implies has_key(
        left.nodes,
        (#[trigger] left.packages[j]).key(),
    ) by {
        let row = left.packages[j];
        let i = choose|i: int| 0 <= i < content.packages.len() && content.packages[i] == row;
        assert(has_key(content.nodes, content.packages[i].key()));
        lemma_key_is_left(content.nodes, sbom_id, row.key());
    }
    assert forall|j: int| 0 <= j < left.purl_refs.len() implies has_key(
        left.packages,
        (#[trigger] left.purl_refs[j]).node_key(),
    ) by {
        let row = left.purl_refs[j];
        let i = choose|i: int| 0 <= i < content.purl_refs.len() && content.purl_refs[i] == row;
        assert(has_key(content.packages, content.purl_refs[i].node_key()));
        lemma_key_is_left(content.packages, sbom_id, row.node_key());
    }
    assert forall|j: int| 0 <= j < left.cpe_refs.len() implies has_key(
        left.packages,
        (#[trigger] left.cpe_refs[j]).node_key(),
    ) by {
        let row = left.cpe_refs[j];
        let i = choose|i: int| 0 <= i < content.cpe_refs.len() && content.cpe_refs[i] == row;
        assert(has_key(content.packages, content.cpe_refs[i].node_key()));
        lemma_key_is_left(content.packages, sbom_id, row.node_key());
    }
    assert forall|j: int| 0 <= j < left.relationships.len() implies {
        &&& has_key(left.nodes, (#[trigger] left.relationships[j]).left_key())
        &&& has_key(left.nodes, left.relationships[j].right_key())
    } by {
        let row = left.relationships[j];
        let i = choose|i: int|
            0 <= i < content.relationships.len() && content.relationships[i] == row;
        assert(has_key(content.nodes, content.relationships[i].left_key()));
        assert(has_key(content.nodes, content.relationships[i].right_key()));
        lemma_key_is_left(content.nodes, sbom_id, row.left_key());
        lemma_key_is_left(content.nodes, sbom_id, row.right_key());
    }
}

} // verus!

//! A store of rows with unique keys and references between its tables.

use vstd::prelude::*;
use vstd::utf8::encode_utf8;
use crate::content::{lemma_without_keeps_well_formed, Content};
use crate::graph::plan::{lemma_settle, settle, Batch, CommitPlan, Table, TABLES};
use crate::identity::render::rendered;
use crate::identity::{Identity, IdentityKind, IdentityView};
use crate::license::{CpeLicenseAssertion, PurlLicenseAssertion};
use crate::record::{
    duplicate_rows, has_key, insert_ignore, insert_range, insert_row, lemma_insert_all,
    lemma_insert_all_step, lemma_insert_ignore, lemma_without, remove_scope, unique_keys, without,
    Record,
};
use crate::relationship::PackageRelatesToPackage;
use crate::sbom::{document_id, find_document, identify};
use crate::text::same_text;
use crate::{sbom, sbom_node, sbom_package, sbom_package_cpe_ref, sbom_package_purl_ref};

verus! {

/// A failure of the store that is not a conflict on a unique key.
#[derive(Clone, Copy, Debug, PartialEq, Eq, Structural)]
pub enum StorageError {
    /// Row `row` of the rows to insert into `table` refers to a row that is
    /// not there.
    MissingTarget { table: Table, row: usize },
}

/// Tells whether row `row` of `table` in `rows` refers to a node or a package
/// that `present` does not hold.
pub open spec fn unresolved(rows: Content, present: Content, table: Table, row: int) -> bool {
    match table {
        Table::Checksums => !has_key(present.nodes, rows.checksums[row].node_key()),
        Table::Packages => !has_key(present.nodes, rows.packages[row].key()),
        Table::PurlRefs => !has_key(present.packages, rows.purl_refs[row].node_key()),
        Table::CpeRefs => !has_key(present.packages, rows.cpe_refs[row].node_key()),
        Table::Relationships => !has_key(present.nodes, rows.relationships[row].left_key())
            || !has_key(present.nodes, rows.relationships[row].right_key()),
        _ => false,
    }
}

/// A canonical identity that documents share.
#[derive(Debug)]
pub struct CanonicalIdentity {
    /// The identifier of the identity.
    pub id: u128,
    pub kind: IdentityKind,
    /// The canonical text of the identity.
    pub text: String,
}

impl Record for CanonicalIdentity {
    type Key = (IdentityKind, Seq<char>);

    open spec fn key(&self) -> (IdentityKind, Seq<char>) {
        (self.kind, self.text@)
    }

    fn same_key(&self, other: &Self) -> (same: bool) {
        self.kind == other.kind && self.text == other.text
    }

    fn duplicate(&self) -> (copy: Self) {
        CanonicalIdentity { id: self.id, kind: self.kind, text: self.text.clone() }
    }
}

/// The tables of the graph.
pub struct Store {
    nodes: Vec<sbom_node::Model>,
    checksums: Vec<sbom_node::ChecksumModel>,
    packages: Vec<sbom_package::Model>,
    purl_refs: Vec<sbom_package_purl_ref::Model>,
    cpe_refs: Vec<sbom_package_cpe_ref::Model>,
    purl_license_assertions: Vec<PurlLicenseAssertion>,
    cpe_license_assertions: Vec<CpeLicenseAssertion>,
    relationships: Vec<PackageRelatesToPackage>,
    sboms: Vec<sbom::Model>,
    identities: Vec<CanonicalIdentity>,
}

impl View for Store {
    type V = Content;

    closed spec fn view(&self) -> Content {
        Content {
            nodes: self.nodes@,
            checksums: self.checksums@,
            packages: self.packages@,
            purl_refs: self.purl_refs@,
            cpe_refs: self.cpe_refs@,
            purl_license_assertions: self.purl_license_assertions@,
            cpe_license_assertions: self.cpe_license_assertions@,
            relationships: self.relationships@,
        }
    }
}

/// Tells whether a row records an identity: it is of the kind of the
/// identity and holds its canonical text.
pub open spec fn is_row_of(row: CanonicalIdentity, identity: IdentityView) -> bool {
    match identity {
        IdentityView::Package(purl) => row.kind == IdentityKind::Package && encode_utf8(row.text@)
            == rendered(purl),
        IdentityView::Catalog(name) => row.kind == IdentityKind::Catalog && encode_utf8(row.text@)
            == name,
        IdentityView::License(text) => row.kind == IdentityKind::License && encode_utf8(row.text@)
            == text,
    }
}

/// Tells whether a node row has this key.
fn node_exists(nodes: &Vec<sbom_node::Model>, sbom_id: u128, node_id: &str) -> (found: bool)
    ensures
        found == has_key(nodes@, (sbom_id, node_id@)),
{
    let mut i: usize = 0;
    while i < nodes.len()
        invariant
            i <= nodes.len(),
            forall|k: int| 0 <= k < i ==> (#[trigger] nodes@[k]).key() != (sbom_id, node_id@),
        decreases nodes.len() - i,
    {
        if nodes[i].sbom_id == sbom_id && same_text(nodes[i].node_id.as_str(), node_id) {
            assert(nodes@[i as int].key() == (sbom_id, node_id@));
            return true;
        }
        i += 1;
    }
    false
}

/// Tells whether a package row has this key.
fn package_exists(packages: &Vec<sbom_package::Model>, sbom_id: u128, node_id: &str) -> (found:
    bool)
    ensures
        found == has_key(packages@, (sbom_id, node_id@)),
{
    let mut i: usize = 0;
    while i < packages.len()
        invariant
            i <= packages.len(),
            forall|k: int| 0 <= k < i ==> (#[trigger] packages@[k]).key() != (sbom_id, node_id@),
        decreases packages.len() - i,
    {
        if packages[i].sbom_id == sbom_id && same_text(packages[i].node_id.as_str(), node_id) {
            assert(packages@[i as int].key() == (sbom_id, node_id@));
            return true;
        }
        i += 1;
    }
    false
}

impl Store {
    /// No table holds two rows with the same key, and every reference finds
    /// its target.
    pub open spec fn wf(&self) -> bool {
        &&& self@.unique()
        &&& self@.integral()
        &&& unique_keys(self.documents())
        &&& unique_keys(self.identities())
    }

    /// The canonical identities, oldest first.
    pub closed spec fn identities(&self) -> Seq<CanonicalIdentity> {
        self.identities@
    }

    /// The documents, oldest first.
    pub closed spec fn documents(&self) -> Seq<sbom::Model> {
        self.sboms@
    }

    /// An empty store.
    pub fn new() -> (store: Self)
        ensures
            store.wf(),
            store@ == Content::empty(),
            store.documents() == Seq::<sbom::Model>::empty(),
            store.identities() == Seq::<CanonicalIdentity>::empty(),
    {
        Store {
            nodes: Vec::new(),
            checksums: Vec::new(),
            packages: Vec::new(),
            purl_refs: Vec::new(),
            cpe_refs: Vec::new(),
            purl_license_assertions: Vec::new(),
            cpe_license_assertions: Vec::new(),
            relationships: Vec::new(),
            sboms: Vec::new(),
            identities: Vec::new(),
        }
    }

    /// Records a canonical identity, unless it is recorded already, and
    /// returns its identifier. Identities are shared: documents that speak of
    /// the same thing share one row.
    pub fn ingest_identity(&mut self, identity: &Identity) -> (id: u128)
        requires
            old(self).wf(),
        ensures
            final(self).wf(),
            final(self)@ == old(self)@,
            final(self).documents() == old(self).documents(),
            id == identity@.id(),
            exists|row: CanonicalIdentity|
                {
                    &&& row.id == id
                    &&& #[trigger] is_row_of(row, identity@)
                    &&& final(self).identities() == insert_ignore(old(self).identities(), row)
                },
    {
        let id = identity.uuid();
        let row = match identity {
            Identity::Package(purl) => CanonicalIdentity {
                id,
                kind: IdentityKind::Package,
                text: purl.to_text(),
            },
            Identity::Catalog(name) => CanonicalIdentity {
                id,
                kind: IdentityKind::Catalog,
                text: name.clone(),
            },
            Identity::License(text) => CanonicalIdentity {
                id,
                kind: IdentityKind::License,
                text: text.clone(),
            },
        };
        proof {
            lemma_insert_ignore(self.identities@, row);
            assert(is_row_of(row, identity@));
        }
        insert_row(&mut self.identities, row);
        id
    }

    /// The number of canonical identities.
    pub fn identity_count(&self) -> (count: usize)
        ensures
            count == self.identities().len(),
    {
        self.identities.len()
    }

    /// Deletes a document and every row that belongs to it. The canonical
    /// identities stay: other documents may share them.
    pub fn delete_document(&mut self, sbom_id: u128)
        requires
            old(self).wf(),
        ensures
            final(self).wf(),
            final(self)@ == old(self)@.without(sbom_id),
            final(self).documents() == without(old(self).documents(), sbom_id),
            final(self).identities() == old(self).identities(),
    {
        proof {
            lemma_without_keeps_well_formed(self@, sbom_id);
            lemma_without(self.sboms@, sbom_id);
        }
        remove_scope(&mut self.nodes, sbom_id);
        remove_scope(&mut self.checksums, sbom_id);
        remove_scope(&mut self.packages, sbom_id);
        remove_scope(&mut self.purl_refs, sbom_id);
        remove_scope(&mut self.cpe_refs, sbom_id);
        remove_scope(&mut self.purl_license_assertions, sbom_id);
        remove_scope(&mut self.cpe_license_assertions, sbom_id);
        remove_scope(&mut self.relationships, sbom_id);
        remove_scope(&mut self.sboms, sbom_id);
    }

    /// Records a document, unless it is recorded already, together with the
    /// node that stands for it, and returns the identifier of the document.
    /// The identifier follows from the name, the version and the namespace,
    /// so the same document recorded again changes nothing.
    pub fn ingest_sbom(
        &mut self,
        name: String,
        version: String,
        namespace: String,
        node_id: String,
    ) -> (sbom_id: u128)
        requires
            old(self).wf(),
        ensures
            final(self).wf(),
            sbom_id == document_id(name@, version@, namespace@),
            final(self).documents() == insert_ignore(
                old(self).documents(),
                sbom::Model { sbom_id, node_id, name, version, namespace },
            ),
            final(self)@ == (Content {
                nodes: insert_ignore(
                    old(self)@.nodes,
                    sbom_node::Model { sbom_id, node_id, name },
                ),
                ..old(self)@
            }),
            final(self).identities() == old(self).identities(),
    {
        let sbom_id = identify(name.as_str(), version.as_str(), namespace.as_str());
        let node = sbom_node::Model { sbom_id, node_id: node_id.clone(), name: name.clone() };
        proof {
            lemma_insert_ignore(self.nodes@, node);
            lemma_insert_ignore(
                self.sboms@,
                sbom::Model { sbom_id, node_id, name, version, namespace },
            );
        }
        insert_row(&mut self.nodes, node);
        insert_row(&mut self.sboms, sbom::Model { sbom_id, node_id, name, version, namespace });
        sbom_id
    }

    /// The document with this identifier, if it is recorded.
    pub fn document(&self, sbom_id: u128) -> (found: Option<&sbom::Model>)
        ensures
            match found {
                Some(document) => find_document(self.documents(), sbom_id) == Some(*document),
                None => find_document(self.documents(), sbom_id) is None,
            },
    {
        let mut i: usize = 0;
        assert(self.sboms@.skip(0) == self.sboms@);
        while i < self.sboms.len()
            invariant
                i <= self.sboms.len(),
                find_document(self.sboms@, sbom_id) == find_document(
                    self.sboms@.skip(i as int),
                    sbom_id,
                ),
            decreases self.sboms.len() - i,
        {
            proof {
                let rest = self.sboms@.skip(i as int);
                assert(rest.first() == self.sboms@[i as int]);
                assert(rest.drop_first() == self.sboms@.skip(i + 1));
            }
            if self.sboms[i].sbom_id == sbom_id {
                return Some(&self.sboms[i]);
            }
            i += 1;
        }
        None
    }

    /// The node rows, oldest first.
    pub fn nodes(&self) -> (rows: &Vec<sbom_node::Model>)
        ensures
            rows@ == self@.nodes,
    {
        &self.nodes
    }

    /// The checksum rows, oldest first.
    pub fn checksums(&self) -> (rows: &Vec<sbom_node::ChecksumModel>)
        ensures
            rows@ == self@.checksums,
    {
        &self.checksums
    }

    /// The package rows, oldest first.
    pub fn packages(&self) -> (rows: &Vec<sbom_package::Model>)
        ensures
            rows@ == self@.packages,
    {
        &self.packages
    }

    /// The package URL reference rows, oldest first.
    pub fn purl_refs(&self) -> (rows: &Vec<sbom_package_purl_ref::Model>)
        ensures
            rows@ == self@.purl_refs,
    {
        &self.purl_refs
    }

    /// The catalog reference rows, oldest first.
    pub fn cpe_refs(&self) -> (rows: &Vec<sbom_package_cpe_ref::Model>)
        ensures
            rows@ == self@.cpe_refs,
    {
        &self.cpe_refs
    }

    /// The license assertions on package URLs, oldest first.
    pub fn purl_license_assertions(&self) -> (rows: &Vec<PurlLicenseAssertion>)
        ensures
            rows@ == self@.purl_license_assertions,
    {
        &self.purl_license_assertions
    }

    /// The license assertions on catalog entries, oldest first.
    pub fn cpe_license_assertions(&self) -> (rows: &Vec<CpeLicenseAssertion>)
        ensures
            rows@ == self@.cpe_license_assertions,
    {
        &self.cpe_license_assertions
    }

    /// The relationships, oldest first.
    pub fn relationships(&self) -> (rows: &Vec<PackageRelatesToPackage>)
        ensures
            rows@ == self@.relationships,
    {
        &self.relationships
    }

    /// A copy of the store.
    pub fn duplicate(&self) -> (copy: Self)
        ensures
            copy@ == self@,
            copy.documents() == self.documents(),
            copy.identities() == self.identities(),
    {
        Store {
            nodes: duplicate_rows(&self.nodes),
            checksums: duplicate_rows(&self.checksums),
            packages: duplicate_rows(&self.packages),
            purl_refs: duplicate_rows(&self.purl_refs),
            cpe_refs: duplicate_rows(&self.cpe_refs),
            purl_license_assertions: duplicate_rows(&self.purl_license_assertions),
            cpe_license_assertions: duplicate_rows(&self.cpe_license_assertions),
            relationships: duplicate_rows(&self.relationships),
            sboms: duplicate_rows(&self.sboms),
            identities: duplicate_rows(&self.identities),
        }
    }

    /// The first row of the batch, if any, that refers to a row that the
    /// store does not hold.
    fn first_unresolved(&self, plan: &CommitPlan, batch: Batch) -> (row: Option<usize>)
        requires
            batch.start <= batch.end <= plan.content().rows_in(batch.table),
        ensures
            match row {
                Some(r) => batch.start <= r < batch.end && unresolved(
                    plan.content(),
                    self@,
                    batch.table,
                    r as int,
                ) && forall|k: int|
                    batch.start <= k < r ==> !unresolved(plan.content(), self@, batch.table, k),
                None => forall|r: int|
                    batch.start <= r < batch.end ==> !unresolved(
                        plan.content(),
                        self@,
                        batch.table,
                        r,
                    ),
            },
    {
        let mut r: usize = batch.start;
        while r < batch.end
            invariant
                batch.start <= r <= batch.end <= plan.content().rows_in(batch.table),
                forall|k: int|
                    batch.start <= k < r ==> !unresolved(plan.content(), self@, batch.table, k),
            decreases batch.end - r,
        {
            let found = match batch.table {
                Table::Checksums => {
                    let row = &plan.checksums()[r];
                    node_exists(&self.nodes, row.sbom_id, row.node_id.as_str())
                },
                Table::Packages => {
                    let row = &plan.packages()[r];
                    node_exists(&self.nodes, row.sbom_id, row.node_id.as_str())
                },
                Table::PurlRefs => {
                    let row = &plan.purl_refs()[r];
                    package_exists(&self.packages, row.sbom_id, row.node_id.as_str())
                },
                Table::CpeRefs => {
                    let row = &plan.cpe_refs()[r];
                    package_exists(&self.packages, row.sbom_id, row.node_id.as_str())
                },
                Table::Relationships => {
                    let row = &plan.relationships()[r];
                    node_exists(&self.nodes, row.sbom_id, row.left_node_id.as_str())
                        && node_exists(&self.nodes, row.sbom_id, row.right_node_id.as_str())
                },
                _ => true,
            };
            if !found {
                return Some(r);
            }
            r += 1;
        }
        None
    }

    /// Performs one bulk insert of a commit: the rows of the batch are
    /// inserted in order, those whose key is taken are passed over. The
    /// insert is refused, and nothing is written, where a row of the batch
    /// refers to a row that the store does not hold; the error names the
    /// first such row.
    pub fn insert(&mut self, plan: &CommitPlan, batch: Batch) -> (done: Result<(), StorageError>)
        requires
            old(self).wf(),
            batch.start <= batch.end <= plan.content().rows_in(batch.table),
        ensures
            final(self).wf(),
            final(self).documents() == old(self).documents(),
            final(self).identities() == old(self).identities(),
            done is Ok <==> plan.content().slice(
                batch.table,
                batch.start as int,
                batch.end as int,
            ).resolved_by(old(self)@),
            done is Ok ==> final(self)@ == old(self)@.merged(
                plan.content().slice(batch.table, batch.start as int, batch.end as int),
            ),
            done matches Err(e) ==> {
                &&& final(self)@ == old(self)@
                &&& e matches StorageError::MissingTarget { table, row }
                &&& table == batch.table
                &&& batch.start <= row < batch.end
                &&& unresolved(plan.content(), old(self)@, table, row as int)
                &&& forall|k: int|
                    batch.start <= k < row ==> !unresolved(plan.content(), old(self)@, table, k)
            },
    {
        let ghost slice = plan.content().slice(batch.table, batch.start as int, batch.end as int);
        match self.first_unresolved(plan, batch) {
            Some(row) => {
                proof {
                    lemma_slice_unresolved(
                        plan.content(),
                        self@,
                        batch.table,
                        batch.start as int,
                        batch.end as int,
                        row as int,
                    );
                }
                return Err(StorageError::MissingTarget { table: batch.table, row });
            },
            None => {},
        }
        proof {
            lemma_slice_resolved(
                plan.content(),
                self@,
                batch.table,
                batch.start as int,
                batch.end as int,
            );
            lemma_merged_wf(self@, slice);
        }
        match batch.table {
            Table::Nodes => insert_range(&mut self.nodes, plan.nodes(), batch.start, batch.end),
            Table::Checksums => insert_range(
                &mut self.checksums,
                plan.checksums(),
                batch.start,
                batch.end,
            ),
            Table::Packages => insert_range(
                &mut self.packages,
                plan.packages(),
                batch.start,
                batch.end,
            ),
            Table::PurlRefs => insert_range(
                &mut self.purl_refs,
                plan.purl_refs(),
                batch.start,
                batch.end,
            ),
            Table::CpeRefs => insert_range(
                &mut self.cpe_refs,
                plan.cpe_refs(),
                batch.start,
                batch.end,
            ),
            Table::PurlLicenseAssertions => insert_range(
                &mut self.purl_license_assertions,
                plan.purl_license_assertions(),
                batch.start,
                batch.end,
            ),
            Table::CpeLicenseAssertions => insert_range(
                &mut self.cpe_license_assertions,
                plan.cpe_license_assertions(),
                batch.start,
                batch.end,
            ),
            Table::Relationships => insert_range(
                &mut self.relationships,
                plan.relationships(),
                batch.start,
                batch.end,
            ),
        }
        assert(self@ == old(self)@.merged(slice));
        Ok(())
    }

    /// Writes the rows of a plan, batch by batch in the order of the plan,
    /// as one unit: either every batch is performed, or, where a batch is
    /// refused, the store is left as it was. The commit succeeds exactly
    /// where every row of the plan finds its target among the rows of the
    /// store and of the plan; else the error names the first row, in the
    /// order of the plan, that does not.
    pub fn commit(&mut self, plan: CommitPlan) -> (done: Result<(), StorageError>)
        requires
            old(self).wf(),
            plan.wf(),
            plan.fresh(),
        ensures
            final(self).wf(),
            final(self).documents() == old(self).documents(),
            final(self).identities() == old(self).identities(),
            done is Ok <==> old(self)@.merged(plan.content()).integral(),
            done is Ok ==> final(self)@ == old(self)@.merged(plan.content()),
            done matches Err(e) ==> {
                &&& final(self)@ == old(self)@
                &&& e matches StorageError::MissingTarget { table, row }
                &&& 0 <= row < plan.content().rows_in(table)
                &&& unresolved(
                    plan.content(),
                    old(self)@.merged(plan.content()),
                    table,
                    row as int,
                )
                &&& forall|earlier: Table, k: int|
                    0 <= k < plan.content().reached(earlier, table.stage(), row as int)
                        ==> !#[trigger] unresolved(
                        plan.content(),
                        old(self)@.merged(plan.content()),
                        earlier,
                        k,
                    )
            },
    {
        let snapshot = self.duplicate();
        let ghost rows = plan.content();
        let ghost before = self@;
        let mut pending = plan;
        proof {
            lemma_prefix_ends(before, rows);
        }
        loop
            invariant
                self.wf(),
                pending.wf(),
                pending.content() == rows,
                rows == plan.content(),
                before == old(self)@,
                snapshot@ == before,
                snapshot.documents() == old(self).documents(),
                self.documents() == old(self).documents(),
                snapshot.identities() == old(self).identities(),
                self.identities() == old(self).identities(),
                before.unique(),
                before.integral(),
                self@ == before.merged(rows.prefix(pending.stage(), pending.offset())),
                forall|table: Table, k: int|
                    0 <= k < rows.reached(table, pending.stage(), pending.offset())
                        ==> !#[trigger] unresolved(rows, before.merged(rows), table, k),
            decreases
                    TABLES - pending.stage(),
                    rows.rows_in(Table::at(pending.stage())) - pending.offset(),
        {
            let ghost stage = pending.stage();
            let ghost offset = pending.offset();
            proof {
                lemma_settle(rows.lens(), stage, offset);
                lemma_prefix_settle(rows, rows.lens(), stage, offset);
            }
            match pending.next_batch() {
                None => {
                    proof {
                        lemma_prefix_ends(before, rows);
                    }
                    return Ok(());
                },
                Some(batch) => {
                    let ghost (s, o) = settle(rows.lens(), stage, offset);
                    assert(batch.table == Table::at(s));
                    assert(batch.start == o);
                    assert(rows.lens()[s] == rows.rows_in(Table::at(s)));
                    assert(o < batch.end <= rows.rows_in(batch.table));
                    assert forall|table: Table, k: int|
                        0 <= k < rows.reached(
                            table,
                            s,
                            o,
                        ) implies !#[trigger] unresolved(rows, before.merged(rows), table, k) by {
                        assert(rows.reached(table, s, o) == rows.reached(table, stage, offset));
                    }
                    let ghost here = self@;
                    match self.insert(&pending, batch) {
                        Ok(()) => {
                            proof {
                                lemma_prefix_step(
                                    before,
                                    rows,
                                    batch.table.stage(),
                                    batch.start as int,
                                    batch.end as int,
                                );
                                assert forall|table: Table, k: int|
                                    0 <= k < rows.reached(
                                        table,
                                        s,
                                        batch.end as int,
                                    ) implies !#[trigger] unresolved(
                                    rows,
                                    before.merged(rows),
                                    table,
                                    k,
                                ) by {
                                    if table == batch.table && k >= o {
                                        lemma_resolved_row(
                                            rows,
                                            here,
                                            table,
                                            batch.start as int,
                                            batch.end as int,
                                            k,
                                        );
                                        lemma_resolution_is_settled(before, rows, table, o, k);
                                    } else {
                                        assert(k < rows.reached(table, s, o));
                                    }
                                }
                            }
                        },
                        Err(e) => {
                            proof {
                                let row = e->row as int;
                                lemma_resolution_is_settled(before, rows, batch.table, o, row);
                                lemma_unresolved_breaks(before, rows, batch.table, row);
                                assert forall|table: Table, k: int|
                                    0 <= k < rows.reached(
                                        table,
                                        s,
                                        row,
                                    ) implies !#[trigger] unresolved(
                                    rows,
                                    before.merged(rows),
                                    table,
                                    k,
                                ) by {
                                    if table == batch.table && k >= o {
                                        lemma_resolution_is_settled(before, rows, table, o, k);
                                    } else {
                                        assert(k < rows.reached(table, s, o));
                                    }
                                }
                            }
                            *self = snapshot;
                            return Err(e);
                        },
                    }
                },
            }
        }
    }
}

/// Before the first row the commit has handed out nothing, and behind the
/// last table all.
pub proof fn lemma_prefix_ends(store: Content, rows: Content)
    ensures
        store.merged(rows.prefix(0, 0)) == store,
        rows.prefix(TABLES as int, 0) == rows,
{
    assert(rows.prefix(0, 0) =~= Content::empty());
    assert(rows.prefix(TABLES as int, 0) =~= rows);
    assert(store.merged(Content::empty()) =~= store);
}

/// Passing over tables without rows left hands out nothing.
pub proof fn lemma_prefix_settle(rows: Content, lens: Seq<int>, stage: int, offset: int)
    requires
        lens == rows.lens(),
        0 <= stage <= TABLES,
        stage < TABLES ==> 0 <= offset <= lens[stage],
        stage == TABLES ==> offset == 0,
    ensures
        ({
            let (s, o) = settle(lens, stage, offset);
            &&& rows.prefix(s, o) == rows.prefix(stage, offset)
            &&& forall|table: Table|
                #[trigger] rows.reached(table, s, o) == rows.reached(table, stage, offset)
        }),
{
    lemma_settle(lens, stage, offset);
    let (s, o) = settle(lens, stage, offset);
    assert forall|table: Table| rows.reached(table, s, o) == rows.reached(table, stage, offset) by {
        let t = table.stage();
        assert(Table::at(t) == table);
        assert(lens[t] == rows.rows_in(table));
        if stage < TABLES {
            assert(lens[stage] == rows.rows_in(Table::at(stage)));
        }
    }
}

/// One more batch of the table that the commit stands at moves the commit
/// behind the batch.
pub proof fn lemma_prefix_step(store: Content, rows: Content, stage: int, start: int, end: int)
    requires
        0 <= stage < TABLES,
        0 <= start <= end <= rows.rows_in(Table::at(stage)),
    ensures
        store.merged(rows.prefix(stage, start)).merged(rows.slice(Table::at(stage), start, end))
            == store.merged(rows.prefix(stage, end)),
{
    match Table::at(stage) {
        Table::Nodes => lemma_insert_all_step(store.nodes, rows.nodes, start, end),
        Table::Checksums => lemma_insert_all_step(store.checksums, rows.checksums, start, end),
        Table::Packages => lemma_insert_all_step(store.packages, rows.packages, start, end),
        Table::PurlRefs => lemma_insert_all_step(store.purl_refs, rows.purl_refs, start, end),
        Table::CpeRefs => lemma_insert_all_step(store.cpe_refs, rows.cpe_refs, start, end),
        Table::PurlLicenseAssertions => lemma_insert_all_step(
            store.purl_license_assertions,
            rows.purl_license_assertions,
            start,
            end,
        ),
        Table::CpeLicenseAssertions => lemma_insert_all_step(
            store.cpe_license_assertions,
            rows.cpe_license_assertions,
            start,
            end,
        ),
        Table::Relationships => lemma_insert_all_step(
            store.relationships,
            rows.relationships,
            start,
            end,
        ),
    }
}

/// Whether a row finds its target is settled when the commit stands at the
/// table of the row: the tables that the row refers to were written before.
pub proof fn lemma_resolution_is_settled(
    store: Content,
    rows: Content,
    table: Table,
    offset: int,
    row: int,
)
    requires
        0 <= offset <= rows.rows_in(table),
    ensures
        unresolved(rows, store.merged(rows.prefix(table.stage(), offset)), table, row)
            == unresolved(rows, store.merged(rows), table, row),
{
    let stage = table.stage();
    if stage > 0 {
        assert(rows.nodes.take(rows.reached(Table::Nodes, stage, offset)) == rows.nodes);
    }
    if stage > 2 {
        assert(rows.packages.take(rows.reached(Table::Packages, stage, offset)) == rows.packages);
    }
}

/// A row of a slice that finds its targets finds its target.
pub proof fn lemma_resolved_row(
    rows: Content,
    present: Content,
    table: Table,
    start: int,
    end: int,
    row: int,
)
    requires
        0 <= start <= row < end <= rows.rows_in(table),
        rows.slice(table, start, end).resolved_by(present),
    ensures
        !unresolved(rows, present, table, row),
{
    if unresolved(rows, present, table, row) {
        lemma_slice_unresolved(rows, present, table, start, end, row);
    }
}

/// A row of a commit whose target is in neither the store nor the commit
/// leaves the store with a broken reference.
pub proof fn lemma_unresolved_breaks(store: Content, rows: Content, table: Table, row: int)
    requires
        0 <= row < rows.rows_in(table),
        unresolved(rows, store.merged(rows), table, row),
    ensures
        !store.merged(rows).integral(),
{
    let after = store.merged(rows);
    match table {
        Table::Checksums => {
            lemma_insert_all(store.checksums, rows.checksums);
            assert(has_key(rows.checksums, rows.checksums[row].key()));
            let i = choose|i: int|
                0 <= i < after.checksums.len() && (#[trigger] after.checksums[i]).key()
                    == rows.checksums[row].key();
            assert(after.checksums[i].node_key() == rows.checksums[row].node_key());
        },
        Table::Packages => {
            lemma_insert_all(store.packages, rows.packages);
            assert(has_key(rows.packages, rows.packages[row].key()));
            let i = choose|i: int|
                0 <= i < after.packages.len() && (#[trigger] after.packages[i]).key()
                    == rows.packages[row].key();
            assert(after.packages[i].key() == rows.packages[row].key());
        },
        Table::PurlRefs => {
            lemma_insert_all(store.purl_refs, rows.purl_refs);
            assert(has_key(rows.purl_refs, rows.purl_refs[row].key()));
            let i = choose|i: int|
                0 <= i < after.purl_refs.len() && (#[trigger] after.purl_refs[i]).key()
                    == rows.purl_refs[row].key();
            assert(after.purl_refs[i].node_key() == rows.purl_refs[row].node_key());
        },
        Table::CpeRefs => {
            lemma_insert_all(store.cpe_refs, rows.cpe_refs);
            assert(has_key(rows.cpe_refs, rows.cpe_refs[row].key()));
            let i = choose|i: int|
                0 <= i < after.cpe_refs.len() && (#[trigger] after.cpe_refs[i]).key()
                    == rows.cpe_refs[row].key();
            assert(after.cpe_refs[i].node_key() == rows.cpe_refs[row].node_key());
        },
        Table::Relationships => {
            lemma_insert_all(store.relationships, rows.relationships);
            assert(has_key(rows.relationships, rows.relationships[row].key()));
            let i = choose|i: int|
                0 <= i < after.relationships.len() && (#[trigger] after.relationships[i]).key()
                    == rows.relationships[row].key();
            assert(after.relationships[i].left_key() == rows.relationships[row].left_key());
            assert(after.relationships[i].right_key() == rows.relationships[row].right_key());
        },
        _ => {},
    }
}

/// A row of a slice is a row of the table it was cut from.
pub proof fn lemma_slice_unresolved(
    rows: Content,
    present: Content,
    table: Table,
    start: int,
    end: int,
    row: int,
)
    requires
        0 <= start <= row < end <= rows.rows_in(table),
        unresolved(rows, present, table, row),
    ensures
        !rows.slice(table, start, end).resolved_by(present),
{
    let slice = rows.slice(table, start, end);
    match table {
        Table::Checksums => {
            assert(slice.checksums[row - start] == rows.checksums[row]);
        },
        Table::Packages => {
            assert(slice.packages[row - start] == rows.packages[row]);
        },
        Table::PurlRefs => {
            assert(slice.purl_refs[row - start] == rows.purl_refs[row]);
        },
        Table::CpeRefs => {
            assert(slice.cpe_refs[row - start] == rows.cpe_refs[row]);
        },
        Table::Relationships => {
            assert(slice.relationships[row - start] == rows.relationships[row]);
        },
        _ => {},
    }
}

/// A slice whose rows all find their targets is resolved.
pub proof fn lemma_slice_resolved(rows: Content, present: Content, table: Table, start: int, end: int)
    requires
        0 <= start <= end <= rows.rows_in(table),
        forall|r: int| start <= r < end ==> !unresolved(rows, present, table, r),
    ensures
        rows.slice(table, start, end).resolved_by(present),
{
    let slice = rows.slice(table, start, end);
    assert forall|i: int| 0 <= i < slice.checksums.len() implies has_key(
        present.nodes,
        (#[trigger] slice.checksums[i]).node_key(),
    ) by {
        assert(!unresolved(rows, present, table, start + i));
    }
    assert forall|i: int| 0 <= i < slice.packages.len() implies has_key(
        present.nodes,
        (#[trigger] slice.packages[i]).key(),
    ) by {
        assert(!unresolved(rows, present, table, start + i));
    }
    assert forall|i: int| 0 <= i < slice.purl_refs.len() implies has_key(
        present.packages,
        (#[trigger] slice.purl_refs[i]).node_key(),
    ) by {
        assert(!unresolved(rows, present, table, start + i));
    }
    assert forall|i: int| 0 <= i < slice.cpe_refs.len() implies has_key(
        present.packages,
        (#[trigger] slice.cpe_refs[i]).node_key(),
    ) by {
        assert(!unresolved(rows, present, table, start + i));
    }
    assert forall|i: int| 0 <= i < slice.relationships.len() implies {
        &&& has_key(present.nodes, (#[trigger] slice.relationships[i]).left_key())
        &&& has_key(present.nodes, slice.relationships[i].right_key())
    } by {
        assert(!unresolved(rows, present, table, start + i));
    }
}

/// The insert of rows that find their targets keeps a store well formed.
pub proof fn lemma_merged_wf(store: Content, rows: Content)
    requires
        store.unique(),
        store.integral(),
        rows.resolved_by(store.merged(rows)),
    ensures
        store.merged(rows).unique(),
        store.merged(rows).integral(),
{
    let after = store.merged(rows);
    lemma_insert_all(store.nodes, rows.nodes);
    lemma_insert_all(store.checksums, rows.checksums);
    lemma_insert_all(store.packages, rows.packages);
    lemma_insert_all(store.purl_refs, rows.purl_refs);
    lemma_insert_all(store.cpe_refs, rows.cpe_refs);
    lemma_insert_all(store.purl_license_assertions, rows.purl_license_assertions);
    lemma_insert_all(store.cpe_license_assertions, rows.cpe_license_assertions);
    lemma_insert_all(store.relationships, rows.relationships);
    assert forall|i: int| 0 <= i < after.checksums.len() implies has_key(
        after.nodes,
        (#[trigger] after.checksums[i]).node_key(),
    ) by {
        if i < store.checksums.len() {
            assert(has_key(store.nodes, store.checksums[i].node_key()));
        } else {
            let j = choose|j: int|
                0 <= j < rows.checksums.len() && rows.checksums[j] == after.checksums[i];
            assert(has_key(after.nodes, rows.checksums[j].node_key()));
        }
    }
    assert forall|i: int| 0 <= i < after.packages.len() implies has_key(
        after.nodes,
        (#[trigger] after.packages[i]).key(),
    ) by {
        if i < store.packages.len() {
            assert(has_key(store.nodes, store.packages[i].key()));
        } else {
            let j = choose|j: int|
                0 <= j < rows.packages.len() && rows.packages[j] == after.packages[i];
            assert(has_key(after.nodes, rows.packages[j].key()));
        }
    }
    assert forall|i: int| 0 <= i < after.purl_refs.len() implies has_key(
        after.packages,
        (#[trigger] after.purl_refs[i]).node_key(),
    ) by {
        if i < store.purl_refs.len() {
            assert(has_key(store.packages, store.purl_refs[i].node_key()));
        } else {
            let j = choose|j: int|
                0 <= j < rows.purl_refs.len() && rows.purl_refs[j] == after.purl_refs[i];
            assert(has_key(after.packages, rows.purl_refs[j].node_key()));
        }
    }
    assert forall|i: int| 0 <= i < after.cpe_refs.len() implies has_key(
        after.packages,
        (#[trigger] after.cpe_refs[i]).node_key(),
    ) by {
        if i < store.cpe_refs.len() {
            assert(has_key(store.packages, store.cpe_refs[i].node_key()));
        } else {
            let j = choose|j: int|
                0 <= j < rows.cpe_refs.len() && rows.cpe_refs[j] == after.cpe_refs[i];
            assert(has_key(after.packages, rows.cpe_refs[j].node_key()));
        }
    }
    assert forall|i: int| 0 <= i < after.relationships.len() implies {
        &&& has_key(after.nodes, (#[trigger] after.relationships[i]).left_key())
        &&& has_key(after.nodes, after.relationships[i].right_key())
    } by {
        if i < store.relationships.len() {
            assert(has_key(store.nodes, store.relationships[i].left_key()));
            assert(has_key(store.nodes, store.relationships[i].right_key()));
        } else {
            let j = choose|j: int|
                0 <= j < rows.relationships.len() && rows.relationships[j]
                    == after.relationships[i];
            assert(has_key(after.nodes, rows.relationships[j].left_key()));
            assert(has_key(after.nodes, rows.relationships[j].right_key()));
        }
    }
}

} // verus!

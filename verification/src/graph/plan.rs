//! The order and the size of the bulk inserts of one commit.

use vstd::prelude::*;
use crate::chunk::{chunk_size, MAX_PARAMETERS};
use crate::content::Content;
use crate::license::{CpeLicenseAssertion, PurlLicenseAssertion};
use crate::relationship::PackageRelatesToPackage;
use crate::{sbom_node, sbom_package, sbom_package_cpe_ref, sbom_package_purl_ref};

verus! {

/// The tables that a commit writes, in the order in which it writes them: a
/// table comes after every table that its rows refer to.
#[derive(Clone, Copy, Debug, PartialEq, Eq, Structural)]
pub enum Table {
    Nodes,
    Checksums,
    Packages,
    PurlRefs,
    CpeRefs,
    PurlLicenseAssertions,
    CpeLicenseAssertions,
    Relationships,
}

/// The number of tables.
pub const TABLES: u8 = 8;

impl Table {
    /// The place of the table in the order of a commit, from 0.
    pub open spec fn stage(self) -> int {
        match self {
            Table::Nodes => 0,
            Table::Checksums => 1,
            Table::Packages => 2,
            Table::PurlRefs => 3,
            Table::CpeRefs => 4,
            Table::PurlLicenseAssertions => 5,
            Table::CpeLicenseAssertions => 6,
            Table::Relationships => 7,
        }
    }

    /// The table at a place in the order of a commit.
    pub open spec fn at(stage: int) -> Table {
        if stage == 0 {
            Table::Nodes
        } else if stage == 1 {
            Table::Checksums
        } else if stage == 2 {
            Table::Packages
        } else if stage == 3 {
            Table::PurlRefs
        } else if stage == 4 {
            Table::CpeRefs
        } else if stage == 5 {
            Table::PurlLicenseAssertions
        } else if stage == 6 {
            Table::CpeLicenseAssertions
        } else {
            Table::Relationships
        }
    }

    /// The number of columns of the table.
    pub open spec fn columns(self) -> int {
        match self {
            Table::Nodes => 3,
            Table::Checksums => 4,
            Table::Packages => 5,
            Table::PurlRefs => 4,
            Table::CpeRefs => 3,
            Table::PurlLicenseAssertions => 3,
            Table::CpeLicenseAssertions => 3,
            Table::Relationships => 4,
        }
    }

    /// The most rows of the table that one insert statement takes.
    pub open spec fn limit(self) -> int {
        MAX_PARAMETERS as int / self.columns()
    }

    /// The place of the table in the order of a commit, from 0.
    pub fn position(self) -> (stage: u8)
        ensures
            stage == self.stage(),
            stage < TABLES,
            Table::at(stage as int) == self,
    {
        match self {
            Table::Nodes => 0,
            Table::Checksums => 1,
            Table::Packages => 2,
            Table::PurlRefs => 3,
            Table::CpeRefs => 4,
            Table::PurlLicenseAssertions => 5,
            Table::CpeLicenseAssertions => 6,
            Table::Relationships => 7,
        }
    }

    /// The table at a place in the order of a commit.
    pub fn from_position(stage: u8) -> (table: Option<Table>)
        ensures
            stage < TABLES ==> table == Some(Table::at(stage as int)),
            stage < TABLES ==> Table::at(stage as int).stage() == stage,
            stage >= TABLES ==> table is None,
    {
        match stage {
            0 => Some(Table::Nodes),
            1 => Some(Table::Checksums),
            2 => Some(Table::Packages),
            3 => Some(Table::PurlRefs),
            4 => Some(Table::CpeRefs),
            5 => Some(Table::PurlLicenseAssertions),
            6 => Some(Table::CpeLicenseAssertions),
            7 => Some(Table::Relationships),
            _ => None,
        }
    }

    /// The most rows of the table that one insert statement takes.
    pub fn batch_limit(self) -> (limit: usize)
        ensures
            limit == self.limit(),
            limit >= 1,
    {
        let columns: usize = match self {
            Table::Nodes => 3,
            Table::Checksums => 4,
            Table::Packages => 5,
            Table::PurlRefs => 4,
            Table::CpeRefs => 3,
            Table::PurlLicenseAssertions => 3,
            Table::CpeLicenseAssertions => 3,
            Table::Relationships => 4,
        };
        chunk_size(columns)
    }
}

/// The first place at or after (`stage`, `offset`) at which a row is left, in
/// tables of `lens` rows: tables whose rows were all handed out are passed over.
pub open spec fn settle(lens: Seq<int>, stage: int, offset: int) -> (int, int)
    decreases TABLES - stage,
{
    if stage >= TABLES || stage < 0 {
        (TABLES as int, 0)
    } else if offset < lens[stage] {
        (stage, offset)
    } else {
        settle(lens, stage + 1, 0)
    }
}

/// Where the commit settles: at or after the place it stands at, on a row
/// that is left, having passed over nothing but tables without rows left.
pub proof fn lemma_settle(lens: Seq<int>, stage: int, offset: int)
    requires
        lens.len() == TABLES,
        0 <= stage <= TABLES,
        stage < TABLES ==> 0 <= offset <= lens[stage],
        forall|t: int| 0 <= t < TABLES ==> 0 <= #[trigger] lens[t],
    ensures
        ({
            let (s, o) = settle(lens, stage, offset);
            &&& stage <= s <= TABLES
            &&& s < TABLES ==> 0 <= o < lens[s]
            &&& s == TABLES ==> o == 0
            &&& s == stage && s < TABLES ==> o == offset
            &&& s > stage ==> o == 0 && offset == lens[stage]
            &&& forall|t: int| stage < t < s ==> #[trigger] lens[t] == 0
        }),
    decreases TABLES - stage,
{
    if stage < TABLES && offset >= lens[stage] {
        lemma_settle(lens, stage + 1, 0);
    }
}

/// One bulk insert: the rows of `table` from `start` up to, not including, `end`.
#[derive(Clone, Copy, Debug, PartialEq, Eq, Structural)]
pub struct Batch {
    pub table: Table,
    pub start: usize,
    pub end: usize,
}

/// The rows that one commit writes, with the place that the commit has reached.
pub struct CommitPlan {
    pub(crate) nodes: Vec<sbom_node::Model>,
    pub(crate) checksums: Vec<sbom_node::ChecksumModel>,
    pub(crate) packages: Vec<sbom_package::Model>,
    pub(crate) purl_refs: Vec<sbom_package_purl_ref::Model>,
    pub(crate) cpe_refs: Vec<sbom_package_cpe_ref::Model>,
    pub(crate) purl_license_assertions: Vec<PurlLicenseAssertion>,
    pub(crate) cpe_license_assertions: Vec<CpeLicenseAssertion>,
    pub(crate) relationships: Vec<PackageRelatesToPackage>,
    pub(crate) stage: u8,
    pub(crate) offset: usize,
}

impl CommitPlan {
    /// The node rows, oldest first.
    pub closed spec fn node_rows(&self) -> Seq<sbom_node::Model> {
        self.nodes@
    }

    /// The checksum rows, oldest first.
    pub closed spec fn checksum_rows(&self) -> Seq<sbom_node::ChecksumModel> {
        self.checksums@
    }

    /// The package rows, oldest first.
    pub closed spec fn package_rows(&self) -> Seq<sbom_package::Model> {
        self.packages@
    }

    /// The package URL reference rows, oldest first.
    pub closed spec fn purl_ref_rows(&self) -> Seq<sbom_package_purl_ref::Model> {
        self.purl_refs@
    }

    /// The catalog reference rows, oldest first.
    pub closed spec fn cpe_ref_rows(&self) -> Seq<sbom_package_cpe_ref::Model> {
        self.cpe_refs@
    }

    /// The license assertions on package URLs, oldest first.
    pub closed spec fn purl_license_rows(&self) -> Seq<PurlLicenseAssertion> {
        self.purl_license_assertions@
    }

    /// The license assertions on catalog entries, oldest first.
    pub closed spec fn cpe_license_rows(&self) -> Seq<CpeLicenseAssertion> {
        self.cpe_license_assertions@
    }

    /// The relationships, oldest first.
    pub closed spec fn relationship_rows(&self) -> Seq<PackageRelatesToPackage> {
        self.relationships@
    }

    /// The rows of the plan.
    pub open spec fn content(&self) -> Content {
        Content {
            nodes: self.node_rows(),
            checksums: self.checksum_rows(),
            packages: self.package_rows(),
            purl_refs: self.purl_ref_rows(),
            cpe_refs: self.cpe_ref_rows(),
            purl_license_assertions: self.purl_license_rows(),
            cpe_license_assertions: self.cpe_license_rows(),
            relationships: self.relationship_rows(),
        }
    }

    /// The place of the table that the commit has reached; the number of
    /// tables once every row was handed out.
    pub closed spec fn stage(&self) -> int {
        self.stage as int
    }

    /// The number of rows of the table at `stage` that were handed out.
    pub closed spec fn offset(&self) -> int {
        self.offset as int
    }

    /// The number of rows of a table.
    pub open spec fn rows_in(&self, table: Table) -> int {
        self.content().rows_in(table)
    }

    /// The number of rows of each table, in the order of the commit.
    pub open spec fn lens(&self) -> Seq<int> {
        self.content().lens()
    }

    /// The plan holds the same rows as another.
    pub open spec fn same_rows(&self, other: &Self) -> bool {
        self.content() == other.content()
    }

    /// The place is inside the plan.
    pub open spec fn wf(&self) -> bool {
        &&& 0 <= self.stage() <= TABLES
        &&& self.stage() < TABLES ==> 0 <= self.offset() <= self.rows_in(Table::at(self.stage()))
        &&& self.stage() == TABLES ==> self.offset() == 0
    }

    /// No row was handed out yet.
    pub open spec fn fresh(&self) -> bool {
        self.stage() == 0 && self.offset() == 0
    }

    /// The next bulk insert: none when every row was handed out; else the
    /// first table that has rows left, the place of the first of them, and the
    /// place behind the last row that one statement takes with it.
    pub open spec fn upcoming(&self) -> Option<(Table, int, int)> {
        let (stage, offset) = settle(self.lens(), self.stage(), self.offset());
        if stage >= TABLES {
            None
        } else {
            let table = Table::at(stage);
            let end = if offset + table.limit() < self.rows_in(table) {
                offset + table.limit()
            } else {
                self.rows_in(table)
            };
            Some((table, offset, end))
        }
    }

    /// A plan of these rows, with no row handed out yet.
    pub(crate) fn new(
        nodes: Vec<sbom_node::Model>,
        checksums: Vec<sbom_node::ChecksumModel>,
        packages: Vec<sbom_package::Model>,
        purl_refs: Vec<sbom_package_purl_ref::Model>,
        cpe_refs: Vec<sbom_package_cpe_ref::Model>,
        purl_license_assertions: Vec<PurlLicenseAssertion>,
        cpe_license_assertions: Vec<CpeLicenseAssertion>,
        relationships: Vec<PackageRelatesToPackage>,
    ) -> (plan: Self)
        ensures
            plan.wf(),
            plan.fresh(),
            plan.node_rows() == nodes@,
            plan.checksum_rows() == checksums@,
            plan.package_rows() == packages@,
            plan.purl_ref_rows() == purl_refs@,
            plan.cpe_ref_rows() == cpe_refs@,
            plan.purl_license_rows() == purl_license_assertions@,
            plan.cpe_license_rows() == cpe_license_assertions@,
            plan.relationship_rows() == relationships@,
    {
        CommitPlan {
            nodes,
            checksums,
            packages,
            purl_refs,
            cpe_refs,
            purl_license_assertions,
            cpe_license_assertions,
            relationships,
            stage: 0,
            offset: 0,
        }
    }

    /// The plan with these relationships in place of its own.
    pub(crate) fn with_relationships(self, relationships: Vec<PackageRelatesToPackage>) -> (plan:
        Self)
        requires
            self.wf(),
            self.fresh(),
        ensures
            plan.wf(),
            plan.fresh(),
            plan.content() == (Content { relationships: relationships@, ..self.content() }),
    {
        CommitPlan {
            nodes: self.nodes,
            checksums: self.checksums,
            packages: self.packages,
            purl_refs: self.purl_refs,
            cpe_refs: self.cpe_refs,
            purl_license_assertions: self.purl_license_assertions,
            cpe_license_assertions: self.cpe_license_assertions,
            relationships,
            stage: 0,
            offset: 0,
        }
    }

    fn len_at(&self, table: Table) -> (len: usize)
        ensures
            len == self.rows_in(table),
    {
        match table {
            Table::Nodes => self.nodes.len(),
            Table::Checksums => self.checksums.len(),
            Table::Packages => self.packages.len(),
            Table::PurlRefs => self.purl_refs.len(),
            Table::CpeRefs => self.cpe_refs.len(),
            Table::PurlLicenseAssertions => self.purl_license_assertions.len(),
            Table::CpeLicenseAssertions => self.cpe_license_assertions.len(),
            Table::Relationships => self.relationships.len(),
        }
    }

    /// Hands out the next bulk insert and moves behind it. The caller
    /// performs it before it asks for the one after, and gives the commit up
    /// on the first failure.
    pub fn next_batch(&mut self) -> (batch: Option<Batch>)
        requires
            old(self).wf(),
        ensures
            final(self).wf(),
            final(self).same_rows(old(self)),
            match batch {
                Some(b) => {
                    &&& old(self).upcoming() == Some((b.table, b.start as int, b.end as int))
                    &&& final(self).stage() == b.table.stage()
                    &&& final(self).offset() == b.end
                },
                None => old(self).upcoming() is None && final(self).stage() == TABLES,
            },
    {
        let ghost lens = self.lens();
        let ghost target = settle(lens, self.stage(), self.offset());
        loop
            invariant
                self.wf(),
                self.same_rows(old(self)),
                self.lens() == lens,
                settle(lens, self.stage(), self.offset()) == target,
                target == settle(old(self).lens(), old(self).stage(), old(self).offset()),
            decreases TABLES - self.stage,
        {
            match Table::from_position(self.stage) {
                None => {
                    return None;
                },
                Some(table) => {
                    let len = self.len_at(table);
                    if self.offset < len {
                        let limit = table.batch_limit();
                        let end = if len - self.offset > limit {
                            self.offset + limit
                        } else {
                            len
                        };
                        let start = self.offset;
                        self.offset = end;
                        return Some(Batch { table, start, end });
                    }
                    self.stage = self.stage + 1;
                    self.offset = 0;
                    assert(self.lens() == lens);
                },
            }
        }
    }

    /// The node rows, oldest first.
    pub fn nodes(&self) -> (rows: &Vec<sbom_node::Model>)
        ensures
            rows@ == self.node_rows(),
    {
        &self.nodes
    }

    /// The checksum rows, oldest first.
    pub fn checksums(&self) -> (rows: &Vec<sbom_node::ChecksumModel>)
        ensures
            rows@ == self.checksum_rows(),
    {
        &self.checksums
    }

    /// The package rows, oldest first.
    pub fn packages(&self) -> (rows: &Vec<sbom_package::Model>)
        ensures
            rows@ == self.package_rows(),
    {
        &self.packages
    }

    /// The package URL reference rows, oldest first.
    pub fn purl_refs(&self) -> (rows: &Vec<sbom_package_purl_ref::Model>)
        ensures
            rows@ == self.purl_ref_rows(),
    {
        &self.purl_refs
    }

    /// The catalog reference rows, oldest first.
    pub fn cpe_refs(&self) -> (rows: &Vec<sbom_package_cpe_ref::Model>)
        ensures
            rows@ == self.cpe_ref_rows(),
    {
        &self.cpe_refs
    }

    /// The license assertions on package URLs, oldest first.
    pub fn purl_license_assertions(&self) -> (rows: &Vec<PurlLicenseAssertion>)
        ensures
            rows@ == self.purl_license_rows(),
    {
        &self.purl_license_assertions
    }

    /// The license assertions on catalog entries, oldest first.
    pub fn cpe_license_assertions(&self) -> (rows: &Vec<CpeLicenseAssertion>)
        ensures
            rows@ == self.cpe_license_rows(),
    {
        &self.cpe_license_assertions
    }

    /// The relationships, oldest first.
    pub fn relationships(&self) -> (rows: &Vec<PackageRelatesToPackage>)
        ensures
            rows@ == self.relationship_rows(),
    {
        &self.relationships
    }
}

} // verus!

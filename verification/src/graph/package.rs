//! Accumulation of the packages of one document, with their references and
//! license assertions.

use vstd::prelude::*;
use vstd::utf8::encode_utf8;
use crate::content::Content;
use crate::graph::node::{checksum_rows_of, NodeCreator};
use crate::graph::plan::CommitPlan;
use crate::license::{license_id, CpeLicenseAssertion, LicenseInfo, PurlLicenseAssertion};
use crate::record::{has_key, lemma_has_key_push, Record};
use crate::sbom_node::Checksum;
use crate::sbom_package::PackageType;
use crate::{sbom_node, sbom_package, sbom_package_cpe_ref, sbom_package_purl_ref};

verus! {

/// What a document says of one package node.
pub struct NodeInfoParam {
    pub node_id: String,
    pub name: String,
    pub group: Option<String>,
    pub version: Option<String>,
    pub package_type: Option<PackageType>,
}

/// A link from a package node to a canonical external identity.
pub enum PackageReference {
    /// A package URL: the identifier of the versioned package, that of the
    /// fully qualified package, and the canonical text of the latter.
    Purl { versioned_purl: u128, qualified_purl: u128, purl: String },
    /// A catalog entry.
    Cpe(u128),
}

/// The package URL reference row of one reference of a node, if the
/// reference is a package URL.
pub open spec fn purl_ref_of(sbom_id: u128, node_id: String, reference: PackageReference) -> Option<
    sbom_package_purl_ref::Model,
> {
    match reference {
        PackageReference::Purl { qualified_purl, purl, .. } => Some(
            sbom_package_purl_ref::Model { sbom_id, node_id, qualified_purl_id: qualified_purl, purl },
        ),
        PackageReference::Cpe(_) => None,
    }
}

/// The catalog reference row of one reference of a node, if the reference is
/// a catalog entry.
pub open spec fn cpe_ref_of(sbom_id: u128, node_id: String, reference: PackageReference) -> Option<
    sbom_package_cpe_ref::Model,
> {
    match reference {
        PackageReference::Purl { .. } => None,
        PackageReference::Cpe(cpe) => Some(
            sbom_package_cpe_ref::Model { sbom_id, node_id, cpe_id: cpe },
        ),
    }
}

/// The function that maps a reference of a node to its package URL reference row.
pub open spec fn purl_ref_row(sbom_id: u128, node_id: String) -> spec_fn(PackageReference) -> Option<
    sbom_package_purl_ref::Model,
> {
    |r: PackageReference| purl_ref_of(sbom_id, node_id, r)
}

/// The function that maps a reference of a node to its catalog reference row.
pub open spec fn cpe_ref_row(sbom_id: u128, node_id: String) -> spec_fn(PackageReference) -> Option<
    sbom_package_cpe_ref::Model,
> {
    |r: PackageReference| cpe_ref_of(sbom_id, node_id, r)
}

/// The package URL reference rows of one node: one for each package URL among
/// its references, in order.
pub open spec fn purl_refs_of(sbom_id: u128, node_id: String, refs: Seq<PackageReference>) -> Seq<
    sbom_package_purl_ref::Model,
> {
    refs.filter_map(purl_ref_row(sbom_id, node_id))
}

/// The catalog reference rows of one node: one for each catalog entry among
/// its references, in order.
pub open spec fn cpe_refs_of(sbom_id: u128, node_id: String, refs: Seq<PackageReference>) -> Seq<
    sbom_package_cpe_ref::Model,
> {
    refs.filter_map(cpe_ref_row(sbom_id, node_id))
}

/// The license assertion on a versioned package.
pub open spec fn purl_assertion(sbom_id: u128, versioned_purl: u128) -> spec_fn(
    LicenseInfo,
) -> PurlLicenseAssertion {
    |l: LicenseInfo|
        PurlLicenseAssertion {
            sbom_id,
            license_id: license_id(encode_utf8(l.license@)),
            versioned_purl_id: versioned_purl,
        }
}

/// The license assertion on a catalog entry.
pub open spec fn cpe_assertion(sbom_id: u128, cpe: u128) -> spec_fn(
    LicenseInfo,
) -> CpeLicenseAssertion {
    |l: LicenseInfo|
        CpeLicenseAssertion { sbom_id, license_id: license_id(encode_utf8(l.license@)), cpe_id: cpe }
}

/// The license assertions that one reference gives rise to on package URLs:
/// one for each license, in order, if the reference is a package URL.
pub open spec fn purl_assertions_of_ref(
    sbom_id: u128,
    reference: PackageReference,
    licenses: Seq<LicenseInfo>,
) -> Seq<PurlLicenseAssertion> {
    match reference {
        PackageReference::Purl { versioned_purl, .. } => licenses.map_values(
            purl_assertion(sbom_id, versioned_purl),
        ),
        PackageReference::Cpe(_) => Seq::empty(),
    }
}

/// The license assertions that one reference gives rise to on catalog
/// entries: one for each license, in order, if the reference is a catalog entry.
pub open spec fn cpe_assertions_of_ref(
    sbom_id: u128,
    reference: PackageReference,
    licenses: Seq<LicenseInfo>,
) -> Seq<CpeLicenseAssertion> {
    match reference {
        PackageReference::Purl { .. } => Seq::empty(),
        PackageReference::Cpe(cpe) => licenses.map_values(cpe_assertion(sbom_id, cpe)),
    }
}

/// The function that maps a reference to its license assertions on package URLs.
pub open spec fn purl_assertions_per_ref(sbom_id: u128, licenses: Seq<LicenseInfo>) -> spec_fn(
    PackageReference,
) -> Seq<PurlLicenseAssertion> {
    |r: PackageReference| purl_assertions_of_ref(sbom_id, r, licenses)
}

/// The function that maps a reference to its license assertions on catalog entries.
pub open spec fn cpe_assertions_per_ref(sbom_id: u128, licenses: Seq<LicenseInfo>) -> spec_fn(
    PackageReference,
) -> Seq<CpeLicenseAssertion> {
    |r: PackageReference| cpe_assertions_of_ref(sbom_id, r, licenses)
}

/// The license assertions of one node on package URLs: those of each of its
/// references, in the order of the references.
pub open spec fn purl_assertions_of(
    sbom_id: u128,
    refs: Seq<PackageReference>,
    licenses: Seq<LicenseInfo>,
) -> Seq<PurlLicenseAssertion> {
    refs.map_values(purl_assertions_per_ref(sbom_id, licenses)).flatten()
}

/// The license assertions of one node on catalog entries: those of each of
/// its references, in the order of the references.
pub open spec fn cpe_assertions_of(
    sbom_id: u128,
    refs: Seq<PackageReference>,
    licenses: Seq<LicenseInfo>,
) -> Seq<CpeLicenseAssertion> {
    refs.map_values(cpe_assertions_per_ref(sbom_id, licenses)).flatten()
}

/// One more reference adds its rows behind those of the references before it.
pub proof fn lemma_rows_of_push(
    sbom_id: u128,
    node_id: String,
    refs: Seq<PackageReference>,
    reference: PackageReference,
    licenses: Seq<LicenseInfo>,
)
    ensures
        purl_refs_of(sbom_id, node_id, refs.push(reference)) == purl_refs_of(sbom_id, node_id, refs)
            + (match purl_ref_of(sbom_id, node_id, reference) {
            Some(row) => seq![row],
            None => Seq::empty(),
        }),
        cpe_refs_of(sbom_id, node_id, refs.push(reference)) == cpe_refs_of(sbom_id, node_id, refs)
            + (match cpe_ref_of(sbom_id, node_id, reference) {
            Some(row) => seq![row],
            None => Seq::empty(),
        }),
        purl_assertions_of(sbom_id, refs.push(reference), licenses) == purl_assertions_of(
            sbom_id,
            refs,
            licenses,
        ) + purl_assertions_of_ref(sbom_id, reference, licenses),
        cpe_assertions_of(sbom_id, refs.push(reference), licenses) == cpe_assertions_of(
            sbom_id,
            refs,
            licenses,
        ) + cpe_assertions_of_ref(sbom_id, reference, licenses),
{
    broadcast use Seq::lemma_flatten_push;

    let pushed = refs.push(reference);
    assert(pushed.drop_last() == refs);
    assert(pushed.last() == reference);
    let p = purl_assertions_per_ref(sbom_id, licenses);
    let c = cpe_assertions_per_ref(sbom_id, licenses);
    assert(pushed.map_values(p) == refs.map_values(p).push(p(reference)));
    assert(pushed.map_values(c) == refs.map_values(c).push(c(reference)));
}

/// Tells whether some node row has the identifier `node_id`.
pub open spec fn declares(nodes: Seq<sbom_node::Model>, node_id: Seq<char>) -> bool {
    exists|i: int| 0 <= i < nodes.len() && (#[trigger] nodes[i]).node_id@ == node_id
}

/// Creator of packages and relationships.
pub struct PackageCreator {
    sbom_id: u128,
    pub(crate) nodes: NodeCreator,
    pub(crate) packages: Vec<sbom_package::Model>,
    pub(crate) purl_refs: Vec<sbom_package_purl_ref::Model>,
    pub(crate) cpe_refs: Vec<sbom_package_cpe_ref::Model>,
    pub(crate) purl_license_assertions: Vec<PurlLicenseAssertion>,
    pub(crate) cpe_license_assertions: Vec<CpeLicenseAssertion>,
}

impl PackageCreator {
    /// The document that the packages belong to.
    pub closed spec fn sbom_id(&self) -> u128 {
        self.sbom_id
    }

    /// The buffered node rows, oldest first.
    pub closed spec fn node_rows(&self) -> Seq<sbom_node::Model> {
        self.nodes.node_rows()
    }

    /// The buffered checksum rows, oldest first.
    pub closed spec fn checksum_rows(&self) -> Seq<sbom_node::ChecksumModel> {
        self.nodes.checksum_rows()
    }

    /// The buffered package rows, oldest first.
    pub closed spec fn package_rows(&self) -> Seq<sbom_package::Model> {
        self.packages@
    }

    /// The buffered package URL reference rows, oldest first.
    pub closed spec fn purl_ref_rows(&self) -> Seq<sbom_package_purl_ref::Model> {
        self.purl_refs@
    }

    /// The buffered catalog reference rows, oldest first.
    pub closed spec fn cpe_ref_rows(&self) -> Seq<sbom_package_cpe_ref::Model> {
        self.cpe_refs@
    }

    /// The buffered license assertions on package URLs, oldest first.
    pub closed spec fn purl_license_rows(&self) -> Seq<PurlLicenseAssertion> {
        self.purl_license_assertions@
    }

    /// The buffered license assertions on catalog entries, oldest first.
    pub closed spec fn cpe_license_rows(&self) -> Seq<CpeLicenseAssertion> {
        self.cpe_license_assertions@
    }

    /// The buffered rows, table by table.
    pub open spec fn content(&self) -> Content {
        Content {
            nodes: self.node_rows(),
            checksums: self.checksum_rows(),
            packages: self.package_rows(),
            purl_refs: self.purl_ref_rows(),
            cpe_refs: self.cpe_ref_rows(),
            purl_license_assertions: self.purl_license_rows(),
            cpe_license_assertions: self.cpe_license_rows(),
            relationships: Seq::empty(),
        }
    }

    /// The nodes are well formed for the same document.
    pub closed spec fn nodes_wf(&self) -> bool {
        self.nodes.wf() && self.nodes.sbom_id() == self.sbom_id
    }

    /// Every row belongs to the creator's document, every package is a
    /// buffered node, and every reference belongs to a buffered package.
    pub open spec fn wf(&self) -> bool {
        &&& self.nodes_wf()
        &&& forall|i: int|
            0 <= i < self.node_rows().len() ==> (#[trigger] self.node_rows()[i]).sbom_id
                == self.sbom_id()
        &&& forall|i: int|
            0 <= i < self.checksum_rows().len() ==> {
                &&& (#[trigger] self.checksum_rows()[i]).sbom_id == self.sbom_id()
                &&& has_key(self.node_rows(), self.checksum_rows()[i].node_key())
            }
        &&& forall|i: int|
            0 <= i < self.package_rows().len() ==> {
                &&& (#[trigger] self.package_rows()[i]).sbom_id == self.sbom_id()
                &&& has_key(self.node_rows(), self.package_rows()[i].key())
            }
        &&& forall|i: int|
            0 <= i < self.purl_ref_rows().len() ==> {
                &&& (#[trigger] self.purl_ref_rows()[i]).sbom_id == self.sbom_id()
                &&& has_key(self.package_rows(), self.purl_ref_rows()[i].node_key())
            }
        &&& forall|i: int|
            0 <= i < self.cpe_ref_rows().len() ==> {
                &&& (#[trigger] self.cpe_ref_rows()[i]).sbom_id == self.sbom_id()
                &&& has_key(self.package_rows(), self.cpe_ref_rows()[i].node_key())
            }
        &&& forall|i: int|
            0 <= i < self.purl_license_rows().len() ==> (#[trigger] self.purl_license_rows()[i]).sbom_id
                == self.sbom_id()
        &&& forall|i: int|
            0 <= i < self.cpe_license_rows().len() ==> (#[trigger] self.cpe_license_rows()[i]).sbom_id
                == self.sbom_id()
    }

    /// Tells whether nothing is buffered.
    pub open spec fn is_empty(&self) -> bool {
        &&& self.node_rows().len() == 0
        &&& self.checksum_rows().len() == 0
        &&& self.package_rows().len() == 0
        &&& self.purl_ref_rows().len() == 0
        &&& self.cpe_ref_rows().len() == 0
        &&& self.purl_license_rows().len() == 0
        &&& self.cpe_license_rows().len() == 0
    }

    /// A creator of the packages of the document `sbom_id`, with nothing
    /// buffered.
    pub fn new(sbom_id: u128) -> (creator: Self)
        ensures
            creator.wf(),
            creator.sbom_id() == sbom_id,
            creator.is_empty(),
    {
        Self {
            sbom_id,
            nodes: NodeCreator::new(sbom_id),
            packages: Vec::new(),
            purl_refs: Vec::new(),
            cpe_refs: Vec::new(),
            purl_license_assertions: Vec::new(),
            cpe_license_assertions: Vec::new(),
        }
    }

    /// A creator of the packages of the document `sbom_id`, with nothing
    /// buffered and room for `capacity_packages` packages.
    pub fn with_capacity(sbom_id: u128, capacity_packages: usize) -> (creator: Self)
        ensures
            creator.wf(),
            creator.sbom_id() == sbom_id,
            creator.is_empty(),
    {
        Self {
            sbom_id,
            nodes: NodeCreator::with_capacity(sbom_id, capacity_packages),
            packages: Vec::with_capacity(capacity_packages),
            purl_refs: Vec::with_capacity(capacity_packages),
            cpe_refs: Vec::new(),  // most packages won't have a CPE, so we start with a low number
            purl_license_assertions: Vec::new(),
            cpe_license_assertions: Vec::new(),
        }
    }

    /// Buffers one package node: its node and package rows, one reference row
    /// for each reference, and one license assertion for each pair of a
    /// reference and a license. Nothing is written anywhere else.
    pub fn add(
        &mut self,
        node_info: NodeInfoParam,
        refs: Vec<PackageReference>,
        license_refs: Vec<LicenseInfo>,
        checksums: Vec<Checksum>,
    )
        requires
            old(self).wf(),
        ensures
            final(self).wf(),
            final(self).sbom_id() == old(self).sbom_id(),
            final(self).node_rows() == old(self).node_rows().push(
                sbom_node::Model {
                    sbom_id: old(self).sbom_id(),
                    node_id: node_info.node_id,
                    name: node_info.name,
                },
            ),
            final(self).checksum_rows() == old(self).checksum_rows() + checksum_rows_of(
                old(self).sbom_id(),
                node_info.node_id,
                checksums@,
            ),
            final(self).package_rows() == old(self).package_rows().push(
                sbom_package::Model {
                    sbom_id: old(self).sbom_id(),
                    node_id: node_info.node_id,
                    group: node_info.group,
                    version: node_info.version,
                    package_type: node_info.package_type,
                },
            ),
            final(self).purl_ref_rows() == old(self).purl_ref_rows() + purl_refs_of(
                old(self).sbom_id(),
                node_info.node_id,
                refs@,
            ),
            final(self).cpe_ref_rows() == old(self).cpe_ref_rows() + cpe_refs_of(
                old(self).sbom_id(),
                node_info.node_id,
                refs@,
            ),
            final(self).purl_license_rows() == old(self).purl_license_rows() + purl_assertions_of(
                old(self).sbom_id(),
                refs@,
                license_refs@,
            ),
            final(self).cpe_license_rows() == old(self).cpe_license_rows() + cpe_assertions_of(
                old(self).sbom_id(),
                refs@,
                license_refs@,
            ),
    {
        let ghost sbom_id = self.sbom_id;
        let ghost node_id = node_info.node_id;
        let ghost purl_before = self.purl_refs@;
        let ghost cpe_before = self.cpe_refs@;
        let ghost purl_lic_before = self.purl_license_assertions@;
        let ghost cpe_lic_before = self.cpe_license_assertions@;

        let mut i: usize = 0;
        while i < refs.len()
            invariant
                i <= refs.len(),
                self.sbom_id == sbom_id,
                self.nodes == old(self).nodes,
                self.packages == old(self).packages,
                self.purl_refs@ == purl_before + purl_refs_of(sbom_id, node_id, refs@.take(i as int)),
                self.cpe_refs@ == cpe_before + cpe_refs_of(sbom_id, node_id, refs@.take(i as int)),
                self.purl_license_assertions@ == purl_lic_before + purl_assertions_of(
                    sbom_id,
                    refs@.take(i as int),
                    license_refs@,
                ),
                self.cpe_license_assertions@ == cpe_lic_before + cpe_assertions_of(
                    sbom_id,
                    refs@.take(i as int),
                    license_refs@,
                ),
                node_id == node_info.node_id,
            decreases refs.len() - i,
        {
            let ghost purl_lic_here = self.purl_license_assertions@;
            let ghost cpe_lic_here = self.cpe_license_assertions@;
            proof {
                assert(refs@.take(i + 1) == refs@.take(i as int).push(refs@[i as int]));
                lemma_rows_of_push(sbom_id, node_id, refs@.take(i as int), refs@[i as int], license_refs@);
            }
            match &refs[i] {
                PackageReference::Cpe(cpe) => {
                    self.cpe_refs.push(
                        sbom_package_cpe_ref::Model {
                            sbom_id: self.sbom_id,
                            node_id: node_info.node_id.clone(),
                            cpe_id: *cpe,
                        },
                    );
                    let mut j: usize = 0;
                    while j < license_refs.len()
                        invariant
                            j <= license_refs.len(),
                            self.sbom_id == sbom_id,
                            self.nodes == old(self).nodes,
                            self.packages == old(self).packages,
                            self.purl_refs@ == purl_before + purl_refs_of(
                                sbom_id,
                                node_id,
                                refs@.take(i + 1),
                            ),
                            self.cpe_refs@ == cpe_before + cpe_refs_of(
                                sbom_id,
                                node_id,
                                refs@.take(i + 1),
                            ),
                            self.purl_license_assertions@ == purl_lic_here,
                            self.cpe_license_assertions@ == cpe_lic_here
                                + license_refs@.take(j as int).map_values(
                                cpe_assertion(sbom_id, *cpe),
                            ),
                        decreases license_refs.len() - j,
                    {
                        let license = license_refs[j].uuid();
                        self.cpe_license_assertions.push(
                            CpeLicenseAssertion {
                                sbom_id: self.sbom_id,
                                license_id: license,
                                cpe_id: *cpe,
                            },
                        );
                        assert(license_refs@.take(j + 1) == license_refs@.take(j as int).push(
                            license_refs@[j as int],
                        ));
                        assert(self.cpe_license_assertions@ == cpe_lic_here
                            + license_refs@.take(j + 1).map_values(cpe_assertion(sbom_id, *cpe)));
                        j += 1;
                    }
                    assert(license_refs@.take(license_refs.len() as int) == license_refs@);
                },
                PackageReference::Purl { qualified_purl, versioned_purl, purl } => {
                    self.purl_refs.push(
                        sbom_package_purl_ref::Model {
                            sbom_id: self.sbom_id,
                            node_id: node_info.node_id.clone(),
                            qualified_purl_id: *qualified_purl,
                            purl: purl.clone(),
                        },
                    );
                    let mut j: usize = 0;
                    while j < license_refs.len()
                        invariant
                            j <= license_refs.len(),
                            self.sbom_id == sbom_id,
                            self.nodes == old(self).nodes,
                            self.packages == old(self).packages,
                            self.purl_refs@ == purl_before + purl_refs_of(
                                sbom_id,
                                node_id,
                                refs@.take(i + 1),
                            ),
                            self.cpe_refs@ == cpe_before + cpe_refs_of(
                                sbom_id,
                                node_id,
                                refs@.take(i + 1),
                            ),
                            self.cpe_license_assertions@ == cpe_lic_here,
                            self.purl_license_assertions@ == purl_lic_here
                                + license_refs@.take(j as int).map_values(
                                purl_assertion(sbom_id, *versioned_purl),
                            ),
                        decreases license_refs.len() - j,
                    {
                        let license = license_refs[j].uuid();
                        self.purl_license_assertions.push(
                            PurlLicenseAssertion {
                                sbom_id: self.sbom_id,
                                license_id: license,
                                versioned_purl_id: *versioned_purl,
                            },
                        );
                        assert(license_refs@.take(j + 1) == license_refs@.take(j as int).push(
                            license_refs@[j as int],
                        ));
                        assert(self.purl_license_assertions@ == purl_lic_here
                            + license_refs@.take(j + 1).map_values(
                            purl_assertion(sbom_id, *versioned_purl),
                        ));
                        j += 1;
                    }
                    assert(license_refs@.take(license_refs.len() as int) == license_refs@);
                },
            }
            i += 1;
        }
        assert(refs@.take(refs.len() as int) == refs@);

        self.nodes.add(node_info.node_id.clone(), node_info.name, checksums);

        self.packages.push(
            sbom_package::Model {
                sbom_id: self.sbom_id,
                group: node_info.group,
                node_id: node_info.node_id,
                version: node_info.version,
                package_type: node_info.package_type,
            },
        );
        proof {
            lemma_refs_of(sbom_id, node_id, refs@, license_refs@);
            lemma_has_key_push(
                old(self).package_rows(),
                sbom_package::Model {
                    sbom_id,
                    node_id,
                    group: node_info.group,
                    version: node_info.version,
                    package_type: node_info.package_type,
                },
            );
            lemma_has_key_push(
                old(self).node_rows(),
                sbom_node::Model { sbom_id, node_id, name: node_info.name },
            );
            let packages = self.package_rows();
            let nodes = self.node_rows();
            assert forall|k: int| 0 <= k < packages.len() implies has_key(
                nodes,
                (#[trigger] packages[k]).key(),
            ) by {
                if k < old(self).package_rows().len() {
                    assert(packages[k] == old(self).package_rows()[k]);
                }
            }
            assert forall|k: int| 0 <= k < self.purl_ref_rows().len() implies {
                &&& (#[trigger] self.purl_ref_rows()[k]).sbom_id == sbom_id
                &&& has_key(packages, self.purl_ref_rows()[k].node_key())
            } by {
                if k < purl_before.len() {
                    assert(self.purl_ref_rows()[k] == old(self).purl_ref_rows()[k]);
                }
            }
            assert forall|k: int| 0 <= k < self.cpe_ref_rows().len() implies {
                &&& (#[trigger] self.cpe_ref_rows()[k]).sbom_id == sbom_id
                &&& has_key(packages, self.cpe_ref_rows()[k].node_key())
            } by {
                if k < cpe_before.len() {
                    assert(self.cpe_ref_rows()[k] == old(self).cpe_ref_rows()[k]);
                }
            }
            assert forall|k: int| 0 <= k < self.purl_license_rows().len() implies (
            #[trigger] self.purl_license_rows()[k]).sbom_id == sbom_id by {
                if k < purl_lic_before.len() {
                    assert(self.purl_license_rows()[k] == old(self).purl_license_rows()[k]);
                }
            }
            assert forall|k: int| 0 <= k < self.cpe_license_rows().len() implies (
            #[trigger] self.cpe_license_rows()[k]).sbom_id == sbom_id by {
                if k < cpe_lic_before.len() {
                    assert(self.cpe_license_rows()[k] == old(self).cpe_license_rows()[k]);
                }
            }
        }
    }

    /// Ends the accumulation: the rows in the order and the batches in which
    /// they are to be written. Nodes come first, then their checksums, the
    /// packages, the references of the packages, the license assertions.
    pub fn create(self) -> (plan: CommitPlan)
        ensures
            plan.wf(),
            plan.fresh(),
            plan.content() == self.content(),
    {
        let (nodes, checksums) = self.nodes.into_rows();
        CommitPlan::new(
            nodes,
            checksums,
            self.packages,
            self.purl_refs,
            self.cpe_refs,
            self.purl_license_assertions,
            self.cpe_license_assertions,
            Vec::new(),
        )
    }

    /// Tells whether a node with this identifier was buffered.
    pub fn contains(&self, node_id: &str) -> (found: bool)
        ensures
            found == declares(self.node_rows(), node_id@),
    {
        self.nodes.contains(node_id)
    }

    /// The identifiers of the buffered nodes, oldest first.
    pub fn references(&self) -> (ids: Vec<String>)
        ensures
            ids@ == self.node_rows().map_values(|row: sbom_node::Model| row.node_id),
    {
        self.nodes.references()
    }
}

/// Every row that the references of a node give rise to belongs to that node
/// and its document.
proof fn lemma_refs_of(
    sbom_id: u128,
    node_id: String,
    refs: Seq<PackageReference>,
    licenses: Seq<LicenseInfo>,
)
    ensures
        forall|k: int|
            0 <= k < purl_refs_of(sbom_id, node_id, refs).len() ==> {
                let row = #[trigger] purl_refs_of(sbom_id, node_id, refs)[k];
                row.sbom_id == sbom_id && row.node_id == node_id
            },
        forall|k: int|
            0 <= k < cpe_refs_of(sbom_id, node_id, refs).len() ==> {
                let row = #[trigger] cpe_refs_of(sbom_id, node_id, refs)[k];
                row.sbom_id == sbom_id && row.node_id == node_id
            },
        forall|k: int|
            0 <= k < purl_assertions_of(sbom_id, refs, licenses).len() ==> (
            #[trigger] purl_assertions_of(sbom_id, refs, licenses)[k]).sbom_id == sbom_id,
        forall|k: int|
            0 <= k < cpe_assertions_of(sbom_id, refs, licenses).len() ==> (
            #[trigger] cpe_assertions_of(sbom_id, refs, licenses)[k]).sbom_id == sbom_id,
    decreases refs.len(),
{
    if refs.len() > 0 {
        let rest = refs.drop_last();
        lemma_refs_of(sbom_id, node_id, rest, licenses);
        assert(refs == rest.push(refs.last()));
        lemma_rows_of_push(sbom_id, node_id, rest, refs.last(), licenses);
    } else {
        assert(purl_assertions_of(sbom_id, refs, licenses).len() == 0);
        assert(cpe_assertions_of(sbom_id, refs, licenses).len() == 0);
    }
}

} // verus!

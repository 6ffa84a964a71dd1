use sbom_graph::graph::package::{NodeInfoParam, PackageCreator, PackageReference};
use sbom_graph::graph::plan::{Batch, Table};
use sbom_graph::graph::relationship::RelationshipCreator;
use sbom_graph::license::LicenseInfo;
use sbom_graph::relationship::Relationship;
use sbom_graph::sbom_node::Checksum;
use sbom_graph::store::{StorageError, Store};

fn info(node_id: &str, name: &str) -> NodeInfoParam {
    NodeInfoParam {
        node_id: node_id.to_string(),
        name: name.to_string(),
        group: None,
        version: Some("1.0".to_string()),
        package_type: None,
    }
}

fn purl(versioned: u128, qualified: u128, text: &str) -> PackageReference {
    PackageReference::Purl {
        versioned_purl: versioned,
        qualified_purl: qualified,
        purl: text.to_string(),
    }
}

fn license(text: &str) -> LicenseInfo {
    LicenseInfo { license: text.to_string() }
}

fn document(sbom_id: u128) -> PackageCreator {
    let mut creator = PackageCreator::with_capacity(sbom_id, 2);
    creator.add(
        info("a", "package-a"),
        vec![purl(10, 11, "pkg:maven/com.test/a@1.0"), PackageReference::Cpe(12)],
        vec![license("MIT"), license("Apache-2.0")],
        vec![Checksum { algorithm: "SHA-256".to_string(), digest: "00ff".to_string() }],
    );
    creator.add(info("b", "package-b"), vec![], vec![license("MIT")], vec![]);
    creator
}

#[test]
fn add_buffers_one_row_per_reference_and_license() {
    let plan = document(1).create();
    assert_eq!(plan.nodes().len(), 2);
    assert_eq!(plan.checksums().len(), 1);
    assert_eq!(plan.packages().len(), 2);
    assert_eq!(plan.purl_refs().len(), 1);
    assert_eq!(plan.cpe_refs().len(), 1);
    assert_eq!(plan.purl_license_assertions().len(), 2);
    assert_eq!(plan.cpe_license_assertions().len(), 2);
    assert_eq!(plan.relationships().len(), 0);

    assert_eq!(plan.nodes()[0].node_id, "a");
    assert_eq!(plan.nodes()[0].name, "package-a");
    assert_eq!(plan.nodes()[1].node_id, "b");
    assert_eq!(plan.packages()[0].sbom_id, 1);
    assert_eq!(plan.packages()[0].version, Some("1.0".to_string()));
    assert_eq!(plan.purl_refs()[0].qualified_purl_id, 11);
    assert_eq!(plan.purl_refs()[0].node_id, "a");
    assert_eq!(plan.purl_refs()[0].purl, "pkg:maven/com.test/a@1.0");
    assert_eq!(plan.cpe_refs()[0].cpe_id, 12);
    assert_eq!(plan.purl_license_assertions()[0].versioned_purl_id, 10);
    assert_eq!(plan.purl_license_assertions()[1].versioned_purl_id, 10);
    assert_eq!(plan.cpe_license_assertions()[0].cpe_id, 12);
    assert_eq!(
        plan.purl_license_assertions()[0].license_id,
        plan.cpe_license_assertions()[0].license_id
    );
    assert_ne!(
        plan.purl_license_assertions()[0].license_id,
        plan.purl_license_assertions()[1].license_id
    );
    assert_eq!(plan.checksums()[0].digest, "00ff");
}

#[test]
fn license_identifier_ignores_case() {
    assert_eq!(license("MIT").uuid(), license("mit").uuid());
    assert_ne!(license("MIT").uuid(), license("MIT-0").uuid());
    assert_ne!(license("MIT").uuid(), 0);
}

#[test]
fn batches_come_in_the_order_of_the_references() {
    let mut plan = document(1).create();
    let mut seen = Vec::new();
    while let Some(batch) = plan.next_batch() {
        seen.push(batch);
    }
    assert_eq!(
        seen,
        vec![
            Batch { table: Table::Nodes, start: 0, end: 2 },
            Batch { table: Table::Checksums, start: 0, end: 1 },
            Batch { table: Table::Packages, start: 0, end: 2 },
            Batch { table: Table::PurlRefs, start: 0, end: 1 },
            Batch { table: Table::CpeRefs, start: 0, end: 1 },
            Batch { table: Table::PurlLicenseAssertions, start: 0, end: 2 },
            Batch { table: Table::CpeLicenseAssertions, start: 0, end: 2 },
        ]
    );
    assert_eq!(plan.next_batch(), None);
}

#[test]
fn batches_are_cut_at_the_parameter_limit() {
    assert_eq!(Table::Nodes.batch_limit(), 21845);
    assert_eq!(Table::Packages.batch_limit(), 13107);
    assert_eq!(Table::Checksums.batch_limit(), 16383);

    let mut creator = PackageCreator::new(7);
    for i in 0..30000 {
        creator.add(info(&format!("n{i}"), "x"), vec![], vec![], vec![]);
    }
    let mut plan = creator.create();
    assert_eq!(plan.next_batch(), Some(Batch { table: Table::Nodes, start: 0, end: 21845 }));
    assert_eq!(plan.next_batch(), Some(Batch { table: Table::Nodes, start: 21845, end: 30000 }));
    assert_eq!(plan.next_batch(), Some(Batch { table: Table::Packages, start: 0, end: 13107 }));
    assert_eq!(plan.next_batch(), Some(Batch { table: Table::Packages, start: 13107, end: 26214 }));
    assert_eq!(plan.next_batch(), Some(Batch { table: Table::Packages, start: 26214, end: 30000 }));
    assert_eq!(plan.next_batch(), None);
}

#[test]
fn commit_twice_changes_nothing() {
    let mut store = Store::new();
    assert_eq!(store.commit(document(1).create()), Ok(()));
    let counts = (
        store.nodes().len(),
        store.checksums().len(),
        store.packages().len(),
        store.purl_refs().len(),
        store.cpe_refs().len(),
        store.purl_license_assertions().len(),
        store.cpe_license_assertions().len(),
    );
    assert_eq!(counts, (2, 1, 2, 1, 1, 2, 2));

    assert_eq!(store.commit(document(1).create()), Ok(()));
    let again = (
        store.nodes().len(),
        store.checksums().len(),
        store.packages().len(),
        store.purl_refs().len(),
        store.cpe_refs().len(),
        store.purl_license_assertions().len(),
        store.cpe_license_assertions().len(),
    );
    assert_eq!(again, counts);
}

#[test]
fn same_package_in_two_documents_gives_two_package_rows() {
    let mut store = Store::new();
    assert_eq!(store.commit(document(1).create()), Ok(()));
    assert_eq!(store.commit(document(2).create()), Ok(()));
    assert_eq!(store.packages().len(), 4);
    assert_eq!(store.nodes().len(), 4);
    assert_eq!(store.purl_refs().len(), 2);
    assert_eq!(store.purl_refs()[0].qualified_purl_id, store.purl_refs()[1].qualified_purl_id);
}

#[test]
fn relationship_without_node_is_refused_and_nothing_is_written() {
    let mut store = Store::new();
    assert_eq!(store.commit(document(1).create()), Ok(()));

    let mut rels = RelationshipCreator::new(1);
    rels.relate("a".to_string(), Relationship::ContainedBy, "b".to_string());
    rels.relate("a".to_string(), Relationship::ContainedBy, "missing".to_string());
    let sources = document(1);
    let checked = rels.validate(&sources, &vec![]);
    assert_eq!(checked.err().map(|e| e.node_id), Some("missing".to_string()));

    assert_eq!(
        store.commit(rels.create()),
        Err(StorageError::MissingTarget { table: Table::Relationships, row: 1 })
    );
    assert_eq!(store.relationships().len(), 0);
    assert_eq!(store.nodes().len(), 2);

    let mut rels = RelationshipCreator::new(1);
    rels.relate("a".to_string(), Relationship::ContainedBy, "b".to_string());
    rels.relate("a".to_string(), Relationship::DescribedBy, "doc".to_string());
    assert!(rels.validate(&sources, &vec!["doc".to_string()]).is_ok());
    assert!(rels.validate(&sources, &vec![]).is_err());
}

/// Ingests a document that declares the package `purl` at the node `node_id`.
fn ingest(store: &mut Store, name: &str, node_id: &str, purl: &str) -> u128 {
    let sbom_id = store.ingest_sbom(
        name.to_string(),
        "1".to_string(),
        "http://test.com/dedup".to_string(),
        "DOCUMENT".to_string(),
    );
    let identity = sbom_graph::identity::identity_of(
        sbom_graph::identity::IdentityKind::Package,
        purl,
    )
    .unwrap();
    let qualified = store.ingest_identity(&identity);
    let reference = match &identity {
        sbom_graph::identity::Identity::Package(purl) => purl.reference(),
        other => panic!("{other:?}"),
    };
    match &reference {
        PackageReference::Purl { qualified_purl, .. } => assert_eq!(*qualified_purl, qualified),
        PackageReference::Cpe(_) => panic!("not a package URL"),
    }
    let mut creator = PackageCreator::new(sbom_id);
    creator.add(info(node_id, "a"), vec![reference], vec![license("MIT")], vec![]);
    assert_eq!(store.commit(creator.create()), Ok(()));
    sbom_id
}

#[test]
fn dedup() {
    let mut store = Store::new();
    let d1 = ingest(&mut store, "D1", "a", "pkg:maven/com.test/a@1.0");
    assert_eq!(store.identity_count(), 1);
    assert_eq!(store.packages().len(), 1);

    let d2 = ingest(&mut store, "D2", "a", "pkg://Maven/com.test/a@1.0");
    assert_ne!(d1, d2);
    // one canonical package identity, two package nodes
    assert_eq!(store.identity_count(), 1);
    assert_eq!(store.packages().len(), 2);
    assert_eq!(store.purl_refs().len(), 2);
    assert_eq!(store.purl_refs()[0].qualified_purl_id, store.purl_refs()[1].qualified_purl_id);
    assert_eq!(store.purl_refs()[1].purl, "pkg:maven/com.test/a@1.0");

    // the same document once more
    let again = ingest(&mut store, "D1", "a", "pkg:maven/com.test/a@1.0");
    assert_eq!(again, d1);
    assert_eq!(store.identity_count(), 1);
    assert_eq!(store.packages().len(), 2);
    assert_eq!(store.nodes().len(), 4);
    assert_eq!(store.purl_license_assertions().len(), 2);

    let other = ingest(&mut store, "D3", "b", "pkg:maven/com.test/b@1.0");
    assert_eq!(store.identity_count(), 2);
    assert_eq!(store.packages().len(), 3);
    assert!(store.document(other).is_some());
}

#[test]
fn deleting_a_document_takes_its_rows_and_leaves_the_identities() {
    let mut store = Store::new();
    let d1 = ingest(&mut store, "D1", "a", "pkg:maven/com.test/a@1.0");
    let d2 = ingest(&mut store, "D2", "a", "pkg:maven/com.test/a@1.0");
    store.delete_document(d1);
    assert!(store.document(d1).is_none());
    assert!(store.document(d2).is_some());
    assert_eq!(store.nodes().len(), 2);
    assert!(store.nodes().iter().all(|node| node.sbom_id == d2));
    assert_eq!(store.packages().len(), 1);
    assert_eq!(store.purl_refs().len(), 1);
    assert_eq!(store.purl_license_assertions().len(), 1);
    assert_eq!(store.identity_count(), 1);
    store.delete_document(d1);
    assert_eq!(store.nodes().len(), 2);
    store.delete_document(d2);
    assert_eq!(store.nodes().len(), 0);
    assert_eq!(store.packages().len(), 0);
    assert_eq!(store.identity_count(), 1);
}

#[test]
fn package_without_node_is_refused() {
    // a plan whose references come without their package
    let mut store = Store::new();
    let mut first = PackageCreator::new(1);
    first.add(info("a", "a"), vec![], vec![], vec![]);
    assert_eq!(store.commit(first.create()), Ok(()));
    let plan = document(2).create();
    let batch = Batch { table: Table::PurlRefs, start: 0, end: 1 };
    assert_eq!(
        store.insert(&plan, batch),
        Err(StorageError::MissingTarget { table: Table::PurlRefs, row: 0 })
    );
    assert_eq!(store.purl_refs().len(), 0);
    assert_eq!(
        store.insert(&plan, Batch { table: Table::Packages, start: 0, end: 2 }),
        Err(StorageError::MissingTarget { table: Table::Packages, row: 0 })
    );
    assert_eq!(store.insert(&plan, Batch { table: Table::Nodes, start: 0, end: 2 }), Ok(()));
    assert_eq!(store.insert(&plan, Batch { table: Table::Packages, start: 0, end: 2 }), Ok(()));
    assert_eq!(store.insert(&plan, batch), Ok(()));
    assert_eq!(store.purl_refs().len(), 1);
    assert_eq!(store.packages().len(), 3);
}

#[test]
fn document_is_committed_as_a_whole() {
    let mut store = Store::new();
    let sbom_id = store.ingest_sbom(
        "doc".to_string(),
        "1".to_string(),
        "http://test.com/whole".to_string(),
        "DOCUMENT".to_string(),
    );
    let packages = || {
        let mut creator = PackageCreator::new(sbom_id);
        creator.add(info("a", "a"), vec![], vec![], vec![]);
        creator.add(info("b", "b"), vec![], vec![], vec![]);
        creator
    };
    // a relationship into the void: nothing of the document is written
    let mut broken = RelationshipCreator::new(sbom_id);
    broken.relate("a".to_string(), Relationship::ContainedBy, "b".to_string());
    broken.relate("b".to_string(), Relationship::ContainedBy, "nowhere".to_string());
    assert_eq!(
        store.commit(broken.create_with(packages())),
        Err(StorageError::MissingTarget { table: Table::Relationships, row: 1 })
    );
    assert_eq!(store.nodes().len(), 1);
    assert_eq!(store.packages().len(), 0);
    assert_eq!(store.relationships().len(), 0);

    let mut sound = RelationshipCreator::new(sbom_id);
    sound.relate("a".to_string(), Relationship::ContainedBy, "b".to_string());
    sound.relate("b".to_string(), Relationship::DescribedBy, "DOCUMENT".to_string());
    assert!(sound.validate(&packages(), &vec!["DOCUMENT".to_string()]).is_ok());
    let mut plan = sound.create_with(packages());
    let mut tables = Vec::new();
    while let Some(batch) = plan.next_batch() {
        tables.push(batch.table);
    }
    assert_eq!(tables, vec![Table::Nodes, Table::Packages, Table::Relationships]);

    let mut sound = RelationshipCreator::new(sbom_id);
    sound.relate("a".to_string(), Relationship::ContainedBy, "b".to_string());
    sound.relate("b".to_string(), Relationship::DescribedBy, "DOCUMENT".to_string());
    assert_eq!(store.commit(sound.create_with(packages())), Ok(()));
    assert_eq!(store.nodes().len(), 3);
    assert_eq!(store.packages().len(), 2);
    assert_eq!(store.relationships().len(), 2);
}

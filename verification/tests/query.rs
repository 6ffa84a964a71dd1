use sbom_graph::graph::package::{NodeInfoParam, PackageCreator, PackageReference};
use sbom_graph::graph::relationship::RelationshipCreator;
use sbom_graph::identity::purl::Purl;
use sbom_graph::model::{Paginated, PaginatedResults};
use sbom_graph::query::{describes, related, related_nodes, sorted_texts, SbomPackage};
use sbom_graph::relationship::Relationship;
use sbom_graph::server::{dependencies, PackageParams};
use sbom_graph::store::Store;

fn package(creator: &mut PackageCreator, node_id: &str, purl: Option<&str>) {
    let refs = match purl {
        Some(text) => vec![Purl::parse(text).unwrap().reference()],
        None => vec![],
    };
    creator.add(
        NodeInfoParam {
            node_id: node_id.to_string(),
            name: format!("name of {node_id}"),
            group: None,
            version: None,
            package_type: None,
        },
        refs,
        vec![],
        vec![],
    );
}

/// A document with the nodes A, B, C, D and the edges of `edges`, each saying
/// that its first node contains, or depends on, its second.
fn graph(kind: Relationship, edges: &[(&str, &str)]) -> (Store, u128) {
    let mut store = Store::new();
    let sbom_id = store.ingest_sbom(
        "test.com/my-sbom.json".to_string(),
        "10".to_string(),
        "http://test.com/graph".to_string(),
        "DOCUMENT".to_string(),
    );
    let mut packages = PackageCreator::new(sbom_id);
    package(&mut packages, "A", Some("pkg:maven/com.test/package-a@1.0?type=jar"));
    package(&mut packages, "B", Some("pkg:maven/com.test/package-ab@1.0?type=jar"));
    package(&mut packages, "C", Some("pkg:maven/com.test/package-ac@1.0?type=jar"));
    package(&mut packages, "D", Some("pkg:maven/com.test/package-acd@1.0?type=jar"));
    let mut relationships = RelationshipCreator::new(sbom_id);
    for (whole, part) in edges {
        relationships.relate(part.to_string(), kind, whole.to_string());
    }
    relationships.relate("A".to_string(), Relationship::DescribedBy, "DOCUMENT".to_string());
    assert!(relationships.validate(&packages, &vec!["DOCUMENT".to_string()]).is_ok());
    assert_eq!(store.commit(packages.create()), Ok(()));
    assert_eq!(store.commit(relationships.create()), Ok(()));
    (store, sbom_id)
}

fn ids(results: &PaginatedResults<SbomPackage>) -> Vec<&str> {
    results.items.iter().map(|item| item.id.as_str()).collect()
}

#[test]
fn transitive_query_returns_each_node_once() {
    let (store, sbom_id) = graph(
        Relationship::ContainedBy,
        &[("A", "B"), ("A", "C"), ("C", "D"), ("B", "C")],
    );
    let results =
        related(&store, sbom_id, Relationship::ContainedBy, "A", Some(true), Paginated::default());
    assert_eq!(ids(&results), vec!["B", "C", "D"]);
    assert_eq!(results.total, 3);

    // the order of the edges does not matter
    let (store, sbom_id) = graph(
        Relationship::ContainedBy,
        &[("B", "C"), ("C", "D"), ("A", "C"), ("A", "B")],
    );
    let results =
        related(&store, sbom_id, Relationship::ContainedBy, "A", Some(true), Paginated::default());
    assert_eq!(ids(&results), vec!["B", "C", "D"]);
}

#[test]
fn containment_is_transitive_when_the_caller_does_not_say() {
    let (store, sbom_id) = graph(Relationship::ContainedBy, &[("A", "B"), ("B", "C")]);
    let results =
        related(&store, sbom_id, Relationship::ContainedBy, "A", None, Paginated::default());
    assert_eq!(ids(&results), vec!["B", "C"]);
    let results =
        related(&store, sbom_id, Relationship::ContainedBy, "A", Some(false), Paginated::default());
    assert_eq!(ids(&results), vec!["B"]);
}

/// The text of a package URL as the library writes it.
fn canonical(text: &str) -> String {
    Purl::parse(text).unwrap().to_text()
}

#[test]
fn direct_dependencies() {
    let (store, sbom_id) = graph(
        Relationship::DependencyOf,
        &[("A", "B"), ("A", "C"), ("C", "D"), ("B", "C")],
    );
    let purl = Purl::parse("pkg://maven/com.test/package-a@1.0?type=jar").unwrap();
    let params = PackageParams { transitive: None };
    assert!(!params.wants_transitive());
    let response = dependencies(&store, &purl, params);

    assert_eq!(2, response.len());
    assert!(response.contains(&canonical("pkg://maven/com.test/package-ab@1.0?type=jar")));
    assert!(response.contains(&canonical("pkg://maven/com.test/package-ac@1.0?type=jar")));

    assert_eq!(dependencies(&store, &purl, PackageParams { transitive: Some(false) }), response);
    // a package that no document speaks of has no dependencies
    let unknown = Purl::parse("pkg:maven/com.test/package-a@2.0?type=jar").unwrap();
    assert!(dependencies(&store, &unknown, params).is_empty());
    // the dependencies of a package that has none
    let leaf = Purl::parse("pkg:maven/com.test/package-acd@1.0?type=jar").unwrap();
    assert!(dependencies(&store, &leaf, params).is_empty());

    // a dependency is not followed further unless the caller asks for it
    let unsaid =
        related(&store, sbom_id, Relationship::DependencyOf, "A", None, Paginated::default());
    assert_eq!(ids(&unsaid), vec!["B", "C"]);
}

#[test]
fn transitive_dependencies() {
    let (mut store, sbom_id) = graph(
        Relationship::DependencyOf,
        &[("A", "B"), ("A", "C"), ("C", "D"), ("B", "C")],
    );
    let purl = Purl::parse("pkg://maven/com.test/package-a@1.0?type=jar").unwrap();
    let params = PackageParams { transitive: Some(true) };
    assert!(params.wants_transitive());
    let response = dependencies(&store, &purl, params);
    assert_eq!(
        response,
        vec![
            "pkg:maven/com.test/package-ab@1.0?type=jar",
            "pkg:maven/com.test/package-ac@1.0?type=jar",
            "pkg:maven/com.test/package-acd@1.0?type=jar",
        ]
    );
    assert!(!PackageParams { transitive: Some(false) }.wants_transitive());

    let page = related(
        &store,
        sbom_id,
        Relationship::DependencyOf,
        "A",
        Some(params.wants_transitive()),
        Paginated::default(),
    );
    assert_eq!(ids(&page), vec!["B", "C", "D"]);
    assert_eq!(page.items[2].name, "name of D");

    // a second document that speaks of the package adds its dependencies, each text once
    let other = store.ingest_sbom(
        "other.json".to_string(),
        "1".to_string(),
        "http://test.com/other".to_string(),
        "DOCUMENT".to_string(),
    );
    let mut packages = PackageCreator::new(other);
    package(&mut packages, "X", Some("pkg:maven/com.test/package-a@1.0?type=jar"));
    package(&mut packages, "Y", Some("pkg:maven/com.test/package-ab@1.0?type=jar"));
    package(&mut packages, "Z", Some("pkg:maven/com.test/package-z@1.0"));
    let mut relationships = RelationshipCreator::new(other);
    relationships.relate("Y".to_string(), Relationship::DependencyOf, "X".to_string());
    relationships.relate("Z".to_string(), Relationship::DependencyOf, "Y".to_string());
    assert_eq!(store.commit(relationships.create_with(packages)), Ok(()));
    assert_eq!(
        dependencies(&store, &purl, params),
        vec![
            "pkg:maven/com.test/package-ab@1.0?type=jar",
            "pkg:maven/com.test/package-ac@1.0?type=jar",
            "pkg:maven/com.test/package-acd@1.0?type=jar",
            "pkg:maven/com.test/package-z@1.0",
        ]
    );
    assert_eq!(dependencies(&store, &purl, PackageParams { transitive: None }).len(), 2);
}

#[test]
fn cycle_is_followed_once() {
    let (store, sbom_id) = graph(Relationship::ContainedBy, &[("A", "B"), ("B", "A")]);
    let results =
        related(&store, sbom_id, Relationship::ContainedBy, "A", Some(true), Paginated::default());
    assert_eq!(ids(&results), vec!["A", "B"]);
    assert_eq!(results.total, 2);

    let nodes = related_nodes(store.relationships(), sbom_id, Relationship::ContainedBy, "B", true);
    assert_eq!(nodes.len(), 2);

    // a node that contains itself
    let (store, sbom_id) = graph(Relationship::ContainedBy, &[("A", "A")]);
    let results =
        related(&store, sbom_id, Relationship::ContainedBy, "A", Some(true), Paginated::default());
    assert_eq!(ids(&results), vec!["A"]);
}

#[test]
fn other_documents_and_other_kinds_are_left_out() {
    let (store, sbom_id) = graph(Relationship::ContainedBy, &[("A", "B"), ("B", "C")]);
    let other =
        related(&store, sbom_id + 1, Relationship::ContainedBy, "A", Some(true), Paginated::default());
    assert_eq!(other.total, 0);
    assert!(other.items.is_empty());
    let kind =
        related(&store, sbom_id, Relationship::DependencyOf, "A", Some(true), Paginated::default());
    assert_eq!(kind.total, 0);
    let unknown =
        related(&store, sbom_id, Relationship::ContainedBy, "Z", Some(true), Paginated::default());
    assert_eq!(unknown.total, 0);
}

#[test]
fn describes_returns_the_subject_of_the_document() {
    let (store, sbom_id) = graph(Relationship::ContainedBy, &[("A", "B")]);
    let described = describes(&store, sbom_id, Paginated::default());
    assert_eq!(1, described.items.len());
    assert_eq!(1, described.total);
    let first = &described.items[0];
    assert_eq!(first.id, "A");
    assert_eq!(first.name, "name of A");
    assert_eq!(first.purl, vec!["pkg:maven/com.test/package-a@1.0?type=jar".to_string()]);
    assert!(first.cpe.is_empty());

    let nothing = describes(&store, sbom_id + 1, Paginated::default());
    assert_eq!(nothing.total, 0);
    assert!(nothing.items.is_empty());
}

#[test]
fn pages_are_cut_from_the_ascending_list() {
    let (store, sbom_id) = graph(
        Relationship::ContainedBy,
        &[("A", "D"), ("A", "C"), ("A", "B")],
    );
    let page = |offset, limit| {
        let results = related(
            &store,
            sbom_id,
            Relationship::ContainedBy,
            "A",
            Some(false),
            Paginated { offset, limit },
        );
        assert_eq!(results.total, 3);
        results.items.into_iter().map(|item| item.id).collect::<Vec<String>>()
    };
    assert_eq!(page(0, 0), vec!["B", "C", "D"]);
    assert_eq!(page(0, 2), vec!["B", "C"]);
    assert_eq!(page(1, 1), vec!["C"]);
    assert_eq!(page(2, 5), vec!["D"]);
    assert_eq!(page(3, 1), Vec::<String>::new());
    assert_eq!(page(9, 0), Vec::<String>::new());
    assert_eq!(page(u64::MAX, u64::MAX), Vec::<String>::new());
}

#[test]
fn bounds_of_a_page() {
    assert_eq!(Paginated { offset: 0, limit: 0 }.bounds(10), (0, 10));
    assert_eq!(Paginated { offset: 3, limit: 4 }.bounds(10), (3, 7));
    assert_eq!(Paginated { offset: 8, limit: 4 }.bounds(10), (8, 10));
    assert_eq!(Paginated { offset: 12, limit: 4 }.bounds(10), (10, 10));
    assert_eq!(Paginated::default(), Paginated { offset: 0, limit: 0 });
}

#[test]
fn texts_are_sorted_by_their_bytes_and_listed_once() {
    let sorted = sorted_texts(
        ["b", "a", "ab", "", "B", "a", "é", "z", "ab"].iter().map(|s| s.to_string()).collect(),
    );
    assert_eq!(sorted, vec!["", "B", "a", "ab", "b", "z", "é"]);
}

#[test]
fn document_is_recorded_once() {
    let mut store = Store::new();
    let first = store.ingest_sbom(
        "name".to_string(),
        "1".to_string(),
        "http://test.com/ns".to_string(),
        "DOC".to_string(),
    );
    let again = store.ingest_sbom(
        "name".to_string(),
        "1".to_string(),
        "http://test.com/ns".to_string(),
        "DOC".to_string(),
    );
    let other = store.ingest_sbom(
        "name".to_string(),
        "2".to_string(),
        "http://test.com/ns".to_string(),
        "DOC".to_string(),
    );
    assert_eq!(first, again);
    assert_ne!(first, other);
    assert_eq!(store.nodes().len(), 2);
    assert_eq!(store.document(first).map(|d| d.version.as_str()), Some("1"));
    assert_eq!(store.document(other).map(|d| d.version.as_str()), Some("2"));
    assert!(store.document(first ^ 1).is_none());
}

use sbom_graph::graph::package::{NodeInfoParam, PackageCreator};
use sbom_graph::graph::relationship::RelationshipCreator;
use sbom_graph::identity::purl::Purl;
use sbom_graph::identity::{identity_of, Identity, IdentityKind};
use sbom_graph::license::LicenseInfo;
use sbom_graph::model::Paginated;
use sbom_graph::query::{describes, related};
use sbom_graph::relationship::Relationship;
use sbom_graph::runner::{
    Action, BuildFailure, Configuration, Event, Outcome, Phase, Report, Runner,
};
use sbom_graph::store::Store;

/// A document of a source: its name, its size, how often fetching it fails
/// before it succeeds, and what it says.
struct Document {
    name: &'static str,
    size: u64,
    failures: usize,
    packages: Vec<(&'static str, &'static str)>,
    contains: Vec<(&'static str, &'static str)>,
}

/// Runs the documents through the runner and does what it asks for.
fn run(
    store: &mut Store,
    configuration: Configuration,
    documents: Vec<Document>,
    cancel_before: Option<usize>,
) -> (Outcome, Report, usize) {
    let mut runner = Runner::new(configuration, None);
    let mut fetches = 0;
    let mut next = 0;
    let mut failed = 0;
    let mut action = runner.step(Event::Discovered { marker: "m".to_string() }, false);
    loop {
        // the run is canceled while the document before `cancel_before` is in work
        let canceled = cancel_before.is_some_and(|index| next >= index);
        let event = match action {
            Action::Next => {
                failed = 0;
                if next < documents.len() {
                    next += 1;
                    Event::Document {
                        name: documents[next - 1].name.to_string(),
                        declared_size: None,
                    }
                } else {
                    Event::Exhausted
                }
            }
            Action::Fetch => {
                fetches += 1;
                let document = &documents[next - 1];
                if failed < document.failures {
                    failed += 1;
                    Event::FetchFailed { transient: true, message: "timeout".to_string() }
                } else {
                    Event::Fetched { size: document.size }
                }
            }
            Action::Parse => Event::Parsed,
            Action::Build => {
                let document = &documents[next - 1];
                match document.packages.iter().find(|(_, purl)| Purl::parse(purl).is_err()) {
                    Some((_, purl)) => Event::BuildFailed {
                        reason: BuildFailure::InvalidIdentity,
                        message: purl.to_string(),
                    },
                    None => Event::Built,
                }
            }
            Action::Commit => {
                let document = &documents[next - 1];
                let sbom_id = store.ingest_sbom(
                    document.name.to_string(),
                    "1".to_string(),
                    "http://test.com/".to_string(),
                    "DOCUMENT".to_string(),
                );
                let mut packages = PackageCreator::new(sbom_id);
                for (node_id, purl) in &document.packages {
                    let identity = identity_of(IdentityKind::Package, purl).unwrap();
                    store.ingest_identity(&identity);
                    let reference = match &identity {
                        Identity::Package(purl) => purl.reference(),
                        other => panic!("{other:?}"),
                    };
                    packages.add(
                        NodeInfoParam {
                            node_id: node_id.to_string(),
                            name: node_id.to_string(),
                            group: None,
                            version: None,
                            package_type: None,
                        },
                        vec![reference],
                        vec![LicenseInfo { license: "MIT".to_string() }],
                        vec![],
                    );
                }
                let mut relationships = RelationshipCreator::new(sbom_id);
                for (whole, part) in &document.contains {
                    relationships.relate(
                        part.to_string(),
                        Relationship::ContainedBy,
                        whole.to_string(),
                    );
                }
                if let Some((first, _)) = document.packages.first() {
                    relationships.relate(
                        first.to_string(),
                        Relationship::DescribedBy,
                        "DOCUMENT".to_string(),
                    );
                }
                match store.commit(relationships.create_with(packages)) {
                    Ok(()) => Event::Committed,
                    Err(error) => Event::CommitFailed { message: format!("{error:?}") },
                }
            }
            Action::Finish(outcome) => return (outcome, runner.reset(None), fetches),
            Action::Ignore => panic!("out of step in {:?}", runner.phase()),
        };
        action = runner.step(event, canceled);
    }
}

fn document(name: &'static str, size: u64, failures: usize) -> Document {
    Document {
        name,
        size,
        failures,
        packages: vec![("A", "pkg:maven/com.test/a@1.0"), ("B", "pkg:maven/com.test/b@1.0")],
        contains: vec![("A", "B")],
    }
}

fn lenient(fetch_retries: usize, size_limit: Option<u64>) -> Configuration {
    Configuration { fetch_retries, size_limit, ignore_missing: true }
}

#[test]
fn retry_then_success() {
    let mut store = Store::new();
    let (outcome, report, fetches) =
        run(&mut store, lenient(2, None), vec![document("doc", 10, 2)], None);
    assert!(matches!(outcome, Outcome::Completed { marker: Some(m) } if m == "m"));
    assert_eq!(fetches, 3);
    assert_eq!(report.processed, vec!["doc"]);
    assert!(report.failed.is_empty());
    // the document is in the graph once
    assert_eq!(store.nodes().len(), 3);
    assert_eq!(store.packages().len(), 2);
    assert_eq!(store.relationships().len(), 2);
    assert_eq!(store.identity_count(), 2);
}

#[test]
fn size_limit() {
    let mut store = Store::new();
    let (outcome, report, _) = run(
        &mut store,
        lenient(0, Some(100)),
        vec![document("small", 10, 0), document("huge", 1000, 0), document("last", 100, 0)],
        None,
    );
    assert!(matches!(outcome, Outcome::Completed { .. }));
    assert_eq!(report.processed, vec!["small", "last"]);
    assert_eq!(report.skipped.len(), 1);
    assert_eq!(report.skipped[0].document, "huge");
    assert!(report.failed.is_empty());
    assert_eq!(store.packages().len(), 4);
}

#[test]
fn idempotence() {
    let mut store = Store::new();
    run(&mut store, lenient(0, None), vec![document("doc", 10, 0)], None);
    let counts = (
        store.nodes().len(),
        store.packages().len(),
        store.purl_refs().len(),
        store.purl_license_assertions().len(),
        store.relationships().len(),
        store.identity_count(),
    );
    assert_eq!(counts, (3, 2, 2, 2, 2, 2));
    let (outcome, report, _) =
        run(&mut store, lenient(0, None), vec![document("doc", 10, 0)], None);
    assert!(matches!(outcome, Outcome::Completed { .. }));
    assert_eq!(report.processed, vec!["doc"]);
    let again = (
        store.nodes().len(),
        store.packages().len(),
        store.purl_refs().len(),
        store.purl_license_assertions().len(),
        store.relationships().len(),
        store.identity_count(),
    );
    assert_eq!(again, counts);
}

#[test]
fn cancellation() {
    let mut store = Store::new();
    let (outcome, report, fetches) = run(
        &mut store,
        lenient(0, None),
        vec![document("first", 10, 0), document("second", 10, 0), document("third", 10, 0)],
        Some(1),
    );
    assert!(matches!(outcome, Outcome::Canceled));
    assert_eq!(report.processed, vec!["first"]);
    assert_eq!(fetches, 1);
    // what was committed can be queried, and nothing of the other documents is there
    assert_eq!(store.packages().len(), 2);
    let sbom_id = store.packages()[0].sbom_id;
    let described = describes(&store, sbom_id, Paginated::default());
    assert_eq!(described.total, 1);
    assert_eq!(described.items[0].id, "A");
    assert_eq!(described.items[0].purl, vec!["pkg:maven/com.test/a@1.0"]);
    let contained =
        related(&store, sbom_id, Relationship::ContainedBy, "A", None, Paginated::default());
    assert_eq!(contained.total, 1);
    assert_eq!(contained.items[0].id, "B");
}

#[test]
fn malformed_identity_rejects_one_document() {
    let mut store = Store::new();
    let mut bad = document("bad", 10, 0);
    bad.packages.push(("C", "not a purl"));
    let (outcome, report, _) =
        run(&mut store, lenient(0, None), vec![bad, document("good", 10, 0)], None);
    assert!(matches!(outcome, Outcome::Completed { .. }));
    assert_eq!(report.processed, vec!["good"]);
    assert_eq!(report.failed.len(), 1);
    assert_eq!(report.failed[0].document, "bad");
    assert_eq!(store.packages().len(), 2);
    assert_eq!(Runner::new(lenient(0, None), None).phase(), Phase::Idle);
}

#[test]
fn commit_failure_ends_the_run_and_leaves_no_partial_document() {
    let mut store = Store::new();
    let mut broken = document("broken", 10, 0);
    broken.contains.push(("A", "nowhere"));
    let (outcome, report, _) =
        run(&mut store, lenient(0, None), vec![document("good", 10, 0), broken], None);
    assert!(matches!(outcome, Outcome::Failed));
    assert_eq!(report.processed, vec!["good"]);
    assert_eq!(report.failed.len(), 1);
    // the document of the run before is whole, of the broken one only its
    // record stands
    assert_eq!(store.packages().len(), 2);
    assert_eq!(store.relationships().len(), 2);
    assert_eq!(store.nodes().len(), 4);
}

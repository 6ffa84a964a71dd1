use sbom_graph::archive::{describe, fetched, open_sbom_xz, DecompressError};
use sbom_graph::dataset::{GenerateDump, ImporterConfiguration, Instructions};
use sbom_graph::progress::{Context, Progress, RunContext};
use sbom_graph::runner::{
    Action, BuildFailure, Configuration, ErrorKind, Event, Outcome, Phase, Runner,
};
use sbom_graph::walker::{
    after_checkout, after_process, decide, is_selected, select, walk, CallbackError, Callbacks,
    Checkout, Entry, InvalidPattern, Step, Walked,
};
use std::sync::atomic::{AtomicUsize, Ordering};

fn runner(fetch_retries: usize, size_limit: Option<u64>, ignore_missing: bool) -> Runner {
    Runner::new(Configuration { fetch_retries, size_limit, ignore_missing }, None)
}

fn document(name: &str, size: Option<u64>) -> Event {
    Event::Document { name: name.to_string(), declared_size: size }
}

fn transient() -> Event {
    Event::FetchFailed { transient: true, message: "timeout".to_string() }
}

/// Takes one document through fetch, parse, build and commit.
fn ingest(runner: &mut Runner, name: &str) {
    assert!(matches!(runner.step(document(name, None), false), Action::Fetch));
    assert!(matches!(runner.step(Event::Fetched { size: 10 }, false), Action::Parse));
    assert!(matches!(runner.step(Event::Parsed, false), Action::Build));
    assert!(matches!(runner.step(Event::Built, false), Action::Commit));
    assert_eq!(runner.phase(), Phase::Committing);
    assert!(matches!(runner.step(Event::Committed, false), Action::Next));
    assert_eq!(runner.phase(), Phase::Idle);
}

#[test]
fn size_limit_skips_the_document_and_the_run_goes_on() {
    let mut runner = runner(0, Some(100), false);
    assert!(matches!(
        runner.step(Event::Discovered { marker: "m1".to_string() }, false),
        Action::Next
    ));
    ingest(&mut runner, "first");
    // the declared size is over the limit
    assert!(matches!(runner.step(document("huge", Some(101)), false), Action::Next));
    assert_eq!(runner.phase(), Phase::Idle);
    // the measured size is over the limit
    assert!(matches!(runner.step(document("grown", Some(100)), false), Action::Fetch));
    assert!(matches!(runner.step(Event::Fetched { size: 4096 }, false), Action::Next));
    ingest(&mut runner, "last");
    match runner.step(Event::Exhausted, false) {
        Action::Finish(Outcome::Completed { marker }) => assert_eq!(marker.as_deref(), Some("m1")),
        other => panic!("{other:?}"),
    }
    assert_eq!(runner.phase(), Phase::Idle);
    let report = runner.report();
    assert_eq!(report.processed, vec!["first", "last"]);
    assert_eq!(report.failed.len(), 0);
    assert_eq!(report.skipped.len(), 2);
    assert_eq!(report.skipped[0].document, "huge");
    assert_eq!(report.skipped[0].kind, ErrorKind::SizeExceeded { size: 101, limit: 100 });
    assert_eq!(report.skipped[0].message, None);
    assert_eq!(report.skipped[1].document, "grown");
    assert_eq!(report.skipped[1].kind, ErrorKind::SizeExceeded { size: 4096, limit: 100 });
}

#[test]
fn scenario_one_oversized_document() {
    let mut runner = runner(0, Some(100), false);
    assert!(matches!(runner.step(document("huge", Some(1000)), false), Action::Next));
    ingest(&mut runner, "small");
    assert!(matches!(
        runner.step(Event::Exhausted, false),
        Action::Finish(Outcome::Completed { marker: None })
    ));
    assert_eq!(runner.report().skipped.len(), 1);
    assert_eq!(runner.report().processed.len(), 1);
}

#[test]
fn retry_then_success_ingests_the_document_once() {
    let mut runner = runner(2, None, false);
    let mut fetches = 0;
    let mut commits = 0;
    let events = vec![
        document("doc", None),
        transient(),
        transient(),
        Event::Fetched { size: 1 },
        Event::Parsed,
        Event::Built,
        Event::Committed,
    ];
    for event in events {
        match runner.step(event, false) {
            Action::Fetch => fetches += 1,
            Action::Commit => commits += 1,
            Action::Parse | Action::Build | Action::Next => {}
            other => panic!("{other:?}"),
        }
    }
    assert_eq!(fetches, 3);
    assert_eq!(commits, 1);
    assert_eq!(runner.report().processed, vec!["doc"]);
    assert!(runner.report().failed.is_empty());
}

#[test]
fn retries_are_used_up() {
    let mut runner = runner(2, None, false);
    assert!(matches!(runner.step(document("doc", None), false), Action::Fetch));
    assert!(matches!(runner.step(transient(), false), Action::Fetch));
    assert!(matches!(runner.step(transient(), false), Action::Fetch));
    assert!(matches!(runner.step(transient(), false), Action::Finish(Outcome::Failed)));
    assert_eq!(runner.phase(), Phase::Failed);
    let report = runner.report();
    assert_eq!(report.failed.len(), 1);
    assert_eq!(report.failed[0].document, "doc");
    assert_eq!(report.failed[0].kind, ErrorKind::FetchFailure);
    assert_eq!(report.failed[0].message.as_deref(), Some("timeout"));
    // a run that was given up starts nothing
    assert!(matches!(runner.step(document("next", None), false), Action::Ignore));
    assert!(matches!(runner.step(Event::Committed, false), Action::Ignore));
    assert_eq!(runner.phase(), Phase::Failed);
}

#[test]
fn permanent_failure_is_not_retried() {
    let mut lenient = runner(5, None, true);
    assert!(matches!(lenient.step(document("doc", None), false), Action::Fetch));
    let gone = Event::FetchFailed { transient: false, message: "404".to_string() };
    assert!(matches!(lenient.step(gone, false), Action::Next));
    assert_eq!(lenient.phase(), Phase::Idle);
    assert_eq!(lenient.report().failed.len(), 1);
}

#[test]
fn parse_failure_is_fatal_unless_the_run_is_lenient() {
    let mut strict = runner(3, None, false);
    assert!(matches!(strict.step(document("doc", None), false), Action::Fetch));
    assert!(matches!(strict.step(Event::Fetched { size: 1 }, false), Action::Parse));
    let failed = Event::ParseFailed { message: "bad json".to_string() };
    assert!(matches!(strict.step(failed, false), Action::Finish(Outcome::Failed)));
    assert_eq!(strict.report().failed[0].kind, ErrorKind::ParseFailure);

    let mut lenient = runner(3, None, true);
    assert!(matches!(lenient.step(document("doc", None), false), Action::Fetch));
    assert!(matches!(lenient.step(Event::Fetched { size: 1 }, false), Action::Parse));
    let failed = Event::ParseFailed { message: "bad json".to_string() };
    assert!(matches!(lenient.step(failed, false), Action::Next));
    ingest(&mut lenient, "good");
    assert_eq!(lenient.report().failed.len(), 1);
    assert_eq!(lenient.report().processed, vec!["good"]);
}

#[test]
fn malformed_identity_rejects_the_document_and_storage_failure_the_run() {
    let mut runner = runner(0, None, false);
    assert!(matches!(runner.step(document("doc", None), false), Action::Fetch));
    assert!(matches!(runner.step(Event::Fetched { size: 1 }, false), Action::Parse));
    assert!(matches!(runner.step(Event::Parsed, false), Action::Build));
    let invalid = Event::BuildFailed {
        reason: BuildFailure::InvalidIdentity,
        message: "not a purl".to_string(),
    };
    assert!(matches!(runner.step(invalid, false), Action::Next));
    assert_eq!(runner.report().failed[0].kind, ErrorKind::InvalidIdentity);

    assert!(matches!(runner.step(document("other", None), false), Action::Fetch));
    assert!(matches!(runner.step(Event::Fetched { size: 1 }, false), Action::Parse));
    assert!(matches!(runner.step(Event::Parsed, false), Action::Build));
    assert!(matches!(runner.step(Event::Built, false), Action::Commit));
    let refused = Event::CommitFailed { message: "connection lost".to_string() };
    assert!(matches!(runner.step(refused, false), Action::Finish(Outcome::Failed)));
    assert_eq!(runner.report().failed[1].kind, ErrorKind::StorageFailure);
    assert!(runner.report().processed.is_empty());
}

#[test]
fn cancellation_keeps_what_was_committed() {
    let mut runner = runner(3, None, false);
    ingest(&mut runner, "first");
    // work in hand is not interrupted
    assert!(matches!(runner.step(document("second", None), false), Action::Fetch));
    assert!(matches!(runner.step(Event::Fetched { size: 1 }, true), Action::Parse));
    assert!(matches!(runner.step(Event::Parsed, true), Action::Build));
    assert!(matches!(runner.step(Event::Built, true), Action::Commit));
    assert!(matches!(runner.step(Event::Committed, true), Action::Next));
    // the next document is not started
    assert!(matches!(
        runner.step(document("third", None), true),
        Action::Finish(Outcome::Canceled)
    ));
    assert_eq!(runner.phase(), Phase::Canceled);
    assert_eq!(runner.report().processed, vec!["first", "second"]);
    assert!(matches!(runner.step(document("fourth", None), false), Action::Ignore));
    assert!(matches!(runner.step(Event::Built, false), Action::Ignore));
    let report = runner.reset(Some("m".to_string()));
    assert_eq!(report.processed, vec!["first", "second"]);
    assert_eq!(runner.phase(), Phase::Idle);
    assert!(runner.report().processed.is_empty());
}

#[test]
fn cancellation_between_two_attempts() {
    let mut runner = runner(3, None, false);
    assert!(matches!(runner.step(document("doc", None), false), Action::Fetch));
    assert!(matches!(runner.step(transient(), true), Action::Finish(Outcome::Canceled)));
    assert_eq!(runner.phase(), Phase::Canceled);
    assert!(runner.report().failed.is_empty());
}

#[test]
fn unchanged_source_is_not_fetched() {
    let mut runner = Runner::new(
        Configuration { fetch_retries: 0, size_limit: None, ignore_missing: false },
        Some("m1".to_string()),
    );
    assert!(matches!(
        runner.step(Event::Discovered { marker: "m1".to_string() }, false),
        Action::Finish(Outcome::Unchanged)
    ));
    assert!(matches!(
        runner.step(Event::Discovered { marker: "m2".to_string() }, false),
        Action::Next
    ));
    assert!(matches!(runner.step(Event::Parsed, false), Action::Ignore));
}

#[test]
fn progress_messages_are_debounced() {
    let context = Context { name: "run".to_string() };
    assert_eq!(context.name(), "run");
    assert!(!context.is_canceled());
    let mut progress: Progress = context.progress("Ingesting".to_string());
    assert_eq!(progress.name, "run: Ingesting");
    assert_eq!(progress.period, 15);
    assert!(progress.tick(100));
    assert!(!progress.tick(100));
    assert!(!progress.tick(114));
    assert!(progress.tick(115));
    assert!(!progress.tick(60));
    assert!(!progress.tick(129));
    assert!(progress.tick(130));
    assert_eq!(progress.last, Some(130));
}

#[test]
fn default_dataset() {
    let command = GenerateDump {
        output: "dump.sql".to_string(),
        input: None,
        working_dir: None,
        size_limit: Some(1 << 20),
        fetch_retries: Some(3),
    };
    let instructions = command.load_config(None);
    assert_eq!(instructions.import.len(), 3);
    match &instructions.import[0] {
        ImporterConfiguration::Cve(cve) => {
            assert_eq!(cve.common.description.as_deref(), Some("CVEs starting 2024"));
            assert_eq!(cve.source, "https://github.com/CVEProject/cvelistV5");
            assert_eq!(cve.start_year, Some(2024));
            assert!(!cve.common.disabled);
        }
        other => panic!("{other:?}"),
    }
    match &instructions.import[1] {
        ImporterConfiguration::Sbom(sbom) => {
            assert_eq!(sbom.common.description.as_deref(), Some("All Red Hat SBOMs"));
            assert_eq!(sbom.source, "https://access.redhat.com/security/data/sbom/beta/");
            assert_eq!(sbom.keys.len(), 1);
            assert!(sbom.v3_signatures);
            assert_eq!(sbom.size_limit, Some(1 << 20));
            assert_eq!(sbom.fetch_retries, Some(3));
            let configuration = sbom.configuration();
            assert_eq!(configuration.fetch_retries, 3);
            assert_eq!(configuration.size_limit, Some(1 << 20));
            assert!(!configuration.ignore_missing);
        }
        other => panic!("{other:?}"),
    }
    match &instructions.import[2] {
        ImporterConfiguration::Csaf(csaf) => {
            assert_eq!(csaf.source, "redhat.com");
            assert_eq!(csaf.only_patterns, vec!["^cve-2024-"]);
            assert_eq!(csaf.fetch_retries, Some(3));
        }
        other => panic!("{other:?}"),
    }
    let read = command.load_config(Some(Instructions { import: vec![] }));
    assert!(read.import.is_empty());
}

struct Counting {
    seen: AtomicUsize,
    unreadable: AtomicUsize,
    cancel_at: usize,
    fail_on: &'static str,
}

impl Callbacks<Vec<u8>> for Counting {
    fn loading_error(&self, _path: String, _message: String) {
        self.unreadable.fetch_add(1, Ordering::SeqCst);
    }

    fn process(&self, path: &str, _document: Vec<u8>) -> Result<(), CallbackError> {
        self.seen.fetch_add(1, Ordering::SeqCst);
        if path == self.fail_on {
            Err(CallbackError::Processing(format!("cannot process {path}")))
        } else {
            Ok(())
        }
    }

    fn is_canceled(&self) -> bool {
        self.seen.load(Ordering::SeqCst) + self.unreadable.load(Ordering::SeqCst) >= self.cancel_at
    }
}

fn entries() -> Vec<Entry<Vec<u8>>> {
    vec![
        Entry::Loaded { path: "a.json".to_string(), document: vec![1] },
        Entry::Unreadable { path: "b.json".to_string(), message: "denied".to_string() },
        Entry::Loaded { path: "c.json".to_string(), document: vec![3] },
    ]
}

#[test]
fn walk_hands_every_entry_to_the_callbacks() {
    let callbacks = Counting {
        seen: AtomicUsize::new(0),
        unreadable: AtomicUsize::new(0),
        cancel_at: 100,
        fail_on: "",
    };
    let walked = walk(entries(), &callbacks);
    assert_eq!(
        walked,
        Ok(Walked { visited: 3, processed: 2, unreadable: 1, canceled: false })
    );
    assert_eq!(callbacks.seen.load(Ordering::SeqCst), 2);
    assert_eq!(callbacks.unreadable.load(Ordering::SeqCst), 1);

    assert_eq!(
        walk(entries(), &()),
        Ok(Walked { visited: 3, processed: 2, unreadable: 1, canceled: false })
    );
    assert_eq!(
        walk(Vec::<Entry<Vec<u8>>>::new(), &()),
        Ok(Walked { visited: 0, processed: 0, unreadable: 0, canceled: false })
    );
}

#[test]
fn walk_stops_when_canceled_and_fails_on_an_error() {
    let callbacks = Counting {
        seen: AtomicUsize::new(0),
        unreadable: AtomicUsize::new(0),
        cancel_at: 2,
        fail_on: "",
    };
    assert_eq!(
        walk(entries(), &callbacks),
        Ok(Walked { visited: 2, processed: 1, unreadable: 1, canceled: true })
    );

    let callbacks = Counting {
        seen: AtomicUsize::new(0),
        unreadable: AtomicUsize::new(0),
        cancel_at: 100,
        fail_on: "c.json",
    };
    assert_eq!(walk(entries(), &callbacks), Err("cannot process c.json".to_string()));

    assert!(matches!(after_process(Ok(())), Step::Continue));
    assert!(matches!(after_process(Err(CallbackError::Canceled)), Step::Stop));
    match after_process(Err(CallbackError::Processing("x".to_string()))) {
        Step::Abort(message) => assert_eq!(message, "x"),
        other => panic!("{other:?}"),
    }
}

#[test]
fn decompression_gives_the_content_or_the_reason() {
    let text = b"Like tears in rain";
    let compressed = lzma::compress(text, 6).unwrap();
    assert_ne!(compressed.as_slice(), text.as_slice());
    let content = open_sbom_xz(&compressed);
    assert_eq!(content.as_deref(), Ok(text.as_slice()));
    assert!(matches!(fetched(&content), Event::Fetched { size: 18 }));

    // what the decoder finds in the data is told as what it is
    let broken = open_sbom_xz(b"not an xz stream");
    assert_eq!(broken, Err(DecompressError::Format));
    match fetched(&broken) {
        Event::FetchFailed { transient, message } => {
            assert!(!transient);
            assert_eq!(message, "XZ magic bytes were not found");
        }
        other => panic!("{other:?}"),
    }
    match fetched(&Err(DecompressError::Io)) {
        Event::FetchFailed { transient, message } => {
            assert!(!transient);
            assert_eq!(message, "IO error");
        }
        other => panic!("{other:?}"),
    }
    let truncated = open_sbom_xz(&compressed[..compressed.len() - 4]);
    assert!(truncated.is_err());
    assert_ne!(truncated, Err(DecompressError::Io));
    assert_eq!(describe(DecompressError::Data), "Corrupt data");
    match fetched(&Err(DecompressError::Memory)) {
        Event::FetchFailed { transient, .. } => assert!(transient),
        other => panic!("{other:?}"),
    }
}

#[test]
fn patterns_select_names() {
    let none: Vec<String> = vec![];
    assert_eq!(is_selected(&none, "anything"), Ok(true));
    let patterns = vec!["^cve-2024-".to_string(), "\\.json$".to_string()];
    assert_eq!(is_selected(&patterns, "cve-2024-0001.xml"), Ok(true));
    assert_eq!(is_selected(&patterns, "cve-2023-0001.json"), Ok(true));
    assert_eq!(is_selected(&patterns, "cve-2023-0001.xml"), Ok(false));
    assert_eq!(is_selected(&patterns, "x-cve-2024-1"), Ok(false));
    let broken = vec!["^a".to_string(), "foo(bar".to_string(), "(".to_string()];
    assert_eq!(is_selected(&broken, "abc"), Err(InvalidPattern { index: 1 }));

    assert_eq!(decide(&vec![]), Ok(true));
    assert_eq!(decide(&vec![Some(false), Some(false)]), Ok(false));
    assert_eq!(decide(&vec![Some(false), Some(true)]), Ok(true));
    assert_eq!(decide(&vec![Some(true), None, None]), Err(InvalidPattern { index: 1 }));
    assert_eq!(decide(&vec![None]), Err(InvalidPattern { index: 0 }));
}

#[test]
fn entries_are_selected_by_their_path() {
    let patterns = vec!["^[ac]\\.".to_string()];
    let kept = select(entries(), &patterns).unwrap();
    let paths: Vec<&str> = kept.iter().map(|entry| entry.path().as_str()).collect();
    assert_eq!(paths, vec!["a.json", "c.json"]);
    let all = select(entries(), &vec![]).unwrap();
    assert_eq!(all.len(), 3);
    assert_eq!(select(entries(), &vec!["[".to_string()]).err(), Some(InvalidPattern { index: 0 }));
    assert!(select(Vec::<Entry<Vec<u8>>>::new(), &vec!["[".to_string()]).unwrap().is_empty());
}

#[test]
fn dangling_reference_counts_as_a_parse_failure() {
    let dangling = || Event::BuildFailed {
        reason: BuildFailure::DanglingReference,
        message: "no node x".to_string(),
    };
    let mut strict = runner(0, None, false);
    assert!(matches!(strict.step(document("doc", None), false), Action::Fetch));
    assert!(matches!(strict.step(Event::Fetched { size: 1 }, false), Action::Parse));
    assert!(matches!(strict.step(Event::Parsed, false), Action::Build));
    assert!(matches!(strict.step(dangling(), false), Action::Finish(Outcome::Failed)));
    assert_eq!(strict.report().failed[0].kind, ErrorKind::ParseFailure);

    let mut lenient = runner(0, None, true);
    assert!(matches!(lenient.step(document("doc", None), false), Action::Fetch));
    assert!(matches!(lenient.step(Event::Fetched { size: 1 }, false), Action::Parse));
    assert!(matches!(lenient.step(Event::Parsed, false), Action::Build));
    assert!(matches!(lenient.step(dangling(), false), Action::Next));
    assert_eq!(lenient.report().failed[0].kind, ErrorKind::ParseFailure);
    assert_eq!(lenient.phase(), Phase::Idle);
}

#[test]
fn up_to_date_working_copy_is_walked() {
    assert_eq!(after_checkout(Checkout::Cloned), Ok(()));
    assert_eq!(after_checkout(Checkout::Updated), Ok(()));
    assert_eq!(after_checkout(Checkout::UpToDate), Ok(()));
    assert_eq!(
        after_checkout(Checkout::Failed("no route to host".to_string())),
        Err("no route to host".to_string())
    );
}

/// Callbacks that take note of what they are called with.
struct Recording {
    calls: std::sync::Mutex<Vec<String>>,
    cancel_on: &'static str,
    fail_on: &'static str,
}

impl Recording {
    fn new(cancel_on: &'static str, fail_on: &'static str) -> Self {
        Recording { calls: std::sync::Mutex::new(Vec::new()), cancel_on, fail_on }
    }

    fn calls(&self) -> Vec<String> {
        self.calls.lock().unwrap().clone()
    }
}

impl Callbacks<Vec<u8>> for Recording {
    fn loading_error(&self, path: String, message: String) {
        self.calls.lock().unwrap().push(format!("error {path}: {message}"));
    }

    fn process(&self, path: &str, document: Vec<u8>) -> Result<(), CallbackError> {
        self.calls.lock().unwrap().push(format!("process {path} {document:?}"));
        if path == self.cancel_on {
            Err(CallbackError::Canceled)
        } else if path == self.fail_on {
            Err(CallbackError::Processing(format!("bad {path}")))
        } else {
            Ok(())
        }
    }
}

fn four_entries() -> Vec<Entry<Vec<u8>>> {
    vec![
        Entry::Loaded { path: "d1".to_string(), document: vec![1] },
        Entry::Unreadable { path: "d2".to_string(), message: "denied".to_string() },
        Entry::Loaded { path: "d3".to_string(), document: vec![3] },
        Entry::Loaded { path: "d4".to_string(), document: vec![4] },
    ]
}

#[test]
fn unreadable_entry_is_reported_and_the_walk_goes_on() {
    let callbacks = Recording::new("", "");
    assert_eq!(
        walk(four_entries(), &callbacks),
        Ok(Walked { visited: 4, processed: 3, unreadable: 1, canceled: false })
    );
    assert_eq!(
        callbacks.calls(),
        vec!["process d1 [1]", "error d2: denied", "process d3 [3]", "process d4 [4]"]
    );
}

#[test]
fn cancellation_by_process_ends_the_walk_without_error() {
    let callbacks = Recording::new("d3", "");
    assert_eq!(
        walk(four_entries(), &callbacks),
        Ok(Walked { visited: 3, processed: 1, unreadable: 1, canceled: true })
    );
    // nothing behind the document that canceled the walk is handed out
    assert_eq!(callbacks.calls(), vec!["process d1 [1]", "error d2: denied", "process d3 [3]"]);
}

#[test]
fn processing_error_aborts_the_walk_with_that_error() {
    let callbacks = Recording::new("d4", "d3");
    assert_eq!(walk(four_entries(), &callbacks), Err("bad d3".to_string()));
    assert_eq!(callbacks.calls(), vec!["process d1 [1]", "error d2: denied", "process d3 [3]"]);

    let first = Recording::new("", "d1");
    assert_eq!(walk(four_entries(), &first), Err("bad d1".to_string()));
    assert_eq!(first.calls(), vec!["process d1 [1]"]);
}

#[test]
fn walk_without_documents_cannot_fail() {
    let callbacks = Recording::new("d1", "d2");
    let entries = vec![
        Entry::Unreadable { path: "d1".to_string(), message: "gone".to_string() },
        Entry::Unreadable { path: "d2".to_string(), message: "denied".to_string() },
    ];
    assert_eq!(
        walk(entries, &callbacks),
        Ok(Walked { visited: 2, processed: 0, unreadable: 2, canceled: false })
    );
    assert_eq!(callbacks.calls(), vec!["error d1: gone", "error d2: denied"]);
}

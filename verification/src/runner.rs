//! The decisions of an import run.
//!
//! A run takes the documents of one source one after the other: it fetches a
//! document, parses it, builds its rows and commits them. The caller does the
//! work and reports what came of it, one event at a time; the runner answers
//! each event with the action to take next.

use vstd::prelude::*;

verus! {

/// What the runner is doing.
#[derive(Clone, Copy, Debug, PartialEq, Eq, Structural)]
pub enum Phase {
    /// Between two documents.
    Idle,
    Fetching,
    Parsing,
    Building,
    Committing,
    /// The run was given up.
    Failed,
    /// The run was canceled.
    Canceled,
}

/// Why a document was not ingested.
#[derive(Clone, Copy, Debug, PartialEq, Eq, Structural)]
pub enum ErrorKind {
    /// An identity in the document is malformed.
    InvalidIdentity,
    /// The document does not conform to its format.
    ParseFailure,
    /// The document could not be fetched.
    FetchFailure,
    /// The document has `size` bytes, more than the `limit` of the run.
    SizeExceeded { size: u64, limit: u64 },
    /// The store refused the rows of the document.
    StorageFailure,
}

/// Why the rows of a document could not be built.
#[derive(Clone, Copy, Debug, PartialEq, Eq, Structural)]
pub enum BuildFailure {
    /// An identity in the document is malformed.
    InvalidIdentity,
    /// A relationship of the document names a node that the document does
    /// not declare.
    DanglingReference,
}

/// One document that was not ingested.
#[derive(Debug)]
pub struct Failure {
    pub document: String,
    pub kind: ErrorKind,
    pub message: Option<String>,
}

/// How an import run treats its documents.
#[derive(Clone, Copy, Debug, PartialEq, Eq, Structural)]
pub struct Configuration {
    /// Number of times to retry fetching a document.
    pub fetch_retries: usize,
    /// Documents greater than this limit will be ignored.
    pub size_limit: Option<u64>,
    /// Whether the run goes on after a document that cannot be fetched or parsed.
    pub ignore_missing: bool,
}

/// What the caller reports to the runner.
#[derive(Debug)]
pub enum Event {
    /// The source was reached; `marker` stands for its present content.
    Discovered { marker: String },
    /// The source yields its next document, with the size it declares, if any.
    Document { name: String, declared_size: Option<u64> },
    /// The source has no more documents.
    Exhausted,
    /// The document was fetched and has `size` bytes.
    Fetched { size: u64 },
    /// The document could not be fetched; another attempt may succeed where
    /// the failure is transient.
    FetchFailed { transient: bool, message: String },
    Parsed,
    ParseFailed { message: String },
    Built,
    /// The rows of the document could not be built.
    BuildFailed { reason: BuildFailure, message: String },
    Committed,
    CommitFailed { message: String },
}

/// How a run ended.
#[derive(Debug)]
pub enum Outcome {
    /// Every document was taken; the marker stands for what the run has seen.
    Completed { marker: Option<String> },
    /// The source holds what the last run has seen; nothing was fetched.
    Unchanged,
    Failed,
    Canceled,
}

/// What the caller is to do next.
#[derive(Debug)]
pub enum Action {
    /// Ask the source for its next document.
    Next,
    /// Fetch the document in hand.
    Fetch,
    Parse,
    Build,
    Commit,
    /// The run is over.
    Finish(Outcome),
    /// The event does not belong here; nothing has changed.
    Ignore,
}

/// The state of a run, as mathematical values.
pub struct RunnerView {
    pub configuration: Configuration,
    pub last_marker: Option<String>,
    pub phase: Phase,
    /// The document in hand.
    pub document: Option<String>,
    /// The number of attempts to fetch the document in hand that failed.
    pub attempts: int,
    /// What stands for the content of the source.
    pub marker: Option<String>,
    /// The documents that were committed, oldest first.
    pub processed: Seq<String>,
    /// The documents that were passed over, oldest first.
    pub skipped: Seq<Failure>,
    /// The documents that failed, oldest first.
    pub failed: Seq<Failure>,
}

/// What a run did.
#[derive(Debug)]
pub struct Report {
    pub processed: Vec<String>,
    pub skipped: Vec<Failure>,
    pub failed: Vec<Failure>,
}

/// The runner of one source.
pub struct Runner {
    configuration: Configuration,
    last_marker: Option<String>,
    phase: Phase,
    document: Option<String>,
    attempts: usize,
    marker: Option<String>,
    report: Report,
}

/// Tells whether a document of this size is over the limit of the run.
pub open spec fn over_limit(configuration: Configuration, size: Option<u64>) -> bool {
    configuration.size_limit matches Some(limit) && size matches Some(bytes) && bytes > limit
}

/// Tells whether the runner asks, on this event, whether the run is
/// canceled: before it takes up a document, and before it fetches a document
/// once more.
pub open spec fn polls(state: RunnerView, event: Event) -> bool {
    match (state.phase, event) {
        (Phase::Idle, Event::Document { .. }) => true,
        (Phase::Fetching, Event::FetchFailed { transient, .. }) => transient && state.attempts
            < state.configuration.fetch_retries,
        _ => false,
    }
}

/// Tells whether the source holds what the last run has seen.
pub open spec fn unchanged(last_marker: Option<String>, marker: String) -> bool {
    last_marker matches Some(last) && last@ == marker@
}

/// The failure of the document in hand.
pub open spec fn failure_of(state: RunnerView, kind: ErrorKind, message: Option<String>) -> Failure {
    Failure { document: state.document->0, kind, message }
}

/// The state after the document in hand failed; the run goes on where
/// `goes_on` says so, and is given up else.
pub open spec fn after_failure(
    state: RunnerView,
    kind: ErrorKind,
    message: String,
    goes_on: bool,
) -> (RunnerView, Action) {
    let failed = state.failed.push(failure_of(state, kind, Some(message)));
    if goes_on {
        (RunnerView { phase: Phase::Idle, document: None, attempts: 0, failed, ..state }, Action::Next)
    } else {
        (
            RunnerView { phase: Phase::Failed, document: None, attempts: 0, failed, ..state },
            Action::Finish(Outcome::Failed),
        )
    }
}

/// The state after the document in hand was passed over for its size.
pub open spec fn after_skip(state: RunnerView, name: String, size: u64) -> (RunnerView, Action) {
    let skipped = state.skipped.push(
        Failure {
            document: name,
            kind: ErrorKind::SizeExceeded { size, limit: state.configuration.size_limit->0 },
            message: None,
        },
    );
    (RunnerView { phase: Phase::Idle, document: None, attempts: 0, skipped, ..state }, Action::Next)
}

/// The state after the run was canceled.
pub open spec fn after_cancel(state: RunnerView) -> (RunnerView, Action) {
    (
        RunnerView { phase: Phase::Canceled, document: None, attempts: 0, ..state },
        Action::Finish(Outcome::Canceled),
    )
}

/// The state after an event, and the action that answers it. `canceled` is
/// what the caller learned when it last asked whether the run is canceled; it
/// counts between two documents and between two attempts to fetch, and
/// nowhere else.
///
/// A document over the size limit is passed over. A fetch that fails for a
/// while is tried again, as often as the run allows. A document that cannot
/// be fetched or parsed, or that names a node it does not declare, ends the
/// run unless the run is lenient. A document with a malformed identity is
/// rejected and the run goes on. A commit that fails ends the run.
pub open spec fn step(state: RunnerView, event: Event, canceled: bool) -> (RunnerView, Action) {
    match (state.phase, event) {
        (Phase::Idle, Event::Discovered { marker }) => {
            if unchanged(state.last_marker, marker) {
                (RunnerView { marker: Some(marker), ..state }, Action::Finish(Outcome::Unchanged))
            } else {
                (RunnerView { marker: Some(marker), ..state }, Action::Next)
            }
        },
        (Phase::Idle, Event::Document { name, declared_size }) => {
            if canceled {
                after_cancel(state)
            } else if over_limit(state.configuration, declared_size) {
                after_skip(state, name, declared_size->0)
            } else {
                (
                    RunnerView {
                        phase: Phase::Fetching,
                        document: Some(name),
                        attempts: 0,
                        ..state
                    },
                    Action::Fetch,
                )
            }
        },
        (Phase::Idle, Event::Exhausted) => (
            RunnerView { marker: None, ..state },
            Action::Finish(Outcome::Completed { marker: state.marker }),
        ),
        (Phase::Fetching, Event::Fetched { size }) => {
            if over_limit(state.configuration, Some(size)) {
                after_skip(state, state.document->0, size)
            } else {
                (RunnerView { phase: Phase::Parsing, ..state }, Action::Parse)
            }
        },
        (Phase::Fetching, Event::FetchFailed { transient, message }) => {
            if transient && state.attempts < state.configuration.fetch_retries {
                if canceled {
                    after_cancel(state)
                } else {
                    (RunnerView { attempts: state.attempts + 1, ..state }, Action::Fetch)
                }
            } else {
                after_failure(
                    state,
                    ErrorKind::FetchFailure,
                    message,
                    state.configuration.ignore_missing,
                )
            }
        },
        (Phase::Parsing, Event::Parsed) => (
            RunnerView { phase: Phase::Building, ..state },
            Action::Build,
        ),
        (Phase::Parsing, Event::ParseFailed { message }) => after_failure(
            state,
            ErrorKind::ParseFailure,
            message,
            state.configuration.ignore_missing,
        ),
        (Phase::Building, Event::Built) => (
            RunnerView { phase: Phase::Committing, ..state },
            Action::Commit,
        ),
        (Phase::Building, Event::BuildFailed { reason, message }) => match reason {
            BuildFailure::InvalidIdentity => after_failure(
                state,
                ErrorKind::InvalidIdentity,
                message,
                true,
            ),
            BuildFailure::DanglingReference => after_failure(
                state,
                ErrorKind::ParseFailure,
                message,
                state.configuration.ignore_missing,
            ),
        },
        (Phase::Committing, Event::Committed) => (
            RunnerView {
                phase: Phase::Idle,
                document: None,
                attempts: 0,
                processed: state.processed.push(state.document->0),
                ..state
            },
            Action::Next,
        ),
        (Phase::Committing, Event::CommitFailed { message }) => after_failure(
            state,
            ErrorKind::StorageFailure,
            message,
            false,
        ),
        _ => (state, Action::Ignore),
    }
}

impl View for Runner {
    type V = RunnerView;

    closed spec fn view(&self) -> RunnerView {
        RunnerView {
            configuration: self.configuration,
            last_marker: self.last_marker,
            phase: self.phase,
            document: self.document,
            attempts: self.attempts as int,
            marker: self.marker,
            processed: self.report.processed@,
            skipped: self.report.skipped@,
            failed: self.report.failed@,
        }
    }
}

impl RunnerView {
    /// A document is in hand exactly while it is fetched, parsed, built or
    /// committed, and no more attempts to fetch it failed than the run allows.
    pub open spec fn wf(self) -> bool {
        &&& self.document is Some <==> (self.phase == Phase::Fetching || self.phase
            == Phase::Parsing || self.phase == Phase::Building || self.phase == Phase::Committing)
        &&& 0 <= self.attempts <= self.configuration.fetch_retries
    }

    /// The state in which a run starts.
    pub open spec fn initial(configuration: Configuration, last_marker: Option<String>) -> RunnerView {
        RunnerView {
            configuration,
            last_marker,
            phase: Phase::Idle,
            document: None,
            attempts: 0,
            marker: None,
            processed: Seq::empty(),
            skipped: Seq::empty(),
            failed: Seq::empty(),
        }
    }
}

impl Runner {
    /// A runner at the start of a run. `last_marker` is the marker that the
    /// last run of the source returned, if there was one.
    pub fn new(configuration: Configuration, last_marker: Option<String>) -> (runner: Self)
        ensures
            runner@.wf(),
            runner@ == RunnerView::initial(configuration, last_marker),
    {
        Runner {
            configuration,
            last_marker,
            phase: Phase::Idle,
            document: None,
            attempts: 0,
            marker: None,
            report: Report { processed: Vec::new(), skipped: Vec::new(), failed: Vec::new() },
        }
    }

    /// What the runner is doing.
    pub fn phase(&self) -> (phase: Phase)
        ensures
            phase == self@.phase,
    {
        self.phase
    }

    /// What the run did so far.
    pub fn report(&self) -> (report: &Report)
        ensures
            report.processed@ == self@.processed,
            report.skipped@ == self@.skipped,
            report.failed@ == self@.failed,
    {
        &self.report
    }

    /// Ends the run: hands out what it did, and makes the runner ready for
    /// the next run of the source, which starts from `last_marker`.
    pub fn reset(&mut self, last_marker: Option<String>) -> (report: Report)
        ensures
            final(self)@ == RunnerView::initial(old(self)@.configuration, last_marker),
            final(self)@.wf(),
            report.processed@ == old(self)@.processed,
            report.skipped@ == old(self)@.skipped,
            report.failed@ == old(self)@.failed,
    {
        let mut report = Report { processed: Vec::new(), skipped: Vec::new(), failed: Vec::new() };
        std::mem::swap(&mut self.report, &mut report);
        self.last_marker = last_marker;
        self.phase = Phase::Idle;
        self.document = None;
        self.attempts = 0;
        self.marker = None;
        report
    }

    fn is_over_limit(&self, size: Option<u64>) -> (over: bool)
        ensures
            over == over_limit(self@.configuration, size),
    {
        match (self.configuration.size_limit, size) {
            (Some(limit), Some(bytes)) => bytes > limit,
            _ => false,
        }
    }

    fn skip(&mut self, name: String, size: u64) -> (action: Action)
        requires
            old(self)@.configuration.size_limit is Some,
        ensures
            (final(self)@, action) == after_skip(old(self)@, name, size),
    {
        let limit = match self.configuration.size_limit {
            Some(limit) => limit,
            None => 0,
        };
        self.report.skipped.push(
            Failure { document: name, kind: ErrorKind::SizeExceeded { size, limit }, message: None },
        );
        self.phase = Phase::Idle;
        self.document = None;
        self.attempts = 0;
        Action::Next
    }

    fn cancel(&mut self) -> (action: Action)
        ensures
            (final(self)@, action) == after_cancel(old(self)@),
    {
        self.phase = Phase::Canceled;
        self.document = None;
        self.attempts = 0;
        Action::Finish(Outcome::Canceled)
    }

    fn fail(&mut self, kind: ErrorKind, message: String, goes_on: bool) -> (action: Action)
        requires
            old(self)@.document is Some,
        ensures
            (final(self)@, action) == after_failure(old(self)@, kind, message, goes_on),
    {
        let document = match self.document.take() {
            Some(document) => document,
            None => String::new(),
        };
        self.report.failed.push(Failure { document, kind, message: Some(message) });
        self.attempts = 0;
        if goes_on {
            self.phase = Phase::Idle;
            Action::Next
        } else {
            self.phase = Phase::Failed;
            Action::Finish(Outcome::Failed)
        }
    }

    /// Takes one event and answers with the action to take next.
    pub fn step(&mut self, event: Event, canceled: bool) -> (action: Action)
        requires
            old(self)@.wf(),
        ensures
            final(self)@.wf(),
            (final(self)@, action) == step(old(self)@, event, canceled),
    {
        match (self.phase, event) {
            (Phase::Idle, Event::Discovered { marker }) => {
                let same = match &self.last_marker {
                    Some(last) => *last == marker,
                    None => false,
                };
                self.marker = Some(marker);
                if same {
                    Action::Finish(Outcome::Unchanged)
                } else {
                    Action::Next
                }
            },
            (Phase::Idle, Event::Document { name, declared_size }) => {
                if canceled {
                    self.cancel()
                } else if self.is_over_limit(declared_size) {
                    let bytes = match declared_size {
                        Some(bytes) => bytes,
                        None => 0,
                    };
                    self.skip(name, bytes)
                } else {
                    self.phase = Phase::Fetching;
                    self.document = Some(name);
                    self.attempts = 0;
                    Action::Fetch
                }
            },
            (Phase::Idle, Event::Exhausted) => {
                let marker = self.marker.take();
                Action::Finish(Outcome::Completed { marker })
            },
            (Phase::Fetching, Event::Fetched { size }) => {
                if self.is_over_limit(Some(size)) {
                    let name = match self.document.take() {
                        Some(name) => name,
                        None => String::new(),
                    };
                    self.skip(name, size)
                } else {
                    self.phase = Phase::Parsing;
                    Action::Parse
                }
            },
            (Phase::Fetching, Event::FetchFailed { transient, message }) => {
                if transient && self.attempts < self.configuration.fetch_retries {
                    if canceled {
                        self.cancel()
                    } else {
                        self.attempts = self.attempts + 1;
                        Action::Fetch
                    }
                } else {
                    let goes_on = self.configuration.ignore_missing;
                    self.fail(ErrorKind::FetchFailure, message, goes_on)
                }
            },
            (Phase::Parsing, Event::Parsed) => {
                self.phase = Phase::Building;
                Action::Build
            },
            (Phase::Parsing, Event::ParseFailed { message }) => {
                let goes_on = self.configuration.ignore_missing;
                self.fail(ErrorKind::ParseFailure, message, goes_on)
            },
            (Phase::Building, Event::Built) => {
                self.phase = Phase::Committing;
                Action::Commit
            },
            (Phase::Building, Event::BuildFailed { reason, message }) => match reason {
                BuildFailure::InvalidIdentity => self.fail(ErrorKind::InvalidIdentity, message, true),
                BuildFailure::DanglingReference => {
                    let goes_on = self.configuration.ignore_missing;
                    self.fail(ErrorKind::ParseFailure, message, goes_on)
                },
            },
            (Phase::Committing, Event::Committed) => {
                match self.document.take() {
                    Some(document) => {
                        self.report.processed.push(document);
                    },
                    None => {},
                }
                self.phase = Phase::Idle;
                self.attempts = 0;
                Action::Next
            },
            (Phase::Committing, Event::CommitFailed { message }) => {
                self.fail(ErrorKind::StorageFailure, message, false)
            },
            _ => Action::Ignore,
        }
    }
}

} // verus!

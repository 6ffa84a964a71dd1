//! Walking over the documents of a source.

use vstd::prelude::*;

verus! {

/// Why the callbacks end a walk.
pub enum CallbackError {
    /// Operation should be canceled
    Canceled,
    /// Process error
    Processing(String),
}

/// What a walk calls for each of its entries.
pub trait Callbacks<T>: Send + 'static {
    /// Handle an error while loading the file
    fn loading_error(&self, path: String, message: String) {
    }

    /// Process the file. Callbacks that do not say how accept every file.
    ///
    /// Any error returned will terminate the walk with a critical error.
    fn process(&self, path: &str, document: T) -> (processed: Result<(), CallbackError>)
        default_ensures
            processed == Ok::<(), CallbackError>(()),
    {
        Ok(())
    }

    /// Tells whether the walk is to stop. Callbacks that do not say when
    /// they cancel never cancel.
    fn is_canceled(&self) -> (canceled: bool)
        default_ensures
            !canceled,
    {
        false
    }
}

impl<T> Callbacks<T> for () {

}

/// What came of bringing the working copy of a versioned tree up to date.
#[derive(Debug)]
pub enum Checkout {
    /// The tree was copied for the first time.
    Cloned,
    /// The working copy was behind and has been brought up to date.
    Updated,
    /// The working copy was up to date already.
    UpToDate,
    /// The tree could not be reached or the working copy not be changed.
    Failed(String),
}

/// Tells whether the files of a working copy may be walked: they may unless
/// the checkout failed. A working copy that was up to date already is as
/// good as one that has just been brought up to date.
pub fn after_checkout(checkout: Checkout) -> (ready: Result<(), String>)
    ensures
        ready == match checkout {
            Checkout::Failed(message) => Err::<(), String>(message),
            _ => Ok::<(), String>(()),
        },
{
    match checkout {
        Checkout::Failed(message) => Err(message),
        _ => Ok(()),
    }
}

/// One candidate document of a source: the document, or why it could not be
/// loaded.
pub enum Entry<T> {
    Loaded { path: String, document: T },
    Unreadable { path: String, message: String },
}

/// How a walk went on after one answer of the callbacks.
#[derive(Debug)]
pub enum Step {
    /// The walk goes on with the next entry.
    Continue,
    /// The walk stops at once; this is no error.
    Stop,
    /// The walk is given up with this error.
    Abort(String),
}

/// What a walk did.
#[derive(Clone, Copy, Debug, PartialEq, Eq, Structural)]
pub struct Walked {
    /// The number of entries that were handed to the callbacks.
    pub visited: usize,
    /// The number of documents that the callbacks processed.
    pub processed: usize,
    /// The number of entries that could not be loaded.
    pub unreadable: usize,
    /// Whether the walk stopped because it was canceled.
    pub canceled: bool,
}

/// What a walk does after the callbacks processed a document: it goes on
/// after a success, stops on a cancellation, and is given up on an error.
pub fn after_process(processed: Result<(), CallbackError>) -> (step: Step)
    ensures
        step == match processed {
            Ok(()) => Step::Continue,
            Err(CallbackError::Canceled) => Step::Stop,
            Err(CallbackError::Processing(message)) => Step::Abort(message),
        },
{
    match processed {
        Ok(()) => Step::Continue,
        Err(CallbackError::Canceled) => Step::Stop,
        Err(CallbackError::Processing(message)) => Step::Abort(message),
    }
}

/// Tells whether the callbacks may answer `canceled` when they are asked
/// whether the walk is canceled.
pub open spec fn polled<T, C: Callbacks<T>>(callbacks: &C, canceled: bool) -> bool {
    call_ensures(<C as Callbacks<T>>::is_canceled, (callbacks,), canceled)
}

/// Tells whether an entry holds a document and the callbacks may give
/// `answer` when they are handed the path and the document of the entry.
pub open spec fn answered<T, C: Callbacks<T>>(
    callbacks: &C,
    entry: Entry<T>,
    answer: Result<(), CallbackError>,
) -> bool {
    entry matches Entry::Loaded { path, document } && exists|given: &str|
        given@ == path@ && #[trigger] call_ensures(
            <C as Callbacks<T>>::process,
            (callbacks, given, document),
            answer,
        )
}

/// Tells whether an entry could not be loaded and the callbacks were told
/// so, with the path of the entry and the reason.
pub open spec fn reported<T, C: Callbacks<T>>(callbacks: &C, entry: Entry<T>) -> bool {
    entry matches Entry::Unreadable { path, message } && call_ensures(
        <C as Callbacks<T>>::loading_error,
        (callbacks, path, message),
        (),
    )
}

/// The number of entries that hold a document.
pub open spec fn loaded<T>(entries: Seq<Entry<T>>) -> nat
    decreases entries.len(),
{
    if entries.len() == 0 {
        0
    } else {
        loaded(entries.drop_last()) + if entries.last() is Loaded {
            1nat
        } else {
            0nat
        }
    }
}

/// The number of entries that could not be loaded.
pub open spec fn unreadable<T>(entries: Seq<Entry<T>>) -> nat
    decreases entries.len(),
{
    if entries.len() == 0 {
        0
    } else {
        unreadable(entries.drop_last()) + if entries.last() is Unreadable {
            1nat
        } else {
            0nat
        }
    }
}

/// Tells whether the walk went past the first `count` entries: before each
/// of them the callbacks said that the walk is not canceled, they accepted
/// the document of each that holds one, and they were told of each that
/// could not be loaded.
pub open spec fn passed<T, C: Callbacks<T>>(
    callbacks: &C,
    entries: Seq<Entry<T>>,
    count: int,
) -> bool {
    &&& 0 <= count <= entries.len()
    &&& count > 0 ==> polled::<T, C>(callbacks, false)
    &&& forall|i: int|
        0 <= i < count ==> if (#[trigger] entries[i]) is Loaded {
            answered(callbacks, entries[i], Ok(()))
        } else {
            reported(callbacks, entries[i])
        }
}

/// Tells whether the walk ended, at the entry behind the first `count`
/// entries, with `done`.
///
/// A walk that used up its entries was not canceled. A canceled walk stopped
/// at an entry: because the callbacks said that the walk is canceled before
/// the entry was handed to them, or because they answered its document with
/// a cancellation. A failed walk stopped at an entry whose document the
/// callbacks answered with an error, and the error of the walk is theirs. In
/// every case the walk counts the documents accepted and the entries that
/// could not be loaded among the entries it went past.
pub open spec fn ended<T, C: Callbacks<T>>(
    callbacks: &C,
    entries: Seq<Entry<T>>,
    count: int,
    done: Result<Walked, String>,
) -> bool {
    match done {
        Ok(walked) => {
            &&& walked.processed == loaded(entries.take(count))
            &&& walked.unreadable == unreadable(entries.take(count))
            &&& if walked.canceled {
                &&& count < entries.len()
                &&& if walked.visited == count {
                    polled::<T, C>(callbacks, true)
                } else {
                    walked.visited == count + 1 && answered(
                        callbacks,
                        entries[count],
                        Err(CallbackError::Canceled),
                    )
                }
            } else {
                count == entries.len() && walked.visited == count
            }
        },
        Err(message) => count < entries.len() && answered(
            callbacks,
            entries[count],
            Err(CallbackError::Processing(message)),
        ),
    }
}

/// Tells whether the callbacks never say that the walk is canceled.
pub open spec fn never_cancels<T, C: Callbacks<T>>(callbacks: &C) -> bool {
    !polled::<T, C>(callbacks, true)
}

/// Tells whether the callbacks accept every document.
pub open spec fn always_accepts<T, C: Callbacks<T>>(callbacks: &C) -> bool {
    forall|path: &str, document: T, answer: Result<(), CallbackError>|
        #[trigger] call_ensures(<C as Callbacks<T>>::process, (callbacks, path, document), answer)
            ==> answer is Ok
}

/// The unit callbacks never cancel a walk and accept every document.
pub proof fn unit_callbacks_accept_everything<T>()
    ensures
        never_cancels::<T, ()>(&()),
        always_accepts::<T, ()>(&()),
{
}

/// Hands the entries to the callbacks, in order. Before each entry the walk
/// asks whether it is canceled, and stops if so. An entry that could not be
/// loaded is reported and passed over. The walk ends when the entries are
/// used up, when the callbacks cancel it, or, with an error, when the
/// callbacks fail on a document.
///
/// The walk went past some of the entries and ended at the one behind them.
/// It fails only at an entry that holds a document, and it takes every entry
/// where the callbacks never cancel and accept every document.
pub fn walk<T, C: Callbacks<T>>(entries: Vec<Entry<T>>, callbacks: &C) -> (done: Result<
    Walked,
    String,
>)
    ensures
        exists|count: int| #[trigger]
            passed(callbacks, entries@, count) && ended(callbacks, entries@, count, done),
        done is Err ==> exists|i: int|
            0 <= i < entries@.len() && (#[trigger] entries@[i]) is Loaded,
        never_cancels::<T, C>(callbacks) && always_accepts::<T, C>(callbacks) ==> done == Ok::<
            Walked,
            String,
        >(
            Walked {
                visited: entries@.len() as usize,
                processed: loaded(entries@) as usize,
                unreadable: unreadable(entries@) as usize,
                canceled: false,
            },
        ),
{
    let ghost all = entries@;
    let total = entries.len();
    let mut walked = Walked { visited: 0, processed: 0, unreadable: 0, canceled: false };
    assert(all.take(0) == Seq::<Entry<T>>::empty());
    for entry in it: entries
        invariant
            it.seq() == all,
            all == entries@,
            total == all.len(),
            walked.visited == it.index(),
            walked.processed == loaded(all.take(it.index() as int)),
            walked.unreadable == unreadable(all.take(it.index() as int)),
            walked.processed + walked.unreadable == walked.visited,
            !walked.canceled,
            passed(callbacks, all, it.index() as int),
    {
        let ghost count = it.index() as int;
        proof {
            let next = all.take(count + 1);
            assert(next.drop_last() == all.take(count));
            assert(next.last() == entry);
            assert(all[count] == entry);
        }
        let canceled = callbacks.is_canceled();
        assert(polled::<T, C>(callbacks, canceled));
        if canceled {
            walked.canceled = true;
            assert(ended(callbacks, all, count, Ok::<Walked, String>(walked)));
            return Ok(walked);
        }
        walked.visited = walked.visited + 1;
        match entry {
            Entry::Unreadable { path, message } => {
                callbacks.loading_error(path, message);
                walked.unreadable = walked.unreadable + 1;
                assert(reported(callbacks, all[count]));
            },
            Entry::Loaded { path, document } => {
                let given = path.as_str();
                let answer = callbacks.process(given, document);
                assert(answered(callbacks, all[count], answer));
                match after_process(answer) {
                    Step::Continue => {
                        walked.processed = walked.processed + 1;
                        assert(answer->Ok_0 == ());
                        assert(answered(callbacks, all[count], Ok(())));
                    },
                    Step::Stop => {
                        walked.canceled = true;
                        assert(ended(callbacks, all, count, Ok::<Walked, String>(walked)));
                        return Ok(walked);
                    },
                    Step::Abort(message) => {
                        assert(ended(callbacks, all, count, Err::<Walked, String>(message)));
                        return Err(message);
                    },
                }
            },
        }
        assert(passed(callbacks, all, count + 1)) by {
            assert forall|i: int| 0 <= i < count + 1 implies if (#[trigger] all[i]) is Loaded {
                answered(callbacks, all[i], Ok(()))
            } else {
                reported(callbacks, all[i])
            } by {
                if i < count {
                    assert(passed(callbacks, all, count));
                }
            }
        }
    }
    assert(all.take(all.len() as int) == all);
    assert(ended(callbacks, all, all.len() as int, Ok::<Walked, String>(walked)));
    Ok(walked)
}

/// Whether a name matches a pattern: the answer of the regular expression
/// `pattern` to `name`, and none where `pattern` is no regular expression.
pub uninterp spec fn pattern_match(pattern: Seq<char>, name: Seq<char>) -> Option<bool>;

/// Calls `regex::Regex::new` on the pattern and `regex::Regex::is_match` on
/// what it returns.
///
/// The contract claims that the answer depends on the pattern and the name
/// alone, and gives it a name. It claims nothing of its value.
#[verifier::external_body]
fn regex_is_match(pattern: &str, name: &str) -> (matched: Option<bool>)
    ensures
        matched == pattern_match(pattern@, name@),
{
    match regex::Regex::new(pattern) {
        Ok(regex) => Some(regex.is_match(name)),
        Err(_) => None,
    }
}

/// A pattern is no regular expression.
#[derive(Clone, Copy, Debug, PartialEq, Eq, Structural)]
pub struct InvalidPattern {
    /// The place of the pattern among the patterns.
    pub index: usize,
}

/// What the answers of the patterns to a name come to: the name is selected
/// where there is no pattern, or where a pattern matches it. The first
/// pattern that is no regular expression is an error.
pub open spec fn selection(answers: Seq<Option<bool>>) -> Result<bool, InvalidPattern> {
    if exists|i: int| 0 <= i < answers.len() && #[trigger] answers[i] is None {
        let first = choose|i: int|
            0 <= i < answers.len() && #[trigger] answers[i] is None && forall|k: int|
                0 <= k < i ==> #[trigger] answers[k] is Some;
        Err(InvalidPattern { index: first as usize })
    } else {
        Ok(
            answers.len() == 0 || exists|i: int|
                0 <= i < answers.len() && #[trigger] answers[i] == Some(true),
        )
    }
}

/// Decides from the answers of the patterns whether a name is selected.
pub fn decide(answers: &Vec<Option<bool>>) -> (selected: Result<bool, InvalidPattern>)
    ensures
        selected == selection(answers@),
{
    let mut matched = false;
    let mut i: usize = 0;
    while i < answers.len()
        invariant
            i <= answers.len(),
            forall|k: int| 0 <= k < i ==> #[trigger] answers@[k] is Some,
            matched == exists|k: int| 0 <= k < i && #[trigger] answers@[k] == Some(true),
        decreases answers.len() - i,
    {
        match answers[i] {
            None => {
                proof {
                    let first = choose|j: int|
                        0 <= j < answers@.len() && #[trigger] answers@[j] is None && forall|k: int|
                            0 <= k < j ==> #[trigger] answers@[k] is Some;
                    assert(answers@[i as int] is None);
                    if first < i {
                        assert(answers@[first] is Some);
                    }
                    if first > i {
                        assert(answers@[i as int] is Some);
                    }
                }
                return Err(InvalidPattern { index: i });
            },
            Some(answer) => {
                if answer {
                    matched = true;
                }
            },
        }
        i += 1;
    }
    Ok(answers.len() == 0 || matched)
}

/// The answers of the patterns to a name, in the order of the patterns.
pub open spec fn answers_of(patterns: Seq<String>, name: Seq<char>) -> Seq<Option<bool>> {
    Seq::new(patterns.len(), |i: int| pattern_match(patterns[i]@, name))
}

/// Tells whether the patterns select a name: where there is no pattern,
/// every name is selected, and else the names that a pattern matches.
pub fn is_selected(patterns: &Vec<String>, name: &str) -> (selected: Result<bool, InvalidPattern>)
    ensures
        selected == selection(answers_of(patterns@, name@)),
{
    let mut answers: Vec<Option<bool>> = Vec::with_capacity(patterns.len());
    let mut i: usize = 0;
    while i < patterns.len()
        invariant
            i <= patterns.len(),
            answers@.len() == i,
            forall|k: int| 0 <= k < i ==> answers@[k] == pattern_match(patterns@[k]@, name@),
        decreases patterns.len() - i,
    {
        answers.push(regex_is_match(patterns[i].as_str(), name));
        i += 1;
    }
    assert(answers@ == answers_of(patterns@, name@));
    decide(&answers)
}

impl<T> Entry<T> {
    /// The path of the entry.
    pub open spec fn spec_path(&self) -> String {
        match self {
            Entry::Loaded { path, .. } => *path,
            Entry::Unreadable { path, .. } => *path,
        }
    }

    /// The path of the entry.
    pub fn path(&self) -> (path: &String)
        ensures
            *path == self.spec_path(),
    {
        match self {
            Entry::Loaded { path, .. } => path,
            Entry::Unreadable { path, .. } => path,
        }
    }
}

/// The entries that the patterns select, in their order; the error of the
/// first entry at which a pattern turns out to be no regular expression.
pub open spec fn selected_entries<T>(entries: Seq<Entry<T>>, patterns: Seq<String>) -> Result<
    Seq<Entry<T>>,
    InvalidPattern,
>
    decreases entries.len(),
{
    if entries.len() == 0 {
        Ok(Seq::empty())
    } else {
        match selected_entries(entries.drop_last(), patterns) {
            Err(error) => Err(error),
            Ok(front) => match selection(answers_of(patterns, entries.last().spec_path()@)) {
                Err(error) => Err(error),
                Ok(true) => Ok(front.push(entries.last())),
                Ok(false) => Ok(front),
            },
        }
    }
}

/// Keeps the entries whose path the patterns select.
pub fn select<T>(entries: Vec<Entry<T>>, patterns: &Vec<String>) -> (kept: Result<
    Vec<Entry<T>>,
    InvalidPattern,
>)
    ensures
        match kept {
            Ok(list) => selected_entries(entries@, patterns@) == Ok::<
                Seq<Entry<T>>,
                InvalidPattern,
            >(list@),
            Err(error) => selected_entries(entries@, patterns@) == Err::<
                Seq<Entry<T>>,
                InvalidPattern,
            >(error),
        },
{
    let mut list: Vec<Entry<T>> = Vec::new();
    let ghost all = entries@;
    for entry in it: entries
        invariant
            it.seq() == all,
            all == entries@,
            selected_entries(all.take(it.index() as int), patterns@) == Ok::<
                Seq<Entry<T>>,
                InvalidPattern,
            >(list@),
    {
        proof {
            let next = all.take(it.index() + 1);
            assert(next.drop_last() == all.take(it.index() as int));
            assert(next.last() == entry);
        }
        match is_selected(patterns, entry.path().as_str()) {
            Err(error) => {
                proof {
                    lemma_selection_fails(all, patterns@, it.index() + 1);
                }
                return Err(error);
            },
            Ok(true) => {
                list.push(entry);
            },
            Ok(false) => {},
        }
    }
    assert(all.take(all.len() as int) == all);
    Ok(list)
}

/// An error at some entry is the error of the whole selection.
proof fn lemma_selection_fails<T>(entries: Seq<Entry<T>>, patterns: Seq<String>, upto: int)
    requires
        0 <= upto <= entries.len(),
        selected_entries(entries.take(upto), patterns) is Err,
    ensures
        selected_entries(entries, patterns) == selected_entries(entries.take(upto), patterns),
    decreases entries.len() - upto,
{
    if upto < entries.len() {
        let next = entries.take(upto + 1);
        assert(next.drop_last() == entries.take(upto));
        lemma_selection_fails(entries, patterns, upto + 1);
    } else {
        assert(entries.take(upto) == entries);
    }
}

} // verus!

//! Progress reports at a bounded rate.

use vstd::prelude::*;

verus! {

/// Tells whether a progress message is due at the time `now`, when the last
/// one went out at `last`: the first message is due at once, and each later
/// one when `period` seconds have passed since the one before. All times
/// are in seconds.
pub open spec fn due_at(last: Option<u64>, period: u64, now: u64) -> bool {
    match last {
        None => true,
        Some(then) => now >= then && now - then >= period,
    }
}

/// A progress report that lets a message through at most once per period.
#[derive(Debug)]
pub struct Progress {
    pub name: String,
    /// The least time between two messages, in seconds.
    pub period: u64,
    /// When the last message went out.
    pub last: Option<u64>,
}

impl Progress {
    /// A progress report that has not sent a message yet.
    pub fn new(name: String, period: u64) -> (progress: Self)
        ensures
            progress.name == name,
            progress.period == period,
            progress.last is None,
    {
        Progress { name, period, last: None }
    }

    /// Tells whether a message may go out at the time `now`, and takes note
    /// of it if so.
    pub fn tick(&mut self, now: u64) -> (due: bool)
        ensures
            due == due_at(old(self).last, old(self).period, now),
            final(self).name == old(self).name,
            final(self).period == old(self).period,
            final(self).last == if due {
                Some(now)
            } else {
                old(self).last
            },
    {
        let due = match self.last {
            None => true,
            Some(then) => now >= then && now - then >= self.period,
        };
        if due {
            self.last = Some(now);
        }
        due
    }
}

/// Messages keep their distance: a message that is due after another went
/// out comes a whole period later at least.
pub proof fn messages_keep_their_distance(last: u64, period: u64, now: u64)
    requires
        due_at(Some(last), period, now),
    ensures
        now - last >= period,
{
}

/// What an import run asks of its surroundings.
pub trait RunContext {
    /// The name of the run.
    fn name(&self) -> &str;

    /// Tells whether the run is to stop.
    fn is_canceled(&self) -> bool;

    /// A progress report for one part of the run.
    fn progress(&self, message: String) -> Progress;
}

/// The surroundings of a run that is never canceled.
#[derive(Debug)]
pub struct Context {
    pub name: String,
}

/// The number of seconds between two progress messages of a `Context`.
pub const PROGRESS_PERIOD: u64 = 15;

impl RunContext for Context {
    fn name(&self) -> (name: &str)
        ensures
            name@ == self.name@,
    {
        self.name.as_str()
    }

    fn is_canceled(&self) -> (canceled: bool)
        ensures
            !canceled,
    {
        false
    }

    fn progress(&self, message: String) -> (progress: Progress)
        ensures
            progress.name@ == self.name@ + ": "@ + message@,
            progress.period == PROGRESS_PERIOD,
            progress.last is None,
    {
        let mut name = self.name.clone();
        name.append(": ");
        name.append(message.as_str());
        Progress::new(name, PROGRESS_PERIOD)
    }
}

} // verus!

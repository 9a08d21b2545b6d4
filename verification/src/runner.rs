//! The dispatcher: one loop per process that claims the jobs that have fallen
//! due, hands them over for execution, and stops when nothing is pending.
//!
//! The loop itself sleeps and talks to the chat platform, so it runs outside
//! this library. Here are its decisions: whether a request may start it, what
//! one round claims, whether another round follows, and what is done for each
//! claimed job.

use vstd::prelude::*;
use vstd::string::StringExecFns;
use crate::display::due_text;
use crate::display::format_due;
use crate::job::EventType;
use crate::job::Job;
use crate::store::due_jobs;
use crate::store::later_jobs;
use crate::store::JobStore;

verus! {

/// How long the loop sleeps between two rounds, in seconds.
pub const POLL_INTERVAL_SECS: u64 = 3;

/// What the subject of an advance notice is told.
pub const IMMINENT_TEXT: &'static str = "3分後に通話を強制切断します";

/// What follows the due instant in the message to a disconnected subject.
pub const DISCONNECTED_TEXT: &'static str = "に通話を強制切断しました";

/// Whether a dispatcher loop is active.
#[derive(Clone, Copy, Debug, PartialEq, Eq, Structural)]
pub enum RunnerState {
    Idle,
    Running,
}

/// The state after a request has tried to start the loop, and whether it is
/// the one that starts it: only a request that finds the dispatcher idle is.
pub open spec fn start(state: RunnerState) -> (RunnerState, bool) {
    (RunnerState::Running, state == RunnerState::Idle)
}

/// The state after a round has seen `pending` jobs left in the store: a
/// running loop goes on while jobs are pending and becomes idle when none is.
pub open spec fn after_round(state: RunnerState, pending: nat) -> RunnerState {
    if state == RunnerState::Running && pending > 0 {
        RunnerState::Running
    } else {
        RunnerState::Idle
    }
}

/// A loop that sees an empty store becomes idle. Of the requests that follow,
/// however many there are, exactly the first one starts a loop again.
pub proof fn lemma_restart_exactly_once(state: RunnerState)
    ensures
        after_round(state, 0) == RunnerState::Idle,
        start(after_round(state, 0)) == (RunnerState::Running, true),
        start(start(after_round(state, 0)).0) == (RunnerState::Running, false),
{
}

/// A loop never becomes idle while jobs are pending.
pub proof fn lemma_runs_while_pending(pending: nat)
    requires
        pending > 0,
    ensures
        after_round(RunnerState::Running, pending) == RunnerState::Running,
{
}

/// What is sent to the subject of a job.
#[derive(Clone, Copy, Debug, PartialEq, Eq, Structural)]
pub enum Notice {
    /// The disconnect is imminent.
    Imminent,
    /// The disconnect has happened.
    Disconnected,
}

/// What the dispatcher does first for a claimed job.
#[derive(Clone, Copy, Debug, PartialEq, Eq, Structural)]
pub enum JobStep {
    /// Remove the subject from voice chat in the job's guild.
    Disconnect,
    /// Send the subject a direct message.
    Notify(Notice),
}

/// The first step for a job of each type.
pub open spec fn first_step_of(event_type: EventType) -> JobStep {
    match event_type {
        EventType::Disconnect => JobStep::Disconnect,
        EventType::Notification3Min => JobStep::Notify(Notice::Imminent),
    }
}

/// What follows the attempt to disconnect: the subject is told of a
/// disconnect that happened, and of nothing else.
pub open spec fn follow_up_of(event_type: EventType, disconnected: bool) -> Option<Notice> {
    if event_type == EventType::Disconnect && disconnected {
        Some(Notice::Disconnected)
    } else {
        None
    }
}

/// The text of a notice about a job due at `due_at` in a guild whose offset
/// was `utc_offset` hours when the job was created.
pub open spec fn notice_text_of(notice: Notice, due_at: int, utc_offset: int) -> Option<Seq<char>> {
    match notice {
        Notice::Imminent => Some(IMMINENT_TEXT@),
        Notice::Disconnected => match due_text(due_at, utc_offset) {
            Some(when) => Some(when + DISCONNECTED_TEXT@),
            None => None,
        },
    }
}

impl Job {
    /// What the dispatcher does first for this job.
    pub fn first_step(&self) -> (step: JobStep)
        ensures
            step == first_step_of(self.event_type),
    {
        match self.event_type {
            EventType::Disconnect => JobStep::Disconnect,
            EventType::Notification3Min => JobStep::Notify(Notice::Imminent),
        }
    }

    /// What the dispatcher sends once the attempt to disconnect has ended.
    ///
    /// A failed attempt is followed by nothing: the job is neither retried
    /// nor queued again.
    pub fn after_disconnect(&self, disconnected: bool) -> (notice: Option<Notice>)
        ensures
            notice == follow_up_of(self.event_type, disconnected),
    {
        match self.event_type {
            EventType::Disconnect => if disconnected {
                Some(Notice::Disconnected)
            } else {
                None
            },
            EventType::Notification3Min => None,
        }
    }

    /// The text of a notice about this job.
    pub fn notice_text(&self, notice: Notice) -> (text: Option<String>)
        ensures
            text.deep_view() == notice_text_of(notice, self.due_at as int, self.utc_offset as int),
    {
        match notice {
            Notice::Imminent => Some(String::from_str(IMMINENT_TEXT)),
            Notice::Disconnected => match format_due(self.due_at, self.utc_offset) {
                Some(when) => Some(when.concat(DISCONNECTED_TEXT)),
                None => None,
            },
        }
    }
}

/// The dispatcher's state cell.
///
/// Every change of state is one call on an exclusive borrow, so a check and
/// the change that follows it cannot be torn apart.
pub struct JobRunner {
    state: RunnerState,
}

impl View for JobRunner {
    type V = RunnerState;

    closed spec fn view(&self) -> RunnerState {
        self.state
    }
}

impl JobRunner {
    /// An idle dispatcher.
    pub fn new() -> (runner: JobRunner)
        ensures
            runner@ == RunnerState::Idle,
    {
        JobRunner { state: RunnerState::Idle }
    }

    /// Whether a loop is active.
    pub fn is_running(&self) -> (running: bool)
        ensures
            running == (self@ == RunnerState::Running),
    {
        match self.state {
            RunnerState::Running => true,
            RunnerState::Idle => false,
        }
    }

    /// Marks the dispatcher as running and says whether the caller is the one
    /// to start the loop: it is if the dispatcher was idle.
    pub fn try_start(&mut self) -> (started: bool)
        ensures
            (final(self)@, started) == start(old(self)@),
    {
        let started = !self.is_running();
        self.state = RunnerState::Running;
        started
    }

    /// One round of a running loop: claims the jobs that have fallen due at
    /// `now` and hands them over. An idle dispatcher claims nothing.
    ///
    /// The loop launches the first step of each job, sleeps for
    /// [`POLL_INTERVAL_SECS`] whether or not anything was claimed, and then
    /// calls [`JobRunner::finish_round`].
    pub fn run(&self, store: &mut JobStore, now: i64) -> (claimed: Vec<Job>)
        requires
            old(store).wf(),
        ensures
            final(store).wf(),
            self@ == RunnerState::Running ==> claimed@ == due_jobs(old(store)@, now as int)
                && final(store)@ == later_jobs(old(store)@, now as int),
            self@ == RunnerState::Idle ==> claimed@ == Seq::<Job>::empty() && final(store)@ == old(store)@,
    {
        if self.is_running() {
            store.pop_executables(now)
        } else {
            Vec::new()
        }
    }

    /// Ends a round after the sleep: the loop goes on if jobs are pending and
    /// the dispatcher becomes idle if none is. Says whether the loop goes on.
    pub fn finish_round(&mut self, store: &JobStore) -> (again: bool)
        ensures
            final(self)@ == after_round(old(self)@, store@.len()),
            again == (final(self)@ == RunnerState::Running),
    {
        if self.is_running() && store.count_jobs() > 0 {
            true
        } else {
            self.state = RunnerState::Idle;
            false
        }
    }
}

} // verus!

//! The processing-state poller.
//!
//! The remote service preprocesses an uploaded file; its descriptor moves
//! through a foreign state machine that this system observes but never
//! controls. The poller issues at most `POLL_BUDGET` independent status
//! reads, one second apart: the first observation of the active state is
//! success, the first observation of the failed state is a processing
//! error, anything else (including an unreadable response) consumes one
//! attempt, and exhausting the budget is a timeout. The decision per read
//! is `poll_step`; `await_active_replay` runs the whole schedule over a
//! given sequence of observations and pins down the attempt count.

use vstd::prelude::*;

use crate::text::str_eq;

verus! {

/// How many status reads the poller may issue.
pub const POLL_BUDGET: usize = 30;

/// How long the poller sleeps between reads, in milliseconds.
pub const POLL_INTERVAL_MS: u64 = 1000;

/// The observed state of a remote file: a closed set plus an explicit
/// unrecognized variant, so service-added states never break the poller.
#[derive(Debug, Clone, Copy, PartialEq, Eq, Structural)]
pub enum FileState {
    Processing,
    Active,
    Failed,
    Unrecognized,
}

/// Maps the wire-level state string to the observed state.
pub open spec fn spec_state_of(s: Seq<char>) -> FileState {
    if s == "ACTIVE"@ {
        FileState::Active
    } else if s == "FAILED"@ {
        FileState::Failed
    } else if s == "PROCESSING"@ {
        FileState::Processing
    } else {
        FileState::Unrecognized
    }
}

/// Reads a descriptor's state string.
pub fn parse_state(state: &str) -> (r: FileState)
    ensures
        r == spec_state_of(state@),
{
    if str_eq(state, "ACTIVE") {
        FileState::Active
    } else if str_eq(state, "FAILED") {
        FileState::Failed
    } else if str_eq(state, "PROCESSING") {
        FileState::Processing
    } else {
        FileState::Unrecognized
    }
}

/// What one status read yielded: either no usable descriptor (transport
/// failure or non-success HTTP status) or an observed state.
#[derive(Debug, Clone, Copy, PartialEq, Eq, Structural)]
pub enum PollRead {
    Unavailable,
    Observed(FileState),
}

/// The decision the poller takes after one read.
#[derive(Debug, Clone, Copy, PartialEq, Eq, Structural)]
pub enum PollDecision {
    /// The file is active: stop with success.
    Ready,
    /// The file failed remotely: stop with a processing error.
    Fail,
    /// Anything else: consume the attempt and poll again.
    Retry,
}

/// The per-read decision rule. An unavailable read is retried without
/// further inspection; an unrecognized state is retried as well.
pub open spec fn spec_poll_step(read: PollRead) -> PollDecision {
    match read {
        PollRead::Observed(FileState::Active) => PollDecision::Ready,
        PollRead::Observed(FileState::Failed) => PollDecision::Fail,
        _ => PollDecision::Retry,
    }
}

/// Decides what to do after one status read.
pub fn poll_step(read: &PollRead) -> (d: PollDecision)
    ensures
        d == spec_poll_step(*read),
{
    match read {
        PollRead::Observed(FileState::Active) => PollDecision::Ready,
        PollRead::Observed(FileState::Failed) => PollDecision::Fail,
        _ => PollDecision::Retry,
    }
}

/// A read on which the poller stops.
pub open spec fn is_terminal_read(read: PollRead) -> bool {
    spec_poll_step(read) != PollDecision::Retry
}

/// Index of the first terminal read at or after `i`, or `reads.len()` if
/// none.
pub open spec fn first_terminal_at(reads: Seq<PollRead>, i: int) -> int
    decreases reads.len() - i,
{
    if i >= reads.len() {
        reads.len() as int
    } else if is_terminal_read(reads[i]) {
        i
    } else {
        first_terminal_at(reads, i + 1)
    }
}

/// `first_terminal_at` is in bounds, skips only retries, and lands on a
/// terminal read when one exists.
pub proof fn lemma_first_terminal(reads: Seq<PollRead>, i: int)
    requires
        0 <= i <= reads.len(),
    ensures
        i <= first_terminal_at(reads, i) <= reads.len(),
        forall|j: int|
            i <= j < first_terminal_at(reads, i) ==> !is_terminal_read(#[trigger] reads[j]),
        first_terminal_at(reads, i) < reads.len() ==> is_terminal_read(
            reads[first_terminal_at(reads, i)],
        ),
    decreases reads.len() - i,
{
    if i >= reads.len() || is_terminal_read(reads[i]) {
    } else {
        lemma_first_terminal(reads, i + 1);
    }
}

/// A position preceded (from `i`) only by retries and holding a terminal
/// read is the one `first_terminal_at` finds.
pub proof fn lemma_first_terminal_unique(reads: Seq<PollRead>, i: int, k: int)
    requires
        0 <= i <= k <= reads.len(),
        forall|j: int| i <= j < k ==> !is_terminal_read(#[trigger] reads[j]),
        k < reads.len() ==> is_terminal_read(reads[k]),
    ensures
        first_terminal_at(reads, i) == k,
    decreases reads.len() - i,
{
    if i >= reads.len() {
    } else if is_terminal_read(reads[i]) {
        assert(k == i);
    } else {
        lemma_first_terminal_unique(reads, i + 1, k);
    }
}

/// How one run of the polling schedule ends.
#[derive(Debug, Clone, Copy, PartialEq, Eq, Structural)]
pub enum PollOutcome {
    /// A read observed the active state.
    Ready,
    /// A read observed the failed state.
    ProcessingFailed,
    /// All attempts were consumed without a terminal observation.
    TimedOut,
}

/// Runs the whole polling schedule over a given sequence of reads, one
/// read per attempt, and returns the outcome together with the number of
/// attempts consumed.
///
/// The contract pins the schedule down: the first terminal read within
/// the budget decides the outcome the instant it is seen, consuming
/// exactly the attempts before and including it; with no terminal read
/// among the first `POLL_BUDGET`, the outcome is a timeout after exactly
/// `POLL_BUDGET` attempts. (A real service answers every read, so a
/// replayed sequence must hold at least `POLL_BUDGET` entries.)
pub fn await_active_replay(reads: &Vec<PollRead>) -> (r: (PollOutcome, usize))
    requires
        reads@.len() >= POLL_BUDGET,
    ensures
        ({
            let k = first_terminal_at(reads@.take(POLL_BUDGET as int), 0);
            &&& k < POLL_BUDGET ==> {
                &&& r.1 == k + 1
                &&& reads@[k] == PollRead::Observed(FileState::Active) ==> r.0
                    == PollOutcome::Ready
                &&& reads@[k] == PollRead::Observed(FileState::Failed) ==> r.0
                    == PollOutcome::ProcessingFailed
            }
            &&& k == POLL_BUDGET ==> r.0 == PollOutcome::TimedOut && r.1 == POLL_BUDGET
        }),
{
    let ghost window = reads@.take(POLL_BUDGET as int);
    let mut i: usize = 0;
    while i < POLL_BUDGET
        invariant
            reads@.len() >= POLL_BUDGET,
            window == reads@.take(POLL_BUDGET as int),
            i <= POLL_BUDGET,
            forall|j: int| 0 <= j < i ==> !is_terminal_read(#[trigger] window[j]),
        decreases POLL_BUDGET - i,
    {
        let read = reads[i];
        proof {
            assert(window[i as int] == reads@[i as int]);
        }
        match poll_step(&read) {
            PollDecision::Ready => {
                proof {
                    lemma_first_terminal_unique(window, 0, i as int);
                }
                return (PollOutcome::Ready, i + 1);
            },
            PollDecision::Fail => {
                proof {
                    lemma_first_terminal_unique(window, 0, i as int);
                }
                return (PollOutcome::ProcessingFailed, i + 1);
            },
            PollDecision::Retry => {},
        }
        i += 1;
    }
    proof {
        lemma_first_terminal_unique(window, 0, POLL_BUDGET as int);
    }
    (PollOutcome::TimedOut, POLL_BUDGET)
}

} // verus!

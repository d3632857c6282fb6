use gemini_srt::poll::await_active_replay;
use gemini_srt::poll::parse_state;
use gemini_srt::poll::poll_step;
use gemini_srt::poll::FileState;
use gemini_srt::poll::PollDecision;
use gemini_srt::poll::PollOutcome;
use gemini_srt::poll::PollRead;
use gemini_srt::poll::POLL_BUDGET;

fn schedule(prefix: &[PollRead]) -> Vec<PollRead> {
    let mut reads: Vec<PollRead> = prefix.to_vec();
    while reads.len() < POLL_BUDGET {
        reads.push(PollRead::Observed(FileState::Processing));
    }
    reads
}

#[test]
fn parse_state_maps_known_and_unknown_values() {
    assert_eq!(parse_state("ACTIVE"), FileState::Active);
    assert_eq!(parse_state("FAILED"), FileState::Failed);
    assert_eq!(parse_state("PROCESSING"), FileState::Processing);
    assert_eq!(parse_state("SOMETHING_NEW"), FileState::Unrecognized);
    assert_eq!(parse_state(""), FileState::Unrecognized);
    assert_eq!(parse_state("active"), FileState::Unrecognized);
}

#[test]
fn poll_step_decides_per_read() {
    assert_eq!(
        poll_step(&PollRead::Observed(FileState::Active)),
        PollDecision::Ready
    );
    assert_eq!(
        poll_step(&PollRead::Observed(FileState::Failed)),
        PollDecision::Fail
    );
    assert_eq!(
        poll_step(&PollRead::Observed(FileState::Processing)),
        PollDecision::Retry
    );
    assert_eq!(
        poll_step(&PollRead::Observed(FileState::Unrecognized)),
        PollDecision::Retry
    );
    assert_eq!(poll_step(&PollRead::Unavailable), PollDecision::Retry);
}

#[test]
fn active_on_first_read_consumes_one_attempt() {
    let reads = schedule(&[PollRead::Observed(FileState::Active)]);
    assert_eq!(await_active_replay(&reads), (PollOutcome::Ready, 1));
}

#[test]
fn active_after_two_processing_reads_consumes_three_attempts() {
    let reads = schedule(&[
        PollRead::Observed(FileState::Processing),
        PollRead::Observed(FileState::Processing),
        PollRead::Observed(FileState::Active),
    ]);
    assert_eq!(await_active_replay(&reads), (PollOutcome::Ready, 3));
}

#[test]
fn failed_stops_immediately() {
    let reads = schedule(&[
        PollRead::Observed(FileState::Processing),
        PollRead::Observed(FileState::Failed),
        PollRead::Observed(FileState::Active),
    ]);
    assert_eq!(
        await_active_replay(&reads),
        (PollOutcome::ProcessingFailed, 2)
    );
}

#[test]
fn unavailable_and_unrecognized_reads_consume_attempts() {
    let reads = schedule(&[
        PollRead::Unavailable,
        PollRead::Observed(FileState::Unrecognized),
        PollRead::Unavailable,
        PollRead::Observed(FileState::Active),
    ]);
    assert_eq!(await_active_replay(&reads), (PollOutcome::Ready, 4));
}

#[test]
fn no_terminal_read_times_out_after_exactly_thirty_attempts() {
    let reads = schedule(&[]);
    assert_eq!(
        await_active_replay(&reads),
        (PollOutcome::TimedOut, POLL_BUDGET)
    );
    assert_eq!(POLL_BUDGET, 30);
}

#[test]
fn terminal_read_beyond_budget_is_never_seen() {
    let mut reads = schedule(&[]);
    reads.push(PollRead::Observed(FileState::Active));
    assert_eq!(
        await_active_replay(&reads),
        (PollOutcome::TimedOut, POLL_BUDGET)
    );
}

use session_usage::wait::{
    resolve_timeout, wait_mode, AgentStatus, FunctionCallError, InputQueueActivity, ListedAgent, WaitArgs,
    WaitAgentTimeoutOptions, WaitCall, WaitMode, WaitOutcome, WaitStep, wait_for_activity,
    ActivityEvent,
};
use session_usage::{Handler, WaitAgentResult};

const LIMITS: WaitAgentTimeoutOptions =
    WaitAgentTimeoutOptions { min_timeout_ms: 10_000, max_timeout_ms: 3_600_000, default_timeout_ms: 30_000 };

fn message(e: FunctionCallError) -> String {
    match e {
        FunctionCallError::RespondToModel(m) => m,
    }
}

#[test]
fn timeouts_are_clamped_defaulted_or_refused() {
    let args = |mode, timeout_ms| WaitArgs { mode, timeout_ms };
    let timed = Some(WaitMode::Timeout);
    let event = Some(WaitMode::UntilEvent);
    assert_eq!(resolve_timeout(&args(timed, None), &LIMITS).ok(), Some(30_000));
    assert_eq!(resolve_timeout(&args(timed, Some(1)), &LIMITS).ok(), Some(10_000));
    assert_eq!(resolve_timeout(&args(None, Some(1)), &LIMITS).ok(), Some(10_000));
    assert_eq!(resolve_timeout(&args(timed, Some(60_000)), &LIMITS).ok(), Some(60_000));
    assert_eq!(
        message(resolve_timeout(&args(timed, Some(3_600_001)), &LIMITS).unwrap_err()),
        "timeout_ms must be at most 3600000"
    );
    assert_eq!(
        message(resolve_timeout(&args(event, Some(1)), &LIMITS).unwrap_err()),
        "until_event does not accept timeout_ms"
    );
    assert_eq!(resolve_timeout(&args(event, None), &LIMITS).ok(), Some(30_000));
    assert_eq!(resolve_timeout(&args(None, None), &LIMITS).ok(), Some(30_000));
    assert_eq!(Handler::new(LIMITS).options, LIMITS);
    assert_eq!(wait_mode(&args(None, None)), WaitMode::UntilEvent);
    assert_eq!(wait_mode(&args(None, Some(5))), WaitMode::Timeout);
    assert_eq!(wait_mode(&args(timed, None)), WaitMode::Timeout);
    assert_eq!(wait_mode(&args(event, None)), WaitMode::UntilEvent);
}

#[test]
fn answers_name_the_outcome_and_a_raised_timeout() {
    let r = WaitAgentResult::from_outcome(WaitOutcome::TimedOut, Some(1), 10_000);
    assert_eq!(
        r.message,
        "Wait timed out.\n\nRequested timeout of 1ms was clamped to the minimum of 10000ms."
    );
    assert!(r.timed_out);
    let r = WaitAgentResult::from_outcome(WaitOutcome::Steered, Some(20_000), 20_000);
    assert_eq!(r.message, "Wait interrupted by new input.");
    assert!(!r.timed_out);
    assert_eq!(WaitAgentResult::from_outcome(WaitOutcome::MailboxActivity, None, 5).message, "Wait completed.");
    assert_eq!(WaitAgentResult::from_outcome(WaitOutcome::NoActiveAgents, None, 5).message, "no_active_agents");
}

#[test]
fn timed_wait_ends_at_its_deadline() {
    let call = WaitCall::start(&WaitArgs { mode: Some(WaitMode::Timeout), timeout_ms: Some(1) }, &LIMITS, 500).ok().unwrap();
    assert_eq!(call.deadline_ms, Some(10_500));
    assert!(matches!(call.after_subscribe(None), WaitStep::Await));
    assert!(wait_for_activity(None, call.deadline_ms, ActivityEvent::Clock(10_499)).is_none());
    let outcome = wait_for_activity(None, call.deadline_ms, ActivityEvent::Clock(10_500)).unwrap();
    let (ok, answer) = call.finish(outcome);
    assert!(ok);
    let answer = answer.ok().unwrap();
    assert!(answer.timed_out);
    assert!(answer.message.starts_with("Wait timed out."));
}

#[test]
fn event_wait_without_work_or_with_explicit_timeout_finishes() {
    // The minimum timeout is 1 ms; the other limits are as elsewhere.
    let limits = WaitAgentTimeoutOptions { min_timeout_ms: 1, ..LIMITS };
    let me = "me".to_string();

    // `{}`: no workers, so the answer is `no_active_agents` at once.
    let call = WaitCall::start(&WaitArgs { mode: None, timeout_ms: None }, &limits, 0).ok().unwrap();
    assert_eq!(call.mode, WaitMode::UntilEvent);
    assert_eq!(call.deadline_ms, None);
    assert!(matches!(call.after_subscribe(None), WaitStep::ListAgents));
    let listed = vec![
        ListedAgent { thread_id: "me".into(), status: AgentStatus::Running },
        ListedAgent { thread_id: "done".into(), status: AgentStatus::Inactive },
    ];
    assert!(matches!(call.after_agents_listed(Ok(listed), &me), WaitStep::Recheck));
    let outcome = call.after_recheck(None);
    assert_eq!(outcome, WaitOutcome::NoActiveAgents);
    let (_, answer) = call.finish(Ok(outcome));
    assert!(answer.ok().unwrap().message.contains("no_active_agents"));
    assert_eq!(call.after_recheck(Some(InputQueueActivity::Steer)), WaitOutcome::Steered);

    let busy = vec![ListedAgent { thread_id: "worker".into(), status: AgentStatus::PendingInit }];
    assert!(matches!(call.after_agents_listed(Ok(busy), &me), WaitStep::Await));
    let failed = call.after_agents_listed(Err(FunctionCallError::RespondToModel("list failed".into())), &me);
    match failed {
        WaitStep::Finished(Err(e)) => {
            let (ok, answer) = call.finish(Err(e));
            assert!(!ok);
            assert_eq!(message(answer.err().unwrap()), "list failed");
        }
        other => panic!("unexpected {other:?}"),
    }

    // `{"timeout_ms": 1}`: a timed wait that times out.
    let timed = WaitCall::start(&WaitArgs { mode: None, timeout_ms: Some(1) }, &limits, 0).ok().unwrap();
    assert_eq!(timed.mode, WaitMode::Timeout);
    assert_eq!(timed.deadline_ms, Some(1));
    assert!(matches!(timed.after_subscribe(None), WaitStep::Await));
    let outcome = wait_for_activity(None, timed.deadline_ms, ActivityEvent::Clock(1)).unwrap();
    let (_, answer) = timed.finish(outcome);
    assert!(answer.ok().unwrap().message.contains("Wait timed out."));
}

#[test]
fn elapsed_time_does_not_sample_parent() {
    // Default timeout 10 ms, minimum 1 ms; a worker is running.
    let limits = WaitAgentTimeoutOptions { min_timeout_ms: 1, max_timeout_ms: 3_600_000, default_timeout_ms: 10 };
    let me = "parent".to_string();
    let call = WaitCall::start(&WaitArgs { mode: None, timeout_ms: None }, &limits, 1_000).ok().unwrap();
    assert_eq!(call.deadline_ms, None);
    assert!(matches!(call.after_subscribe(None), WaitStep::ListAgents));
    let workers = vec![
        ListedAgent { thread_id: "parent".into(), status: AgentStatus::Running },
        ListedAgent { thread_id: "worker".into(), status: AgentStatus::Running },
    ];
    assert!(matches!(call.after_agents_listed(Ok(workers), &me), WaitStep::Await));
    // 100 ms later, well past the 10 ms default, the call is still pending.
    assert!(wait_for_activity(None, call.deadline_ms, ActivityEvent::Clock(1_100)).is_none());
    assert!(wait_for_activity(None, call.deadline_ms, ActivityEvent::Clock(u64::MAX)).is_none());
    // The worker's completion, failure or message arrives as mail.
    let outcome = wait_for_activity(None, call.deadline_ms, ActivityEvent::Changed(InputQueueActivity::Mailbox)).unwrap();
    let (ok, answer) = call.finish(outcome);
    assert!(ok);
    let answer = answer.ok().unwrap();
    assert_eq!(answer.message, "Wait completed.");
    assert!(!answer.timed_out);
    // A user steer interrupts the wait.
    let outcome = wait_for_activity(None, call.deadline_ms, ActivityEvent::Changed(InputQueueActivity::Steer)).unwrap();
    let answer = call.finish(outcome).1.ok().unwrap();
    assert_eq!(answer.message, "Wait interrupted by new input.");
    assert!(!answer.timed_out);
}

#[test]
fn queued_activity_ends_any_wait_at_once() {
    let call = WaitCall::start(&WaitArgs { mode: Some(WaitMode::UntilEvent), timeout_ms: None }, &LIMITS, 0).ok().unwrap();
    assert!(matches!(call.after_subscribe(Some(InputQueueActivity::Mailbox)), WaitStep::Finished(Ok(WaitOutcome::MailboxActivity))));
    assert!(WaitCall::start(&WaitArgs { mode: Some(WaitMode::UntilEvent), timeout_ms: Some(5) }, &LIMITS, 0).is_err());
}

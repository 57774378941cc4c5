use session_usage::wait::{
    wait_for_activity, ActivityEvent, FunctionCallError, InputQueueActivity, WaitOutcome,
};

#[test]
fn event_wait_has_no_deadline_and_wakes_on_mail() {
    assert!(wait_for_activity(None, None, ActivityEvent::Clock(0)).is_none());
    assert!(wait_for_activity(None, None, ActivityEvent::Clock(3_600_000)).is_none());
    assert!(matches!(
        wait_for_activity(None, None, ActivityEvent::Changed(InputQueueActivity::Mailbox)),
        Some(Ok(WaitOutcome::MailboxActivity))
    ));
}

#[test]
fn queued_mail_and_steering_complete_without_waiting() {
    for (activity, expected) in [
        (InputQueueActivity::Mailbox, WaitOutcome::MailboxActivity),
        (InputQueueActivity::Steer, WaitOutcome::Steered),
    ] {
        match wait_for_activity(Some(activity), None, ActivityEvent::Clock(0)) {
            Some(Ok(outcome)) => assert_eq!(outcome, expected),
            other => panic!("unexpected {other:?}"),
        }
    }
}

#[test]
fn event_wait_wakes_on_new_steering() {
    assert!(wait_for_activity(None, None, ActivityEvent::Clock(1)).is_none());
    assert!(matches!(
        wait_for_activity(None, None, ActivityEvent::Changed(InputQueueActivity::Steer)),
        Some(Ok(WaitOutcome::Steered))
    ));
}

#[test]
fn closed_activity_channel_is_an_error() {
    assert!(matches!(
        wait_for_activity(None, None, ActivityEvent::Closed),
        Some(Err(FunctionCallError::RespondToModel(message))) if message == "Agent activity channel closed."
    ));
}

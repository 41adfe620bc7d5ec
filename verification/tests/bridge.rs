use may_thread::bridge::{outcome_of, resolve_wake, Outcome, WakeAction, WakeEvent};

#[test]
fn completed_value_is_delivered() {
    let slot = Some(Outcome::<i32, &str>::Completed(21 * 2));
    match resolve_wake(WakeEvent::Signaled, slot) {
        WakeAction::Deliver(v) => assert_eq!(v, 42),
        _ => panic!("a completed outcome must be delivered"),
    }
}

#[test]
fn failure_payload_is_reraised() {
    let slot = Some(Outcome::<i32, &str>::Failed("panic"));
    match resolve_wake(WakeEvent::Signaled, slot) {
        WakeAction::Reraise(e) => assert_eq!(e, "panic"),
        _ => panic!("a failed outcome must be re-raised"),
    }
}

#[test]
fn empty_slot_after_signal_is_fatal() {
    match resolve_wake::<i32, &str>(WakeEvent::Signaled, None) {
        WakeAction::Fatal => {}
        _ => panic!("an empty slot after a normal wake is a broken handoff"),
    }
}

#[test]
fn cancellation_never_reads_the_slot() {
    // Whatever the slot holds at cancellation time, the only action is to
    // acknowledge the cancellation.
    let slots = [
        None,
        Some(Outcome::<i32, &str>::Completed(1)),
        Some(Outcome::<i32, &str>::Failed("late")),
    ];
    for slot in slots {
        match resolve_wake(WakeEvent::Cancelled, slot) {
            WakeAction::AcknowledgeCancel => {}
            _ => panic!("a cancelled wait must only acknowledge the cancellation"),
        }
    }
}

#[test]
fn worker_stores_the_verdict_verbatim() {
    match outcome_of::<i32, &str>(Ok(7)) {
        Outcome::Completed(v) => assert_eq!(v, 7),
        _ => panic!("an Ok verdict must become Completed"),
    }
    match outcome_of::<i32, &str>(Err("boom")) {
        Outcome::Failed(e) => assert_eq!(e, "boom"),
        _ => panic!("an Err verdict must become Failed"),
    }
}

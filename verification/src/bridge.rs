//! The per-call handoff between a worker thread and the suspended caller.
//!
//! One call of the blocking primitive builds one outcome slot shared by the
//! caller and the worker.  The worker runs the closure inside a
//! failure-catching boundary, stores the [`Outcome`] into the slot and
//! signals the caller's suspend handle; the caller parks on the handle and,
//! once woken, decides what to do from the wake event and the slot's
//! content.  Both directions of that protocol are ordinary decisions on
//! plain values, so they live here, verified; the thread and the handle
//! themselves are the unverified shell around this crate.

use vstd::prelude::*;

verus! {

/// What a worker stores into the outcome slot: the closure ran to
/// completion with a value, or it terminated abnormally with a failure
/// payload.  Exactly one `Outcome` is produced per invocation.
pub enum Outcome<T, E> {
    Completed(T),
    Failed(E),
}

/// How a park on the suspend handle ended: either the worker signaled that
/// the outcome slot is filled, or the wait was cancelled from outside
/// before any signal arrived.  The park is issued without a timeout, so no
/// third ending exists.
pub enum WakeEvent {
    Signaled,
    Cancelled,
}

/// What the resumed caller must do next.
pub enum WakeAction<T, E> {
    /// Return the value the closure produced.
    Deliver(T),
    /// Re-raise the failure payload in the caller's own control flow, so
    /// that a failure-catching boundary at the call site observes the same
    /// failure a direct call would have produced.
    Reraise(E),
    /// The wait was cancelled: the worker may still be running, so the slot
    /// must not be read; the caller invokes the scheduler's
    /// cancellation-acknowledgement hook and does not return normally.
    AcknowledgeCancel,
    /// The slot was empty after a normal wake: the handoff invariant is
    /// broken, and the call path must terminate loudly rather than return a
    /// made-up value.
    Fatal,
}

/// The outcome a worker stores for a closure run that ended with `r`, where
/// `r` is the verdict of the failure-catching boundary around the closure.
pub open spec fn outcome_of_spec<T, E>(r: Result<T, E>) -> Outcome<T, E> {
    match r {
        Ok(v) => Outcome::Completed(v),
        Err(e) => Outcome::Failed(e),
    }
}

/// Worker side of the handoff: turn the boundary's verdict into the
/// outcome to store, keeping the value or the payload verbatim.
pub fn outcome_of<T, E>(r: Result<T, E>) -> (o: Outcome<T, E>)
    ensures
        o == outcome_of_spec(r),
{
    match r {
        Ok(v) => Outcome::Completed(v),
        Err(e) => Outcome::Failed(e),
    }
}

/// Caller side of the handoff: what follows from a wake event and the
/// slot's content.
pub open spec fn resolve_wake_spec<T, E>(event: WakeEvent, slot: Option<Outcome<T, E>>) -> WakeAction<
    T,
    E,
> {
    match event {
        WakeEvent::Cancelled => WakeAction::AcknowledgeCancel,
        WakeEvent::Signaled => match slot {
            Some(Outcome::Completed(v)) => WakeAction::Deliver(v),
            Some(Outcome::Failed(e)) => WakeAction::Reraise(e),
            None => WakeAction::Fatal,
        },
    }
}

/// Decide, after the caller is resumed, what the call must do: deliver the
/// value, re-raise the failure, acknowledge a cancellation without touching
/// the slot, or fail loudly on a broken handoff.
pub fn resolve_wake<T, E>(event: WakeEvent, slot: Option<Outcome<T, E>>) -> (a: WakeAction<T, E>)
    ensures
        a == resolve_wake_spec(event, slot),
{
    match event {
        WakeEvent::Cancelled => WakeAction::AcknowledgeCancel,
        WakeEvent::Signaled => match slot {
            Some(Outcome::Completed(v)) => WakeAction::Deliver(v),
            Some(Outcome::Failed(e)) => WakeAction::Reraise(e),
            None => WakeAction::Fatal,
        },
    }
}

/// Law (transparency): when the closure completes with `v`, the worker
/// stores `Completed(v)` and a normally woken caller delivers exactly `v`.
/// Together with the suspend handle's guarantee that a signal is never
/// missed, this is why the blocking call returns precisely what the closure
/// returned.
pub proof fn lemma_success_transparency<T, E>(v: T)
    ensures
        resolve_wake_spec(WakeEvent::Signaled, Some(outcome_of_spec(Ok::<T, E>(v))))
            == WakeAction::<T, E>::Deliver(v),
{
}

/// Law (failure transparency): when the closure fails with payload `e`, the
/// worker stores `Failed(e)` and a normally woken caller re-raises exactly
/// `e`, so a failure-catching boundary at the call site observes the same
/// payload a direct call would have produced.
pub proof fn lemma_failure_transparency<T, E>(e: E)
    ensures
        resolve_wake_spec(WakeEvent::Signaled, Some(outcome_of_spec(Err::<T, E>(e))))
            == WakeAction::<T, E>::Reraise(e),
{
}

/// Law (cancellation discipline): a cancelled wait never reads the slot and
/// never delivers or re-raises anything, whatever the slot holds at that
/// moment; the only action is to acknowledge the cancellation.
pub proof fn lemma_cancellation_discipline<T, E>(slot: Option<Outcome<T, E>>)
    ensures
        resolve_wake_spec(WakeEvent::Cancelled, slot) == WakeAction::<T, E>::AcknowledgeCancel,
{
}

} // verus!

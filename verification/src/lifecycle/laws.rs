//! What holds of the life cycle: the phases only advance, nothing is admitted
//! after the shutdown signal, the shutdown ends when the calls have drained or
//! the grace period is over, and the listener is released exactly once.

use vstd::prelude::*;
use crate::lifecycle::{
    actions, admits, initial_state, rank, releases, run, started, step, well_formed,
    with_in_flight, Action, Event, Listener, Phase, RuntimeState,
};
use crate::outcome::{exit_code_of, fatal_of_bind, BindFailure, Outcome};

verus! {

/// No event leads out of the states that a runtime can be in.
pub proof fn lemma_step_keeps_well_formed(s: RuntimeState, event: Event)
    requires
        well_formed(s),
    ensures
        well_formed(step(s, event).0),
{
}

/// The phases only advance, the listener is opened and released at most once,
/// and a listener is released by exactly the steps whose action is `Release`.
pub proof fn lemma_step_advances(s: RuntimeState, event: Event)
    requires
        well_formed(s),
    ensures
        rank(step(s, event).0.phase) >= rank(s.phase),
        s.listener == Listener::Released ==> step(s, event).0.listener == Listener::Released,
        step(s, event).0.listener == Listener::Unopened ==> s.listener == Listener::Unopened,
        step(s, event).1 is Release <==> s.listener == Listener::Held && step(
            s,
            event,
        ).0.listener == Listener::Released,
        step(s, event).0.phase == Phase::Stopped ==> step(s, event).0.listener != Listener::Held,
{
}

/// The start leads out of no state that a runtime can be in, and the phases
/// only advance by it.
pub proof fn lemma_start_keeps_well_formed(s: RuntimeState)
    requires
        well_formed(s),
    ensures
        well_formed(started(s).0),
        rank(started(s).0.phase) >= rank(s.phase),
        started(s).0.listener == s.listener,
        started(s).0.in_flight == s.in_flight,
{
}

/// No event starts the server: a runtime that was created stays created, or
/// stops, whatever is reported to it. Only the start, which ends registration,
/// leads on to binding and serving.
pub proof fn lemma_no_event_starts_the_server(events: Seq<Event>)
    ensures
        run(initial_state(), events).phase == Phase::Created || run(
            initial_state(),
            events,
        ).phase == Phase::Stopped,
        run(initial_state(), events).listener == Listener::Unopened,
        run(initial_state(), events).in_flight == 0,
        forall|i: int|
            0 <= i < events.len() ==> !admits(#[trigger] actions(initial_state(), events)[i]),
        actions(initial_state(), events).len() == events.len(),
    decreases events.len(),
{
    if events.len() > 0 {
        let before = events.drop_last();
        lemma_no_event_starts_the_server(before);
        assert forall|i: int| 0 <= i < events.len() implies !admits(
            #[trigger] actions(initial_state(), events)[i],
        ) by {
            if i < before.len() {
                assert(actions(initial_state(), events)[i] == actions(initial_state(), before)[i]);
            }
        }
    }
}

/// The way to serving: the start asks for the listener, and the first
/// connection that is accepted begins the service.
pub proof fn lemma_startup_reaches_serving()
    ensures
        started(initial_state()) == (
            RuntimeState { phase: Phase::Binding, listener: Listener::Unopened, in_flight: 0 },
            Action::OpenListener,
        ),
        step(
            RuntimeState { phase: Phase::Binding, listener: Listener::Unopened, in_flight: 0 },
            Event::ListenerOpened,
        ) == (
            RuntimeState { phase: Phase::Binding, listener: Listener::Held, in_flight: 0 },
            Action::AwaitConnections,
        ),
        step(
            RuntimeState { phase: Phase::Binding, listener: Listener::Held, in_flight: 0 },
            Event::ConnectionAccepted,
        ) == (
            RuntimeState { phase: Phase::Serving, listener: Listener::Held, in_flight: 0 },
            Action::ServeConnection,
        ),
{
}

/// A listener that cannot be opened is fatal: the server stops before it has
/// served, holds no listener, and the process exits with a code other than zero.
pub proof fn lemma_bind_failure_is_fatal(failure: BindFailure)
    ensures
        step(
            RuntimeState { phase: Phase::Binding, listener: Listener::Unopened, in_flight: 0 },
            Event::BindFailed(failure),
        ) == (
            RuntimeState { phase: Phase::Stopped, listener: Listener::Unopened, in_flight: 0 },
            Action::End { outcome: Outcome::Fatal(fatal_of_bind(failure)) },
        ),
        exit_code_of(Outcome::Fatal(fatal_of_bind(failure))) != 0,
{
}

/// The failure of one connection is the matter of that connection: the state of
/// the server stays as it is, and nothing is due.
pub proof fn lemma_connection_failure_is_not_fatal(s: RuntimeState)
    ensures
        step(s, Event::ConnectionFailed) == (s, Action::Proceed),
{
}

/// While the server serves, a call that arrives is run and counted, and a call
/// that ends is counted off; neither ends the service.
pub proof fn lemma_calls_are_counted(s: RuntimeState)
    requires
        well_formed(s),
        s.phase == Phase::Serving,
    ensures
        s.in_flight < u64::MAX ==> step(s, Event::CallArrived) == (
            with_in_flight(s, s.in_flight + 1),
            Action::RunCall,
        ),
        s.in_flight > 0 ==> step(s, Event::CallFinished) == (
            with_in_flight(s, (s.in_flight - 1) as nat),
            Action::Proceed,
        ),
{
}

/// The shutdown signal ends admission: whatever the state, the server is then
/// shutting down or stopped.
pub proof fn lemma_shutdown_signal(s: RuntimeState)
    requires
        well_formed(s),
    ensures
        rank(step(s, Event::ShutdownRequested).0.phase) >= rank(Phase::ShuttingDown),
        !admits(step(s, Event::ShutdownRequested).1),
{
}

/// Once the server is shutting down or stopped, no event admits anything: every
/// call that arrives is refused, and the calls in flight only become fewer.
pub proof fn lemma_nothing_admitted_after_shutdown(s: RuntimeState, event: Event)
    requires
        well_formed(s),
        rank(s.phase) >= rank(Phase::ShuttingDown),
    ensures
        !admits(step(s, event).1),
        step(s, Event::CallArrived) == (s, Action::Refuse),
        step(s, event).0.in_flight <= s.in_flight,
        rank(step(s, event).0.phase) >= rank(Phase::ShuttingDown),
{
}

/// The same over every sequence of events that follows the shutdown signal.
pub proof fn lemma_shutdown_is_final(s: RuntimeState, events: Seq<Event>)
    requires
        well_formed(s),
        rank(s.phase) >= rank(Phase::ShuttingDown),
    ensures
        well_formed(run(s, events)),
        rank(run(s, events).phase) >= rank(Phase::ShuttingDown),
        run(s, events).in_flight <= s.in_flight,
        forall|i: int| 0 <= i < events.len() ==> !admits(#[trigger] actions(s, events)[i]),
        actions(s, events).len() == events.len(),
    decreases events.len(),
{
    if events.len() > 0 {
        let before = events.drop_last();
        lemma_shutdown_is_final(s, before);
        lemma_step_keeps_well_formed(run(s, before), events.last());
        lemma_nothing_admitted_after_shutdown(run(s, before), events.last());
        assert forall|i: int| 0 <= i < events.len() implies !admits(
            #[trigger] actions(s, events)[i],
        ) by {
            if i < before.len() {
                assert(actions(s, events)[i] == actions(s, before)[i]);
            }
        }
    }
}

/// The grace period bounds the shutdown: when it is over the server stops, the
/// calls that are still in flight are aborted, and the listener is released.
pub proof fn lemma_grace_period_ends_shutdown(s: RuntimeState)
    requires
        well_formed(s),
        s.phase == Phase::ShuttingDown,
    ensures
        step(s, Event::GraceElapsed) == (
            RuntimeState { phase: Phase::Stopped, listener: Listener::Released, in_flight: 0 },
            Action::Release { outcome: Outcome::Graceful, aborted: s.in_flight as u64 },
        ),
{
}

/// However the server stands, the shutdown signal and the end of the grace
/// period stop it: no state outlasts the two.
pub proof fn lemma_shutdown_and_grace_stop(s: RuntimeState)
    requires
        well_formed(s),
    ensures
        step(step(s, Event::ShutdownRequested).0, Event::GraceElapsed).0.phase == Phase::Stopped,
        step(s, Event::ShutdownRequested).0.phase == Phase::Stopped ==> step(
            step(s, Event::ShutdownRequested).0,
            Event::GraceElapsed,
        ) == (step(s, Event::ShutdownRequested).0, Action::Proceed),
{
}

/// The events of `n` calls that end.
pub open spec fn calls_finished(n: nat) -> Seq<Event> {
    Seq::new(n, |i: int| Event::CallFinished)
}

/// A shutdown ends as soon as the calls in flight have drained: after as many
/// calls have ended as were in flight, the server is stopped and the listener
/// released, and no call was aborted.
pub proof fn lemma_drained_shutdown_stops(s: RuntimeState)
    requires
        well_formed(s),
        s.phase == Phase::ShuttingDown,
    ensures
        run(s, calls_finished(s.in_flight)) == (RuntimeState {
            phase: Phase::Stopped,
            listener: Listener::Released,
            in_flight: 0,
        }),
        actions(s, calls_finished(s.in_flight)).last() == (Action::Release {
            outcome: Outcome::Graceful,
            aborted: 0,
        }),
{
    lemma_draining(s, (s.in_flight - 1) as nat);
    let all = calls_finished(s.in_flight);
    assert(all.drop_last() =~= calls_finished((s.in_flight - 1) as nat));
    assert(all.last() == Event::CallFinished);
}

proof fn lemma_draining(s: RuntimeState, k: nat)
    requires
        well_formed(s),
        s.phase == Phase::ShuttingDown,
        k < s.in_flight,
    ensures
        run(s, calls_finished(k)) == with_in_flight(s, (s.in_flight - k) as nat),
    decreases k,
{
    if k > 0 {
        lemma_draining(s, (k - 1) as nat);
        assert(calls_finished(k).drop_last() =~= calls_finished((k - 1) as nat));
        assert(calls_finished(k).last() == Event::CallFinished);
    }
}

/// Over every sequence of events the runtime stays in the states it can be in,
/// and the listener is released exactly once if it was held or opened and is
/// held no more, and never otherwise.
pub proof fn lemma_listener_released_once(s: RuntimeState, events: Seq<Event>)
    requires
        well_formed(s),
    ensures
        well_formed(run(s, events)),
        rank(run(s, events).phase) >= rank(s.phase),
        actions(s, events).len() == events.len(),
        releases(actions(s, events)) == if s.listener != Listener::Released && run(
            s,
            events,
        ).listener == Listener::Released {
            1nat
        } else {
            0nat
        },
        s.listener == Listener::Released ==> run(s, events).listener == Listener::Released,
        run(s, events).listener == Listener::Unopened ==> s.listener == Listener::Unopened,
        run(s, events).phase == Phase::Stopped ==> run(s, events).listener != Listener::Held,
    decreases events.len(),
{
    if events.len() > 0 {
        let before = events.drop_last();
        lemma_listener_released_once(s, before);
        lemma_step_keeps_well_formed(run(s, before), events.last());
        lemma_step_advances(run(s, before), events.last());
        assert(actions(s, events).drop_last() =~= actions(s, before));
    }
}

} // verus!

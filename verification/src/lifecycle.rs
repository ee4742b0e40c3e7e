//! The life cycle of the server: `Created`, `Binding`, `Serving`,
//! `ShuttingDown`, `Stopped`.
//!
//! The runtime decides; its owner acts. The owner starts the runtime with its
//! handler set, which ends registration. Each event that the owner then reports
//! moves the runtime to its next state and brings back the action that is due.
//! The runtime keeps count of the calls in flight and of what became of the
//! listener.

pub mod laws;

use vstd::prelude::*;
use crate::address::ListenAddress;
use crate::lifecycle::laws::lemma_step_keeps_well_formed;
use crate::config::{configured_address, resolve_configured};
use crate::handlers::{Failure, HandlerSet};
use crate::outcome::{fatal_of_bind, fatal_of_resolve, BindFailure, FatalError, Outcome};

use crate::wire::{serve_call, served, CallEnvelope, ResponseEnvelope};

verus! {

/// Where the server stands in its life.
#[derive(Clone, Copy, Debug, PartialEq, Eq, Structural)]
pub enum Phase {
    Created,
    Binding,
    Serving,
    ShuttingDown,
    Stopped,
}

/// What became of the listener.
#[derive(Clone, Copy, Debug, PartialEq, Eq, Structural)]
pub enum Listener {
    /// It was never opened.
    Unopened,
    /// It is open and held by the server.
    Held,
    /// It was open and has been released.
    Released,
}

/// What the owner of the runtime reports to it.
#[derive(Clone, Copy, Debug, PartialEq, Eq, Structural)]
pub enum Event {
    /// The listener was opened.
    ListenerOpened,
    /// The listener could not be opened.
    BindFailed(BindFailure),
    /// A connection was accepted.
    ConnectionAccepted,
    /// A call arrived on a connection.
    CallArrived,
    /// A call that was run has ended.
    CallFinished,
    /// The shutdown signal was given.
    ShutdownRequested,
    /// The grace period of the shutdown is over.
    GraceElapsed,
    /// One connection failed: it was reset, or sent what is no frame.
    ConnectionFailed,
    /// The transport failed for good.
    TransportFailed,
}

/// What the owner of the runtime is to do next.
#[derive(Clone, Copy, Debug, PartialEq, Eq, Structural)]
pub enum Action {
    /// Nothing is due.
    Proceed,
    /// Open the listener on the address of the runtime.
    OpenListener,
    /// Begin to accept connections.
    AwaitConnections,
    /// Serve the calls of the connection.
    ServeConnection,
    /// Run the call.
    RunCall,
    /// Turn away what arrived: refuse the call or the connection, close a
    /// listener that was opened too late.
    Refuse,
    /// Accept nothing more, and start the grace period for the calls in flight.
    Drain,
    /// Abort the calls that are still in flight, release the listener, and end.
    Release { outcome: Outcome, aborted: u64 },
    /// End; there is no listener to release.
    End { outcome: Outcome },
}

impl Action {
    /// The ending that the action brings, where it ends the server.
    pub open spec fn ending(self) -> Option<Outcome> {
        match self {
            Action::Release { outcome, aborted } => Some(outcome),
            Action::End { outcome } => Some(outcome),
            _ => None,
        }
    }

    /// The ending that the action brings, where it ends the server.
    pub fn outcome(&self) -> (r: Option<Outcome>)
        ensures
            r == self.ending(),
    {
        match *self {
            Action::Release { outcome, aborted } => Some(outcome),
            Action::End { outcome } => Some(outcome),
            _ => None,
        }
    }
}

/// The state of a runtime.
pub struct RuntimeState {
    pub phase: Phase,
    pub listener: Listener,
    pub in_flight: nat,
}

/// The state of a runtime that was just made.
pub open spec fn initial_state() -> RuntimeState {
    RuntimeState { phase: Phase::Created, listener: Listener::Unopened, in_flight: 0 }
}

/// The states that a runtime can be in: the listener is held exactly while the
/// server may serve, and calls are in flight only then.
pub open spec fn well_formed(s: RuntimeState) -> bool {
    &&& s.in_flight <= u64::MAX
    &&& match s.phase {
        Phase::Created => s.listener == Listener::Unopened && s.in_flight == 0,
        Phase::Binding => s.listener != Listener::Released && s.in_flight == 0,
        Phase::Serving => s.listener == Listener::Held,
        Phase::ShuttingDown => s.listener == Listener::Held && s.in_flight > 0,
        Phase::Stopped => s.listener != Listener::Held && s.in_flight == 0,
    }
}

/// The order of the phases.
pub open spec fn rank(phase: Phase) -> nat {
    match phase {
        Phase::Created => 0,
        Phase::Binding => 1,
        Phase::Serving => 2,
        Phase::ShuttingDown => 3,
        Phase::Stopped => 4,
    }
}

/// The end of the server: no call stays in flight, and a listener that is held
/// is released.
pub open spec fn stopping(s: RuntimeState, outcome: Outcome) -> (RuntimeState, Action) {
    if s.listener == Listener::Held {
        (
            RuntimeState { phase: Phase::Stopped, listener: Listener::Released, in_flight: 0 },
            Action::Release { outcome, aborted: s.in_flight as u64 },
        )
    } else {
        (
            RuntimeState { phase: Phase::Stopped, listener: s.listener, in_flight: 0 },
            Action::End { outcome },
        )
    }
}

/// The state with another phase.
pub open spec fn in_phase(s: RuntimeState, phase: Phase) -> RuntimeState {
    RuntimeState { phase, listener: s.listener, in_flight: s.in_flight }
}

/// The state with another count of calls in flight.
pub open spec fn with_in_flight(s: RuntimeState, in_flight: nat) -> RuntimeState {
    RuntimeState { phase: s.phase, listener: s.listener, in_flight }
}

/// The start of the server: a runtime that was created begins to bind, and the
/// listener is to be opened; a runtime in any other phase stays as it is.
pub open spec fn started(s: RuntimeState) -> (RuntimeState, Action) {
    if s.phase == Phase::Created {
        (in_phase(s, Phase::Binding), Action::OpenListener)
    } else {
        (s, Action::Proceed)
    }
}

/// The state that follows `s` on `event`, and the action that is due. No event
/// starts the server: that is for `started` alone.
pub open spec fn step(s: RuntimeState, event: Event) -> (RuntimeState, Action) {
    match s.phase {
        Phase::Created => match event {
            Event::ShutdownRequested => stopping(s, Outcome::Graceful),
            Event::ListenerOpened => (s, Action::Refuse),
            Event::ConnectionAccepted => (s, Action::Refuse),
            Event::CallArrived => (s, Action::Refuse),
            _ => (s, Action::Proceed),
        },
        Phase::Binding => if s.listener == Listener::Held {
            match event {
                Event::ConnectionAccepted => (
                    in_phase(s, Phase::Serving),
                    Action::ServeConnection,
                ),
                Event::ShutdownRequested => stopping(s, Outcome::Graceful),
                Event::TransportFailed => stopping(
                    s,
                    Outcome::Fatal(FatalError::TransportError),
                ),
                Event::ListenerOpened => (s, Action::Refuse),
                Event::CallArrived => (s, Action::Refuse),
                _ => (s, Action::Proceed),
            }
        } else {
            match event {
                Event::ListenerOpened => (
                    RuntimeState {
                        phase: Phase::Binding,
                        listener: Listener::Held,
                        in_flight: s.in_flight,
                    },
                    Action::AwaitConnections,
                ),
                Event::BindFailed(failure) => stopping(s, Outcome::Fatal(fatal_of_bind(failure))),
                Event::ShutdownRequested => stopping(s, Outcome::Graceful),
                Event::ConnectionAccepted => (s, Action::Refuse),
                Event::CallArrived => (s, Action::Refuse),
                _ => (s, Action::Proceed),
            }
        },
        Phase::Serving => match event {
            Event::ConnectionAccepted => (s, Action::ServeConnection),
            Event::CallArrived => if s.in_flight < u64::MAX {
                (with_in_flight(s, s.in_flight + 1), Action::RunCall)
            } else {
                (s, Action::Refuse)
            },
            Event::CallFinished => if s.in_flight > 0 {
                (with_in_flight(s, (s.in_flight - 1) as nat), Action::Proceed)
            } else {
                (s, Action::Proceed)
            },
            Event::ShutdownRequested => if s.in_flight == 0 {
                stopping(s, Outcome::Graceful)
            } else {
                (in_phase(s, Phase::ShuttingDown), Action::Drain)
            },
            Event::TransportFailed => stopping(s, Outcome::Fatal(FatalError::TransportError)),
            Event::ListenerOpened => (s, Action::Refuse),
            _ => (s, Action::Proceed),
        },
        Phase::ShuttingDown => match event {
            Event::CallFinished => if s.in_flight > 1 {
                (with_in_flight(s, (s.in_flight - 1) as nat), Action::Proceed)
            } else {
                stopping(with_in_flight(s, 0), Outcome::Graceful)
            },
            Event::GraceElapsed => stopping(s, Outcome::Graceful),
            Event::TransportFailed => stopping(s, Outcome::Fatal(FatalError::TransportError)),
            Event::ListenerOpened => (s, Action::Refuse),
            Event::ConnectionAccepted => (s, Action::Refuse),
            Event::CallArrived => (s, Action::Refuse),
            _ => (s, Action::Proceed),
        },
        Phase::Stopped => match event {
            Event::ListenerOpened => (s, Action::Refuse),
            Event::ConnectionAccepted => (s, Action::Refuse),
            Event::CallArrived => (s, Action::Refuse),
            _ => (s, Action::Proceed),
        },
    }
}

/// The state after a sequence of events.
pub open spec fn run(s: RuntimeState, events: Seq<Event>) -> RuntimeState
    decreases events.len(),
{
    if events.len() == 0 {
        s
    } else {
        step(run(s, events.drop_last()), events.last()).0
    }
}

/// The actions that a sequence of events brings, one for each event.
pub open spec fn actions(s: RuntimeState, events: Seq<Event>) -> Seq<Action>
    decreases events.len(),
{
    if events.len() == 0 {
        Seq::empty()
    } else {
        actions(s, events.drop_last()).push(
            step(run(s, events.drop_last()), events.last()).1,
        )
    }
}

/// How many of the actions release the listener.
pub open spec fn releases(acts: Seq<Action>) -> nat
    decreases acts.len(),
{
    if acts.len() == 0 {
        0
    } else {
        releases(acts.drop_last()) + if acts.last() is Release {
            1nat
        } else {
            0nat
        }
    }
}

/// Whether a call that arrives in this state is run.
pub open spec fn admits_call(s: RuntimeState) -> bool {
    s.phase == Phase::Serving && s.in_flight < u64::MAX
}

/// Whether the action takes in something new: a listener, a connection, a call.
pub open spec fn admits(action: Action) -> bool {
    action is OpenListener || action is AwaitConnections || action is ServeConnection
        || action is RunCall
}

/// The runtime of one server: its address and its state.
pub struct ServerRuntime {
    address: ListenAddress,
    phase: Phase,
    listener: Listener,
    in_flight: u64,
}

impl View for ServerRuntime {
    type V = RuntimeState;

    closed spec fn view(&self) -> RuntimeState {
        RuntimeState {
            phase: self.phase,
            listener: self.listener,
            in_flight: self.in_flight as nat,
        }
    }
}

fn advance(phase: Phase, listener: Listener, in_flight: u64, event: Event) -> (r: (
    Phase,
    Listener,
    u64,
    Action,
))
    ensures
        (RuntimeState { phase: r.0, listener: r.1, in_flight: r.2 as nat }, r.3) == step(
            RuntimeState { phase, listener, in_flight: in_flight as nat },
            event,
        ),
{
    let stay = (phase, listener, in_flight, Action::Proceed);
    let refuse = (phase, listener, in_flight, Action::Refuse);
    let graceful = halt(listener, in_flight, Outcome::Graceful);
    let failed = halt(listener, in_flight, Outcome::Fatal(FatalError::TransportError));
    match phase {
        Phase::Created => match event {
            Event::ShutdownRequested => graceful,
            Event::ListenerOpened => refuse,
            Event::ConnectionAccepted => refuse,
            Event::CallArrived => refuse,
            _ => stay,
        },
        Phase::Binding => match listener {
            Listener::Held => match event {
                Event::ConnectionAccepted => (
                    Phase::Serving,
                    listener,
                    in_flight,
                    Action::ServeConnection,
                ),
                Event::ShutdownRequested => graceful,
                Event::TransportFailed => failed,
                Event::ListenerOpened => refuse,
                Event::CallArrived => refuse,
                _ => stay,
            },
            _ => match event {
                Event::ListenerOpened => (
                    Phase::Binding,
                    Listener::Held,
                    in_flight,
                    Action::AwaitConnections,
                ),
                Event::BindFailed(failure) => halt(
                    listener,
                    in_flight,
                    Outcome::Fatal(FatalError::from_bind_failure(failure)),
                ),
                Event::ShutdownRequested => graceful,
                Event::ConnectionAccepted => refuse,
                Event::CallArrived => refuse,
                _ => stay,
            },
        },
        Phase::Serving => match event {
            Event::ConnectionAccepted => (phase, listener, in_flight, Action::ServeConnection),
            Event::CallArrived => if in_flight < u64::MAX {
                (phase, listener, in_flight + 1, Action::RunCall)
            } else {
                refuse
            },
            Event::CallFinished => if in_flight > 0 {
                (phase, listener, in_flight - 1, Action::Proceed)
            } else {
                stay
            },
            Event::ShutdownRequested => if in_flight == 0 {
                graceful
            } else {
                (Phase::ShuttingDown, listener, in_flight, Action::Drain)
            },
            Event::TransportFailed => failed,
            Event::ListenerOpened => refuse,
            _ => stay,
        },
        Phase::ShuttingDown => match event {
            Event::CallFinished => if in_flight > 1 {
                (phase, listener, in_flight - 1, Action::Proceed)
            } else {
                halt(listener, 0, Outcome::Graceful)
            },
            Event::GraceElapsed => graceful,
            Event::TransportFailed => failed,
            Event::ListenerOpened => refuse,
            Event::ConnectionAccepted => refuse,
            Event::CallArrived => refuse,
            _ => stay,
        },
        Phase::Stopped => match event {
            Event::ListenerOpened => refuse,
            Event::ConnectionAccepted => refuse,
            Event::CallArrived => refuse,
            _ => stay,
        },
    }
}

fn halt(listener: Listener, in_flight: u64, outcome: Outcome) -> (r: (Phase, Listener, u64, Action))
    ensures
        forall|phase: Phase|
            (RuntimeState { phase: r.0, listener: r.1, in_flight: r.2 as nat }, r.3)
                == #[trigger] stopping(
                RuntimeState { phase, listener, in_flight: in_flight as nat },
                outcome,
            ),
{
    match listener {
        Listener::Held => (
            Phase::Stopped,
            Listener::Released,
            0,
            Action::Release { outcome, aborted: in_flight },
        ),
        _ => (Phase::Stopped, listener, 0, Action::End { outcome }),
    }
}

impl ServerRuntime {
    #[verifier::type_invariant]
    spec fn inv(self) -> bool {
        well_formed(self@)
    }

    /// The address that the runtime was made for.
    pub closed spec fn listen_address(&self) -> ListenAddress {
        self.address
    }

    /// A runtime for the address: created, with no listener and no call in flight.
    pub fn new(address: ListenAddress) -> (r: Self)
        ensures
            r@ == initial_state(),
            r.listen_address() == address,
    {
        ServerRuntime {
            address,
            phase: Phase::Created,
            listener: Listener::Unopened,
            in_flight: 0,
        }
    }

    /// A runtime for the configured address, or for the default one where none
    /// is configured. An address that does not resolve is a fatal error.
    pub fn configure(configured: Option<&str>) -> (r: Result<Self, FatalError>)
        ensures
            match configured_address(
                match configured {
                    Some(text) => Some(text@),
                    None => None,
                },
            ) {
                Ok(address) => r matches Ok(runtime) && runtime@ == initial_state()
                    && runtime.listen_address() == address,
                Err(e) => r matches Err(fatal) && fatal == fatal_of_resolve(e),
            },
    {
        match resolve_configured(configured) {
            Ok(address) => Ok(ServerRuntime::new(address)),
            Err(e) => Err(FatalError::from_resolve_error(e)),
        }
    }

    /// The address that the runtime was made for.
    pub fn address(&self) -> (r: ListenAddress)
        ensures
            r == self.listen_address(),
    {
        self.address
    }

    pub fn phase(&self) -> (r: Phase)
        ensures
            r == self@.phase,
    {
        self.phase
    }

    pub fn listener(&self) -> (r: Listener)
        ensures
            r == self@.listener,
    {
        self.listener
    }

    /// The number of calls that were run and have not ended.
    pub fn in_flight(&self) -> (r: u64)
        ensures
            r == self@.in_flight,
    {
        self.in_flight
    }

    /// Takes one event: moves to the next state and returns the action that is due.
    pub fn step(&mut self, event: Event) -> (action: Action)
        ensures
            (final(self)@, action) == step(old(self)@, event),
            final(self).listen_address() == old(self).listen_address(),
            well_formed(old(self)@),
            well_formed(final(self)@),
    {
        proof {
            use_type_invariant(&*self);
            lemma_step_keeps_well_formed(self@, event);
        }
        let next = advance(self.phase, self.listener, self.in_flight, event);
        *self = ServerRuntime {
            address: self.address,
            phase: next.0,
            listener: next.1,
            in_flight: next.2,
        };
        next.3
    }

    /// Starts the server with its handler set: registration on the set ends, and
    /// a runtime that was created begins to bind. This is the only way out of
    /// `Created` but to `Stopped`, so no server binds or serves with a set that
    /// still takes handlers.
    pub fn start<H>(&mut self, handlers: &mut HandlerSet<H>) -> (action: Action)
        ensures
            (final(self)@, action) == started(old(self)@),
            final(self).listen_address() == old(self).listen_address(),
            well_formed(final(self)@),
            !final(handlers).is_open(),
            final(handlers)@ == old(handlers)@,
    {
        proof {
            use_type_invariant(&*self);
        }
        handlers.close();
        match self.phase {
            Phase::Created => {
                *self = ServerRuntime {
                    address: self.address,
                    phase: Phase::Binding,
                    listener: self.listener,
                    in_flight: self.in_flight,
                };
                Action::OpenListener
            },
            _ => Action::Proceed,
        }
    }

    /// Takes one call from its arrival to its end. The call is served where the
    /// runtime admits it and registration on the set has ended, as it has on the
    /// set that the runtime was started with: the handler of its method answers
    /// it, and the call counts as in flight meanwhile. Else it is turned away
    /// with no response. Either way the runtime is afterwards in the state it
    /// was in.
    pub fn handle_call<H: Fn(Vec<u8>) -> Result<Vec<u8>, Failure>>(
        &mut self,
        handlers: &HandlerSet<H>,
        call: CallEnvelope,
    ) -> (r: Option<ResponseEnvelope>)
        requires
            admits_call(old(self)@) && !handlers.is_open() && handlers@.dom().contains(
                call.method@,
            ) ==> call_requires(handlers@[call.method@], (call.payload,)),
        ensures
            final(self)@ == old(self)@,
            final(self).listen_address() == old(self).listen_address(),
            match r {
                Some(response) => admits_call(old(self)@) && !handlers.is_open() && served(
                    handlers@,
                    call.method@,
                    call.payload,
                    response,
                ),
                None => !admits_call(old(self)@) || handlers.is_open(),
            },
    {
        if handlers.accepts_registrations() {
            return None;
        }
        match self.step(Event::CallArrived) {
            Action::RunCall => {
                let response = serve_call(handlers, call);
                self.step(Event::CallFinished);
                Some(response)
            },
            _ => None,
        }
    }

    /// Takes the events in their order and returns the action of each.
    pub fn replay(&mut self, events: &Vec<Event>) -> (acts: Vec<Action>)
        ensures
            final(self)@ == run(old(self)@, events@),
            acts@ == actions(old(self)@, events@),
            final(self).listen_address() == old(self).listen_address(),
    {
        let mut acts: Vec<Action> = Vec::new();
        let mut i: usize = 0;
        assert(events@.subrange(0, 0) =~= Seq::<Event>::empty());
        while i < events.len()
            invariant
                i <= events.len(),
                self@ == run(old(self)@, events@.subrange(0, i as int)),
                acts@ == actions(old(self)@, events@.subrange(0, i as int)),
                self.listen_address() == old(self).listen_address(),
            decreases events.len() - i,
        {
            assert(events@.subrange(0, i + 1).drop_last() =~= events@.subrange(0, i as int));
            let action = self.step(events[i]);
            acts.push(action);
            i += 1;
        }
        assert(events@.subrange(0, i as int) =~= events@);
        acts
    }
}

} // verus!

use media_service::address::resolve;
use media_service::handlers::{Failure, HandlerSet, RegistrationError};
use media_service::lifecycle::{Action, Event, Listener, Phase, ServerRuntime};
use media_service::outcome::{exit_code, Outcome};
use media_service::wire::{serve_call, CallEnvelope, ResponseEnvelope};

type Handler = Box<dyn Fn(Vec<u8>) -> Result<Vec<u8>, Failure>>;

fn started(handlers: &mut HandlerSet<Handler>) -> ServerRuntime {
    let mut runtime = ServerRuntime::new(resolve("127.0.0.1:0").unwrap());
    assert_eq!(runtime.start(handlers), Action::OpenListener);
    assert_eq!(runtime.step(Event::ListenerOpened), Action::AwaitConnections);
    assert_eq!(runtime.step(Event::ConnectionAccepted), Action::ServeConnection);
    assert_eq!(runtime.phase(), Phase::Serving);
    runtime
}

fn call(runtime: &mut ServerRuntime, handlers: &HandlerSet<Handler>, method: &str, payload: &[u8]) -> ResponseEnvelope {
    assert_eq!(runtime.step(Event::CallArrived), Action::RunCall);
    let envelope = CallEnvelope { method: method.to_string(), payload: payload.to_vec() };
    let response = serve_call(handlers, envelope);
    assert_eq!(runtime.step(Event::CallFinished), Action::Proceed);
    response
}

#[test]
fn ping_is_not_found_until_it_is_registered_and_then_echoes() {
    let mut empty: HandlerSet<Handler> = HandlerSet::new();
    let mut runtime = started(&mut empty);
    assert_eq!(
        call(&mut runtime, &empty, "Ping", b"hello"),
        ResponseEnvelope::Error(Failure { code: 12, message: "method not found".to_string() })
    );
    assert_eq!(
        empty.register("Ping", Box::new(|payload: Vec<u8>| Ok(payload))),
        Err(RegistrationError::RegistrationClosed)
    );
    assert_eq!(
        runtime.step(Event::ShutdownRequested),
        Action::Release { outcome: Outcome::Graceful, aborted: 0 }
    );
    assert_eq!(exit_code(Outcome::Graceful), 0);

    let mut handlers: HandlerSet<Handler> = HandlerSet::new();
    assert_eq!(handlers.register("Ping", Box::new(|payload: Vec<u8>| Ok(payload))), Ok(()));
    let mut again = started(&mut handlers);
    assert_eq!(
        call(&mut again, &handlers, "Ping", b"hello"),
        ResponseEnvelope::Payload(b"hello".to_vec())
    );
    assert_eq!(
        call(&mut again, &handlers, "Ping", &[0, 255, 7]),
        ResponseEnvelope::Payload(vec![0, 255, 7])
    );
    assert_eq!(again.in_flight(), 0);
    assert_eq!(
        again.step(Event::ShutdownRequested),
        Action::Release { outcome: Outcome::Graceful, aborted: 0 }
    );
    assert_eq!(again.listener(), Listener::Released);
    assert_eq!(again.step(Event::CallArrived), Action::Refuse);
}

#[test]
fn a_call_is_handled_only_while_the_server_serves() {
    let mut handlers: HandlerSet<Handler> = HandlerSet::new();
    assert_eq!(handlers.register("Ping", Box::new(|payload: Vec<u8>| Ok(payload))), Ok(()));
    let ping = || CallEnvelope { method: "Ping".to_string(), payload: vec![1, 2, 3] };
    let pong = || CallEnvelope { method: "Pong".to_string(), payload: vec![1, 2, 3] };

    let mut runtime = ServerRuntime::new(resolve("127.0.0.1:0").unwrap());
    assert_eq!(runtime.handle_call(&handlers, ping()), None);
    assert_eq!(runtime.start(&mut handlers), Action::OpenListener);
    assert_eq!(runtime.handle_call(&handlers, ping()), None);
    assert_eq!(runtime.step(Event::ListenerOpened), Action::AwaitConnections);
    assert_eq!(runtime.handle_call(&handlers, ping()), None);
    assert_eq!(runtime.step(Event::ConnectionAccepted), Action::ServeConnection);

    assert_eq!(
        runtime.handle_call(&handlers, ping()),
        Some(ResponseEnvelope::Payload(vec![1, 2, 3]))
    );
    assert_eq!(
        runtime.handle_call(&handlers, pong()),
        Some(ResponseEnvelope::Error(Failure { code: 12, message: "method not found".to_string() }))
    );
    assert_eq!((runtime.phase(), runtime.in_flight()), (Phase::Serving, 0));

    assert_eq!(runtime.step(Event::CallArrived), Action::RunCall);
    assert_eq!(
        runtime.handle_call(&handlers, ping()),
        Some(ResponseEnvelope::Payload(vec![1, 2, 3]))
    );
    assert_eq!((runtime.phase(), runtime.in_flight()), (Phase::Serving, 1));
    assert_eq!(runtime.step(Event::ShutdownRequested), Action::Drain);
    assert_eq!(runtime.handle_call(&handlers, ping()), None);
    assert_eq!((runtime.phase(), runtime.in_flight()), (Phase::ShuttingDown, 1));
    assert_eq!(
        runtime.step(Event::GraceElapsed),
        Action::Release { outcome: Outcome::Graceful, aborted: 1 }
    );
    assert_eq!(runtime.handle_call(&handlers, ping()), None);
    assert_eq!((runtime.phase(), runtime.in_flight()), (Phase::Stopped, 0));
}

#[test]
fn a_set_that_still_takes_handlers_is_not_served() {
    let mut started_with: HandlerSet<Handler> = HandlerSet::new();
    let mut runtime = started(&mut started_with);
    let mut other: HandlerSet<Handler> = HandlerSet::new();
    assert_eq!(other.register("Ping", Box::new(|payload: Vec<u8>| Ok(payload))), Ok(()));
    let ping = || CallEnvelope { method: "Ping".to_string(), payload: vec![9] };
    assert_eq!(runtime.handle_call(&other, ping()), None);
    assert_eq!((runtime.phase(), runtime.in_flight()), (Phase::Serving, 0));
    other.close();
    assert_eq!(runtime.handle_call(&other, ping()), Some(ResponseEnvelope::Payload(vec![9])));
    assert_eq!(
        runtime.handle_call(&started_with, ping()),
        Some(ResponseEnvelope::Error(Failure { code: 12, message: "method not found".to_string() }))
    );
}

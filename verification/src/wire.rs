//! The envelopes of a call: a method identifier with a request payload, and
//! either a response payload or a structured error.

use vstd::prelude::*;
use vstd::string::*;
use crate::handlers::{dispatched, CallError, Failure, HandlerSet};

verus! {

/// An inbound call: the method it targets and its request payload.
#[derive(Clone, Debug, PartialEq, Eq)]
pub struct CallEnvelope {
    pub method: String,
    pub payload: Vec<u8>,
}

/// What the remote caller receives.
#[derive(Clone, Debug, PartialEq, Eq)]
pub enum ResponseEnvelope {
    /// The response payload of the handler.
    Payload(Vec<u8>),
    /// A structured error: a code and a message.
    Error(Failure),
}

/// The code of the error that answers a call to a method without a handler:
/// the status code that gRPC has for a method that is not implemented.
pub const METHOD_NOT_FOUND_CODE: u32 = 12;

/// The message of that error.
pub const METHOD_NOT_FOUND_MESSAGE: &'static str = "method not found";

/// `response` is the envelope of `result`: a payload or a handler's failure as
/// it is, and for `MethodNotFound` the error with the code and message above.
pub open spec fn answers(result: Result<Vec<u8>, CallError>, response: ResponseEnvelope) -> bool {
    match result {
        Ok(payload) => response == ResponseEnvelope::Payload(payload),
        Err(CallError::Handler(failure)) => response == ResponseEnvelope::Error(failure),
        Err(CallError::MethodNotFound) => {
            &&& response matches ResponseEnvelope::Error(failure)
            &&& failure.code == METHOD_NOT_FOUND_CODE
            &&& failure.message@ == METHOD_NOT_FOUND_MESSAGE@
        },
    }
}

/// `response` is what a call of `method` with `payload` may be answered with on
/// `table`.
pub open spec fn served<H: Fn(Vec<u8>) -> Result<Vec<u8>, Failure>>(
    table: Map<Seq<char>, H>,
    method: Seq<char>,
    payload: Vec<u8>,
    response: ResponseEnvelope,
) -> bool {
    exists|result: Result<Vec<u8>, CallError>|
        #[trigger] dispatched(table, method, payload, result) && answers(result, response)
}

/// Puts the result of a call into its response envelope. Every result has one:
/// a failure of a call is an answer to its caller, not a failure of the server.
pub fn respond(result: Result<Vec<u8>, CallError>) -> (r: ResponseEnvelope)
    ensures
        answers(result, r),
{
    match result {
        Ok(payload) => ResponseEnvelope::Payload(payload),
        Err(CallError::Handler(failure)) => ResponseEnvelope::Error(failure),
        Err(CallError::MethodNotFound) => ResponseEnvelope::Error(
            Failure {
                code: METHOD_NOT_FOUND_CODE,
                message: String::from_str(METHOD_NOT_FOUND_MESSAGE),
            },
        ),
    }
}

/// Serves one call: looks up the handler of its method, hands it the payload,
/// and puts what it returns into the response envelope.
pub fn serve_call<H: Fn(Vec<u8>) -> Result<Vec<u8>, Failure>>(
    handlers: &HandlerSet<H>,
    call: CallEnvelope,
) -> (r: ResponseEnvelope)
    requires
        handlers@.dom().contains(call.method@) ==> call_requires(
            handlers@[call.method@],
            (call.payload,),
        ),
    ensures
        served(handlers@, call.method@, call.payload, r),
{
    let result = handlers.dispatch(call.method.as_str(), call.payload);
    respond(result)
}

} // verus!

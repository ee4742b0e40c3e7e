//! The shell of a remote-procedure-call service node.
//!
//! The node resolves its listen address, takes the handlers of its methods, and
//! serves calls until it is shut down. This library holds what the node decides:
//!
//! - `address`: listen addresses, and how they are read and written;
//! - `config`: the listen address and the grace period as they are configured;
//! - `handlers`: the handler set, registration, and the dispatch of a call;
//! - `wire`: the envelopes of a call and of its response;
//! - `lifecycle`: the phases of the server, from state and event to state and action;
//! - `outcome`: the fatal errors and the exit code of each ending.
//!
//! Sockets, signals and timers are the business of the program around it, which
//! reports what happens as events and does what the runtime answers.

pub mod address;
pub mod config;
pub mod handlers;
pub mod lifecycle;
pub mod outcome;
pub mod wire;

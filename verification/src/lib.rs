//! Supervision of a bundled local server and a bridge that relays intercepted
//! requests to it as raw HTTP/1.1.
//!
//! The crate holds the decisions; sockets, clocks and processes are driven by
//! the caller, which feeds what it observed into the state machines here and
//! carries out the actions they return.

pub mod exchange;
pub mod http_rules;
pub mod interceptor;
pub mod message;
pub mod prober;
pub mod request;
pub mod response;
pub mod response_laws;
pub mod supervisor;
pub mod text;

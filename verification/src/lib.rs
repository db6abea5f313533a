//! A small HTTP/1.1 request server core: the per-connection request/response
//! state machine and the sliding-window rate limiter, with the parsers and
//! the response writer they rest on.
//!
//! - `handler`: the connection state machine, from events to actions.
//! - `rate_limiter`: the per-client sliding-window limiter.
//! - `request`: the request line, the served methods, the parsed request.
//! - `headers`: header lines and the keep-alive decision.
//! - `url`: the request target and its query parameters.
//! - `helpers`: the response writer.
//! - `fields`: the name/value mapping that holds headers and parameters.
//! - `text`: whitespace, splitting and decimal rendering over characters.

pub mod fields;
pub mod handler;
pub mod headers;
pub mod helpers;
pub mod rate_limiter;
pub mod request;
pub mod text;
pub mod url;

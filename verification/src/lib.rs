//! Streaming page assembly around a static HTML shell, and the
//! session-backed request counter that exercises the session store.
//!
//! - [`shell`] cuts the static document in two at its insertion marker.
//! - [`stream`] is the response stream that sends the first half, then every
//!   rendered fragment as it arrives, then the second half.
//! - [`render`] starts one render request from the URL, the query
//!   parameters and the shell.
//! - [`counter`] decides, step by step, how a request is counted in its
//!   session; [`session`] is the model of the store it is stated against.
//! - [`decimal`] writes the numbers of the counter's answer.
//!
//! Nothing here reads a file, awaits, or talks to a store: the caller does
//! that and reports what happened.

pub mod counter;
pub mod decimal;
pub mod render;
pub mod session;
pub mod shell;
pub mod stream;

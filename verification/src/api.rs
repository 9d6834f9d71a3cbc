//! The operation layer behind the HTTP endpoints: each function is the
//! computational part of one endpoint, taking and returning plain values;
//! request parsing, response shaping and the session check around it live
//! with the caller.

pub mod client;
pub mod key;
pub mod utils;

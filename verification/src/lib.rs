//! A small HTTP API, reduced to its rules: an in-memory store of items keyed
//! by their own key, the text that each stateless endpoint answers with, the
//! required fields of each decoded input, and the content-type guard.
//!
//! Every function here works on plain values; a server hands them what it
//! read from a request and sends back what they return.

pub mod reply;
pub mod items;
pub mod books;
pub mod handlers;
pub mod guard;

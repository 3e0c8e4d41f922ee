//! A routing core for versioned HTTP APIs, verified with Verus.
//!
//! The library maps an incoming HTTP method, URL path, and optional
//! semantic version to a registered handler, binding named path variables
//! along the way.  Routes live in a trie whose edges are literal strings,
//! single-segment variables, or a trailing wildcard; the endpoints at a
//! node are keyed by upper-cased method and distinguished by
//! non-overlapping version predicates.  Registration enforces the
//! uniqueness rules (consistent variable names, no name reuse within a
//! path, nothing after a wildcard, no overlapping version ranges); lookup
//! walks the trie without backtracking, preferring literals to variables
//! and variables to wildcards, and classifies every miss as Bad-Request,
//! Not-Found or Method-Not-Allowed, the last carrying the allowed
//! methods.
//!
//! The router is built once at startup and read-only afterwards: lookups
//! and enumeration never mutate the trie, so they are safe to run from
//! many request-handling tasks at once.
//!
//! The crate also verifies a few helpers around the core: the server
//! configuration read from TOML text, checks on Bunyan-format log
//! records, and the allow-list for response headers used when testing a
//! server.

pub mod bunyan;
pub mod config;
pub mod decode;
pub mod endpoint;
pub mod headers;
pub mod path;
pub mod router;
pub mod sockaddr;
pub mod util;
pub mod varmap;
pub mod version;

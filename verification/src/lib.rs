//! Diagnostic tester core for DoIP (ISO 13400) sessions carrying UDS
//! (ISO 14229) requests, with AES-128 Security Access and VBF software
//! download support.
//!
//! The crate holds the protocol logic: frame construction and parsing,
//! the routing-activation state machine, UDS response classification,
//! Security Access message assembly, VBF parsing and flash planning,
//! and the sequence-item dispatcher. Socket and file I/O live outside,
//! in a thin driver that feeds bytes in and carries bytes out.

pub mod cli;
pub mod common;
pub mod config;
pub mod crypto;
pub mod diag;
pub mod doip;
pub mod error;
pub mod executor;
pub mod parameters;
pub mod security;
pub mod soad;
pub mod vbf;

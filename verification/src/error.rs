//! Error taxonomy shared by all layers of the tester.

use vstd::prelude::*;

verus! {

/// The conditions the transport and service layers report. A value of
/// this type travels up unchanged: layers do not retry on errors from
/// below.
#[derive(Clone, Copy, Debug, PartialEq, Eq, Structural)]
pub enum TesterError {
    /// Missing or malformed configuration input.
    ConfigError,
    /// Use of the connection before a successful connect.
    NotConnected,
    /// Use of the socket layer before initialisation.
    NotInitialized,
    /// Unknown role string in the configuration.
    InvalidRole,
    /// A receive deadline elapsed.
    TimedOut,
    /// The peer closed the connection.
    ConnectionAborted,
    /// A diagnostic send attempted before routing activation.
    WouldBlock,
    /// A frame length, version, response or pattern check failed.
    InvalidData,
    /// Malformed caller input.
    InvalidInput,
    /// Wrong key length or key parsing failure.
    CryptoError,
    /// Underlying socket failure, carried through unchanged.
    IoError,
}

} // verus!

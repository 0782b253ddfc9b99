//! Socket-layer (SoAd) state and preconditions. The TCP connection
//! itself is owned by the I/O driver; this module keeps the
//! protocol-relevant state and decides when a connect attempt is
//! admissible.

use vstd::prelude::*;

use crate::error::TesterError;

verus! {

/// Size of the receive buffer for one DoIP fragment.
pub const BUFFER_SIZE: usize = 4100;

/// Socket-layer state: the one-time initialisation flag.
pub struct SoadState {
    pub initialized: bool,
}

impl SoadState {
    /// A fresh, uninitialised socket layer.
    pub fn new() -> (r: SoadState)
        ensures
            !r.initialized,
    {
        SoadState { initialized: false }
    }
}

/// Initialises the socket layer.
pub fn init(state: &mut SoadState)
    ensures
        final(state).initialized,
{
    state.initialized = true;
}

/// The role string that makes the tester connect out.
pub open spec fn spec_role_is_client(role: Seq<char>) -> bool {
    role =~= "client"@
}

/// The role string that makes the tester listen and accept.
pub open spec fn spec_role_is_server(role: Seq<char>) -> bool {
    role =~= "server"@
}

/// Decides whether a connect attempt may proceed: the role must be
/// known and the layer initialised.
pub fn connect_precheck(state: &SoadState, role: &str) -> (r: Result<(), TesterError>)
    ensures
        ({
            let rv = role@;
            if !spec_role_is_client(rv) && !spec_role_is_server(rv) {
                r == Err::<(), TesterError>(TesterError::InvalidRole)
            } else if !state.initialized {
                r == Err::<(), TesterError>(TesterError::NotInitialized)
            } else {
                r == Ok::<(), TesterError>(())
            }
        }),
{
    let is_client = crate::common::str_eq(role, "client");
    let is_server = crate::common::str_eq(role, "server");
    if !is_client && !is_server {
        Err(TesterError::InvalidRole)
    } else if !state.initialized {
        Err(TesterError::NotInitialized)
    } else {
        Ok(())
    }
}

} // verus!

//! Diagnostic (UDS) session layer over DoIP: connection state,
//! frame building for diagnostic requests, and the response
//! classification that suppresses acknowledgement and pending noise.

use vstd::prelude::*;

use crate::config::Doip;
use crate::doip;
use crate::doip::{DoipEvent, DoipState};
use crate::error::TesterError;

verus! {

/// The UDS negative-response service identifier.
pub const UDS_NEGATIVE_RESPONSE: u8 = 0x7F;

/// The negative-response code for "request received, response
/// pending".
pub const NRC_RESPONSE_PENDING: u8 = 0x78;

/// A transport a diagnostic session runs over: connection state kept
/// here, bytes moved by the driver. Whoever implements it promises
/// exactly the session behaviour below.
pub trait Transport {
    /// Whether the connection is up.
    spec fn spec_connected(&self) -> bool;

    /// Whether routing activation has succeeded.
    spec fn spec_routing_activated(&self) -> bool;

    /// Marks the connection as established; routing starts fresh.
    fn on_connected(&mut self)
        ensures
            final(self).spec_connected(),
            !final(self).spec_routing_activated(),
    ;

    /// Tears the session down; refused without a connection.
    fn disconnect(&mut self) -> (r: Result<(), TesterError>)
        ensures
            old(self).spec_connected() ==> r == Ok::<(), TesterError>(())
                && !final(self).spec_connected()
                && !final(self).spec_routing_activated(),
            !old(self).spec_connected() ==> r == Err::<(), TesterError>(
                TesterError::NotConnected,
            ),
    ;

    /// Passes raw bytes through for transmission; refused without a
    /// connection.
    fn send_doip_raw(&self, p_data: Vec<u8>) -> (r: Result<Vec<u8>, TesterError>)
        ensures
            !self.spec_connected() ==> r == Err::<Vec<u8>, TesterError>(
                TesterError::NotConnected,
            ),
            self.spec_connected() ==> (r matches Ok(f) && f@ == p_data@),
    ;
}

/// The diagnostic session: whether a connection is up, and the DoIP
/// layer state beneath it.
pub struct Diag {
    pub connected: bool,
    pub doip: DoipState,
}

impl Transport for Diag {
    open spec fn spec_connected(&self) -> bool {
        self.connected
    }

    open spec fn spec_routing_activated(&self) -> bool {
        self.doip.routing_activated
    }

    fn on_connected(&mut self) {
        Diag::on_connected(self);
    }

    fn disconnect(&mut self) -> (r: Result<(), TesterError>) {
        Diag::disconnect(self)
    }

    fn send_doip_raw(&self, p_data: Vec<u8>) -> (r: Result<Vec<u8>, TesterError>) {
        Diag::send_doip_raw(self, p_data)
    }
}

/// A new diagnostic session over an addressing configuration:
/// disconnected, routing not activated.
pub fn create_diag(config: Doip) -> (r: Diag)
    ensures
        !r.connected,
        !r.doip.routing_activated,
        r.doip.config == config,
{
    Diag { connected: false, doip: DoipState::new(config) }
}

impl Diag {
    /// Records that the I/O driver established a connection; a fresh
    /// connection always starts without routing activation.
    pub fn on_connected(&mut self)
        ensures
            final(self).connected,
            !final(self).doip.routing_activated,
            final(self).doip.config == old(self).doip.config,
    {
        self.connected = true;
        doip::on_disconnect(&mut self.doip);
    }

    /// Tears the session down. Disconnecting without a connection is
    /// refused; otherwise the connection and the routing flag are
    /// both cleared.
    pub fn disconnect(&mut self) -> (r: Result<(), TesterError>)
        ensures
            final(self).doip.config == old(self).doip.config,
            old(self).connected ==> r == Ok::<(), TesterError>(())
                && !final(self).connected
                && !final(self).doip.routing_activated,
            !old(self).connected ==> r == Err::<(), TesterError>(TesterError::NotConnected)
                && final(self).connected == old(self).connected
                && final(self).doip.routing_activated == old(self).doip.routing_activated,
    {
        if !self.connected {
            return Err(TesterError::NotConnected);
        }
        self.connected = false;
        doip::on_disconnect(&mut self.doip);
        Ok(())
    }

    /// Builds the frame for one UDS request. Without a connection the
    /// request is refused with `NotConnected`; with a connection but
    /// no routing activation, with `WouldBlock`.
    pub fn send_diag(&self, p_data: Vec<u8>) -> (r: Result<Vec<u8>, TesterError>)
        requires
            p_data@.len() + 8 <= u32::MAX,
        ensures
            !self.connected ==> r == Err::<Vec<u8>, TesterError>(TesterError::NotConnected),
            self.connected ==> ((r is Err && r.unwrap_err() == TesterError::WouldBlock)
                <==> !self.doip.routing_activated),
            self.connected && self.doip.routing_activated ==> (r matches Ok(f) && f@
                == doip::spec_diag_frame(self.doip.config, p_data@)),
    {
        if !self.connected {
            return Err(TesterError::NotConnected);
        }
        doip::send_doip_diag(&self.doip, p_data)
    }

    /// Builds the routing-activation request frame; refused without a
    /// connection.
    pub fn send_doip_routing_activation(&self) -> (r: Result<Vec<u8>, TesterError>)
        ensures
            !self.connected ==> r == Err::<Vec<u8>, TesterError>(TesterError::NotConnected),
            self.connected ==> (r matches Ok(f) && f@ == doip::spec_activation_request_frame(
                self.doip.config,
                doip::spec_activation_payload(self.doip.config),
            )),
    {
        if !self.connected {
            return Err(TesterError::NotConnected);
        }
        Ok(doip::send_doip_routing_activation(&self.doip.config))
    }

    /// Passes raw bytes through for transmission as they stand;
    /// refused without a connection.
    pub fn send_doip_raw(&self, p_data: Vec<u8>) -> (r: Result<Vec<u8>, TesterError>)
        ensures
            !self.connected ==> r == Err::<Vec<u8>, TesterError>(TesterError::NotConnected),
            self.connected ==> (r matches Ok(f) && f@ == p_data@),
    {
        if !self.connected {
            return Err(TesterError::NotConnected);
        }
        Ok(p_data)
    }

    /// Classifies one received fragment (see
    /// [`doip::process_doip_chunk`]); refused without a connection.
    pub fn process_doip_chunk(&mut self, data: &Vec<u8>) -> (r: Result<DoipEvent, TesterError>)
        ensures
            final(self).connected == old(self).connected,
            final(self).doip.config == old(self).doip.config,
            !old(self).connected ==> r == Err::<DoipEvent, TesterError>(TesterError::NotConnected)
                && final(self).doip.routing_activated == old(self).doip.routing_activated,
            old(self).connected ==> ({
                &&& final(self).doip.routing_activated == (old(self).doip.routing_activated
                    || doip::spec_is_activation_frame(old(self).doip.config, data@))
                &&& doip::spec_chunk_outcome(old(self).doip.config, data@, r)
            }),
    {
        if !self.connected {
            return Err(TesterError::NotConnected);
        }
        doip::process_doip_chunk(&mut self.doip, data)
    }
}

/// The UDS "response pending" reply: exactly `7F <sid> 78`.
pub open spec fn spec_is_pending_response(d: Seq<u8>) -> bool {
    d.len() == 3 && d[0] == UDS_NEGATIVE_RESPONSE && d[2] == NRC_RESPONSE_PENDING
}

/// Whether a UDS reply is the "response pending" negative response,
/// which extends the wait instead of ending it.
pub fn is_pending_response(data: &Vec<u8>) -> (r: bool)
    ensures
        r == spec_is_pending_response(data@),
{
    data.len() == 3 && data[0] == UDS_NEGATIVE_RESPONSE && data[2] == NRC_RESPONSE_PENDING
}

/// What the receive loop does after one classified fragment.
#[derive(Debug)]
pub enum DiagStep {
    /// Read again: an acknowledgement, a dropped frame, an activation
    /// confirmation, or a pending response.
    KeepWaiting,
    /// A final UDS reply: hand these bytes to the caller.
    Deliver(Vec<u8>),
}

/// Decides whether a classified fragment ends the diagnostic receive
/// loop: only a UDS payload that is not "response pending" does; any
/// other negative response is delivered like a positive one.
pub fn diag_receive_step(event: DoipEvent) -> (r: DiagStep)
    ensures
        match event {
            DoipEvent::UdsPayload(p) => if spec_is_pending_response(p@) {
                r matches DiagStep::KeepWaiting
            } else {
                r matches DiagStep::Deliver(q) && q@ == p@
            },
            DoipEvent::Ignored => r matches DiagStep::KeepWaiting,
            DoipEvent::RoutingActivated => r matches DiagStep::KeepWaiting,
        },
{
    match event {
        DoipEvent::UdsPayload(p) => {
            if is_pending_response(&p) {
                DiagStep::KeepWaiting
            } else {
                DiagStep::Deliver(p)
            }
        },
        DoipEvent::Ignored => DiagStep::KeepWaiting,
        DoipEvent::RoutingActivated => DiagStep::KeepWaiting,
    }
}

/// A two-byte UDS request whose sub-function byte has the
/// suppress-positive-response bit set: the caller then skips waiting
/// for a UDS reply.
pub fn is_suppress_positive(req: &Vec<u8>) -> (r: bool)
    ensures
        r == (req@.len() == 2 && req@[1] & 0x80 == 0x80),
{
    req.len() == 2 && req[1] & 0x80 == 0x80
}

} // verus!

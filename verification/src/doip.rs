//! DoIP framing and the routing-activation state machine.
//!
//! Outbound functions build complete frames as byte vectors for the
//! I/O driver to transmit; the inbound classifier consumes one
//! received fragment at a time and reports what the layer above
//! should do with it.

use vstd::prelude::*;

use crate::config::Doip;
use crate::error::TesterError;
use crate::soad;
use crate::soad::SoadState;

verus! {

/// Payload type of a diagnostic message.
pub const TYPE_DIAG: u16 = 0x8001;

/// Payload type of a routing-activation request.
pub const TYPE_ROUTING_ACTIVATION_REQ: u16 = 0x0005;

/// Payload type of a routing-activation response.
pub const TYPE_ROUTING_ACTIVATION_RES: u16 = 0x0006;

/// Payload type of a diagnostic-message positive acknowledgement.
pub const TYPE_DIAG_ACK: u16 = 0x8002;

/// Big-endian bytes of a 16-bit value.
pub open spec fn spec_u16_be(x: u16) -> Seq<u8> {
    seq![(x / 256) as u8, (x % 256) as u8]
}

/// Big-endian bytes of a 32-bit value.
pub open spec fn spec_u32_be(x: u32) -> Seq<u8> {
    seq![
        (x / 0x1000000) as u8,
        ((x / 0x10000) % 256) as u8,
        ((x / 0x100) % 256) as u8,
        (x % 256) as u8,
    ]
}

/// The 8-byte DoIP header: version, inverse version, payload type and
/// payload length, big-endian.
pub open spec fn spec_doip_header(cfg: Doip, type_field: u16, length: u32) -> Seq<u8> {
    seq![cfg.version, cfg.inverse_version] + spec_u16_be(type_field) + spec_u32_be(length)
}

/// A complete outbound diagnostic frame: header, tester address, ECU
/// address, then the UDS payload.
pub open spec fn spec_diag_frame(cfg: Doip, payload: Seq<u8>) -> Seq<u8> {
    spec_doip_header(cfg, TYPE_DIAG, (4 + payload.len()) as u32)
        + spec_u16_be(cfg.tester_addr) + spec_u16_be(cfg.ecu_addr) + payload
}

/// A complete outbound routing-activation request frame: header,
/// tester address, then the activation payload.
pub open spec fn spec_activation_request_frame(cfg: Doip, payload: Seq<u8>) -> Seq<u8> {
    spec_doip_header(cfg, TYPE_ROUTING_ACTIVATION_REQ, (2 + payload.len()) as u32)
        + spec_u16_be(cfg.tester_addr) + payload
}

/// The routing-activation request payload: the activation code and
/// four reserved zero bytes.
pub open spec fn spec_activation_payload(cfg: Doip) -> Seq<u8> {
    seq![cfg.activation_code, 0u8, 0u8, 0u8, 0u8]
}

/// Appends the big-endian bytes of a 16-bit value.
pub(crate) fn push_u16_be(v: &mut Vec<u8>, x: u16)
    ensures
        final(v)@ =~= old(v)@ + spec_u16_be(x),
{
    v.push((x / 256) as u8);
    v.push((x % 256) as u8);
}

/// Appends the big-endian bytes of a 32-bit value.
pub(crate) fn push_u32_be(v: &mut Vec<u8>, x: u32)
    ensures
        final(v)@ =~= old(v)@ + spec_u32_be(x),
{
    v.push((x / 0x1000000) as u8);
    v.push(((x / 0x10000) % 256) as u8);
    v.push(((x / 0x100) % 256) as u8);
    v.push((x % 256) as u8);
}

/// Serialises the DoIP header for a payload type and length.
pub fn construct_doip_header(cfg: &Doip, type_field: u16, length: u32) -> (r: Vec<u8>)
    ensures
        r@ =~= spec_doip_header(*cfg, type_field, length),
{
    let mut header: Vec<u8> = Vec::new();
    header.push(cfg.version);
    header.push(cfg.inverse_version);
    push_u16_be(&mut header, type_field);
    push_u32_be(&mut header, length);
    header
}

/// The DoIP layer state: the addressing configuration and whether
/// routing activation has succeeded on the current connection.
pub struct DoipState {
    pub config: Doip,
    pub routing_activated: bool,
}

impl DoipState {
    /// A fresh DoIP layer over a configuration: routing not yet
    /// activated.
    pub fn new(config: Doip) -> (r: DoipState)
        ensures
            r.config == config,
            !r.routing_activated,
    {
        DoipState { config, routing_activated: false }
    }
}

/// Initialises the layers below the DoIP layer.
pub fn init(state: &mut SoadState)
    ensures
        final(state).initialized,
{
    soad::init(state);
}

/// Builds the frame for one outbound DoIP message: a diagnostic
/// message carries both addresses before the payload, a
/// routing-activation request only the tester address; any other
/// payload type is refused.
pub fn send_doip(cfg: &Doip, p_data: Vec<u8>, type_field: u16) -> (r: Result<
    Vec<u8>,
    TesterError,
>)
    requires
        p_data@.len() + 8 <= u32::MAX,
    ensures
        type_field == TYPE_DIAG ==> (r matches Ok(f) && f@ == spec_diag_frame(*cfg, p_data@)),
        type_field == TYPE_ROUTING_ACTIVATION_REQ ==> (r matches Ok(f) && f@
            == spec_activation_request_frame(*cfg, p_data@)),
        type_field != TYPE_DIAG && type_field != TYPE_ROUTING_ACTIVATION_REQ ==> r == Err::<
            Vec<u8>,
            TesterError,
        >(TesterError::InvalidData),
{
    if type_field == TYPE_DIAG {
        let mut frame = construct_doip_header(cfg, type_field, 4 + p_data.len() as u32);
        push_u16_be(&mut frame, cfg.tester_addr);
        push_u16_be(&mut frame, cfg.ecu_addr);
        let mut payload = p_data;
        frame.append(&mut payload);
        proof {
            assert(frame@ =~= spec_diag_frame(*cfg, p_data@));
        }
        Ok(frame)
    } else if type_field == TYPE_ROUTING_ACTIVATION_REQ {
        let mut frame = construct_doip_header(cfg, type_field, 2 + p_data.len() as u32);
        push_u16_be(&mut frame, cfg.tester_addr);
        let mut payload = p_data;
        frame.append(&mut payload);
        proof {
            assert(frame@ =~= spec_activation_request_frame(*cfg, p_data@));
        }
        Ok(frame)
    } else {
        Err(TesterError::InvalidData)
    }
}

/// Builds a diagnostic frame, refused with `WouldBlock` until routing
/// activation has succeeded.
pub fn send_doip_diag(state: &DoipState, p_data: Vec<u8>) -> (r: Result<Vec<u8>, TesterError>)
    requires
        p_data@.len() + 8 <= u32::MAX,
    ensures
        r is Err && r.unwrap_err() == TesterError::WouldBlock <==> !state.routing_activated,
        state.routing_activated ==> (r matches Ok(f) && f@ == spec_diag_frame(
            state.config,
            p_data@,
        )),
{
    if !state.routing_activated {
        return Err(TesterError::WouldBlock);
    }
    send_doip(&state.config, p_data, TYPE_DIAG)
}

/// Builds the routing-activation request frame for the configured
/// activation code.
pub fn send_doip_routing_activation(cfg: &Doip) -> (r: Vec<u8>)
    ensures
        r@ == spec_activation_request_frame(*cfg, spec_activation_payload(*cfg)),
{
    let mut p_data: Vec<u8> = Vec::new();
    p_data.push(cfg.activation_code);
    p_data.push(0);
    p_data.push(0);
    p_data.push(0);
    p_data.push(0);
    proof {
        assert(p_data@ =~= spec_activation_payload(*cfg));
    }
    let r = send_doip(cfg, p_data, TYPE_ROUTING_ACTIVATION_REQ);
    match r {
        Ok(frame) => frame,
        Err(_) => {
            // unreachable: the routing-activation type is accepted
            proof {
                assert(false);
            }
            Vec::new()
        },
    }
}

/// What one received fragment means to the layer above.
#[derive(Debug)]
pub enum DoipEvent {
    /// Dropped by the DoIP layer; read again.
    Ignored,
    /// A diagnostic message addressed to this tester: its UDS bytes.
    UdsPayload(Vec<u8>),
    /// The peer confirmed routing activation.
    RoutingActivated,
}

/// Payload type field of a frame that is at least a header long.
pub open spec fn spec_frame_type(d: Seq<u8>) -> int {
    256 * d[2] + d[3]
}

/// Declared payload length of a frame.
pub open spec fn spec_frame_declared_len(d: Seq<u8>) -> int {
    0x1000000 * d[4] + 0x10000 * d[5] + 0x100 * d[6] + d[7]
}

/// Whether the frame's version bytes match the configuration.
pub open spec fn spec_version_ok(cfg: Doip, d: Seq<u8>) -> bool {
    d[0] == cfg.version && d[1] == cfg.inverse_version
}

/// Whether the declared payload length equals the actual one.
pub open spec fn spec_len_ok(d: Seq<u8>) -> bool {
    spec_frame_declared_len(d) == d.len() - 8
}

/// Whether a diagnostic frame's source and target addresses match the
/// configuration under bitmask equality, which tolerates functional
/// addressing supersets.
pub open spec fn spec_addr_ok(cfg: Doip, d: Seq<u8>) -> bool {
    &&& ((256 * d[8] + d[9]) as u16 & cfg.ecu_addr) == cfg.ecu_addr
    &&& ((256 * d[10] + d[11]) as u16 & cfg.tester_addr) == cfg.tester_addr
}

/// A routing-activation response that passes every frame check.
pub open spec fn spec_is_activation_frame(cfg: Doip, d: Seq<u8>) -> bool {
    d.len() >= 8 && spec_version_ok(cfg, d) && spec_len_ok(d) && spec_frame_type(d)
        == TYPE_ROUTING_ACTIVATION_RES
}

/// What the classifier must report for one received fragment: the
/// whole dispatch, case by case.
pub open spec fn spec_chunk_outcome(cfg: Doip, d: Seq<u8>, r: Result<DoipEvent, TesterError>) -> bool {
    if d.len() < 8 {
        r == Err::<DoipEvent, TesterError>(TesterError::InvalidData)
    } else if !spec_version_ok(cfg, d) {
        r matches Ok(DoipEvent::Ignored)
    } else if !spec_len_ok(d) {
        r == Err::<DoipEvent, TesterError>(TesterError::InvalidData)
    } else if spec_frame_type(d) == TYPE_DIAG {
        if d.len() < 12 {
            r == Err::<DoipEvent, TesterError>(TesterError::InvalidData)
        } else if !spec_addr_ok(cfg, d) {
            r matches Ok(DoipEvent::Ignored)
        } else {
            r matches Ok(DoipEvent::UdsPayload(p)) && p@ == d.skip(12)
        }
    } else if spec_frame_type(d) == TYPE_DIAG_ACK {
        r matches Ok(DoipEvent::Ignored)
    } else if spec_frame_type(d) == TYPE_ROUTING_ACTIVATION_RES {
        r matches Ok(DoipEvent::RoutingActivated)
    } else {
        r matches Ok(DoipEvent::Ignored)
    }
}

/// Classifies one received fragment and advances the
/// routing-activation state.
///
/// A fragment shorter than a header, or one whose declared payload
/// length disagrees with the bytes that follow the header, is invalid
/// and nothing of it reaches the layer above. A version mismatch, a
/// diagnostic message addressed elsewhere, a diagnostic
/// acknowledgement and an unknown payload type are silently dropped.
/// A routing-activation response records success; a well-addressed
/// diagnostic message hands its UDS bytes up.
pub fn process_doip_chunk(state: &mut DoipState, data: &Vec<u8>) -> (r: Result<
    DoipEvent,
    TesterError,
>)
    ensures
        final(state).config == old(state).config,
        final(state).routing_activated == (old(state).routing_activated
            || spec_is_activation_frame(old(state).config, data@)),
        spec_chunk_outcome(old(state).config, data@, r),
{
    let n = data.len();
    if n < 8 {
        return Err(TesterError::InvalidData);
    }
    if !(data[0] == state.config.version && data[1] == state.config.inverse_version) {
        return Ok(DoipEvent::Ignored);
    }
    let declared: u32 = (data[4] as u32) * 0x1000000 + (data[5] as u32) * 0x10000 + (data[6]
        as u32) * 0x100 + (data[7] as u32);
    if !((declared as usize) == n - 8) {
        return Err(TesterError::InvalidData);
    }
    let ftype: u16 = (data[2] as u16) * 256 + (data[3] as u16);
    if ftype == TYPE_DIAG {
        if n < 12 {
            return Err(TesterError::InvalidData);
        }
        let src: u16 = (data[8] as u16) * 256 + (data[9] as u16);
        let dst: u16 = (data[10] as u16) * 256 + (data[11] as u16);
        if (src & state.config.ecu_addr) != state.config.ecu_addr || (dst
            & state.config.tester_addr) != state.config.tester_addr {
            return Ok(DoipEvent::Ignored);
        }
        let uds = crate::common::vec_suffix(data, 12);
        Ok(DoipEvent::UdsPayload(uds))
    } else if ftype == TYPE_DIAG_ACK {
        Ok(DoipEvent::Ignored)
    } else if ftype == TYPE_ROUTING_ACTIVATION_RES {
        state.routing_activated = true;
        Ok(DoipEvent::RoutingActivated)
    } else {
        Ok(DoipEvent::Ignored)
    }
}

/// Resets the routing flag: a dropped or failed connection always
/// needs a fresh activation.
pub fn on_disconnect(state: &mut DoipState)
    ensures
        final(state).config == old(state).config,
        !final(state).routing_activated,
{
    state.routing_activated = false;
}

/// Layout of every outbound DoIP frame: the version byte, its
/// inverse, the payload type and the payload length stand at their
/// fixed offsets, and the length field counts exactly the bytes after
/// the header.
pub proof fn lemma_doip_frame_layout(cfg: Doip, payload: Seq<u8>, type_field: u16)
    requires
        payload.len() + 8 <= u32::MAX,
        type_field == TYPE_DIAG || type_field == TYPE_ROUTING_ACTIVATION_REQ,
    ensures
        ({
            let frame = if type_field == TYPE_DIAG {
                spec_diag_frame(cfg, payload)
            } else {
                spec_activation_request_frame(cfg, payload)
            };
            &&& frame[0] == cfg.version
            &&& frame[1] == cfg.inverse_version
            &&& frame.subrange(2, 4) =~= spec_u16_be(type_field)
            &&& frame.subrange(4, 8) =~= spec_u32_be((frame.len() - 8) as u32)
            &&& spec_frame_declared_len(frame) == frame.len() - 8
        }),
{
    let frame = if type_field == TYPE_DIAG {
        spec_diag_frame(cfg, payload)
    } else {
        spec_activation_request_frame(cfg, payload)
    };
    let length: u32 = if type_field == TYPE_DIAG {
        (4 + payload.len()) as u32
    } else {
        (2 + payload.len()) as u32
    };
    let l: int = length as int;
    assert(frame.subrange(2, 4) =~= spec_u16_be(type_field));
    assert(frame.subrange(4, 8) =~= spec_u32_be(length));
    assert(frame.len() - 8 == l);
    vstd::arithmetic::div_mod::lemma_fundamental_div_mod(l, 0x1000000);
    vstd::arithmetic::div_mod::lemma_mod_breakdown(l, 0x10000, 0x100);
    vstd::arithmetic::div_mod::lemma_mod_breakdown(l, 0x100, 0x100);
    assert(l / 0x1000000 <= 255) by (nonlinear_arith)
        requires 0 <= l <= 0xFFFFFFFF,
    ;
    assert(frame[4] == (length / 0x1000000) as u8);
    assert(spec_frame_declared_len(frame) == l);
}

} // verus!

use doip_tester::common::compare_expect_value;
use doip_tester::config::Doip;
use doip_tester::diag::{create_diag, diag_receive_step, is_pending_response,
    is_suppress_positive, DiagStep};
use doip_tester::doip::{construct_doip_header, send_doip, DoipEvent};
use doip_tester::error::TesterError;
use doip_tester::soad::{connect_precheck, init, SoadState};

fn test_config() -> Doip {
    Doip {
        version: 0x02,
        inverse_version: 0xFD,
        tester_addr: 0x0E80,
        ecu_addr: 0x1234,
        sga_addr: 0x1000,
        activation_code: 0x00,
    }
}

#[test]
fn header_layout() {
    let cfg = test_config();
    let header = construct_doip_header(&cfg, 0x8001, 6);
    assert_eq!(header, vec![0x02, 0xFD, 0x80, 0x01, 0x00, 0x00, 0x00, 0x06]);
}

#[test]
fn send_doip_rejects_unknown_type() {
    let cfg = test_config();
    assert_eq!(
        send_doip(&cfg, vec![0x01], 0x1234),
        Err(TesterError::InvalidData)
    );
}

#[test]
fn routing_activation_request_bytes() {
    // the scenario frame: version, inverse, type 0x0005, length 7,
    // tester address, activation code, four reserved bytes
    let mut diag = create_diag(test_config());
    diag.on_connected();
    let frame = diag.send_doip_routing_activation().unwrap();
    assert_eq!(
        frame,
        vec![0x02, 0xFD, 0x00, 0x05, 0x00, 0x00, 0x00, 0x07, 0x0E, 0x80, 0x00, 0x00, 0x00, 0x00,
            0x00]
    );
}

#[test]
fn activation_response_sets_routing() {
    let mut diag = create_diag(test_config());
    diag.on_connected();
    assert!(!diag.doip.routing_activated);
    let inbound = vec![0x02, 0xFD, 0x00, 0x06, 0x00, 0x00, 0x00, 0x09, 0x0E, 0x80, 0x12, 0x34,
        0x10, 0x00, 0x00, 0x00, 0x00];
    let event = diag.process_doip_chunk(&inbound).unwrap();
    assert!(matches!(event, DoipEvent::RoutingActivated));
    assert!(diag.doip.routing_activated);
}

#[test]
fn send_diag_blocked_before_activation() {
    let mut diag = create_diag(test_config());
    diag.on_connected();
    assert_eq!(
        diag.send_diag(vec![0x3E, 0x80]),
        Err(TesterError::WouldBlock)
    );
}

#[test]
fn send_diag_not_connected() {
    let diag = create_diag(test_config());
    assert_eq!(
        diag.send_diag(vec![0x3E, 0x80]),
        Err(TesterError::NotConnected)
    );
}

#[test]
fn diag_frame_bytes_after_activation() {
    let mut diag = create_diag(test_config());
    diag.on_connected();
    let inbound = vec![0x02, 0xFD, 0x00, 0x06, 0x00, 0x00, 0x00, 0x09, 0x0E, 0x80, 0x12, 0x34,
        0x10, 0x00, 0x00, 0x00, 0x00];
    diag.process_doip_chunk(&inbound).unwrap();
    let frame = diag.send_diag(vec![0x3E, 0x80]).unwrap();
    assert_eq!(
        frame,
        vec![0x02, 0xFD, 0x80, 0x01, 0x00, 0x00, 0x00, 0x06, 0x0E, 0x80, 0x12, 0x34, 0x3E, 0x80]
    );
}

#[test]
fn disconnect_clears_routing() {
    let mut diag = create_diag(test_config());
    diag.on_connected();
    let inbound = vec![0x02, 0xFD, 0x00, 0x06, 0x00, 0x00, 0x00, 0x09, 0x0E, 0x80, 0x12, 0x34,
        0x10, 0x00, 0x00, 0x00, 0x00];
    diag.process_doip_chunk(&inbound).unwrap();
    assert!(diag.doip.routing_activated);
    assert_eq!(diag.disconnect(), Ok(()));
    assert!(!diag.doip.routing_activated);
    assert!(!diag.connected);
    // a second disconnect has nothing to close
    assert_eq!(diag.disconnect(), Err(TesterError::NotConnected));
}

#[test]
fn length_mismatch_is_invalid_data() {
    let mut diag = create_diag(test_config());
    diag.on_connected();
    // declared length 7, actual 6
    let inbound = vec![0x02, 0xFD, 0x80, 0x01, 0x00, 0x00, 0x00, 0x07, 0x12, 0x34, 0x0E, 0x80,
        0x7F, 0x22];
    let r = diag.process_doip_chunk(&inbound);
    assert!(matches!(r, Err(TesterError::InvalidData)));
}

#[test]
fn short_fragment_is_invalid_data() {
    let mut diag = create_diag(test_config());
    diag.on_connected();
    let r = diag.process_doip_chunk(&vec![0x02, 0xFD, 0x00]);
    assert!(matches!(r, Err(TesterError::InvalidData)));
}

#[test]
fn version_mismatch_is_dropped() {
    let mut diag = create_diag(test_config());
    diag.on_connected();
    let inbound = vec![0x03, 0xFC, 0x00, 0x06, 0x00, 0x00, 0x00, 0x00];
    let event = diag.process_doip_chunk(&inbound).unwrap();
    assert!(matches!(event, DoipEvent::Ignored));
    assert!(!diag.doip.routing_activated);
}

#[test]
fn address_mismatch_is_dropped() {
    let mut diag = create_diag(test_config());
    diag.on_connected();
    // source address 0x0234 does not cover the ECU mask 0x1234
    let inbound = vec![0x02, 0xFD, 0x80, 0x01, 0x00, 0x00, 0x00, 0x05, 0x02, 0x34, 0x0E, 0x80,
        0x50];
    let event = diag.process_doip_chunk(&inbound).unwrap();
    assert!(matches!(event, DoipEvent::Ignored));
}

#[test]
fn diag_ack_is_dropped() {
    let mut diag = create_diag(test_config());
    diag.on_connected();
    let inbound = vec![0x02, 0xFD, 0x80, 0x02, 0x00, 0x00, 0x00, 0x01, 0x00];
    let event = diag.process_doip_chunk(&inbound).unwrap();
    assert!(matches!(event, DoipEvent::Ignored));
}

#[test]
fn pending_then_final_response() {
    let mut diag = create_diag(test_config());
    diag.on_connected();
    let pending = vec![0x02, 0xFD, 0x80, 0x01, 0x00, 0x00, 0x00, 0x07, 0x12, 0x34, 0x0E, 0x80,
        0x7F, 0x22, 0x78];
    let event = diag.process_doip_chunk(&pending).unwrap();
    match event {
        DoipEvent::UdsPayload(ref p) => assert_eq!(p, &vec![0x7F, 0x22, 0x78]),
        _ => panic!("expected a UDS payload"),
    }
    assert!(matches!(diag_receive_step(event), DiagStep::KeepWaiting));

    let final_frame = vec![0x02, 0xFD, 0x80, 0x01, 0x00, 0x00, 0x00, 0x08, 0x12, 0x34, 0x0E,
        0x80, 0x62, 0xF1, 0x86, 0x01];
    let event = diag.process_doip_chunk(&final_frame).unwrap();
    match diag_receive_step(event) {
        DiagStep::Deliver(data) => {
            assert_eq!(data, vec![0x62, 0xF1, 0x86, 0x01]);
            assert!(compare_expect_value("62f186*", data));
        },
        DiagStep::KeepWaiting => panic!("final response must be delivered"),
    }
}

#[test]
fn other_negative_response_is_delivered() {
    // any NRC other than 0x78 ends the wait
    let reply = vec![0x7F, 0x22, 0x31];
    assert!(!is_pending_response(&reply));
    assert!(matches!(
        diag_receive_step(DoipEvent::UdsPayload(reply)),
        DiagStep::Deliver(_)
    ));
    assert!(is_pending_response(&vec![0x7F, 0x22, 0x78]));
}

#[test]
fn suppress_positive_bit() {
    assert!(is_suppress_positive(&vec![0x3E, 0x80]));
    assert!(is_suppress_positive(&vec![0x10, 0x83]));
    assert!(!is_suppress_positive(&vec![0x3E, 0x00]));
    assert!(!is_suppress_positive(&vec![0x3E, 0x80, 0x00]));
    assert!(!is_suppress_positive(&vec![0x3E]));
}

#[test]
fn soad_connect_prechecks() {
    let mut state = SoadState::new();
    assert_eq!(
        connect_precheck(&state, "client"),
        Err(TesterError::NotInitialized)
    );
    assert_eq!(
        connect_precheck(&state, "router"),
        Err(TesterError::InvalidRole)
    );
    init(&mut state);
    assert_eq!(connect_precheck(&state, "client"), Ok(()));
    assert_eq!(connect_precheck(&state, "server"), Ok(()));
}

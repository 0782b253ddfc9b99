use doip_tester::cli::{parse_cli_input, CliParsed};
use doip_tester::config::{config_from_strings, Ethernet};
use doip_tester::diag::create_diag;
use doip_tester::error::TesterError;
use doip_tester::executor::{
    parse_action_hex, plan_item, tester_present_request, Executor, PlannedAction,
};
use doip_tester::parameters::{ActionValue, SequenceItem};

fn item(name: &str, action: ActionValue, timeout: &str) -> SequenceItem {
    SequenceItem {
        name: String::from(name),
        description: String::from("test item"),
        action,
        expect: vec![String::from("*")],
        timeout: String::from(timeout),
        fail: String::new(),
    }
}

#[test]
fn tester_present_is_suppressed_keepalive() {
    assert_eq!(tester_present_request(), vec![0x3E, 0x80]);
}

#[test]
fn action_hex_parsing() {
    assert_eq!(parse_action_hex("1001"), vec![0x10, 0x01]);
    assert_eq!(parse_action_hex("22 F1 86"), vec![0x22, 0xF1, 0x86]);
    assert_eq!(parse_action_hex("f"), vec![0x0F]);
    assert_eq!(parse_action_hex("10zz01"), vec![0x10, 0x00, 0x01]);
    assert_eq!(parse_action_hex(""), Vec::<u8>::new());
}

#[test]
fn plan_socket_actions() {
    let (a, t) = plan_item(
        &item("socket", ActionValue::One(String::from("connect")), "10s"),
        "volvo",
    )
    .unwrap();
    assert!(matches!(a, PlannedAction::Connect));
    assert_eq!(t, 10_000);

    let (a, _) = plan_item(
        &item("socket", ActionValue::One(String::from("disconnect")), "1s"),
        "volvo",
    )
    .unwrap();
    assert!(matches!(a, PlannedAction::Disconnect));

    let (a, _) = plan_item(
        &item("socket", ActionValue::One(String::from("reboot")), "1s"),
        "volvo",
    )
    .unwrap();
    assert!(matches!(a, PlannedAction::NoOp));
}

#[test]
fn plan_routing_activation() {
    let (a, t) = plan_item(
        &item("send_doip", ActionValue::One(String::from("activation")), "bad"),
        "volvo",
    )
    .unwrap();
    assert!(matches!(a, PlannedAction::RoutingActivation));
    // an unparsable duration falls back to one second
    assert_eq!(t, 1000);
}

#[test]
fn plan_send_diag_parses_requests() {
    let actions = ActionValue::Many(vec![String::from("1001"), String::from("22 F1 86")]);
    let (a, _) = plan_item(&item("send_diag", actions, "2s"), "volvo").unwrap();
    match a {
        PlannedAction::SendDiag(reqs) => {
            assert_eq!(reqs, vec![vec![0x10, 0x01], vec![0x22, 0xF1, 0x86]]);
        },
        _ => panic!("expected a diagnostic send"),
    }
}

#[test]
fn plan_send_diag_needs_a_list() {
    // a single string only earns the usage hint, not an error
    let (a, _) = plan_item(
        &item("send_diag", ActionValue::One(String::from("1001")), "2s"),
        "volvo",
    )
    .unwrap();
    assert!(matches!(a, PlannedAction::NoOp));
    assert!(matches!(
        plan_item(&item("send_diag", ActionValue::Missing, "2s"), "volvo"),
        Err(TesterError::InvalidData)
    ));
}

#[test]
fn plan_security_access() {
    let (a, _) = plan_item(
        &item("securityaccess_01", ActionValue::Many(vec![]), "2s"),
        "volvo",
    )
    .unwrap();
    assert!(matches!(a, PlannedAction::SecurityAccess(0x01)));

    let (a, _) = plan_item(
        &item("securityaccess_1f", ActionValue::Many(vec![]), "2s"),
        "volvo",
    )
    .unwrap();
    assert!(matches!(a, PlannedAction::SecurityAccess(0x1F)));

    // an unknown vendor skips the exchange
    let (a, _) = plan_item(
        &item("securityaccess_01", ActionValue::Many(vec![]), "2s"),
        "acme",
    )
    .unwrap();
    assert!(matches!(a, PlannedAction::NoOp));

    assert!(matches!(
        plan_item(
            &item("securityaccess_zz", ActionValue::Many(vec![]), "2s"),
            "volvo"
        ),
        Err(TesterError::InvalidInput)
    ));
}

#[test]
fn plan_swdl() {
    let actions = ActionValue::Many(vec![
        String::from("path:/tmp/part.vbf"),
        String::from("format:vbf"),
    ]);
    let (a, _) = plan_item(&item("swdl", actions, "30s"), "volvo").unwrap();
    match a {
        PlannedAction::Swdl(path) => assert_eq!(path, "/tmp/part.vbf"),
        _ => panic!("expected a software download"),
    }

    let actions = ActionValue::Many(vec![
        String::from("path:/tmp/part.bin"),
        String::from("format:srec"),
    ]);
    let (a, _) = plan_item(&item("swdl", actions, "30s"), "volvo").unwrap();
    assert!(matches!(a, PlannedAction::NoOp));

    assert!(matches!(
        plan_item(&item("swdl", ActionValue::Missing, "30s"), "volvo"),
        Err(TesterError::InvalidData)
    ));
}

#[test]
fn plan_delay_and_unknown() {
    let (a, t) = plan_item(&item("delay", ActionValue::Missing, "500ms"), "volvo").unwrap();
    assert!(matches!(a, PlannedAction::Delay));
    assert_eq!(t, 500);

    let (a, _) = plan_item(&item("mystery", ActionValue::Missing, "1s"), "volvo").unwrap();
    assert!(matches!(a, PlannedAction::NoOp));
}

#[test]
fn executor_holds_its_session() {
    let diag = create_diag(doip_tester::config::Doip {
        version: 2,
        inverse_version: 0xFD,
        tester_addr: 0x0E80,
        ecu_addr: 0x1234,
        sga_addr: 0x1000,
        activation_code: 0,
    });
    let exec = Executor::create_executor(diag);
    assert!(!exec.s_diag_obj.connected);
}

#[test]
fn cli_simple_commands() {
    match parse_cli_input("socket:connect").unwrap() {
        CliParsed::Item(it) => {
            assert_eq!(it.name, "socket");
            match it.action {
                ActionValue::One(a) => assert_eq!(a, "connect"),
                _ => panic!("expected a single action"),
            }
            assert_eq!(it.timeout, "10s");
            assert_eq!(it.expect, vec![String::from("*")]);
            assert_eq!(it.description, "item_description");
        },
        _ => panic!("expected a complete item"),
    }
}

#[test]
fn cli_send_diag_wraps_action_in_list() {
    match parse_cli_input("send_diag: 10 01 ").unwrap() {
        CliParsed::Item(it) => {
            assert_eq!(it.name, "send_diag");
            match it.action {
                ActionValue::Many(v) => assert_eq!(v, vec![String::from("1001")]),
                _ => panic!("expected an action list"),
            }
        },
        _ => panic!("expected a complete item"),
    }
}

#[test]
fn cli_json_commands_are_deferred() {
    match parse_cli_input("swdl:[\"path:/a.vbf\"]").unwrap() {
        CliParsed::NeedsJson { name, action } => {
            assert_eq!(name, "swdl");
            assert_eq!(action, "[\"path:/a.vbf\"]");
        },
        _ => panic!("a swdl action needs JSON parsing"),
    }
    assert!(matches!(
        parse_cli_input("securityaccess_01:[]").unwrap(),
        CliParsed::NeedsJson { .. }
    ));
}

#[test]
fn cli_unknown_name_has_no_action() {
    match parse_cli_input("frobnicate:now").unwrap() {
        CliParsed::Item(it) => {
            assert_eq!(it.name, "frobnicate");
            assert!(matches!(it.action, ActionValue::Missing));
        },
        _ => panic!("expected a complete item"),
    }
}

#[test]
fn cli_rejects_missing_colon() {
    assert!(matches!(
        parse_cli_input("send_diag 1001"),
        Err(TesterError::InvalidInput)
    ));
}

#[test]
fn config_built_from_hex_strings() {
    let ethernet = Ethernet {
        interface: String::from("eth0"),
        local_ipv4: None,
        local_ipv6: None,
        remote_ip: String::from("192.168.1.3"),
        remote_port: String::from("13400"),
        role: String::from("client"),
        vendor: String::from("volvo"),
    };
    let cfg = config_from_strings(
        ethernet,
        "0x02",
        "0xFD",
        "0x0E80",
        "0x1234",
        "0x1000",
        "0x00",
        "0xABC123",
        true,
        String::from("1s"),
    )
    .unwrap();
    assert_eq!(cfg.doip.version, 0x02);
    assert_eq!(cfg.doip.inverse_version, 0xFD);
    assert_eq!(cfg.doip.tester_addr, 0x0E80);
    assert_eq!(cfg.doip.ecu_addr, 0x1234);
    assert_eq!(cfg.doip.sga_addr, 0x1000);
    assert_eq!(cfg.doip.activation_code, 0x00);
    assert_eq!(cfg.parameter.vin, "ABC123");
    assert!(cfg.parameter.tester_present);
    assert_eq!(cfg.parameter.tester_present_interval, "1s");
}

#[test]
fn config_rejects_bad_hex_field() {
    let ethernet = Ethernet {
        interface: String::new(),
        local_ipv4: None,
        local_ipv6: None,
        remote_ip: String::new(),
        remote_port: String::new(),
        role: String::new(),
        vendor: String::new(),
    };
    let r = config_from_strings(
        ethernet,
        "0xZZ",
        "0xFD",
        "0x0E80",
        "0x1234",
        "0x1000",
        "0x00",
        "",
        false,
        String::new(),
    );
    assert!(matches!(r, Err(TesterError::InvalidInput)));
}

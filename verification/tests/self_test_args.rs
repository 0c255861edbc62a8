use waywallen::self_test::args_parse_panics;
use waywallen::self_test::hex::uuid_hex_panics;
use waywallen::self_test::orchestrator::{accept_step, AcceptAttempt, AcceptStep};
use waywallen::self_test::hex::{format_uuid_hex, parse_uuid_hex, UuidError};
use waywallen::self_test::orchestrator::{
    choose_device, handshake_verdict, pick_default, DeviceChoiceError, DeviceKind, DeviceMeta,
    HandshakeVerdict,
};
use waywallen::self_test::spawn::{child_args, socket_file_name, ChildSpec};
use waywallen::self_test::{run, ArgError, Flag, Role, SelfTestRun, TestArgs};
use waywallen::text::IntErrorKind;

fn argv(items: &[&str]) -> Vec<String> {
    items.iter().map(|s| s.to_string()).collect()
}

#[test]
fn uuid_roundtrip_strips_dashes() {
    let canonical = "f47ac10b-58cc-4372-a567-0e02b2c3d479";
    let bytes = parse_uuid_hex(canonical).unwrap();
    assert_eq!(format_uuid_hex(&bytes), "f47ac10b58cc4372a5670e02b2c3d479");
}

#[test]
fn parse_args_role_orchestrator_default() {
    let argv: Vec<String> = vec!["waywallen".into(), "--test".into()];
    let a = TestArgs::parse(&argv).unwrap();
    assert_eq!(a.role, Role::Orchestrator);
}

#[test]
fn parse_args_role_peer_with_uuid() {
    let argv: Vec<String> = vec![
        "waywallen".into(),
        "--test".into(),
        "--role".into(),
        "peer".into(),
        "--vk-uuid".into(),
        "f47ac10b58cc4372a5670e02b2c3d479".into(),
        "--socket".into(),
        "/tmp/x".into(),
    ];
    let a = TestArgs::parse(&argv).unwrap();
    assert_eq!(a.role, Role::Peer);
    assert!(a.vk_uuid.is_some());
    assert_eq!(a.socket.as_deref(), Some("/tmp/x"));
}

#[test]
fn uuid_bytes_are_read_high_nibble_first() {
    let bytes = parse_uuid_hex("00ff10A0000000000000000000000001").unwrap();
    assert_eq!(bytes[0], 0x00);
    assert_eq!(bytes[1], 0xff);
    assert_eq!(bytes[2], 0x10);
    assert_eq!(bytes[3], 0xa0);
    assert_eq!(bytes[15], 0x01);
}

#[test]
fn uuid_whitespace_is_ignored() {
    let a = parse_uuid_hex(" f47ac10b 58cc\t4372-a567-0e02b2c3d479\n").unwrap();
    let b = parse_uuid_hex("f47ac10b58cc4372a5670e02b2c3d479").unwrap();
    assert_eq!(a, b);
}

#[test]
fn uuid_wrong_length_reports_byte_count() {
    assert_eq!(parse_uuid_hex("abcd"), Err(UuidError::WrongLength(4)));
    assert_eq!(parse_uuid_hex(""), Err(UuidError::WrongLength(0)));
    // 'é' takes two bytes, so 31 characters make 32 bytes.
    let accented = format!("é{}", "0".repeat(30));
    assert_eq!(parse_uuid_hex(&accented), Err(UuidError::InvalidHex));
}

#[test]
fn uuid_invalid_hex_is_refused() {
    assert_eq!(parse_uuid_hex("g47ac10b58cc4372a5670e02b2c3d479"), Err(UuidError::InvalidHex));
}

#[test]
fn uuid_pair_may_carry_a_plus_sign() {
    let bytes = parse_uuid_hex("+f47ac10b58cc4372a5670e02b2c3d47").unwrap();
    assert_eq!(bytes[0], 0x0f);
    assert_eq!(bytes[1], 0x47);
}

#[test]
fn format_uuid_is_lower_case() {
    let mut b = [0u8; 16];
    b[0] = 0xAB;
    b[15] = 0x0C;
    assert_eq!(format_uuid_hex(&b), "ab00000000000000000000000000000c");
}

#[test]
fn parse_args_all_flags() {
    let a = TestArgs::parse(&argv(&[
        "exe", "--role", "display", "--slot", "+7", "--device", "3", "--skip-fanout", "--socket", "s",
    ]))
    .unwrap();
    assert_eq!(a.role, Role::Display);
    assert_eq!(a.slot, 7);
    assert_eq!(a.device_idx, Some(3));
    assert!(a.skip_fanout);
    assert_eq!(a.socket.as_deref(), Some("s"));
    assert!(a.vk_uuid.is_none());
}

#[test]
fn parse_args_empty_argv_gives_defaults() {
    let a = TestArgs::parse(&argv(&[])).unwrap();
    assert_eq!(a.role, Role::Orchestrator);
    assert_eq!(a.slot, 0);
    assert!(!a.skip_fanout);
}

#[test]
fn parse_args_errors() {
    assert!(matches!(
        TestArgs::parse(&argv(&["exe", "--role"])),
        Err(ArgError::MissingValue(Flag::Role))
    ));
    assert!(matches!(
        TestArgs::parse(&argv(&["exe", "--socket"])),
        Err(ArgError::MissingValue(Flag::Socket))
    ));
    assert!(matches!(
        TestArgs::parse(&argv(&["exe", "--vk-uuid"])),
        Err(ArgError::MissingValue(Flag::VkUuid))
    ));
    assert!(matches!(
        TestArgs::parse(&argv(&["exe", "--slot"])),
        Err(ArgError::MissingValue(Flag::Slot))
    ));
    assert!(matches!(
        TestArgs::parse(&argv(&["exe", "--device"])),
        Err(ArgError::MissingValue(Flag::Device))
    ));
    match TestArgs::parse(&argv(&["exe", "--role", "boss"])) {
        Err(ArgError::UnknownRole(s)) => assert_eq!(s, "boss"),
        _ => panic!("expected an unknown role"),
    }
    match TestArgs::parse(&argv(&["exe", "--bogus"])) {
        Err(ArgError::UnknownArg(s)) => assert_eq!(s, "--bogus"),
        _ => panic!("expected an unknown argument"),
    }
    assert!(matches!(
        TestArgs::parse(&argv(&["exe", "--vk-uuid", "xyz"])),
        Err(ArgError::BadUuid(UuidError::WrongLength(3)))
    ));
    assert!(matches!(
        TestArgs::parse(&argv(&["exe", "--slot", "4294967296"])),
        Err(ArgError::BadNumber(IntErrorKind::PosOverflow))
    ));
    assert!(matches!(
        TestArgs::parse(&argv(&["exe", "--slot", ""])),
        Err(ArgError::BadNumber(IntErrorKind::Empty))
    ));
    assert!(matches!(
        TestArgs::parse(&argv(&["exe", "--device", "-1"])),
        Err(ArgError::BadNumber(IntErrorKind::InvalidDigit))
    ));
    assert!(matches!(
        TestArgs::parse(&argv(&["exe", "--slot", "+"])),
        Err(ArgError::BadNumber(IntErrorKind::InvalidDigit))
    ));
}

#[test]
fn parse_args_last_flag_wins_and_values_are_taken_verbatim() {
    let a = TestArgs::parse(&argv(&["exe", "--role", "peer", "--role", "renderer", "--socket", "--test"])).unwrap();
    assert_eq!(a.role, Role::Renderer);
    assert_eq!(a.socket.as_deref(), Some("--test"));
}

#[test]
fn slot_accepts_u32_max() {
    let a = TestArgs::parse(&argv(&["exe", "--slot", "4294967295"])).unwrap();
    assert_eq!(a.slot, u32::MAX);
}

#[test]
fn run_selects_entry_point_of_role() {
    match run(argv(&["exe", "--test", "--role", "renderer"])).unwrap() {
        SelfTestRun::Renderer(a) => assert_eq!(a.role, Role::Renderer),
        _ => panic!("expected the renderer entry point"),
    }
    assert!(matches!(run(argv(&["exe"])).unwrap(), SelfTestRun::Orchestrator(_)));
    assert!(matches!(run(argv(&["exe", "--role", "display"])).unwrap(), SelfTestRun::Display(_)));
    assert!(matches!(run(argv(&["exe", "--role", "peer"])).unwrap(), SelfTestRun::Peer(_)));
    assert!(run(argv(&["exe", "--nope"])).is_err());
}

#[test]
fn child_args_parse_back_to_spec() {
    let mut uuid = [0u8; 16];
    uuid[3] = 0x9c;
    let spec = ChildSpec { role: Role::Peer, socket: "/run/w/test-1-peer.sock".to_string(), vk_uuid: uuid, slot: 12 };
    let args = child_args(&spec);
    assert_eq!(
        args,
        argv(&[
            "--test",
            "--role",
            "peer",
            "--socket",
            "/run/w/test-1-peer.sock",
            "--vk-uuid",
            "0000009c000000000000000000000000",
            "--slot",
            "12",
        ])
    );
    let mut full = vec!["waywallen".to_string()];
    full.extend(args);
    let a = TestArgs::parse(&full).unwrap();
    assert_eq!(a.role, Role::Peer);
    assert_eq!(a.vk_uuid, Some(uuid));
    assert_eq!(a.socket.as_deref(), Some("/run/w/test-1-peer.sock"));
    assert_eq!(a.slot, 12);
    assert_eq!(a.device_idx, None);
    assert!(!a.skip_fanout);
}

#[test]
fn socket_file_name_format() {
    assert_eq!(socket_file_name(4242, "peer"), "test-4242-peer.sock");
    assert_eq!(socket_file_name(0, "display0"), "test-0-display0.sock");
}

fn dev(kind: DeviceKind) -> DeviceMeta {
    DeviceMeta { name: "gpu".to_string(), uuid: [0u8; 16], kind }
}

#[test]
fn pick_default_prefers_discrete_then_integrated() {
    let devs = vec![dev(DeviceKind::Cpu), dev(DeviceKind::IntegratedGpu), dev(DeviceKind::DiscreteGpu), dev(DeviceKind::DiscreteGpu)];
    assert_eq!(pick_default(&devs), 2);
    let devs = vec![dev(DeviceKind::Other), dev(DeviceKind::Cpu), dev(DeviceKind::VirtualGpu)];
    assert_eq!(pick_default(&devs), 2);
    let devs = vec![dev(DeviceKind::Unrecognized(77)), dev(DeviceKind::Other)];
    assert_eq!(pick_default(&devs), 1);
    let devs = vec![dev(DeviceKind::Unrecognized(77))];
    assert_eq!(pick_default(&devs), 0);
    assert_eq!(pick_default(&[]), 0);
}

#[test]
fn choose_device_checks_range() {
    let devs = vec![dev(DeviceKind::IntegratedGpu), dev(DeviceKind::DiscreteGpu)];
    assert_eq!(choose_device(None, &devs), Ok(1));
    assert_eq!(choose_device(Some(0), &devs), Ok(0));
    assert_eq!(choose_device(Some(2), &devs), Err(DeviceChoiceError::OutOfRange { index: 2, available: 2 }));
    assert_eq!(choose_device(None, &[]), Err(DeviceChoiceError::NoDevices));
}

#[test]
fn handshake_verdicts() {
    let uuid = parse_uuid_hex("f47ac10b58cc4372a5670e02b2c3d479").unwrap();
    assert_eq!(handshake_verdict(3, 3, "f47ac10b58cc4372a5670e02b2c3d479", &uuid), HandshakeVerdict::Accept);
    assert_eq!(handshake_verdict(2, 3, "f47ac10b58cc4372a5670e02b2c3d479", &uuid), HandshakeVerdict::VersionMismatch);
    assert_eq!(handshake_verdict(3, 3, "F47AC10B58CC4372A5670E02B2C3D479", &uuid), HandshakeVerdict::UuidMismatch);
}

#[test]
fn panic_checks_match_the_reader() {
    // A three-byte character at offset 0 is cut by the first pair's end.
    let cut = format!("€{}", "0".repeat(29));
    assert!(uuid_hex_panics(&cut));
    // A two-byte character starting a pair is not cut: an invalid pair.
    let whole = format!("é{}", "0".repeat(30));
    assert!(!uuid_hex_panics(&whole));
    // An earlier invalid pair stops the reading before the cut.
    let early = format!("zz0{}", "€");
    let early = format!("{}{}", early, "0".repeat(32 - 3 - 3));
    assert!(!uuid_hex_panics(&early));
    assert!(!uuid_hex_panics("f47ac10b58cc4372a5670e02b2c3d479"));
    assert!(!uuid_hex_panics("short"));
    assert!(args_parse_panics(&argv(&["exe", "--vk-uuid", &cut])));
    assert!(!args_parse_panics(&argv(&["exe", "--bogus", "--vk-uuid", &cut])));
    assert!(!args_parse_panics(&argv(&["exe", "--role", "peer", "--vk-uuid", "f47ac10b58cc4372a5670e02b2c3d479"])));
    assert!(!args_parse_panics(&argv(&["exe", "--slot", "x", "--vk-uuid", &cut])));
    assert!(args_parse_panics(&argv(&["exe", "--slot", "3", "--skip-fanout", "--vk-uuid", &cut])));
}

#[test]
fn accept_steps() {
    assert_eq!(accept_step(AcceptAttempt::Accepted, 10, 5), AcceptStep::Connected);
    assert_eq!(accept_step(AcceptAttempt::Failed, 0, 5), AcceptStep::Fail);
    assert_eq!(accept_step(AcceptAttempt::WouldBlock, 4, 5), AcceptStep::Retry);
    assert_eq!(accept_step(AcceptAttempt::WouldBlock, 5, 5), AcceptStep::TimedOut);
}

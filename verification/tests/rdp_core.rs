use remoteapp::input::{InputOperation, InputQueue, KeyCode, MouseButton, TouchpadMapper, INPUT_QUEUE_CAPACITY};
use remoteapp::model::{
    parse_endpoint, CertificatePolicy, ConnectionProfile, DesktopConfig, EndpointParseError, FrameError,
    FrameUpdate, PixelFormat, ProfileValidationError, DEFAULT_RDP_PORT,
};
use remoteapp::session::{Delay, ReconnectPolicy, SessionError};

#[test]
fn queue_coalesces_pointer_moves() {
    let mut queue = InputQueue::default();
    queue.push(InputOperation::PointerMove { x: 1, y: 2 }).unwrap();
    queue.push(InputOperation::PointerMove { x: 3, y: 4 }).unwrap();
    assert_eq!(queue.len(), 1);
    assert_eq!(queue.pop(), Some(InputOperation::PointerMove { x: 3, y: 4 }));
}

#[test]
fn touchpad_clamps_cursor_to_remote_desktop() {
    let mut mapper = TouchpadMapper::new(100, 80);
    assert_eq!(mapper.move_by(-1000, -1000), InputOperation::PointerMove { x: 0, y: 0 });
    assert_eq!(mapper.move_by(1000, 1000), InputOperation::PointerMove { x: 99, y: 79 });
}

#[test]
fn profile_validation_accepts_ipv4_and_ipv6_endpoints() {
    let mut profile = ConnectionProfile {
        host: "192.0.2.10".into(),
        username: "alice".into(),
        ..Default::default()
    };
    assert!(profile.validate().is_ok());
    assert_eq!(profile.endpoint(), "192.0.2.10:3389");

    profile.host = "2001:db8::10".into();
    assert_eq!(profile.endpoint(), "[2001:db8::10]:3389");
}

#[test]
fn endpoint_parser_accepts_custom_port() {
    assert_eq!(parse_endpoint("192.0.2.10:45988"), Ok(("192.0.2.10".into(), 45988)));
    assert_eq!(parse_endpoint(" server.example:3389 "), Ok(("server.example".into(), 3389)));
}

#[test]
fn endpoint_parser_accepts_bracketed_ipv6() {
    assert_eq!(parse_endpoint("[2001:db8::10]:3390"), Ok(("2001:db8::10".into(), 3390)));
    assert_eq!(parse_endpoint("2001:db8::10"), Ok(("2001:db8::10".into(), DEFAULT_RDP_PORT)));
}

#[test]
fn endpoint_parser_rejects_invalid_port() {
    assert_eq!(parse_endpoint("192.0.2.10:65536"), Err(EndpointParseError::InvalidPort));
    assert_eq!(parse_endpoint("192.0.2.10:0"), Err(EndpointParseError::InvalidPort));
}

#[test]
fn profile_validation_rejects_invalid_fingerprint() {
    let profile = ConnectionProfile {
        host: "server".into(),
        username: "alice".into(),
        certificate_policy: CertificatePolicy::TrustOnFirstUse {
            fingerprint: Some("not-a-fingerprint".into()),
        },
        ..Default::default()
    };
    assert_eq!(profile.validate(), Err(ProfileValidationError::InvalidCertificateFingerprint));
}

#[test]
fn frame_rejects_wrong_buffer_length() {
    let error = FrameUpdate::new(1, 2, 2, PixelFormat::Rgba8888, vec![0; 3], vec![])
        .expect_err("invalid buffer length should fail");
    assert_eq!(error, FrameError::InvalidBufferLength { expected: 16, actual: 3 });
}

#[test]
fn reconnect_delay_is_bounded() {
    let policy = ReconnectPolicy::default();
    assert_eq!(policy.delay_for(1), Delay::from_secs(1));
    assert_eq!(policy.delay_for(5), Delay::from_secs(16));
    assert_eq!(policy.delay_for(9), Delay::from_secs(30));
}

// The library's own cases.

#[test]
fn queue_keeps_key_operations_when_full() {
    let mut queue = InputQueue::new();
    let key = KeyCode::Unicode('a');
    queue.push(InputOperation::PointerMove { x: 5, y: 6 }).unwrap();
    for _ in 1..INPUT_QUEUE_CAPACITY {
        queue.push(InputOperation::KeyDown(key)).unwrap();
    }
    assert_eq!(queue.len(), INPUT_QUEUE_CAPACITY);
    // The oldest pointer move makes room for the new operation.
    queue.push(InputOperation::KeyUp(key)).unwrap();
    assert_eq!(queue.len(), INPUT_QUEUE_CAPACITY);
    assert_eq!(queue.pop(), Some(InputOperation::KeyDown(key)));
    // Full of key operations, the queue hands a new one back unchanged.
    queue.push(InputOperation::KeyDown(key)).unwrap();
    assert_eq!(queue.push(InputOperation::ButtonDown(MouseButton::Left)), Err(InputOperation::ButtonDown(MouseButton::Left)));
    assert_eq!(queue.len(), INPUT_QUEUE_CAPACITY);
}

#[test]
fn queue_does_not_merge_moves_across_other_operations() {
    let mut queue = InputQueue::new();
    assert!(queue.is_empty());
    queue.push(InputOperation::PointerMove { x: 1, y: 1 }).unwrap();
    queue.push(InputOperation::ButtonDown(MouseButton::Left)).unwrap();
    queue.push(InputOperation::PointerMove { x: 2, y: 2 }).unwrap();
    assert_eq!(queue.len(), 3);
    assert_eq!(queue.pop(), Some(InputOperation::PointerMove { x: 1, y: 1 }));
    assert_eq!(queue.pop(), Some(InputOperation::ButtonDown(MouseButton::Left)));
    assert_eq!(queue.pop(), Some(InputOperation::PointerMove { x: 2, y: 2 }));
    assert_eq!(queue.pop(), None);
}

#[test]
fn touchpad_starts_centered_and_follows_resize() {
    let mut mapper = TouchpadMapper::new(0, 80);
    assert_eq!(mapper.cursor(), (0, 40));
    mapper.update_remote_size(10, 10);
    assert_eq!(mapper.cursor(), (0, 9));
    assert_eq!(mapper.move_by(3, -2), InputOperation::PointerMove { x: 3, y: 7 });
}

#[test]
fn touchpad_gestures_produce_button_operations() {
    let mut mapper = TouchpadMapper::new(100, 100);
    assert_eq!(
        mapper.tap(),
        [InputOperation::ButtonDown(MouseButton::Left), InputOperation::ButtonUp(MouseButton::Left)]
    );
    assert_eq!(
        mapper.long_press(),
        [InputOperation::ButtonDown(MouseButton::Right), InputOperation::ButtonUp(MouseButton::Right)]
    );
    assert_eq!(mapper.end_drag(), None);
    assert_eq!(mapper.begin_drag(), InputOperation::ButtonDown(MouseButton::Left));
    assert_eq!(mapper.end_drag(), Some(InputOperation::ButtonUp(MouseButton::Left)));
    assert_eq!(mapper.end_drag(), None);
    assert_eq!(mapper.scroll(-3), InputOperation::Wheel { vertical: true, units: -3 });
}

#[test]
fn endpoint_parser_errors() {
    assert_eq!(parse_endpoint("   "), Err(EndpointParseError::MissingHost));
    assert_eq!(parse_endpoint("bad host:3389"), Err(EndpointParseError::InvalidHost));
    assert_eq!(parse_endpoint("[2001:db8::10"), Err(EndpointParseError::InvalidHost));
    assert_eq!(parse_endpoint("server:abc"), Err(EndpointParseError::InvalidPort));
    assert_eq!(parse_endpoint("server"), Ok(("server".into(), 3389)));
    assert_eq!(EndpointParseError::InvalidPort.message(), "RDP endpoint has an invalid port");
}

#[test]
fn profile_validation_errors() {
    let valid = ConnectionProfile { host: "server".into(), username: "alice".into(), ..Default::default() };
    assert_eq!(valid.validate(), Ok(()));
    let missing_host = ConnectionProfile { host: " ".into(), ..valid.clone() };
    assert_eq!(missing_host.validate(), Err(ProfileValidationError::MissingHost));
    let bad_host = ConnectionProfile { host: "a b".into(), ..valid.clone() };
    assert_eq!(bad_host.validate(), Err(ProfileValidationError::InvalidHost));
    let no_port = ConnectionProfile { port: 0, ..valid.clone() };
    assert_eq!(no_port.validate(), Err(ProfileValidationError::InvalidPort));
    let no_user = ConnectionProfile { username: "".into(), ..valid.clone() };
    assert_eq!(no_user.validate(), Err(ProfileValidationError::MissingUsername));
    let small = ConnectionProfile {
        desktop: DesktopConfig { width: 100, height: 100, scale_factor: 100 },
        ..valid.clone()
    };
    assert_eq!(small.validate(), Err(ProfileValidationError::DesktopTooSmall));
    let large = ConnectionProfile {
        desktop: DesktopConfig { width: 9000, height: 1000, scale_factor: 100 },
        ..valid.clone()
    };
    assert_eq!(large.validate(), Err(ProfileValidationError::DesktopTooLarge));
    let scale = ConnectionProfile {
        desktop: DesktopConfig { width: 1920, height: 1080, scale_factor: 20 },
        ..valid.clone()
    };
    assert_eq!(scale.validate(), Err(ProfileValidationError::InvalidScaleFactor));
    let pinned = ConnectionProfile {
        certificate_policy: CertificatePolicy::TrustOnFirstUse { fingerprint: Some("AB:".repeat(32)) },
        ..valid
    };
    assert_eq!(pinned.validate(), Ok(()));
    assert_eq!(ProfileValidationError::MissingUsername.message(), "RDP username is missing");
}

#[test]
fn frame_checks_dimensions_and_size() {
    let frame = FrameUpdate::new(7, 2, 1, PixelFormat::Rgba8888, vec![1; 8], vec![]).unwrap();
    assert_eq!(frame.sequence, 7);
    assert_eq!(frame.buffer.len(), 8);
    assert_eq!(
        FrameUpdate::new(1, 0, 5, PixelFormat::Rgba8888, vec![], vec![]).unwrap_err(),
        FrameError::InvalidDimensions
    );
    assert_eq!(
        FrameUpdate::new(1, u32::MAX, 2, PixelFormat::Rgba8888, vec![], vec![]).unwrap_err(),
        FrameError::DimensionOverflow
    );
    assert_eq!(
        FrameError::InvalidBufferLength { expected: 16, actual: 3 }.message(),
        "frame buffer length mismatch: expected 16, got 3"
    );
}

#[test]
fn reconnect_delay_doubles_until_the_cap() {
    let policy = ReconnectPolicy::default();
    assert_eq!(policy.delay_for(0), Delay::from_secs(1));
    assert_eq!(policy.delay_for(2), Delay::from_secs(2));
    assert_eq!(policy.delay_for(6), Delay::from_secs(30));
    let quick = ReconnectPolicy { max_attempts: 3, base_delay: Delay::from_millis(100), max_delay: Delay::from_secs(60) };
    assert_eq!(quick.delay_for(u32::MAX).as_nanos(), 3_200_000_000);
    assert_eq!(quick.delay_for(3).as_secs(), 0);
    assert_eq!(quick.delay_for(3).subsec_nanos(), 400_000_000);
    assert_eq!(SessionError::Backend("x".into()).message(), "RDP client failed: x");
}

#[test]
fn taps_leave_the_touchpad_as_it_was() {
    let mut mapper = TouchpadMapper::new(100, 80);
    let _ = mapper.move_by(7, -3);
    let _ = mapper.begin_drag();
    let _ = mapper.tap();
    let _ = mapper.long_press();
    assert_eq!(mapper.cursor(), (57, 37));
    assert_eq!(mapper.end_drag(), Some(InputOperation::ButtonUp(MouseButton::Left)));
    mapper.update_remote_size(10, 10);
    assert_eq!(mapper.move_by(0, 0), InputOperation::PointerMove { x: 9, y: 9 });
}

#[test]
fn endpoint_text_parses_back() {
    for (host, port) in [("server.example", 3390u16), ("2001:db8::10", 3389), ("192.0.2.10", 45988), ("a]b", 3391)] {
        let profile = ConnectionProfile { host: host.into(), port, username: "u".into(), ..Default::default() };
        assert_eq!(parse_endpoint(&profile.endpoint()), Ok((host.to_string(), port)));
    }
}

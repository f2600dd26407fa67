use remoteapp::backend::{
    certificate_decision, input_operations, monitor_bounds, output_step, rgba_from_pixels, CertificateDecision,
    MonitorRect, OutputEvent, RdpInput,
};
use remoteapp::catalog::{connect_action, endpoint_key, key_source, launch_check, Catalog, ConnectAction, Device, KeySource};
use remoteapp::control::SessionControl;
use remoteapp::digest::{fingerprint_matches, hex_sha256, hex_string};
use remoteapp::form::{form_for_profile, profile_from_form, DeviceForm};
use remoteapp::input::{InputOperation, KeyCode, MouseButton};
use remoteapp::keys::{committed_delta, key_code, shortcut_key, KEY_F1, KEY_LEFT_ARROW, KEY_RETURN};
use remoteapp::model::{ConnectionProfile, ProfileId, Secret};
use remoteapp::session::{DisconnectReason, SessionCommand, SessionError, SessionEvent};
use remoteapp::control::EventOutcome;
use remoteapp::keyboard::{KeyboardState, SpecialKeyAction};
use remoteapp::model::CertificatePolicy;
use remoteapp::session::SessionState;

fn device(remember_password: bool) -> Device {
    Device {
        profile: ConnectionProfile {
            host: "SERVER.".into(),
            username: "alice".into(),
            ..Default::default()
        },
        favorite: false,
        remember_password,
        password: Some("secret-rdp-password".into()),
        direct_touch: false,
        dynamic_resolution: true,
    }
}

#[test]
fn trust_is_scoped_to_normalized_endpoint() {
    let a = device(false).profile.clone();
    let mut b = a.clone();
    b.host = "server".into();
    assert_eq!(endpoint_key(&a), endpoint_key(&b));
    b.port += 1;
    assert_ne!(endpoint_key(&a), endpoint_key(&b));
}

#[test]
fn stale_session_cannot_clear_new_connection() {
    let mut c = SessionControl::new();
    let (first, _) = c.begin(ConnectionProfile::default(), Secret::new("a".to_string()));
    let (second, closing) = c.begin(ConnectionProfile::default(), Secret::new("b".to_string()));
    assert_eq!(closing.len(), 2);
    c.finish(first);
    assert!(!c.current(first));
    assert!(c.current(second));
    assert!(c.active);
    c.disconnect();
    c.disconnect();
    assert!(!c.current(second));
    assert!(c.credentials.is_none());
}

#[test]
fn disconnected_commands_fail() {
    assert!(SessionControl::new().send_check().is_err());
}

#[test]
fn disconnect_discards_pending_certificate_events() {
    let mut c = SessionControl::new();
    c.begin(ConnectionProfile::default(), Secret::new("private".to_string()));
    c.pending_fingerprint = Some("old".into());
    let closing = c.disconnect();
    assert!(matches!(closing.as_slice(), [SessionCommand::ReleaseAll, SessionCommand::Disconnect]));
    assert!(c.pending_fingerprint.is_none());
    assert!(c.credentials.is_none());
}

#[test]
fn only_latest_frame_survives_and_suspend_hides_it() {
    let mut c = SessionControl::new();
    c.begin(ConnectionProfile::default(), Secret::new("p".to_string()));
    c.connected = true;
    assert!(c.frame_visible());
    let commands = c.suspend(true);
    assert!(matches!(commands.as_slice(), [SessionCommand::ReleaseAll, SessionCommand::SuspendRendering]));
    assert!(!c.frame_visible());
    let commands = c.suspend(false);
    assert!(matches!(commands.as_slice(), [SessionCommand::ResumeRendering]));
    assert!(c.frame_visible());
    c.disconnect();
    assert!(!c.frame_visible());
}

#[test]
fn committed_unicode_is_not_duplicated() {
    assert_eq!(committed_delta("", "中文").len(), 4);
    assert!(committed_delta("中文", "中文").is_empty());
    assert_eq!(committed_delta("中文", "中").len(), 2);
}

// The library's own cases.

#[test]
fn certificate_confirmation_keeps_credentials_after_the_session_ends() {
    let mut c = SessionControl::new();
    let (generation, closing) = c.begin(ConnectionProfile::default(), Secret::new("pw".to_string()));
    assert!(closing.is_empty());
    c.pending_fingerprint = Some("ab".into());
    c.finish(generation);
    assert!(!c.active);
    assert!(c.credentials.is_some());
    assert_eq!(c.send_check(), Err("当前没有已连接的会话".to_string()));
    c.connected = true;
    assert_eq!(c.send_check(), Err("会话已结束".to_string()));
    assert!(c.release_inputs().is_empty());
}

#[test]
fn committed_delta_types_and_erases() {
    let keys = committed_delta("ab", "ac");
    assert_eq!(keys.len(), 4);
    assert!(matches!(keys[0], SessionCommand::KeyDown(KeyCode::Scancode { code: 0x0e, extended: false })));
    assert!(matches!(keys[1], SessionCommand::KeyUp(KeyCode::Scancode { code: 0x0e, extended: false })));
    assert!(matches!(keys[2], SessionCommand::KeyDown(KeyCode::Unicode('c'))));
    assert!(matches!(keys[3], SessionCommand::KeyUp(KeyCode::Unicode('c'))));
}

#[test]
fn key_texts_map_to_keys() {
    assert_eq!(key_code(&KEY_RETURN.to_string()), Some(KeyCode::Scancode { code: 0x1c, extended: false }));
    assert_eq!(key_code(&KEY_LEFT_ARROW.to_string()), Some(KeyCode::Scancode { code: 0x4b, extended: true }));
    assert_eq!(key_code(&KEY_F1.to_string()), Some(KeyCode::Scancode { code: 0x3b, extended: false }));
    assert_eq!(key_code("é"), Some(KeyCode::Unicode('é')));
    assert_eq!(key_code(""), None);
    assert_eq!(key_code("\u{e000}"), None);
    assert_eq!(shortcut_key("C"), Some(KeyCode::Scancode { code: 0x2e, extended: false }));
    assert_eq!(shortcut_key("1"), Some(KeyCode::Unicode('1')));
}

#[test]
fn saving_drops_passwords_that_are_not_remembered() {
    let mut catalog = Catalog::new();
    let mut remembered = device(true);
    remembered.profile.id = ProfileId::from_u128(2);
    let mut forgotten = device(false);
    forgotten.profile.id = ProfileId::from_u128(1);
    catalog.upsert(forgotten);
    catalog.upsert(remembered);
    let saved = catalog.prepare_for_save().unwrap();
    assert!(saved.devices[0].password.is_none());
    assert_eq!(saved.devices[1].password.as_deref(), Some("secret-rdp-password"));

    let mut invalid = Catalog::new();
    let mut bad = device(true);
    bad.profile.username = "  ".into();
    invalid.upsert(bad);
    assert_eq!(invalid.prepare_for_save().err(), Some("RDP username is missing".to_string()));
}

#[test]
fn removing_the_last_device_of_an_endpoint_forgets_its_trust() {
    let mut catalog = Catalog::new();
    let mut first = device(false);
    first.profile.id = ProfileId::from_u128(1);
    let mut second = device(false);
    second.profile.id = ProfileId::from_u128(2);
    second.profile.host = "server".into();
    let key = endpoint_key(&first.profile);
    assert_eq!(key, "[server]:3389");
    catalog.upsert(first);
    catalog.upsert(second);
    catalog.set_trust(key.clone(), "aa".into());
    catalog.set_trust(key.clone(), "bb".into());
    assert_eq!(catalog.trusted_fingerprint(&key), Some("bb"));
    catalog.toggle_favorite(ProfileId::from_u128(2));
    assert!(catalog.device(ProfileId::from_u128(2)).unwrap().favorite);
    catalog.remove_device(ProfileId::from_u128(1));
    assert!(catalog.trusts(&key));
    catalog.remove_device(ProfileId::from_u128(2));
    assert!(!catalog.trusts(&key));
    assert!(catalog.devices.is_empty());
}

#[test]
fn endpoint_keys_use_canonical_addresses() {
    let profile = ConnectionProfile { host: " 2001:DB8:0:0::10 ".into(), port: 3390, ..Default::default() };
    assert_eq!(endpoint_key(&profile), "[2001:db8::10]:3390");
    let profile = ConnectionProfile { host: "Example.COM..".into(), ..Default::default() };
    assert_eq!(endpoint_key(&profile), "[example.com]:3389");
}

fn form(host: &str, port: &str, username: &str) -> DeviceForm {
    DeviceForm {
        name: "".into(),
        host: host.into(),
        port: port.into(),
        username: username.into(),
        desktop_width: "1920".into(),
        desktop_height: "1080".into(),
        desktop_scale: "100".into(),
    }
}

#[test]
fn device_form_reads_endpoint_and_account() {
    let profile = profile_from_form(&form("192.0.2.10:45988", "3389", " CORP\\alice "), ProfileId::from_u128(5)).unwrap();
    assert_eq!(profile.id, ProfileId::from_u128(5));
    assert_eq!(profile.host, "192.0.2.10");
    assert_eq!(profile.port, 45988);
    assert_eq!(profile.username, "alice");
    assert_eq!(profile.domain.as_deref(), Some("CORP"));
    assert_eq!(profile.label, "192.0.2.10:45988");
    let explicit = profile_from_form(&form("server", "3390", "bob"), ProfileId::from_u128(6)).unwrap();
    assert_eq!(explicit.port, 3390);
    assert_eq!(explicit.domain, None);
    assert_eq!(profile_from_form(&form("server", "abc", "bob"), ProfileId::from_u128(7)).err(), Some("端口必须为 1–65535".to_string()));
    assert_eq!(profile_from_form(&form("", "3389", "bob"), ProfileId::from_u128(7)).err(), Some("RDP endpoint is missing".to_string()));
    assert_eq!(profile_from_form(&form("server", "3389", " "), ProfileId::from_u128(7)).err(), Some("RDP username is missing".to_string()));
}

#[test]
fn digests_are_lower_case_hex() {
    let abc = hex_sha256(b"abc");
    assert_eq!(abc, "ba7816bf8f01cfea414140de5dae2223b00361a396177a9cb410ff61f20015ad");
    assert_eq!(hex_string(&[0x00, 0xff, 0x1a]), "00ff1a");
    let mut expected = [0u8; 32];
    for (i, chunk) in abc.as_bytes().chunks(2).enumerate() {
        expected[i] = u8::from_str_radix(std::str::from_utf8(chunk).unwrap(), 16).unwrap();
    }
    assert!(fingerprint_matches(b"abc", &expected));
    assert!(!fingerprint_matches(b"abd", &expected));
}

#[test]
fn pinned_certificates_must_match() {
    let actual = hex_sha256(b"certificate");
    let pin: String = actual
        .to_uppercase()
        .as_bytes()
        .chunks(2)
        .map(|c| std::str::from_utf8(c).unwrap())
        .collect::<Vec<_>>()
        .join(":");
    assert_eq!(certificate_decision(Some(pin.as_str()), b"certificate"), CertificateDecision::Accept);
    assert_eq!(
        certificate_decision(Some(pin.as_str()), b"replacement"),
        CertificateDecision::ConfirmFingerprint(hex_sha256(b"replacement"))
    );
    assert_eq!(certificate_decision(None, b"certificate"), CertificateDecision::ConfirmFingerprint(actual));
}

#[test]
fn monitor_layouts_and_pixels() {
    let layout = [
        MonitorRect { left: 0, top: 0, right: 1920, bottom: 1080 },
        MonitorRect { left: 1920, top: -100, right: 3840, bottom: 980 },
    ];
    assert_eq!(monitor_bounds(&layout), Some((3840, 1180)));
    assert_eq!(monitor_bounds(&[]), None);
    assert_eq!(monitor_bounds(&[MonitorRect { left: 5, top: 5, right: 5, bottom: 10 }]), None);
    assert_eq!(rgba_from_pixels(&[0xAA112233, 0x00FFFFFF]), vec![0x11, 0x22, 0x33, 255, 255, 255, 255, 255]);
    assert_eq!(input_operations(&InputOperation::ButtonDown(MouseButton::Right)), vec![RdpInput::MouseButtonPressed(MouseButton::Right)]);
    assert_eq!(input_operations(&InputOperation::KeyUp(KeyCode::Unicode('x'))), vec![RdpInput::UnicodeKeyReleased('x')]);
    assert!(input_operations(&InputOperation::Disconnect).is_empty());
}

#[test]
fn protocol_outputs_become_events() {
    let mut sequence = 0;
    let (events, end) = output_step(OutputEvent::Image { pixels: vec![0x00112233; 4], width: 2, height: 2 }, &mut sequence, false);
    assert_eq!(sequence, 1);
    assert!(end.is_none());
    match &events[0] {
        SessionEvent::Frame(frame) => {
            assert_eq!(frame.sequence, 1);
            assert_eq!(frame.buffer.as_bytes()[..4], [0x11, 0x22, 0x33, 255]);
        }
        other => panic!("unexpected {other:?}"),
    }
    let (events, _) = output_step(OutputEvent::Image { pixels: vec![0; 4], width: 2, height: 2 }, &mut sequence, true);
    assert!(events.is_empty());
    assert_eq!(sequence, 1);
    let (events, end) = output_step(OutputEvent::Terminated { detail: "bye".into() }, &mut sequence, false);
    assert!(events.is_empty());
    assert_eq!(end, Some(DisconnectReason::Backend("RDP client terminated: bye".into())));
    let (events, _) = output_step(OutputEvent::Image { pixels: vec![0; 3], width: 2, height: 2 }, &mut sequence, false);
    assert!(matches!(&events[0], SessionEvent::Error(SessionError::Backend(m)) if m == "frame buffer length mismatch: expected 16, got 12"));
}

#[test]
fn held_keys_are_released_with_their_text() {
    let mut keys = KeyboardState::new();
    let (handled, commands) = keys.key_event("a", true, false, false, false, false, false);
    assert!(!handled && commands.is_empty());
    let (handled, commands) = keys.key_event("a", true, false, false, false, false, true);
    assert!(handled);
    assert!(matches!(commands.as_slice(), [SessionCommand::KeyDown(KeyCode::Unicode('a'))]));
    assert!(keys.is_pressed("a"));
    let (handled, commands) = keys.key_event("a", false, false, false, false, false, true);
    assert!(handled);
    assert!(matches!(commands.as_slice(), [SessionCommand::KeyUp(KeyCode::Unicode('a'))]));
    assert!(!keys.is_pressed("a"));
    let (handled, commands) = keys.key_event("a", false, false, false, false, false, true);
    assert!(handled && commands.is_empty());
}

#[test]
fn modifiers_are_synchronized_before_the_key() {
    let control = KeyCode::Scancode { code: 0x1d, extended: false };
    let c = KeyCode::Scancode { code: 0x2e, extended: false };
    let mut keys = KeyboardState::new();
    let (_, commands) = keys.key_event("c", true, true, false, false, false, true);
    assert_eq!(commands.len(), 2);
    assert!(matches!(commands[0], SessionCommand::KeyDown(k) if k == control));
    assert!(matches!(commands[1], SessionCommand::KeyDown(k) if k == c));
    assert!(keys.is_pressed("modifier:Control"));
    let (_, commands) = keys.key_event("c", true, false, false, false, false, true);
    assert_eq!(commands.len(), 3);
    assert!(matches!(commands[0], SessionCommand::KeyUp(k) if k == control));
    assert!(matches!(commands[1], SessionCommand::KeyUp(k) if k == c));
    assert!(matches!(commands[2], SessionCommand::KeyDown(KeyCode::Unicode('c'))));
    assert!(!keys.key_event("\u{e000}", true, false, false, false, false, true).0);
    keys.clear();
    assert!(!keys.is_pressed("c"));
}

#[test]
fn latched_modifiers_turn_typing_into_shortcuts() {
    let control = KeyCode::Scancode { code: 0x1d, extended: false };
    let mut keys = KeyboardState::new();
    assert_eq!(keys.special_key("Tab"), SpecialKeyAction::Tap(KeyCode::Scancode { code: 0x0f, extended: false }));
    assert_eq!(keys.special_key("Enter"), SpecialKeyAction::Tap(KeyCode::Scancode { code: 0x1c, extended: false }));
    assert_eq!(keys.special_key("Control"), SpecialKeyAction::Press(control));
    assert!(keys.latched_is_empty());
    keys.latch("Control", control);
    assert!(!keys.latched_is_empty());
    assert!(keys.ime_special("x", false, false, false));
    let commands = keys.committed_commands("ab", "abv");
    assert_eq!(commands.len(), 2);
    assert!(matches!(commands[0], SessionCommand::KeyDown(KeyCode::Scancode { code: 0x2f, extended: false })));
    let (_, commands) = keys.key_event("v", true, false, false, false, false, true);
    assert!(matches!(commands.as_slice(), [SessionCommand::KeyDown(KeyCode::Scancode { code: 0x2f, extended: false })]));
    assert_eq!(keys.special_key("Control"), SpecialKeyAction::Release(control));
    assert!(keys.latched_is_empty());
    assert_eq!(keys.committed_commands("ab", "abv").len(), 2);
    assert!(!keys.ime_special("x", false, false, false));
    assert!(keys.ime_special(&KEY_RETURN.to_string(), false, false, false));
}

#[test]
fn device_rows_are_filtered_and_ordered() {
    let mut catalog = Catalog::new();
    for (n, label, favorite) in [(1u128, "beta", false), (2, "Alpha", false), (3, "办公室电脑", true), (4, "alpha", false)] {
        let mut d = device(false);
        d.profile.id = ProfileId::from_u128(n);
        d.profile.label = label.into();
        d.favorite = favorite;
        catalog.upsert(d);
    }
    let names: Vec<String> = catalog.rows("", false).into_iter().map(|r| r.name).collect();
    assert_eq!(names, vec!["办公室电脑", "Alpha", "alpha", "beta"]);
    let names: Vec<String> = catalog.rows("ALPHA", false).into_iter().map(|r| r.name).collect();
    assert_eq!(names, vec!["Alpha", "alpha"]);
    let favorites = catalog.rows("", true);
    assert_eq!(favorites.len(), 1);
    assert_eq!(favorites[0].id, ProfileId::from_u128(3));
    assert_eq!(favorites[0].endpoint, "SERVER.:3389");
    assert!(catalog.rows("nobody", false).is_empty());
}

#[test]
fn session_profiles_carry_the_trusted_fingerprint() {
    let mut catalog = Catalog::new();
    let d = device(false);
    let profile = catalog.session_profile(&d);
    assert_eq!(profile.certificate_policy, CertificatePolicy::TrustOnFirstUse { fingerprint: None });
    catalog.set_trust(endpoint_key(&d.profile), "ab:cd".into());
    let profile = catalog.session_profile(&d);
    assert_eq!(profile.certificate_policy, CertificatePolicy::TrustOnFirstUse { fingerprint: Some("ab:cd".into()) });
    assert_eq!(profile.host, d.profile.host);

    let mut favorite = device(true);
    favorite.favorite = true;
    let id = favorite.profile.id;
    catalog.upsert(favorite);
    let mut edited = d.profile.clone();
    edited.id = id;
    let saved = catalog.device_for_save(edited, true, "pw", true, false);
    assert!(saved.favorite);
    assert_eq!(saved.password.as_deref(), Some("pw"));
    let unsaved = catalog.device_for_save(d.profile.clone(), false, "pw", false, true);
    assert!(!unsaved.favorite);
    assert_eq!(unsaved.password, None);
    assert_eq!(catalog.device_for_save(d.profile.clone(), true, "", false, true).password, None);
}

#[test]
fn session_events_update_the_bookkeeping() {
    let mut c = SessionControl::new();
    let (generation, _) = c.begin(ConnectionProfile::default(), Secret::new("pw".to_string()));
    assert_eq!(c.on_event(generation + 1, &SessionEvent::Connected { width: 1, height: 1 }), EventOutcome::Stale);
    assert!(!c.connected);
    assert_eq!(c.on_event(generation, &SessionEvent::StateChanged(SessionState::Connected)), EventOutcome::NowConnected);
    assert!(c.connected);
    assert_eq!(c.on_event(generation, &SessionEvent::Reconnecting { attempt: 1, maximum_attempts: 6 }), EventOutcome::Reconnecting);
    assert!(!c.connected);
    assert_eq!(
        c.on_event(generation, &SessionEvent::CertificateTrustRequired { fingerprint: "ff".into() }),
        EventOutcome::ConfirmCertificate
    );
    assert_eq!(c.pending_fingerprint.as_deref(), Some("ff"));
    assert_eq!(c.on_event(generation, &SessionEvent::ClipboardText("x".into())), EventOutcome::Unchanged);
    assert_eq!(
        c.on_event(generation, &SessionEvent::Disconnected { reason: DisconnectReason::TransportLost }),
        EventOutcome::Ended
    );
    assert!(!c.active);
    assert!(c.credentials.is_some());
}

#[test]
fn editor_shows_the_saved_profile() {
    let mut profile = ConnectionProfile { label: "Office".into(), host: "server".into(), port: 3390, username: "alice".into(), ..Default::default() };
    profile.domain = Some("CORP".into());
    let form = form_for_profile(&profile);
    assert_eq!(form.name, "Office");
    assert_eq!(form.port, "3390");
    assert_eq!(form.username, "CORP\\alice");
    assert_eq!(form.desktop_width, "1920");
    assert_eq!(form.desktop_scale, "100");
    let again = profile_from_form(&form, profile.id).unwrap();
    assert_eq!(again, profile);
}

fn apply_keys(text: &str, commands: &[SessionCommand]) -> String {
    let mut out: Vec<char> = text.chars().collect();
    for command in commands {
        match command {
            SessionCommand::KeyDown(KeyCode::Scancode { code: 0x0e, extended: false }) => {
                out.pop();
            }
            SessionCommand::KeyDown(KeyCode::Unicode(c)) => out.push(*c),
            _ => {}
        }
    }
    out.into_iter().collect()
}

#[test]
fn committed_keys_reproduce_the_committed_text() {
    for (previous, next) in [("", "中文"), ("中文", "中"), ("hello", "help me"), ("abc", ""), ("同", "同")] {
        assert_eq!(apply_keys(previous, &committed_delta(previous, next)), next);
    }
}

#[test]
fn connecting_needs_a_password() {
    assert!(matches!(connect_action(Some("pw")), ConnectAction::Connect(s) if s.expose() == "pw"));
    assert!(matches!(connect_action(Some("")), ConnectAction::Edit));
    assert!(matches!(connect_action(None), ConnectAction::Edit));
    assert_eq!(launch_check(&Secret::new(String::new())), Err("请输入连接密码".to_string()));
    assert_eq!(launch_check(&Secret::new("x".to_string())), Ok(()));
}

#[test]
fn device_data_is_never_overwritten_without_its_key() {
    assert!(matches!(key_source(true, true), KeySource::Load));
    assert!(matches!(key_source(true, false), KeySource::Load));
    assert!(matches!(key_source(false, false), KeySource::Generate));
    assert!(matches!(key_source(false, true), KeySource::Refuse(m) if m == "设备文件存在但安全密钥丢失，未覆盖原数据"));
}

use rxtt::x11::{
    Atoms, MAX_PROPERTY_UNITS, PropertyReply, X11Event, advertises, classify_property_change,
    decode_text, decode_wm_class, eq_ignore_ascii_case, nonzero, probe_warnings, property_limits,
    valid_property,
    first_value32, property_text, values32,
};

fn reply(format: u8, bytes_after: u32, size: usize) -> PropertyReply {
    PropertyReply { format, bytes_after, value: vec![b'x'; size] }
}

#[test]
fn wm_class_is_two_nul_terminated_strings() {
    assert_eq!(
        decode_wm_class(b"navigator\0Firefox\0"),
        (Some("navigator".into()), Some("Firefox".into()))
    );
}

#[test]
fn wm_class_skips_empty_pieces_and_tolerates_missing_parts() {
    assert_eq!(decode_wm_class(b"\0\0class\0"), (Some("class".into()), None));
    assert_eq!(decode_wm_class(b""), (None, None));
    assert_eq!(decode_wm_class(b"a\0b\0c"), (Some("a".into()), Some("b".into())));
}

#[test]
fn property_limits_reject_incomplete_or_wrong_format_values() {
    assert!(valid_property(reply(8, 0, 65_536), 8, MAX_PROPERTY_UNITS).is_some());
    assert!(valid_property(reply(8, 1, 65_536), 8, MAX_PROPERTY_UNITS).is_none());
    assert!(valid_property(reply(8, 0, 65_537), 8, MAX_PROPERTY_UNITS).is_none());
    assert!(valid_property(reply(32, 0, 4), 8, MAX_PROPERTY_UNITS).is_none());
    assert!(valid_property(reply(32, 0, 4), 32, 1).is_some());
    assert!(valid_property(reply(32, 4, 4), 32, 1).is_none());
    assert!(valid_property(reply(32, 0, 65_536), 32, MAX_PROPERTY_UNITS).is_some());
    let fallback = valid_property(reply(8, 4, 65_536), 8, MAX_PROPERTY_UNITS)
        .and_then(|reply| decode_text(&reply.value))
        .or_else(|| decode_text(b"fallback"));
    assert_eq!(fallback.as_deref(), Some("fallback"));
}

#[test]
fn text_properties_lose_trailing_nuls_and_invalid_bytes_are_replaced() {
    assert_eq!(decode_text(b"title\0\0"), Some("title".into()));
    assert_eq!(decode_text(b"\0\0"), None);
    assert_eq!(decode_text(b""), None);
    assert_eq!(decode_text(b"a\xffb"), Some("a\u{fffd}b".into()));
}

#[test]
fn property_types_choose_format_and_length() {
    assert_eq!(property_limits(4), (32, MAX_PROPERTY_UNITS));
    assert_eq!(property_limits(33), (32, 1));
    assert_eq!(property_limits(6), (32, 1));
    assert_eq!(property_limits(31), (8, MAX_PROPERTY_UNITS));
}

fn atoms() -> Atoms {
    Atoms {
        active_window: 300,
        supported: 301,
        supporting_wm_check: 302,
        net_wm_name: 303,
        utf8_string: 304,
        net_wm_pid: 305,
    }
}

#[test]
fn property_changes_are_classified() {
    let root = 1;
    assert_eq!(
        classify_property_change(root, &atoms(), root, 300),
        Some(X11Event::ActiveWindowChanged)
    );
    assert_eq!(
        classify_property_change(root, &atoms(), 7, 303),
        Some(X11Event::WindowTitleChanged { window_id: 7 })
    );
    assert_eq!(
        classify_property_change(root, &atoms(), 7, 39),
        Some(X11Event::WindowTitleChanged { window_id: 7 })
    );
    assert_eq!(classify_property_change(root, &atoms(), 7, 300), None);
    assert_eq!(classify_property_change(root, &atoms(), 7, 305), None);
}

#[test]
fn probe_warns_about_wayland_in_any_case_and_missing_ewmh() {
    assert!(eq_ignore_ascii_case("WayLand", "wayland"));
    assert!(!eq_ignore_ascii_case("wayland2", "wayland"));
    assert_eq!(
        probe_warnings("Wayland", false),
        vec![
            "native Wayland session detected; this tracker only sees X11/XWayland",
            "window manager does not advertise _NET_ACTIVE_WINDOW",
        ]
    );
    assert!(probe_warnings("x11", true).is_empty());
}

#[test]
fn zero_ids_mean_none_and_atom_lists_are_searched() {
    assert_eq!(nonzero(Some(0)), None);
    assert_eq!(nonzero(Some(5)), Some(5));
    assert_eq!(nonzero(None), None);
    assert!(advertises(&vec![1, 2, 3], 2));
    assert!(!advertises(&vec![], 2));
}

#[test]
fn thirty_two_bit_values_are_read_in_native_byte_order() {
    let mut bytes = Vec::new();
    bytes.extend_from_slice(&0x0102_0304u32.to_ne_bytes());
    bytes.extend_from_slice(&7u32.to_ne_bytes());
    bytes.push(9);
    let words = PropertyReply { format: 32, bytes_after: 0, value: bytes.clone() };
    assert_eq!(values32(&words), Some(vec![0x0102_0304, 7]));
    assert_eq!(first_value32(&words), Some(0x0102_0304));
    let text = PropertyReply { format: 8, bytes_after: 0, value: bytes };
    assert_eq!(values32(&text), None);
    assert_eq!(first_value32(&text), None);
    let short = PropertyReply { format: 32, bytes_after: 0, value: vec![1, 2, 3] };
    assert_eq!(values32(&short), Some(vec![]));
    assert_eq!(first_value32(&short), None);
}

#[test]
fn property_text_needs_a_reply_with_text() {
    assert_eq!(property_text(None), None);
    let empty = PropertyReply { format: 8, bytes_after: 0, value: vec![0, 0] };
    assert_eq!(property_text(Some(empty)), None);
    let title = PropertyReply { format: 8, bytes_after: 0, value: b"Editor\0".to_vec() };
    assert_eq!(property_text(Some(title)), Some("Editor".to_string()));
}

use uid_generator_rs::text::trim_white_space;
use uid_generator_rs::{
    fnv1a_32, machine_id_from_bytes, machine_id_from_env_value, machine_id_from_hostname_sources,
    machine_id_from_ipv4, parse_u64, resolve_machine_id, MachineIdError, MAX_MACHINE_ID,
};

// ── machine_id_from_env ───────────────────────────────────────────────────────

#[test]
fn env_valid_value() {
    assert_eq!(machine_id_from_env_value(Some("42")).unwrap(), 42);
}

#[test]
fn env_zero_is_valid() {
    assert_eq!(machine_id_from_env_value(Some("0")).unwrap(), 0);
}

#[test]
fn env_max_is_valid() {
    let value = MAX_MACHINE_ID.to_string();
    assert_eq!(machine_id_from_env_value(Some(&value)).unwrap(), MAX_MACHINE_ID);
}

#[test]
fn env_unset_returns_error() {
    let err = machine_id_from_env_value(None).unwrap_err();
    assert!(matches!(err, MachineIdError::EnvNotSet));
}

#[test]
fn env_out_of_range_returns_error() {
    let err = machine_id_from_env_value(Some("9999")).unwrap_err();
    assert!(
        matches!(err, MachineIdError::InvalidValue(_)),
        "expected InvalidValue, got {err:?}"
    );
}

#[test]
fn env_not_a_number_returns_error() {
    let err = machine_id_from_env_value(Some("abc")).unwrap_err();
    assert!(matches!(err, MachineIdError::InvalidValue(_)));
}

// ── machine_id_from_hostname ──────────────────────────────────────────────────

#[test]
fn hostname_result_in_valid_range() {
    let id = machine_id_from_hostname_sources(Some("build-host-17"), None, None).unwrap();
    assert!(
        id <= MAX_MACHINE_ID,
        "id {id} > MAX_MACHINE_ID {MAX_MACHINE_ID}"
    );
}

#[test]
fn hostname_is_deterministic() {
    let id1 = machine_id_from_hostname_sources(Some("build-host-17"), None, None).unwrap();
    let id2 = machine_id_from_hostname_sources(Some("build-host-17"), None, None).unwrap();
    assert_eq!(id1, id2, "hostname ID should be deterministic");
}

// ── machine_id_from_ip ────────────────────────────────────────────────────────

#[test]
fn ip_result_in_valid_range() {
    let id = machine_id_from_ipv4(Some([192, 168, 1, 10])).unwrap();
    assert!(
        id <= MAX_MACHINE_ID,
        "id {id} > MAX_MACHINE_ID {MAX_MACHINE_ID}"
    );
}

// ── resolve_machine_id ────────────────────────────────────────────────────────

#[test]
fn resolve_returns_valid_id_without_env() {
    let id = resolve_machine_id(
        machine_id_from_env_value(None),
        machine_id_from_ipv4(Some([10, 0, 0, 5])),
        machine_id_from_hostname_sources(Some("build-host-17"), None, None),
    )
    .expect("resolve_machine_id failed");
    assert!(id <= MAX_MACHINE_ID);
}

#[test]
fn resolve_env_takes_priority() {
    let id = resolve_machine_id(
        machine_id_from_env_value(Some("7")),
        machine_id_from_ipv4(Some([10, 0, 0, 5])),
        machine_id_from_hostname_sources(Some("build-host-17"), None, None),
    )
    .unwrap();
    assert_eq!(id, 7, "env-var value should take priority");
}

// ── further cases ─────────────────────────────────────────────────────────────

#[test]
fn fnv1a_known_vectors() {
    assert_eq!(fnv1a_32(b""), 0x811c_9dc5);
    assert_eq!(fnv1a_32(b"a"), 0xe40c_292c);
    assert_eq!(fnv1a_32(b"foobar"), 0xbf9c_f968);
}

#[test]
fn hashed_machine_id_is_low_ten_bits_of_hash() {
    assert_eq!(machine_id_from_bytes(b"foobar"), 0xbf9c_f968u64 & 1023);
    assert_eq!(
        machine_id_from_ipv4(Some([192, 168, 1, 10])).unwrap(),
        u64::from(fnv1a_32(&[192, 168, 1, 10])) & 1023
    );
}

#[test]
fn ipv4_missing_is_no_address() {
    assert!(matches!(
        machine_id_from_ipv4(None),
        Err(MachineIdError::NoAddress)
    ));
}

#[test]
fn hostname_sources_priority() {
    let host = machine_id_from_bytes(b"alpha");
    let computer = machine_id_from_bytes(b"beta");
    let command = machine_id_from_bytes(b"gamma");
    assert_eq!(
        machine_id_from_hostname_sources(Some("alpha"), Some("beta"), Some(&b"gamma\n"[..])).unwrap(),
        host
    );
    assert_eq!(
        machine_id_from_hostname_sources(None, Some("beta"), Some(&b"gamma\n"[..])).unwrap(),
        computer
    );
    assert_eq!(
        machine_id_from_hostname_sources(None, None, Some(&b"  gamma\r\n"[..])).unwrap(),
        command
    );
    // An empty variable is still used; an empty command output is not.
    assert_eq!(
        machine_id_from_hostname_sources(Some(""), None, None).unwrap(),
        machine_id_from_bytes(b"")
    );
    let err = machine_id_from_hostname_sources(None, None, Some(&b" \n"[..])).unwrap_err();
    assert!(matches!(err, MachineIdError::SystemError(_)));
    let err = machine_id_from_hostname_sources(None, None, None).unwrap_err();
    assert_eq!(err.to_string(), "system error: hostname not available");
    // Invalid UTF-8 in the command's output reads as U+FFFD.
    assert_eq!(
        machine_id_from_hostname_sources(None, None, Some(&b"h\xffst\n"[..])).unwrap(),
        machine_id_from_bytes("h\u{fffd}st".as_bytes())
    );
}

#[test]
fn trim_white_space_matches_str_trim() {
    for s in ["", "  ", "abc", "  abc  ", "\tab c\n", "\u{3000}x\u{2028}", "\u{85}y\u{a0}", "a\u{200b}"] {
        assert_eq!(trim_white_space(s), s.trim(), "input {s:?}");
    }
}

#[test]
fn resolve_falls_back_in_order() {
    let ip = resolve_machine_id(Err(MachineIdError::EnvNotSet), Ok(5), Ok(9)).unwrap();
    assert_eq!(ip, 5);
    let host = resolve_machine_id(
        Err(MachineIdError::EnvNotSet),
        Err(MachineIdError::NoAddress),
        Ok(9),
    )
    .unwrap();
    assert_eq!(host, 9);
    let err = resolve_machine_id(
        Err(MachineIdError::EnvNotSet),
        Err(MachineIdError::NoAddress),
        Err(MachineIdError::SystemError("down".to_string())),
    )
    .unwrap_err();
    assert!(matches!(err, MachineIdError::SystemError(ref s) if s == "down"));
}

#[test]
fn parse_u64_follows_from_str() {
    assert_eq!(parse_u64("0"), Some(0));
    assert_eq!(parse_u64("007"), Some(7));
    assert_eq!(parse_u64("+5"), Some(5));
    assert_eq!(parse_u64("18446744073709551615"), Some(u64::MAX));
    assert_eq!(parse_u64("18446744073709551616"), None);
    assert_eq!(parse_u64(""), None);
    assert_eq!(parse_u64("+"), None);
    assert_eq!(parse_u64("-1"), None);
    assert_eq!(parse_u64("12a"), None);
    assert_eq!(parse_u64(" 1"), None);
    for s in ["0", "42", "+17", "", "+", "-3", "99999999999999999999", "1_000", "٣"] {
        assert_eq!(parse_u64(s), s.parse::<u64>().ok(), "input {s:?}");
    }
}

#[test]
fn env_value_edge_cases() {
    assert_eq!(machine_id_from_env_value(Some("+1023")).unwrap(), 1023);
    let err = machine_id_from_env_value(Some("1024")).unwrap_err();
    assert!(matches!(err, MachineIdError::InvalidValue(ref v) if v == "1024"));
    let err = machine_id_from_env_value(Some("")).unwrap_err();
    assert!(matches!(err, MachineIdError::InvalidValue(ref v) if v.is_empty()));
}

#[test]
fn machine_id_error_messages() {
    assert_eq!(MachineIdError::EnvNotSet.to_string(), "UID_MACHINE_ID is not set");
    assert_eq!(
        MachineIdError::InvalidValue("abc".to_string()).to_string(),
        "invalid machine ID 'abc' (expected integer in 0–1023)"
    );
    assert_eq!(
        MachineIdError::NoAddress.to_string(),
        "no suitable non-loopback IPv4 address found"
    );
    assert_eq!(
        MachineIdError::SystemError("boom".to_string()).to_string(),
        "system error: boom"
    );
}

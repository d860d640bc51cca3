use std::collections::HashSet;
use std::str::FromStr;
use uid_generator_rs::{decode_base32_char, Ulid, UlidError, CROCKFORD, MAX_TIMESTAMP_MS};

const CROCKFORD_ALPHABET: &str = "0123456789ABCDEFGHJKMNPQRSTVWXYZ";

#[test]
fn new_ulid_string_is_26_chars() {
    let ulid = Ulid::new().unwrap();
    let s = ulid.to_string();
    assert_eq!(s.len(), 26, "expected 26 chars, got {}: {s:?}", s.len());
}

#[test]
fn new_ulid_string_uses_crockford_alphabet() {
    let ulid = Ulid::new().unwrap();
    for c in ulid.to_string().chars() {
        assert!(
            CROCKFORD_ALPHABET.contains(c),
            "invalid character {c:?} in ULID string"
        );
    }
}

#[test]
fn timestamp_roundtrip() {
    let ms = 1_700_000_000_000u64; // 2023-11-14 22:13:20 UTC
    let ulid = Ulid::with_ms(ms).unwrap();
    assert_eq!(ulid.timestamp_ms(), ms);
}

#[test]
fn string_parse_roundtrip() {
    let generated = Ulid::new().unwrap();
    let s = generated.to_string();
    let parsed = Ulid::from_str(&s).expect("ParseULID should succeed");
    assert_eq!(generated, parsed, "roundtrip failed for {s:?}");
}

#[test]
fn parse_invalid_length_returns_error() {
    let cases = ["", "TOOSHORT", "WAY-TOO-LONG-TO-BE-A-VALID-ULID-EVER"];
    for case in cases {
        let err = Ulid::from_str(case).unwrap_err();
        assert!(
            matches!(err, UlidError::InvalidLength { .. }),
            "expected InvalidLength for {case:?}, got {err:?}"
        );
    }
}

#[test]
fn lexicographic_order_matches_time_order() {
    let ms1 = 1_700_000_000_000u64;
    let ms2 = ms1 + 1;
    let u1 = Ulid::with_ms(ms1).unwrap();
    let u2 = Ulid::with_ms(ms2).unwrap();

    assert!(u1 < u2, "expected u1 < u2 (Ord), got u1 >= u2");
    assert!(
        u1.to_string() < u2.to_string(),
        "string order mismatch: {:?} >= {:?}",
        u1.to_string(),
        u2.to_string()
    );
}

#[test]
fn ulids_are_unique() {
    let mut seen = HashSet::with_capacity(1_000);
    for _ in 0..1_000 {
        let u = Ulid::new().unwrap();
        assert!(seen.insert(u), "duplicate ULID: {}", u.to_string());
    }
}

#[test]
fn overflow_timestamp_is_rejected() {
    let too_large = 1u64 << 48; // 2^48 — one more than max 48-bit value
    let err = Ulid::with_ms(too_large).unwrap_err();
    assert!(
        matches!(err, UlidError::TimestampOverflow),
        "expected TimestampOverflow, got {err:?}"
    );
}

#[test]
fn decode_base32_ocr_aliases() {
    // O/o → 0
    assert_eq!(decode_base32_char('O').unwrap(), 0);
    assert_eq!(decode_base32_char('o').unwrap(), 0);

    // I/i, L/l → 1
    assert_eq!(decode_base32_char('I').unwrap(), 1);
    assert_eq!(decode_base32_char('i').unwrap(), 1);
    assert_eq!(decode_base32_char('L').unwrap(), 1);
    assert_eq!(decode_base32_char('l').unwrap(), 1);
}

#[test]
fn decode_base32_valid_digits() {
    assert_eq!(decode_base32_char('0').unwrap(), 0);
    assert_eq!(decode_base32_char('9').unwrap(), 9);
    assert_eq!(decode_base32_char('A').unwrap(), 10);
    assert_eq!(decode_base32_char('Z').unwrap(), 31);
    assert_eq!(decode_base32_char('a').unwrap(), 10); // lowercase
    assert_eq!(decode_base32_char('z').unwrap(), 31); // lowercase
}

#[test]
fn decode_base32_invalid_chars() {
    for c in ['U', 'u', '!', ' ', '\n'] {
        assert!(
            matches!(decode_base32_char(c), Err(UlidError::InvalidChar(_))),
            "expected InvalidChar for {c:?}"
        );
    }
}

// ── further cases ─────────────────────────────────────────────────────────────

#[test]
fn alphabet_decodes_to_positions() {
    for (i, &b) in CROCKFORD.iter().enumerate() {
        assert_eq!(decode_base32_char(b as char).unwrap() as usize, i);
        assert_eq!(decode_base32_char((b as char).to_ascii_lowercase()).unwrap() as usize, i);
    }
    assert_eq!(CROCKFORD.iter().map(|&b| b as char).collect::<String>(), CROCKFORD_ALPHABET);
}

#[test]
fn from_parts_layout() {
    let random = [0xA0, 0xA1, 0xA2, 0xA3, 0xA4, 0xA5, 0xA6, 0xA7, 0xA8, 0xA9];
    let u = Ulid::from_parts(0x0102_0304_0506, random).unwrap();
    assert_eq!(u.timestamp_ms(), 0x0102_0304_0506);
    let parsed = Ulid::parse(&u.to_string()).unwrap();
    assert_eq!(parsed, u);
    assert_eq!(
        Ulid::from_parts(MAX_TIMESTAMP_MS + 1, random).unwrap_err(),
        UlidError::TimestampOverflow
    );
    assert_eq!(
        Ulid::from_parts(MAX_TIMESTAMP_MS, random).unwrap().timestamp_ms(),
        MAX_TIMESTAMP_MS
    );
}

#[test]
fn known_encodings() {
    let zero = Ulid::from_parts(0, [0; 10]).unwrap();
    assert_eq!(zero.to_string(), "00000000000000000000000000");
    let max = Ulid::from_parts(MAX_TIMESTAMP_MS, [0xFF; 10]).unwrap();
    assert_eq!(max.to_string(), "7ZZZZZZZZZZZZZZZZZZZZZZZZZ");
    let one = Ulid::from_parts(0, [0, 0, 0, 0, 0, 0, 0, 0, 0, 1]).unwrap();
    assert_eq!(one.to_string(), "00000000000000000000000001");
    let ts = Ulid::from_parts(1, [0; 10]).unwrap();
    // The timestamp's lowest bit is bit 80 of the value: 80 = 16 * 5.
    assert_eq!(ts.to_string(), "00000000010000000000000000");
}

#[test]
fn canonical_text_roundtrip() {
    let text = "01ARZ3NDEKTSV4RRFFQ69G5FAV";
    let u = Ulid::parse(text).unwrap();
    assert_eq!(u.to_string(), text);
    assert_eq!(u.timestamp_ms(), 1_469_922_850_259);
}

#[test]
fn parse_is_case_insensitive_with_aliases() {
    let upper = Ulid::parse("01ARZ3NDEKTSV4RRFFQ69G5FAV").unwrap();
    let lower = Ulid::parse("01arz3ndektsv4rrffq69g5fav").unwrap();
    assert_eq!(upper, lower);
    let aliased = Ulid::parse("OIARZ3NDEKTSV4RRFFQ69G5FAV").unwrap();
    assert_eq!(aliased, upper);
}

#[test]
fn parse_drops_bits_above_128() {
    let high = Ulid::parse("8ZZZZZZZZZZZZZZZZZZZZZZZZZ").unwrap();
    let low = Ulid::parse("0ZZZZZZZZZZZZZZZZZZZZZZZZZ").unwrap();
    assert_eq!(high, low);
    let all = Ulid::parse("ZZZZZZZZZZZZZZZZZZZZZZZZZZ").unwrap();
    assert_eq!(all.to_string(), "7ZZZZZZZZZZZZZZZZZZZZZZZZZ");
}

#[test]
fn parse_reports_first_invalid_char() {
    let err = Ulid::parse("01ARZ3NDEKTSV4RRFFQ69G5FUU").unwrap_err();
    assert_eq!(err, UlidError::InvalidChar('U'));
    let err = Ulid::parse("01ARZ3NDEKTSV4RRFF!69G5FU*").unwrap_err();
    assert_eq!(err, UlidError::InvalidChar('!'));
    // 26 bytes, but 25 characters: the two-byte character is reported.
    let err = Ulid::parse("01ARZ3NDEKTSV4RRFFQ69G5Fé").unwrap_err();
    assert_eq!(err, UlidError::InvalidChar('é'));
    let err = Ulid::parse("01ARZ3NDEKTSV4RRFFQ69G5FAVé").unwrap_err();
    assert_eq!(err, UlidError::InvalidLength { got: 28 });
}

#[test]
fn random_part_is_filled() {
    let ms = 1_700_000_000_000u64;
    let a = Ulid::with_ms(ms).unwrap();
    let b = Ulid::with_ms(ms).unwrap();
    assert_ne!(a, b, "two ULIDs in one millisecond should differ in their random part");
    assert_eq!(a.timestamp_ms(), b.timestamp_ms());
}

#[test]
fn new_uses_current_time() {
    let before = std::time::SystemTime::now()
        .duration_since(std::time::UNIX_EPOCH)
        .unwrap()
        .as_millis() as u64;
    let u = Ulid::new().unwrap();
    let after = std::time::SystemTime::now()
        .duration_since(std::time::UNIX_EPOCH)
        .unwrap()
        .as_millis() as u64;
    assert!(u.timestamp_ms() >= before && u.timestamp_ms() <= after);
}

#[test]
fn order_follows_bytes() {
    let a = Ulid::from_parts(5, [9; 10]).unwrap();
    let b = Ulid::from_parts(6, [0; 10]).unwrap();
    let c = Ulid::from_parts(6, [1, 0, 0, 0, 0, 0, 0, 0, 0, 0]).unwrap();
    assert!(a < b && b < c && a < c);
    assert_eq!(a.partial_cmp(&a), Some(std::cmp::Ordering::Equal));
    assert_eq!(c.partial_cmp(&b), Some(std::cmp::Ordering::Greater));
    assert_eq!(a.cmp(&b), std::cmp::Ordering::Less);
    assert!(a.to_string() < b.to_string() && b.to_string() < c.to_string());
}

#[test]
fn ulid_error_messages() {
    assert_eq!(
        UlidError::InvalidLength { got: 8 }.to_string(),
        "expected 26 characters, got 8"
    );
    assert_eq!(
        UlidError::InvalidChar('!').to_string(),
        "invalid Crockford Base32 character: '!'"
    );
    assert_eq!(
        UlidError::InvalidChar('\n').to_string(),
        "invalid Crockford Base32 character: '\\n'"
    );
    assert_eq!(UlidError::TimestampOverflow.to_string(), "timestamp overflows 48 bits");
    assert_eq!(
        UlidError::RandomnessError("no entropy".to_string()).to_string(),
        "random source error: no entropy"
    );
}

#[test]
fn different_parts_give_different_ulids() {
    let a = Ulid::from_parts(42, [1; 10]).unwrap();
    let b = Ulid::from_parts(42, [2; 10]).unwrap();
    let c = Ulid::from_parts(43, [1; 10]).unwrap();
    assert_ne!(a, b);
    assert_ne!(a, c);
    assert_eq!(a, Ulid::from_parts(42, [1; 10]).unwrap());
}

#[test]
fn random_draw_and_clock_reading_steps() {
    let random = [7u8; 10];
    assert_eq!(
        Ulid::from_random_draw(5, Ok(random)).unwrap(),
        Ulid::from_parts(5, random).unwrap()
    );
    assert_eq!(
        Ulid::from_random_draw(5, Err("no entropy".to_string())).unwrap_err(),
        UlidError::RandomnessError("no entropy".to_string())
    );
    assert_eq!(
        Ulid::from_random_draw(MAX_TIMESTAMP_MS + 1, Err("no entropy".to_string())).unwrap_err(),
        UlidError::TimestampOverflow
    );
    assert_eq!(
        Ulid::from_clock_reading(Err("clock broke".to_string())).unwrap_err(),
        UlidError::RandomnessError("clock broke".to_string())
    );
    assert_eq!(
        Ulid::from_clock_reading(Ok(MAX_TIMESTAMP_MS + 1)).unwrap_err(),
        UlidError::TimestampOverflow
    );
    assert_eq!(Ulid::from_clock_reading(Ok(1234)).unwrap().timestamp_ms(), 1234);
}

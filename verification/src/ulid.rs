//! ULID — Universally Unique Lexicographically Sortable Identifier.
//!
//! Raw byte layout (big-endian, 16 bytes total):
//!
//! ```text
//! bytes  0-5  :  48-bit millisecond timestamp since Unix epoch
//! bytes 6-15  :  80-bit cryptographically random data
//! ```
//!
//! String representation: 26 Crockford Base32 characters, each holding five
//! bits of the 128-bit value (the first one only three).
use crate::clock::unix_time_ms;
use crate::entropy::fill_random;
use crate::radix::{
    bytes_lt, digits_below, fold_digits, lemma_power_positive, lemma_radix_digits_of_value,
    lemma_radix_value_bound, lemma_radix_value_of_digits, power, radix_digits, radix_value,
    split_digits, two_pow_128,
};
use crate::text::{char_debug, char_debug_text, decimal_string, decimal_text};
use vstd::prelude::*;
use vstd::string::{StrSliceExecFns, StringExecFns, StringSliceAdditionalSpecFns};

verus! {

/// Crockford Base32 encoding alphabet — 32 characters, no I, L, O, U:
/// `0123456789ABCDEFGHJKMNPQRSTVWXYZ`, as ASCII codes.
pub const CROCKFORD: [u8; 32] = [
    48, 49, 50, 51, 52, 53, 54, 55, 56, 57, 65, 66, 67, 68, 69, 70, 71, 72, 74, 75, 77, 78, 80,
    81, 82, 83, 84, 86, 87, 88, 89, 90,
];

/// Errors of ULID creation and parsing.
#[derive(Debug, PartialEq, Eq)]
pub enum UlidError {
    /// A ULID string must be 26 bytes long.
    InvalidLength { got: usize },
    /// A character outside the Crockford Base32 alphabet and its aliases.
    InvalidChar(char),
    /// The timestamp does not fit in 48 bits.
    TimestampOverflow,
    /// The random source (or the clock) failed; its message.
    RandomnessError(String),
}

/// The message of a ULID error.
pub open spec fn ulid_error_text(e: UlidError) -> Seq<char> {
    match e {
        UlidError::InvalidLength { got } => "expected 26 characters, got "@ + decimal_text(
            got as nat,
        ),
        UlidError::InvalidChar(c) => "invalid Crockford Base32 character: "@ + char_debug_text(c),
        UlidError::TimestampOverflow => "timestamp overflows 48 bits"@,
        UlidError::RandomnessError(text) => "random source error: "@ + text@,
    }
}

impl UlidError {
    /// The error's message.
    pub fn to_string(&self) -> (text: String)
        ensures
            text@ == ulid_error_text(*self),
    {
        match self {
            UlidError::InvalidLength { got } => {
                let mut text = String::from_str("expected 26 characters, got ");
                text.append(decimal_string(*got as u64).as_str());
                text
            },
            UlidError::InvalidChar(c) => {
                let mut text = String::from_str("invalid Crockford Base32 character: ");
                text.append(char_debug(*c).as_str());
                text
            },
            UlidError::TimestampOverflow => String::from_str("timestamp overflows 48 bits"),
            UlidError::RandomnessError(e) => {
                let mut text = String::from_str("random source error: ");
                text.append(e.as_str());
                text
            },
        }
    }
}

/// The character that stands for the five-bit value `d`.
pub open spec fn symbol_char(d: u8) -> char {
    CROCKFORD@[d as int] as char
}

/// `c` with ASCII lowercase letters turned to uppercase.
pub open spec fn ascii_uppercase(c: char) -> char {
    if 'a' <= c && c <= 'z' {
        ((c as u32) - 32) as char
    } else {
        c
    }
}

/// The alphabet character that `c` is read as: case is ignored, `O` reads
/// as `0`, and `I` and `L` read as `1`.
pub open spec fn crockford_reading(c: char) -> char {
    let u = ascii_uppercase(c);
    if u == 'O' {
        '0'
    } else if u == 'I' || u == 'L' {
        '1'
    } else {
        u
    }
}

/// Maps a single Crockford Base32 character to its 5-bit value.
///
/// Case-insensitive. Applies Crockford's OCR-confusion substitutions:
/// `I`, `i`, `L`, `l` read as 1; `O`, `o` read as 0; `U`, `u` are errors.
pub fn decode_base32_char(c: char) -> (res: Result<u8, UlidError>)
    ensures
        res matches Ok(d) ==> d < 32 && symbol_char(d) == crockford_reading(c),
        res matches Err(e) ==> e == UlidError::InvalidChar(c) && forall|d: u8|
            d < 32 ==> symbol_char(d) != crockford_reading(c),
{
    match c {
        '0' | 'O' | 'o' => Ok(0),
        '1' | 'I' | 'i' | 'L' | 'l' => Ok(1),
        '2' => Ok(2),
        '3' => Ok(3),
        '4' => Ok(4),
        '5' => Ok(5),
        '6' => Ok(6),
        '7' => Ok(7),
        '8' => Ok(8),
        '9' => Ok(9),
        'A' | 'a' => Ok(10),
        'B' | 'b' => Ok(11),
        'C' | 'c' => Ok(12),
        'D' | 'd' => Ok(13),
        'E' | 'e' => Ok(14),
        'F' | 'f' => Ok(15),
        'G' | 'g' => Ok(16),
        'H' | 'h' => Ok(17),
        'J' | 'j' => Ok(18),
        'K' | 'k' => Ok(19),
        'M' | 'm' => Ok(20),
        'N' | 'n' => Ok(21),
        'P' | 'p' => Ok(22),
        'Q' | 'q' => Ok(23),
        'R' | 'r' => Ok(24),
        'S' | 's' => Ok(25),
        'T' | 't' => Ok(26),
        'V' | 'v' => Ok(27),
        'W' | 'w' => Ok(28),
        'X' | 'x' => Ok(29),
        'Y' | 'y' => Ok(30),
        'Z' | 'z' => Ok(31),
        _ => Err(UlidError::InvalidChar(c)),
    }
}

/// Largest timestamp a ULID holds: 2^48 − 1 milliseconds.
pub const MAX_TIMESTAMP_MS: u64 = 0xFFFF_FFFF_FFFF;

/// A 128-bit ULID stored as raw big-endian bytes.
#[derive(Clone, Copy, PartialEq, Eq, Hash, Ord, Debug)]
pub struct Ulid(pub(crate) [u8; 16]);

impl View for Ulid {
    type V = Seq<u8>;

    closed spec fn view(&self) -> Seq<u8> {
        self.0@
    }
}

/// A ULID's view is its bytes.
pub(crate) proof fn lemma_view_is_bytes(u: &Ulid)
    ensures
        u@ == u.0@,
{
}

/// The timestamp held in a ULID's bytes: the first six, big-endian.
pub open spec fn ulid_timestamp(bytes: Seq<u8>) -> nat {
    radix_value(bytes.take(6), 256)
}

/// The 26 five-bit digits of a ULID's 128-bit value, most significant first
/// (the first digit holds only the top three bits).
pub open spec fn ulid_digits(bytes: Seq<u8>) -> Seq<u8> {
    radix_digits(radix_value(bytes, 256), 32, 26)
}

/// The 26-character Crockford Base32 text of a ULID.
pub open spec fn ulid_text(bytes: Seq<u8>) -> Seq<char> {
    ulid_digits(bytes).map_values(|d: u8| symbol_char(d))
}

/// The five-bit value that `c` reads as, if it reads as one.
pub open spec fn symbol_value(c: char) -> Option<u8> {
    if exists|d: u8| d < 32 && symbol_char(d) == crockford_reading(c) {
        Some(choose|d: u8| d < 32 && symbol_char(d) == crockford_reading(c))
    } else {
        None
    }
}

/// Every character of `cs` reads as a five-bit value.
pub open spec fn all_symbols(cs: Seq<char>) -> bool {
    forall|i: int| 0 <= i < cs.len() ==> #[trigger] symbol_value(cs[i]) is Some
}

/// The values of the characters of `cs`.
pub open spec fn symbol_values(cs: Seq<char>) -> Seq<u8> {
    cs.map_values(|c: char| symbol_value(c)->0)
}

/// `k` is the position of the first character of `cs` that does not read as
/// a five-bit value.
pub open spec fn first_non_symbol(cs: Seq<char>, k: int) -> bool {
    &&& 0 <= k < cs.len()
    &&& symbol_value(cs[k]) is None
    &&& forall|j: int| 0 <= j < k ==> #[trigger] symbol_value(cs[j]) is Some
}

/// The sixteen bytes of the number that a sequence of five-bit digits
/// denotes; bits above the 128th are dropped.
pub open spec fn bytes_of_digits(digits: Seq<u8>) -> Seq<u8> {
    radix_digits(radix_value(digits, 32), 256, 16)
}

/// The alphabet is strictly increasing and uppercase ASCII.
pub proof fn lemma_alphabet()
    ensures
        forall|i: int, j: int|
            0 <= i < j < 32 ==> #[trigger] CROCKFORD@[i] < #[trigger] CROCKFORD@[j],
        forall|i: int| 0 <= i < 32 ==> 48 <= #[trigger] CROCKFORD@[i] <= 90,
        forall|i: int|
            0 <= i < 32 ==> #[trigger] CROCKFORD@[i] != 73 && CROCKFORD@[i] != 76
                && CROCKFORD@[i] != 79,
{
}

/// A character that reads as `d` has the value `d`; one that reads as no
/// alphabet character has none.
pub proof fn lemma_symbol_value(c: char)
    ensures
        forall|d: u8|
            d < 32 && symbol_char(d) == crockford_reading(c) ==> symbol_value(c) == Some(d),
        (forall|d: u8| d < 32 ==> symbol_char(d) != crockford_reading(c)) ==> symbol_value(c)
            is None,
        symbol_value(c) matches Some(d) ==> d < 32 && symbol_char(d) == crockford_reading(c),
{
    lemma_alphabet();
    if exists|d: u8| d < 32 && symbol_char(d) == crockford_reading(c) {
        let e = choose|d: u8| d < 32 && symbol_char(d) == crockford_reading(c);
        assert forall|d: u8| d < 32 && symbol_char(d) == crockford_reading(c) implies d == e by {
            if d < e {
                assert(CROCKFORD@[d as int] < CROCKFORD@[e as int]);
            } else if e < d {
                assert(CROCKFORD@[e as int] < CROCKFORD@[d as int]);
            }
        }
    }
}

/// Each alphabet character reads as itself, so its value is its position.
pub proof fn lemma_symbol_char_value(d: u8)
    requires
        d < 32,
    ensures
        crockford_reading(symbol_char(d)) == symbol_char(d),
        symbol_value(symbol_char(d)) == Some(d),
{
    lemma_alphabet();
    assert(48 <= CROCKFORD@[d as int] <= 90);
    lemma_symbol_value(symbol_char(d));
}

/// `2^128` is the sixteenth power of 256, and the value of sixteen bytes is
/// below it.
pub proof fn lemma_sixteen_bytes(bytes: Seq<u8>)
    requires
        bytes.len() == 16,
    ensures
        power(256, 16) == two_pow_128(),
        radix_value(bytes, 256) < two_pow_128(),
{
    lemma_powers_of_256();
    assert(power(256, 7) == 256 * power(256, 6));
    assert(power(256, 8) == 256 * power(256, 7));
    assert(power(256, 9) == 256 * power(256, 8));
    assert(power(256, 10) == 256 * power(256, 9));
    assert(power(256, 11) == 256 * power(256, 10));
    assert(power(256, 12) == 256 * power(256, 11));
    assert(power(256, 13) == 256 * power(256, 12));
    assert(power(256, 14) == 256 * power(256, 13));
    assert(power(256, 15) == 256 * power(256, 14));
    assert(power(256, 16) == 256 * power(256, 15));
    assert(digits_below(bytes, 256));
    lemma_radix_value_bound(bytes, 256);
}

/// Lexicographic order of character sequences by code point: the first
/// difference decides, and a proper prefix comes first.
pub open spec fn text_lt(a: Seq<char>, b: Seq<char>) -> bool
    decreases a.len(),
{
    if a.len() == 0 {
        b.len() > 0
    } else if b.len() == 0 {
        false
    } else if a[0] != b[0] {
        (a[0] as u32) < (b[0] as u32)
    } else {
        text_lt(a.skip(1), b.skip(1))
    }
}

/// `2^130` is the 26th power of 32.
proof fn lemma_power_32_26()
    ensures
        power(32, 26) == two_pow_128() * 4,
{
    assert(power(32, 0) == 1);
    assert(power(32, 1) == 32 * power(32, 0));
    assert(power(32, 2) == 32 * power(32, 1));
    assert(power(32, 3) == 32 * power(32, 2));
    assert(power(32, 4) == 32 * power(32, 3));
    assert(power(32, 5) == 32 * power(32, 4));
    assert(power(32, 6) == 32 * power(32, 5));
    assert(power(32, 7) == 32 * power(32, 6));
    assert(power(32, 8) == 32 * power(32, 7));
    assert(power(32, 9) == 32 * power(32, 8));
    assert(power(32, 10) == 32 * power(32, 9));
    assert(power(32, 11) == 32 * power(32, 10));
    assert(power(32, 12) == 32 * power(32, 11));
    assert(power(32, 13) == 32 * power(32, 12));
    assert(power(32, 14) == 32 * power(32, 13));
    assert(power(32, 15) == 32 * power(32, 14));
    assert(power(32, 16) == 32 * power(32, 15));
    assert(power(32, 17) == 32 * power(32, 16));
    assert(power(32, 18) == 32 * power(32, 17));
    assert(power(32, 19) == 32 * power(32, 18));
    assert(power(32, 20) == 32 * power(32, 19));
    assert(power(32, 21) == 32 * power(32, 20));
    assert(power(32, 22) == 32 * power(32, 21));
    assert(power(32, 23) == 32 * power(32, 22));
    assert(power(32, 24) == 32 * power(32, 23));
    assert(power(32, 25) == 32 * power(32, 24));
    assert(power(32, 26) == 32 * power(32, 25));
}

/// The five-bit digits of a ULID denote its 128-bit value, and each is below 32.
proof fn lemma_ulid_digits(bytes: Seq<u8>)
    requires
        bytes.len() == 16,
    ensures
        digits_below(ulid_digits(bytes), 32),
        radix_value(ulid_digits(bytes), 32) == radix_value(bytes, 256),
{
    let v = radix_value(bytes, 256);
    let ds = ulid_digits(bytes);
    assert forall|i: int| 0 <= i < ds.len() implies #[trigger] ds[i] < 32 by {
        lemma_power_positive(32, (26 - 1 - i) as nat);
        vstd::arithmetic::div_mod::lemma_mod_pos_bound(
            (v / power(32, (26 - 1 - i) as nat)) as int,
            32,
        );
    }
    lemma_radix_value_of_digits(v, 32, 26);
    lemma_sixteen_bytes(bytes);
    lemma_power_32_26();
    vstd::arithmetic::div_mod::lemma_small_mod(v, power(32, 26));
}

/// A ULID's text is 26 ASCII characters (so also 26 bytes of UTF-8), each of
/// which reads as a symbol, and parsing it gives back the ULID's bytes.
pub proof fn lemma_text_roundtrip(bytes: Seq<u8>)
    requires
        bytes.len() == 16,
    ensures
        ulid_text(bytes).len() == 26,
        vstd::utf8::is_ascii_chars(ulid_text(bytes)),
        vstd::utf8::encode_utf8(ulid_text(bytes)).len() == 26,
        all_symbols(ulid_text(bytes)),
        symbol_values(ulid_text(bytes)) == ulid_digits(bytes),
        bytes_of_digits(symbol_values(ulid_text(bytes))) == bytes,
{
    let text = ulid_text(bytes);
    let ds = ulid_digits(bytes);
    lemma_ulid_digits(bytes);
    lemma_alphabet();
    assert forall|i: int| 0 <= i < text.len() implies #[trigger] symbol_value(text[i]) == Some(
        ds[i],
    ) by {
        lemma_symbol_char_value(ds[i]);
    }
    assert(symbol_values(text) =~= ds);
    assert forall|i: int| 0 <= i < text.len() implies '\0' <= #[trigger] text[i] <= '\u{7f}' by {
        assert(48 <= CROCKFORD@[ds[i] as int] <= 90);
    }
    vstd::utf8::is_ascii_chars_encode_utf8(text);
    assert(digits_below(bytes, 256));
    lemma_radix_digits_of_value(bytes, 256);
}

/// Parsing a canonical text (alphabet characters only, the first one at most
/// `7`) and encoding the result gives the text back.
pub proof fn lemma_canonical_text_roundtrip(text: Seq<char>)
    requires
        text.len() == 26,
        forall|i: int|
            0 <= i < 26 ==> (#[trigger] symbol_value(text[i]) matches Some(d) && symbol_char(d)
                == text[i]),
        symbol_value(text[0])->0 < 8,
    ensures
        ulid_text(bytes_of_digits(symbol_values(text))) == text,
{
    let ds = symbol_values(text);
    assert forall|i: int| 0 <= i < ds.len() implies #[trigger] ds[i] < 32 by {
        lemma_symbol_value(text[i]);
    }
    let v = radix_value(ds, 32);
    crate::radix::lemma_radix_value_front(ds, 32);
    assert(digits_below(ds.skip(1), 32));
    lemma_radix_value_bound(ds.skip(1), 32);
    lemma_power_32_26();
    assert(power(32, 26) == 32 * power(32, 25));
    let p = power(32, 25);
    let d0 = ds[0] as nat;
    let r = radix_value(ds.skip(1), 32);
    assert(d0 * p + r < 8 * p) by (nonlinear_arith)
        requires
            d0 < 8,
            r < p,
    ;
    let bytes = bytes_of_digits(ds);
    lemma_radix_value_of_digits(v, 256, 16);
    lemma_sixteen_bytes(bytes);
    vstd::arithmetic::div_mod::lemma_small_mod(v, two_pow_128());
    lemma_radix_digits_of_value(ds, 32);
    assert forall|i: int| 0 <= i < 26 implies #[trigger] ulid_text(bytes)[i] == text[i] by {
        lemma_symbol_value(text[i]);
    }
    assert(ulid_text(bytes) =~= text);
}

/// Mapping digits below 32 to their characters keeps their order.
proof fn lemma_text_order(a: Seq<u8>, b: Seq<u8>)
    requires
        a.len() == b.len(),
        digits_below(a, 32),
        digits_below(b, 32),
    ensures
        text_lt(a.map_values(|d: u8| symbol_char(d)), b.map_values(|d: u8| symbol_char(d)))
            <==> bytes_lt(a, b),
    decreases a.len(),
{
    lemma_alphabet();
    let ta = a.map_values(|d: u8| symbol_char(d));
    let tb = b.map_values(|d: u8| symbol_char(d));
    if a.len() > 0 {
        assert(digits_below(a.skip(1), 32));
        assert(digits_below(b.skip(1), 32));
        lemma_text_order(a.skip(1), b.skip(1));
        assert(ta.skip(1) =~= a.skip(1).map_values(|d: u8| symbol_char(d)));
        assert(tb.skip(1) =~= b.skip(1).map_values(|d: u8| symbol_char(d)));
        assert(a[0] < 32 && b[0] < 32);
        if a[0] < b[0] {
            assert(CROCKFORD@[a[0] as int] < CROCKFORD@[b[0] as int]);
        } else if b[0] < a[0] {
            assert(CROCKFORD@[b[0] as int] < CROCKFORD@[a[0] as int]);
        }
    }
}

/// ULIDs sort the same way as bytes and as text: one ULID's bytes come
/// before another's exactly when its text does.
pub proof fn lemma_text_order_matches_byte_order(a: Seq<u8>, b: Seq<u8>)
    requires
        a.len() == 16,
        b.len() == 16,
    ensures
        bytes_lt(a, b) <==> text_lt(ulid_text(a), ulid_text(b)),
{
    lemma_ulid_digits(a);
    lemma_ulid_digits(b);
    assert(digits_below(a, 256));
    assert(digits_below(b, 256));
    crate::radix::lemma_order_is_numeric(a, b, 256);
    crate::radix::lemma_order_is_numeric(ulid_digits(a), ulid_digits(b), 32);
    lemma_text_order(ulid_digits(a), ulid_digits(b));
}

/// A ULID with an earlier timestamp sorts before one with a later timestamp,
/// whatever their random parts: as bytes, and as text.
pub proof fn lemma_time_order(a: Seq<u8>, b: Seq<u8>)
    requires
        a.len() == 16,
        b.len() == 16,
        ulid_timestamp(a) < ulid_timestamp(b),
    ensures
        bytes_lt(a, b),
        text_lt(ulid_text(a), ulid_text(b)),
{
    assert(a =~= a.take(6) + a.skip(6));
    assert(b =~= b.take(6) + b.skip(6));
    crate::radix::lemma_radix_value_concat(a.take(6), a.skip(6), 256);
    crate::radix::lemma_radix_value_concat(b.take(6), b.skip(6), 256);
    assert(digits_below(a.skip(6), 256));
    lemma_radix_value_bound(a.skip(6), 256);
    let p = power(256, 10);
    let (ta, tb) = (ulid_timestamp(a), ulid_timestamp(b));
    let (ra, rb) = (radix_value(a.skip(6), 256), radix_value(b.skip(6), 256));
    assert(ta * p + ra < tb * p + rb) by (nonlinear_arith)
        requires
            ta < tb,
            ra < p,
    ;
    assert(digits_below(a, 256));
    assert(digits_below(b, 256));
    crate::radix::lemma_order_is_numeric(a, b, 256);
    lemma_text_order_matches_byte_order(a, b);
}

/// The powers of 256 up to the sixth.
pub proof fn lemma_powers_of_256()
    ensures
        power(256, 0) == 1,
        power(256, 1) == 0x100,
        power(256, 2) == 0x1_0000,
        power(256, 3) == 0x100_0000,
        power(256, 4) == 0x1_0000_0000,
        power(256, 5) == 0x100_0000_0000,
        power(256, 6) == 0x1_0000_0000_0000,
{
    assert(power(256, 0) == 1);
    assert(power(256, 1) == 256 * power(256, 0));
    assert(power(256, 2) == 256 * power(256, 1));
    assert(power(256, 3) == 256 * power(256, 2));
    assert(power(256, 4) == 256 * power(256, 3));
    assert(power(256, 5) == 256 * power(256, 4));
    assert(power(256, 6) == 256 * power(256, 5));
}

/// A ULID made from a timestamp and ten random bytes gives the timestamp
/// back.
pub proof fn lemma_timestamp_roundtrip(ms: nat, randomness: Seq<u8>)
    requires
        ms <= MAX_TIMESTAMP_MS,
    ensures
        ulid_timestamp(radix_digits(ms, 256, 6) + randomness) == ms,
{
    let bytes = radix_digits(ms, 256, 6) + randomness;
    assert(bytes.take(6) =~= radix_digits(ms, 256, 6));
    lemma_radix_value_of_digits(ms, 256, 6);
    lemma_powers_of_256();
}

/// ULIDs made from different timestamps, or from different random parts, are
/// different.
pub proof fn lemma_parts_determine_ulid(ms1: nat, random1: Seq<u8>, ms2: nat, random2: Seq<u8>)
    requires
        ms1 <= MAX_TIMESTAMP_MS,
        ms2 <= MAX_TIMESTAMP_MS,
        random1.len() == 10,
        random2.len() == 10,
    ensures
        radix_digits(ms1, 256, 6) + random1 == radix_digits(ms2, 256, 6) + random2 ==> ms1 == ms2
            && random1 == random2,
{
    let b1 = radix_digits(ms1, 256, 6) + random1;
    let b2 = radix_digits(ms2, 256, 6) + random2;
    if b1 == b2 {
        lemma_timestamp_roundtrip(ms1, random1);
        lemma_timestamp_roundtrip(ms2, random2);
        assert(random1 =~= b1.skip(6));
        assert(random2 =~= b2.skip(6));
    }
}

impl Ulid {
    /// Encodes the ULID as a 26-character Crockford Base32 string.
    pub fn to_string(&self) -> (text: String)
        ensures
            text@ == ulid_text(self@),
    {
        let value = fold_digits(self.0.as_slice(), 256);
        proof {
            lemma_sixteen_bytes(self@);
            vstd::arithmetic::div_mod::lemma_small_mod(
                radix_value(self@, 256),
                two_pow_128(),
            );
        }
        let digits = split_digits(value, 32, 26);
        let mut text = String::new();
        let mut i: usize = 0;
        while i < 26
            invariant
                i <= 26,
                digits@ == ulid_digits(self@),
                text@ == ulid_text(self@).take(i as int),
            decreases 26 - i,
        {
            let d = digits[i];
            text.push(CROCKFORD[d as usize] as char);
            proof {
                assert(ulid_text(self@).take(i + 1) =~= ulid_text(self@).take(i as int).push(
                    symbol_char(d),
                ));
            }
            i = i + 1;
        }
        proof {
            assert(ulid_text(self@).take(26) =~= ulid_text(self@));
        }
        text
    }

    /// Parses a 26-character Crockford Base32 string into a ULID.
    ///
    /// The length is counted in bytes. Characters are read case-insensitively
    /// with Crockford's aliases; the first one that is not in the alphabet is
    /// reported. Bits of the first character above the 128th are dropped.
    pub fn parse(s: &str) -> (res: Result<Ulid, UlidError>)
        ensures
            s.len() != 26 ==> res == Err::<Ulid, UlidError>(
                UlidError::InvalidLength { got: s.len() },
            ),
            s.len() == 26 && all_symbols(s@) ==> (res matches Ok(u) && u@
                == bytes_of_digits(symbol_values(s@))),
            s.len() == 26 && !all_symbols(s@) ==> (res matches Err(
                UlidError::InvalidChar(c),
            ) && exists|k: int| first_non_symbol(s@, k) && s@[k] == c),
    {
        let len = s.len();
        if len != 26 {
            return Err(UlidError::InvalidLength { got: len });
        }
        let n = s.unicode_len();
        let mut digits: Vec<u8> = Vec::new();
        let mut i: usize = 0;
        while i < n
            invariant
                n == s@.len(),
                s.len() == 26,
                i <= n,
                digits@.len() == i,
                forall|j: int| 0 <= j < i ==> #[trigger] symbol_value(s@[j]) == Some(digits@[j]),
            decreases n - i,
        {
            let c = s.get_char(i);
            proof {
                lemma_symbol_value(c);
            }
            match decode_base32_char(c) {
                Ok(d) => {
                    digits.push(d);
                },
                Err(e) => {
                    proof {
                        assert(first_non_symbol(s@, i as int));
                        assert(!all_symbols(s@));
                    }
                    return Err(e);
                },
            }
            i = i + 1;
        }
        proof {
            assert(all_symbols(s@));
            assert(digits@ =~= symbol_values(s@));
        }
        let value = fold_digits(digits.as_slice(), 32);
        let byte_digits = split_digits(value, 256, 16);
        let mut bytes = [0u8; 16];
        let mut k: usize = 0;
        while k < 16
            invariant
                k <= 16,
                byte_digits@.len() == 16,
                forall|j: int| 0 <= j < k ==> #[trigger] bytes@[j] == byte_digits@[j],
            decreases 16 - k,
        {
            bytes[k] = byte_digits[k];
            k = k + 1;
        }
        let u = Ulid(bytes);
        proof {
            assert(u@ =~= byte_digits@);
            lemma_sixteen_bytes(u@);
            crate::radix::lemma_radix_digits_mod(radix_value(digits@, 32), 256, 16);
        }
        Ok(u)
    }

    /// Creates a ULID for a specific millisecond timestamp (ms since
    /// UNIX_EPOCH), with a random part drawn from the operating system.
    pub fn with_ms(ms: u64) -> (res: Result<Ulid, UlidError>)
        ensures
            ms > MAX_TIMESTAMP_MS ==> res == Err::<Ulid, UlidError>(UlidError::TimestampOverflow),
            res matches Ok(u) ==> u@.take(6) == radix_digits(ms as nat, 256, 6) && ulid_timestamp(
                u@,
            ) == ms,
            ms <= MAX_TIMESTAMP_MS ==> (res matches Err(e) ==> e is RandomnessError),
    {
        if ms > MAX_TIMESTAMP_MS {
            return Err(UlidError::TimestampOverflow);
        }
        let mut randomness = [0u8; 10];
        let draw = match fill_random(&mut randomness) {
            Ok(()) => Ok(randomness),
            Err(e) => Err(e.to_string()),
        };
        Self::from_random_draw(ms, draw)
    }

    /// Creates a ULID for a timestamp (ms since UNIX_EPOCH) from a draw of the
    /// random source: its ten bytes, or its error message, reported as a
    /// [`UlidError::RandomnessError`]. A timestamp above 48 bits is reported
    /// first.
    pub fn from_random_draw(ms: u64, draw: Result<[u8; 10], String>) -> (res: Result<
        Ulid,
        UlidError,
    >)
        ensures
            ms > MAX_TIMESTAMP_MS ==> res == Err::<Ulid, UlidError>(UlidError::TimestampOverflow),
            ms <= MAX_TIMESTAMP_MS ==> match draw {
                Ok(randomness) => res matches Ok(u) && u@ == radix_digits(ms as nat, 256, 6)
                    + randomness@,
                Err(text) => res == Err::<Ulid, UlidError>(UlidError::RandomnessError(text)),
            },
            res matches Ok(u) ==> u@.take(6) == radix_digits(ms as nat, 256, 6) && ulid_timestamp(
                u@,
            ) == ms,
    {
        if ms > MAX_TIMESTAMP_MS {
            return Err(UlidError::TimestampOverflow);
        }
        match draw {
            Ok(randomness) => {
                let res = Self::from_parts(ms, randomness);
                proof {
                    if let Ok(u) = res {
                        assert(u@.take(6) =~= radix_digits(ms as nat, 256, 6));
                    }
                }
                res
            },
            Err(text) => Err(UlidError::RandomnessError(text)),
        }
    }

    /// Creates a ULID from a reading of the clock in milliseconds since the
    /// Unix epoch (or the clock's error text, reported as a
    /// [`UlidError::RandomnessError`]), with a random part drawn from the
    /// operating system.
    pub fn from_clock_reading(reading: Result<u64, String>) -> (res: Result<Ulid, UlidError>)
        ensures
            reading matches Err(text) ==> res == Err::<Ulid, UlidError>(
                UlidError::RandomnessError(text),
            ),
            reading matches Ok(ms) ==> {
                &&& ms > MAX_TIMESTAMP_MS ==> res == Err::<Ulid, UlidError>(
                    UlidError::TimestampOverflow,
                )
                &&& res matches Ok(u) ==> u@.take(6) == radix_digits(ms as nat, 256, 6)
                    && ulid_timestamp(u@) == ms
                &&& ms <= MAX_TIMESTAMP_MS ==> (res matches Err(e) ==> e is RandomnessError)
            },
    {
        match reading {
            Ok(ms) => Self::with_ms(ms),
            Err(text) => Err(UlidError::RandomnessError(text)),
        }
    }

    /// Creates a ULID using the current system time (millisecond precision).
    ///
    /// A clock error is reported as a [`UlidError::RandomnessError`] with the
    /// clock's message.
    pub fn new() -> (res: Result<Ulid, UlidError>)
        ensures
            res matches Ok(u) ==> ulid_timestamp(u@) <= MAX_TIMESTAMP_MS,
            res matches Err(e) ==> e is RandomnessError || e is TimestampOverflow,
    {
        Self::from_clock_reading(unix_time_ms())
    }

    /// Returns the embedded timestamp in milliseconds since Unix epoch.
    pub fn timestamp_ms(&self) -> (ms: u64)
        ensures
            ms == ulid_timestamp(self@),
    {
        let b = &self.0;
        let (b0, b1, b2, b3, b4, b5) = (b[0], b[1], b[2], b[3], b[4], b[5]);
        let ms = (b0 as u64) << 40u64 | (b1 as u64) << 32u64 | (b2 as u64) << 24u64 | (b3 as u64)
            << 16u64 | (b4 as u64) << 8u64 | (b5 as u64);
        proof {
            assert((b0 as u64) << 40u64 | (b1 as u64) << 32u64 | (b2 as u64) << 24u64 | (b3 as u64)
                << 16u64 | (b4 as u64) << 8u64 | (b5 as u64) == ((((b0 as u64 * 256 + b1 as u64)
                * 256 + b2 as u64) * 256 + b3 as u64) * 256 + b4 as u64) * 256 + b5 as u64)
                by (bit_vector);
            let t = self@.take(6);
            assert(t.drop_last() =~= self@.take(5));
            assert(self@.take(5).drop_last() =~= self@.take(4));
            assert(self@.take(4).drop_last() =~= self@.take(3));
            assert(self@.take(3).drop_last() =~= self@.take(2));
            assert(self@.take(2).drop_last() =~= self@.take(1));
            assert(self@.take(1).drop_last() =~= self@.take(0));
            assert(radix_value(self@.take(0), 256) == 0);
            assert(radix_value(self@.take(1), 256) == b0);
            assert(radix_value(self@.take(2), 256) == b0 * 256 + b1);
            assert(radix_value(self@.take(3), 256) == (b0 * 256 + b1) * 256 + b2);
            assert(radix_value(self@.take(4), 256) == ((b0 * 256 + b1) * 256 + b2) * 256 + b3);
            assert(radix_value(self@.take(5), 256) == (((b0 * 256 + b1) * 256 + b2) * 256 + b3)
                * 256 + b4);
        }
        ms
    }

    /// Creates a ULID from a timestamp (ms since UNIX_EPOCH) and the ten
    /// bytes of its random part.
    pub fn from_parts(ms: u64, randomness: [u8; 10]) -> (res: Result<Ulid, UlidError>)
        ensures
            ms > MAX_TIMESTAMP_MS ==> res == Err::<Ulid, UlidError>(UlidError::TimestampOverflow),
            ms <= MAX_TIMESTAMP_MS ==> (res matches Ok(u) && u@ == radix_digits(ms as nat, 256, 6)
                + randomness@ && ulid_timestamp(u@) == ms),
    {
        if ms > MAX_TIMESTAMP_MS {
            return Err(UlidError::TimestampOverflow);
        }
        let mut bytes = [0u8; 16];
        bytes[0] = #[verifier::truncate] ((ms >> 40u64) as u8);
        bytes[1] = #[verifier::truncate] ((ms >> 32u64) as u8);
        bytes[2] = #[verifier::truncate] ((ms >> 24u64) as u8);
        bytes[3] = #[verifier::truncate] ((ms >> 16u64) as u8);
        bytes[4] = #[verifier::truncate] ((ms >> 8u64) as u8);
        bytes[5] = #[verifier::truncate] (ms as u8);
        let ghost stamp = radix_digits(ms as nat, 256, 6);
        proof {
            lemma_powers_of_256();
            assert(((ms >> 40u64) as u8) as nat == (ms / 0x100_0000_0000) % 256) by (bit_vector);
            assert(((ms >> 32u64) as u8) as nat == (ms / 0x1_0000_0000) % 256) by (bit_vector);
            assert(((ms >> 24u64) as u8) as nat == (ms / 0x100_0000) % 256) by (bit_vector);
            assert(((ms >> 16u64) as u8) as nat == (ms / 0x1_0000) % 256) by (bit_vector);
            assert(((ms >> 8u64) as u8) as nat == (ms / 0x100) % 256) by (bit_vector);
            assert((ms as u8) as nat == ms % 256) by (bit_vector);
            assert(stamp[0] == bytes@[0]);
            assert(stamp[1] == bytes@[1]);
            assert(stamp[2] == bytes@[2]);
            assert(stamp[3] == bytes@[3]);
            assert(stamp[4] == bytes@[4]);
            assert(ms as nat / 1 == ms as nat);
            assert(stamp[5] == bytes@[5]);
        }
        for i in 0..10
            invariant
                forall|j: int| 0 <= j < 6 ==> #[trigger] bytes@[j] == stamp[j],
                forall|j: int| 6 <= j < 6 + i ==> #[trigger] bytes@[j] == randomness@[j - 6],
        {
            bytes[6 + i] = randomness[i];
        }
        let u = Ulid(bytes);
        proof {
            assert(u@ =~= stamp + randomness@);
            lemma_timestamp_roundtrip(ms as nat, randomness@);
        }
        Ok(u)
    }
}

impl core::str::FromStr for Ulid {
    type Err = UlidError;

    /// Parses a 26-character Crockford Base32 string: see [`Ulid::parse`].
    fn from_str(s: &str) -> (res: Result<Ulid, UlidError>)
        ensures
            s.len() != 26 ==> res == Err::<Ulid, UlidError>(
                UlidError::InvalidLength { got: s.len() },
            ),
            s.len() == 26 && all_symbols(s@) ==> (res matches Ok(u) && u@
                == bytes_of_digits(symbol_values(s@))),
            s.len() == 26 && !all_symbols(s@) ==> (res matches Err(
                UlidError::InvalidChar(c),
            ) && exists|k: int| first_non_symbol(s@, k) && s@[k] == c),
    {
        Ulid::parse(s)
    }
}

} // verus!

//! Machine ID resolution — identifies this host across three sources.
//!
//! The sources themselves (an environment variable, the primary outbound
//! IPv4 address, the hostname) are read by the caller; this module turns what
//! was read into a machine ID in `[0, MAX_MACHINE_ID]`.
use crate::snowflake::MAX_MACHINE_ID;
use crate::text::{
    decimal_string, decimal_text, trim_white_space, trimmed, utf8_lossy, utf8_lossy_text,
};
use vstd::prelude::*;
use vstd::string::{StrSliceExecFns, StringExecFns, StringSliceAdditionalSpecFns};

verus! {

/// Environment variable for explicit machine ID override.
/// Set to a decimal integer in `[0, MAX_MACHINE_ID]`, e.g. `UID_MACHINE_ID=7`.
pub const MACHINE_ID_ENV_VAR: &'static str = "UID_MACHINE_ID";

/// Errors of machine ID resolution.
#[derive(Debug)]
pub enum MachineIdError {
    /// The environment variable is not set.
    EnvNotSet,
    /// The environment variable holds no integer in `[0, MAX_MACHINE_ID]`;
    /// its value.
    InvalidValue(String),
    /// No suitable non-loopback IPv4 address was found.
    NoAddress,
    /// A system call failed; its message.
    SystemError(String),
}

/// The message of a machine ID error.
pub open spec fn machine_id_error_text(e: MachineIdError) -> Seq<char> {
    match e {
        MachineIdError::EnvNotSet => MACHINE_ID_ENV_VAR@ + " is not set"@,
        MachineIdError::InvalidValue(value) => "invalid machine ID '"@ + value@
            + "' (expected integer in 0–"@ + decimal_text(MAX_MACHINE_ID as nat) + ")"@,
        MachineIdError::NoAddress => "no suitable non-loopback IPv4 address found"@,
        MachineIdError::SystemError(text) => "system error: "@ + text@,
    }
}

impl MachineIdError {
    /// The error's message.
    pub fn to_string(&self) -> (text: String)
        ensures
            text@ == machine_id_error_text(*self),
    {
        match self {
            MachineIdError::EnvNotSet => {
                let mut text = String::from_str(MACHINE_ID_ENV_VAR);
                text.append(" is not set");
                text
            },
            MachineIdError::InvalidValue(value) => {
                let mut text = String::from_str("invalid machine ID '");
                text.append(value.as_str());
                text.append("' (expected integer in 0–");
                text.append(decimal_string(MAX_MACHINE_ID).as_str());
                text.append(")");
                text
            },
            MachineIdError::NoAddress => String::from_str(
                "no suitable non-loopback IPv4 address found",
            ),
            MachineIdError::SystemError(e) => {
                let mut text = String::from_str("system error: ");
                text.append(e.as_str());
                text
            },
        }
    }
}

// ── FNV-1a 32-bit hash ────────────────────────────────────────────────────────

/// FNV-1a over `data`: start from the offset basis 2 166 136 261; for each
/// byte, xor it in, then multiply by the prime 16 777 619 modulo 2^32.
pub open spec fn fnv1a_32_spec(data: Seq<u8>) -> u32
    decreases data.len(),
{
    if data.len() == 0 {
        2_166_136_261
    } else {
        let h = fnv1a_32_spec(data.drop_last()) ^ (data.last() as u32);
        ((h as nat * 16_777_619) % 0x1_0000_0000) as u32
    }
}

/// Each byte enters the FNV-1a hash as itself, widened to 32 bits with zero
/// bits: hashing one more byte xors that byte into the hash so far and
/// multiplies by the prime modulo 2^32, so multiplying the new hash by the
/// prime's inverse modulo 2^32 (899 433 627) and xoring the old hash out gives
/// back exactly the byte, a value below 256.
pub proof fn lemma_fnv1a_32_step(data: Seq<u8>, byte: u8)
    ensures
        fnv1a_32_spec(data.push(byte)) as int == ((fnv1a_32_spec(data) ^ (byte as u32)) as int
            * 16_777_619) % 0x1_0000_0000,
        ((fnv1a_32_spec(data.push(byte)) as int * 899_433_627) % 0x1_0000_0000) as u32
            ^ fnv1a_32_spec(data) == byte as u32,
        (((fnv1a_32_spec(data.push(byte)) as int * 899_433_627) % 0x1_0000_0000) as u32
            ^ fnv1a_32_spec(data)) < 256,
{
    assert(data.push(byte).drop_last() =~= data);
    assert(data.push(byte).last() == byte);
    let h = fnv1a_32_spec(data);
    let x: u32 = h ^ (byte as u32);
    let y: u32 = fnv1a_32_spec(data.push(byte));
    assert(y as int == (x as int * 16_777_619) % 0x1_0000_0000);
    assert(((((x as int * 16_777_619) % 0x1_0000_0000) as u32 as int * 899_433_627)
        % 0x1_0000_0000) as u32 == x) by (bit_vector);
    assert((h ^ (byte as u32)) ^ h == byte as u32) by (bit_vector);
    assert((byte as u32) < 256) by (bit_vector);
}

/// FNV-1a 32-bit non-cryptographic hash.
///
/// Public domain. See <http://www.isthe.com/chongo/tech/comp/fnv/>.
pub fn fnv1a_32(data: &[u8]) -> (hash: u32)
    ensures
        hash == fnv1a_32_spec(data@),
        data@.len() == 0 ==> hash == 2_166_136_261,
{
    let mut hash: u32 = 2_166_136_261;
    let mut i: usize = 0;
    proof {
        assert(data@.take(0) =~= Seq::<u8>::empty());
    }
    while i < data.len()
        invariant
            i <= data@.len(),
            hash == fnv1a_32_spec(data@.take(i as int)),
        decreases data@.len() - i,
    {
        let byte = data[i];
        hash = hash ^ u32::from(byte);
        hash = hash.wrapping_mul(16_777_619);
        proof {
            assert(data@.take(i + 1).drop_last() =~= data@.take(i as int));
        }
        i = i + 1;
    }
    proof {
        assert(data@.take(data@.len() as int) =~= data@);
    }
    hash
}

/// The machine ID that a hash of `data` gives: its low ten bits.
pub open spec fn hashed_machine_id(data: Seq<u8>) -> u64 {
    (fnv1a_32_spec(data) % 1024) as u64
}

/// Maps `data` to `[0, MAX_MACHINE_ID]` by its FNV-1a hash.
pub fn machine_id_from_bytes(data: &[u8]) -> (id: u64)
    ensures
        id == hashed_machine_id(data@),
        id <= MAX_MACHINE_ID,
        id == (fnv1a_32_spec(data@) & 0x3ff) as u64,
{
    let hash = fnv1a_32(data);
    let id = hash as u64 & MAX_MACHINE_ID;
    assert(hash as u64 & 1023u64 == (hash % 1024) as u64) by (bit_vector);
    assert(hash as u64 & 1023u64 == (hash & 0x3ffu32) as u64) by (bit_vector);
    id
}

// ── Decimal parsing ───────────────────────────────────────────────────────────

/// `c` is an ASCII decimal digit.
pub open spec fn is_decimal_digit(c: char) -> bool {
    '0' <= c && c <= '9'
}

/// The value of a sequence of decimal digit characters.
pub open spec fn decimal_value(ds: Seq<char>) -> nat
    decreases ds.len(),
{
    if ds.len() == 0 {
        0
    } else {
        decimal_value(ds.drop_last()) * 10 + (ds.last() as nat - 48) as nat
    }
}

/// The digits of a decimal `u64`: the text without one optional leading `+`.
pub open spec fn unsigned_digits(s: Seq<char>) -> Seq<char> {
    if s.len() > 0 && s[0] == '+' {
        s.skip(1)
    } else {
        s
    }
}

/// What `u64`'s `FromStr` accepts: an optional `+`, then one or more ASCII
/// decimal digits whose value fits in 64 bits; and the value.
pub open spec fn parsed_u64(s: Seq<char>) -> Option<nat> {
    let ds = unsigned_digits(s);
    if ds.len() > 0 && (forall|i: int| 0 <= i < ds.len() ==> #[trigger] is_decimal_digit(ds[i]))
        && decimal_value(ds) <= u64::MAX {
        Some(decimal_value(ds))
    } else {
        None
    }
}

/// The value of a digit sequence is at least that of any of its prefixes.
proof fn lemma_decimal_prefix(ds: Seq<char>, k: int)
    requires
        0 <= k <= ds.len(),
        forall|i: int| 0 <= i < ds.len() ==> #[trigger] is_decimal_digit(ds[i]),
    ensures
        decimal_value(ds.take(k)) <= decimal_value(ds),
    decreases ds.len(),
{
    if k < ds.len() {
        let init = ds.drop_last();
        assert(init.take(k) =~= ds.take(k));
        lemma_decimal_prefix(init, k);
        assert(is_decimal_digit(ds.last()));
    } else {
        assert(ds.take(k) =~= ds);
    }
}

/// Parses a decimal `u64` as `u64`'s `FromStr` does.
pub fn parse_u64(s: &str) -> (res: Option<u64>)
    ensures
        res matches Some(v) ==> parsed_u64(s@) == Some(v as nat),
        res is None ==> parsed_u64(s@) is None,
{
    let n = s.unicode_len();
    let mut start: usize = 0;
    if n > 0 && s.get_char(0) == '+' {
        start = 1;
    }
    let ghost ds = unsigned_digits(s@);
    proof {
        assert(ds =~= s@.subrange(start as int, n as int));
    }
    if start == n {
        return None;
    }
    let mut acc: u64 = 0;
    let mut i: usize = start;
    proof {
        assert(ds.take(0) =~= Seq::<char>::empty());
    }
    while i < n
        invariant
            n == s@.len(),
            start <= i <= n,
            ds == s@.subrange(start as int, n as int),
            ds == unsigned_digits(s@),
            acc == decimal_value(ds.take(i - start)),
            forall|j: int| 0 <= j < i - start ==> #[trigger] is_decimal_digit(ds[j]),
        decreases n - i,
    {
        let c = s.get_char(i);
        proof {
            assert(c == ds[i - start]);
        }
        if c < '0' || c > '9' {
            proof {
                assert(!is_decimal_digit(ds[i - start]));
            }
            return None;
        }
        let d = (c as u32 - '0' as u32) as u64;
        proof {
            assert(ds.take(i - start + 1).drop_last() =~= ds.take(i - start));
            assert(decimal_value(ds.take(i - start + 1)) == acc * 10 + d);
        }
        let next = match acc.checked_mul(10) {
            Some(m) => m.checked_add(d),
            None => None,
        };
        match next {
            Some(v) => {
                acc = v;
            },
            None => {
                proof {
                    if forall|j: int| 0 <= j < ds.len() ==> #[trigger] is_decimal_digit(ds[j]) {
                        lemma_decimal_prefix(ds, i - start + 1);
                    }
                }
                return None;
            },
        }
        i = i + 1;
    }
    proof {
        assert(ds.take(n - start) =~= ds);
    }
    Some(acc)
}

// ── Sources ───────────────────────────────────────────────────────────────────

/// The machine ID that the environment variable's value gives, as
/// [`machine_id_from_env_value`] reads it.
pub open spec fn env_machine_id(value: Seq<char>) -> Option<u64> {
    match parsed_u64(value) {
        Some(n) => if n <= MAX_MACHINE_ID {
            Some(n as u64)
        } else {
            None
        },
        None => None,
    }
}

/// The machine ID from the value of the `UID_MACHINE_ID` environment
/// variable (`None` when it is not set): a decimal integer in
/// `[0, MAX_MACHINE_ID]`.
pub fn machine_id_from_env_value(value: Option<&str>) -> (res: Result<
    u64,
    MachineIdError,
>)
    ensures
        value is None ==> res matches Err(MachineIdError::EnvNotSet),
        value matches Some(v) ==> match env_machine_id(v@) {
            Some(id) => res == Ok::<u64, MachineIdError>(id),
            None => res matches Err(MachineIdError::InvalidValue(text)) && text@ == v@,
        },
{
    match value {
        None => Err(MachineIdError::EnvNotSet),
        Some(v) => match parse_u64(v) {
            Some(n) => {
                if n > MAX_MACHINE_ID {
                    Err(MachineIdError::InvalidValue(String::from_str(v)))
                } else {
                    Ok(n)
                }
            },
            None => Err(MachineIdError::InvalidValue(String::from_str(v))),
        },
    }
}

/// The machine ID from this host's primary outbound IPv4 address (`None`
/// when it has none): the FNV-1a hash of its four octets, masked to
/// `[0, MAX_MACHINE_ID]`.
pub fn machine_id_from_ipv4(octets: Option<[u8; 4]>) -> (res: Result<
    u64,
    MachineIdError,
>)
    ensures
        octets is None ==> res matches Err(MachineIdError::NoAddress),
        octets matches Some(o) ==> res == Ok::<u64, MachineIdError>(hashed_machine_id(o@)),
{
    match octets {
        None => Err(MachineIdError::NoAddress),
        Some(o) => Ok(machine_id_from_bytes(o.as_slice())),
    }
}

/// The hostname from its sources, in priority order: the `HOSTNAME`
/// variable, the `COMPUTERNAME` variable, then the name printed by the
/// `hostname` command (see [`command_hostname`]) when it is not empty.
pub open spec fn chosen_hostname(
    hostname_var: Option<Seq<char>>,
    computername_var: Option<Seq<char>>,
    command_output: Option<Seq<char>>,
) -> Option<Seq<char>> {
    match hostname_var {
        Some(h) => Some(h),
        None => match computername_var {
            Some(c) => Some(c),
            None => match command_output {
                Some(o) => if o.len() > 0 {
                    Some(o)
                } else {
                    None
                },
                None => None,
            },
        },
    }
}

/// The view of an optional string.
pub open spec fn opt_view(s: Option<&str>) -> Option<Seq<char>> {
    match s {
        Some(t) => Some(t@),
        None => None,
    }
}

/// The hostname that the `hostname` command printed: its standard output
/// read as UTF-8 (invalid sequences replaced) and trimmed of white space.
pub open spec fn command_hostname(stdout: Option<&[u8]>) -> Option<Seq<char>> {
    match stdout {
        Some(bytes) => Some(trimmed(utf8_lossy_text(bytes@))),
        None => None,
    }
}

/// The text of the error given when no hostname is available.
pub open spec fn no_hostname_text() -> Seq<char> {
    "hostname not available"@
}

/// The machine ID from the hostname: the FNV-1a hash of the UTF-8 bytes of
/// the name that [`chosen_hostname`] picks, masked to `[0, MAX_MACHINE_ID]`.
///
/// `command_stdout` is the standard output of the `hostname` command when it
/// ran and succeeded.
pub fn machine_id_from_hostname_sources(
    hostname_var: Option<&str>,
    computername_var: Option<&str>,
    command_stdout: Option<&[u8]>,
) -> (res: Result<u64, MachineIdError>)
    ensures
        ({
            let chosen = chosen_hostname(
                opt_view(hostname_var),
                opt_view(computername_var),
                command_hostname(command_stdout),
            );
            &&& chosen is None ==> (res matches Err(MachineIdError::SystemError(text)) && text@
                == no_hostname_text())
            &&& chosen is Some ==> res == Ok::<u64, MachineIdError>(
                hashed_machine_id(vstd::utf8::encode_utf8(chosen->0)),
            )
        }),
{
    match hostname_var {
        Some(h) => Ok(machine_id_from_bytes(h.as_bytes())),
        None => match computername_var {
            Some(c) => Ok(machine_id_from_bytes(c.as_bytes())),
            None => match command_stdout {
                Some(bytes) => {
                    let printed = utf8_lossy(bytes);
                    let name = trim_white_space(printed.as_str());
                    if name.as_str().is_empty() {
                        Err(MachineIdError::SystemError(String::from_str("hostname not available")))
                    } else {
                        Ok(machine_id_from_bytes(name.as_str().as_bytes()))
                    }
                },
                None => Err(
                    MachineIdError::SystemError(String::from_str("hostname not available")),
                ),
            },
        },
    }
}

/// Returns a machine ID by taking sources in priority order:
///
/// 1. the environment variable — explicit override
/// 2. the primary IPv4 hash
/// 3. the hostname hash
///
/// Returns the first `Ok` result, or the last `Err` if all fail.
pub fn resolve_machine_id(
    from_env: Result<u64, MachineIdError>,
    from_ip: Result<u64, MachineIdError>,
    from_hostname: Result<u64, MachineIdError>,
) -> (res: Result<u64, MachineIdError>)
    ensures
        res == (if from_env is Ok {
            from_env
        } else if from_ip is Ok {
            from_ip
        } else {
            from_hostname
        }),
{
    if let Ok(id) = from_env {
        return Ok(id);
    }
    if let Ok(id) = from_ip {
        return Ok(id);
    }
    from_hostname
}

} // verus!

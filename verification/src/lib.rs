//! Unique ID generation: Snowflake-style 64-bit IDs and ULIDs (128-bit,
//! lexicographically sortable by time), with machine ID resolution.

pub mod clock;
pub mod entropy;
pub mod machine_id;
pub mod radix;
pub mod snowflake;
pub mod text;
pub mod ulid;
pub mod ulid_order;

pub use machine_id::{
    fnv1a_32, machine_id_from_bytes, machine_id_from_env_value, machine_id_from_hostname_sources,
    machine_id_from_ipv4, parse_u64, resolve_machine_id, MachineIdError, MACHINE_ID_ENV_VAR,
};
pub use snowflake::{
    decompose_id, Snowflake, SnowflakeError, DEFAULT_EPOCH_MS, MAX_MACHINE_ID, MAX_SEQUENCE,
};
pub use ulid::{decode_base32_char, Ulid, UlidError, CROCKFORD, MAX_TIMESTAMP_MS};

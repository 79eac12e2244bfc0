//! Validated value types shared across a mail-server system.
//!
//! Each type wraps a primitive string or host/port pair, enforces a
//! character-whitelist or structural invariant at construction time, and
//! rejects malformed input with a typed error. A value either is fully
//! valid or does not exist.

pub mod misc;
pub mod password;
pub mod server_addr;
pub mod username;

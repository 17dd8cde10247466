//! Verified core of a known-hash-set lookup server.
//!
//! The library holds the sorted in-memory store of 128-bit hash values,
//! the canonical hexadecimal text codec, the binary wire-protocol logic,
//! and the change-journal naming and merge rules. All network and file
//! I/O lives outside, in the runner that drives these functions.

mod codec;
mod journal;
mod pair;
mod protocol;
mod server;
mod store;

pub use codec::{
    pair_from_be_bytes, parse_text_line, render_text_lines, to_text_line, u16_be_bytes,
    u16_from_be_bytes, FormatError,
};
pub use journal::{change_file_dir, change_file_name, change_file_name_for, change_file_path};
pub use pair::HashPair;
pub use protocol::{
    error_response, process_query, query_response, update_response, ProtoCommand, ProtoError,
    ProtoResponseStatus, ProtoVersion,
};
pub use server::{
    backup_file_name, line_count_hint, Args, ConfigError, MergeOutcome, Server,
};
pub use store::{sort_pairs, HashStore};

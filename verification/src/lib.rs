//! Build-time identifier strings, parsed and rendered with verified code.
//!
//! The crate decodes the short hyphen/dot-delimited identifiers that a
//! toolchain manager and a package manager hand to build scripts: a release
//! channel (optionally a dotted version number), an optional pinned calendar
//! date, an optional platform triple, and a two-valued build profile.  Every
//! parser consumes its input exactly or reports a structured error, and
//! rendering is proved to be the textual inverse of parsing.

mod cargo;
mod date;
pub mod error;
mod info;
mod rust;
mod script;
mod text;

pub use cargo::{
    lemma_profile_exact, lemma_profile_parse_idempotent, lemma_profile_round_trip, Profile,
};
pub use date::{
    lemma_date_parse, lemma_datetime_round_trip, spec_days_in_month, spec_is_leap_year, Date,
    DateTime,
};
pub use info::{Build, BuildInfo, Cargo, Rust};
pub use rust::{
    lemma_channel_keyword_exact, lemma_channel_parse_idempotent, lemma_channel_round_trip,
    lemma_host_parse_idempotent, lemma_host_round_trip, lemma_linux_abi_longest_match,
    lemma_toolchain_parse_idempotent, lemma_toolchain_render_injective,
    lemma_toolchain_round_trip,
    lemma_windows_abi_longest_match, Architecture, Channel, ChannelVersion, Host, LinuxAbi,
    System, Toolchain, Vendor, WindowsAbi,
};
pub use script::{
    setup, spec_setup_build_text, spec_setup_cargo_text, spec_setup_rust_text, BuildScript,
};


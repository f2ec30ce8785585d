//! The build-script computation: from the raw strings that the environment
//! supplies — a formatted build timestamp, the profile token and the
//! toolchain token — to the exact directive text a build script prints.
//! Reading the environment and printing are left to the caller; everything
//! decided here is verified.

use vstd::prelude::*;
use vstd::string::StringExecFns;

use crate::cargo::Profile;
use crate::error::{Error, ErrorKind, Rule};
use crate::rust::{Channel, Toolchain};

verus! {

/// The directive line publishing the build timestamp.
pub open spec fn spec_setup_build_text(dt: Seq<char>) -> Seq<char> {
    "cargo:rustup-env=CHKSUM_BUILD_INFO_BUILD_DATETIME="@ + dt + "\n"@
}

/// The directive lines publishing the build profile: a configuration switch
/// and an environment variable, both with the canonical profile text.
pub open spec fn spec_setup_cargo_text(p: Profile) -> Seq<char> {
    "cargo:rustup-cfg="@ + p.spec_render() + "\n"@
        + "cargo:rustup-env=CHKSUM_BUILD_INFO_CARGO_PROFILE="@ + p.spec_render() + "\n"@
}

/// The directive lines publishing the release channel: a configuration
/// switch and an environment variable, both with the canonical channel text.
pub open spec fn spec_setup_rust_text(c: Channel) -> Seq<char> {
    "cargo:rustup-cfg="@ + c.spec_render() + "\n"@
        + "cargo:rustup-env=CHKSUM_BUILD_INFO_RUST_CHANNEL="@ + c.spec_render() + "\n"@
}

/// Configuration for a build script.
#[derive(Clone, Copy, Debug, Default)]
pub struct BuildScript;

impl BuildScript {
    /// The directive line for the build timestamp, taken verbatim.
    pub fn setup_build(&self, datetime: &str) -> (r: String)
        ensures
            r@ == spec_setup_build_text(datetime@),
    {
        let mut out = String::new();
        out.append("cargo:rustup-env=CHKSUM_BUILD_INFO_BUILD_DATETIME=");
        out.append(datetime);
        out.append("\n");
        assert(out@ =~= spec_setup_build_text(datetime@));
        out
    }

    /// The directive lines for the build profile: the raw token is parsed,
    /// and on success the lines carry its canonical text.
    pub fn setup_cargo(&self, profile: &str) -> (r: Result<String, Error>)
        ensures
            (match r {
                Ok(out) => Profile::spec_from_str(profile@) matches Some(p) && out@
                    == spec_setup_cargo_text(p),
                Err(e) => {
                    &&& Profile::spec_from_str(profile@) is None
                    &&& e.frames@.len() == 1
                    &&& e.frames@[0].rule == Rule::Profile
                    &&& (Profile::spec_parse(profile@, 0) matches Some(p) ==> e.kind
                        == ErrorKind::TrailingInput)
                    &&& (Profile::spec_parse(profile@, 0) is None ==> e.kind
                        == ErrorKind::Syntax)
                },
            }),
    {
        let p = match Profile::from_str(profile) {
            Ok(p) => p,
            Err(e) => {
                return Err(e);
            },
        };
        let text = p.to_string();
        let mut out = String::new();
        out.append("cargo:rustup-cfg=");
        out.append(text.as_str());
        out.append("\n");
        out.append("cargo:rustup-env=CHKSUM_BUILD_INFO_CARGO_PROFILE=");
        out.append(text.as_str());
        out.append("\n");
        assert(out@ =~= spec_setup_cargo_text(p));
        Ok(out)
    }

    /// The directive lines for the toolchain: the raw token is parsed as a
    /// whole toolchain specifier, and on success the lines carry the
    /// canonical text of its channel alone.
    pub fn setup_rust(&self, toolchain: &str) -> (r: Result<String, Error>)
        ensures
            (match r {
                Ok(out) => Toolchain::spec_from_str(toolchain@) matches Some(t) && out@
                    == spec_setup_rust_text(t.channel),
                Err(e) => {
                    &&& Toolchain::spec_from_str(toolchain@) is None
                    &&& e.frames@.len() >= 1
                    &&& e.frames@.last().rule == Rule::Toolchain
                    &&& (Toolchain::spec_parse(toolchain@, 0) matches Some(p) ==> e.kind
                        == ErrorKind::TrailingInput)
                },
            }),
    {
        let t = match Toolchain::from_str(toolchain) {
            Ok(t) => t,
            Err(e) => {
                return Err(e);
            },
        };
        let text = t.channel.to_string();
        let mut out = String::new();
        out.append("cargo:rustup-cfg=");
        out.append(text.as_str());
        out.append("\n");
        out.append("cargo:rustup-env=CHKSUM_BUILD_INFO_RUST_CHANNEL=");
        out.append(text.as_str());
        out.append("\n");
        assert(out@ =~= spec_setup_rust_text(t.channel));
        Ok(out)
    }

    /// The whole directive text of one build-script run, in the fixed order
    /// build, package manager, toolchain.  Fails exactly when the profile
    /// token or the toolchain token fails to parse.
    pub fn setup(&self, datetime: &str, profile: &str, toolchain: &str) -> (r: Result<
        String,
        Error,
    >)
        ensures
            (match r {
                Ok(out) => Profile::spec_from_str(profile@) matches Some(p)
                    && Toolchain::spec_from_str(toolchain@) matches Some(t) && out@
                    == spec_setup_build_text(datetime@) + spec_setup_cargo_text(p)
                    + spec_setup_rust_text(t.channel),
                Err(e) => {
                    &&& (Profile::spec_from_str(profile@) is None || Toolchain::spec_from_str(
                        toolchain@,
                    ) is None)
                    &&& e.frames@.len() >= 1
                    &&& (Profile::spec_from_str(profile@) is None ==> e.frames@.last().rule
                        == Rule::Profile)
                    &&& (Profile::spec_from_str(profile@) is Some ==> Toolchain::spec_from_str(
                        toolchain@,
                    ) is None && e.frames@.last().rule == Rule::Toolchain)
                },
            }),
    {
        let mut out = self.setup_build(datetime);
        let cargo_text = match self.setup_cargo(profile) {
            Ok(t) => t,
            Err(e) => {
                return Err(e);
            },
        };
        out.append(cargo_text.as_str());
        let rust_text = match self.setup_rust(toolchain) {
            Ok(t) => t,
            Err(e) => {
                return Err(e);
            },
        };
        out.append(rust_text.as_str());
        proof {
            match (Profile::spec_from_str(profile@), Toolchain::spec_from_str(toolchain@)) {
                (Some(p), Some(t)) => {
                    assert(out@ =~= spec_setup_build_text(datetime@) + spec_setup_cargo_text(p)
                        + spec_setup_rust_text(t.channel));
                },
                _ => {
                },
            }
        }
        Ok(out)
    }
}

/// Computes the directive text for one build-script run; a convenience
/// wrapper around [`BuildScript::setup`].
pub fn setup(build_script: &BuildScript, datetime: &str, profile: &str, toolchain: &str) -> (r:
    Result<String, Error>)
    ensures
        (match r {
            Ok(out) => Profile::spec_from_str(profile@) matches Some(p)
                && Toolchain::spec_from_str(toolchain@) matches Some(t) && out@
                == spec_setup_build_text(datetime@) + spec_setup_cargo_text(p)
                + spec_setup_rust_text(t.channel),
            Err(e) => {
                &&& (Profile::spec_from_str(profile@) is None || Toolchain::spec_from_str(
                    toolchain@,
                ) is None)
                &&& e.frames@.len() >= 1
                &&& (Profile::spec_from_str(profile@) is None ==> e.frames@.last().rule
                    == Rule::Profile)
                &&& (Profile::spec_from_str(profile@) is Some ==> Toolchain::spec_from_str(
                    toolchain@,
                ) is None && e.frames@.last().rule == Rule::Toolchain)
            },
        }),
{
    build_script.setup(datetime, profile, toolchain)
}

} // verus!

//! Build information records: small immutable holders for the values a build
//! script hands to the compiled crate.

use vstd::prelude::*;

use crate::cargo::Profile;
use crate::date::DateTime;
use crate::rust::Channel;

verus! {

/// Information about the build itself.
#[derive(Debug, Eq, PartialEq)]
pub struct Build {
    datetime: DateTime,
}

impl Build {
    /// The timestamp held by the record.
    pub closed spec fn spec_datetime(self) -> DateTime {
        self.datetime
    }

    /// A record holding the build timestamp.
    #[inline]
    #[must_use]
    pub fn new(datetime: DateTime) -> (r: Build)
        ensures
            r.spec_datetime() == datetime,
    {
        Build { datetime }
    }

    /// Returns the build timestamp.
    #[inline]
    #[must_use]
    pub fn datetime(&self) -> (r: &DateTime)
        ensures
            *r == self.spec_datetime(),
    {
        &self.datetime
    }
}

/// Information about the package manager's build settings.
#[derive(Debug, Eq, PartialEq)]
pub struct Cargo {
    profile: Profile,
}

impl Cargo {
    /// The profile held by the record.
    pub closed spec fn spec_profile(self) -> Profile {
        self.profile
    }

    /// A record holding the build profile.
    #[inline]
    #[must_use]
    pub fn new(profile: Profile) -> (r: Cargo)
        ensures
            r.spec_profile() == profile,
    {
        Cargo { profile }
    }

    /// Returns the build profile.
    #[inline]
    #[must_use]
    pub fn profile(&self) -> (r: &Profile)
        ensures
            *r == self.spec_profile(),
    {
        &self.profile
    }
}

/// Information about the compiler toolchain.
#[derive(Debug, Eq, PartialEq)]
pub struct Rust {
    channel: Channel,
}

impl Rust {
    /// The channel held by the record.
    pub closed spec fn spec_channel(self) -> Channel {
        self.channel
    }

    /// A record holding the release channel.
    #[inline]
    #[must_use]
    pub fn new(channel: Channel) -> (r: Rust)
        ensures
            r.spec_channel() == channel,
    {
        Rust { channel }
    }

    /// Returns the release channel.
    #[inline]
    #[must_use]
    pub fn channel(&self) -> (r: &Channel)
        ensures
            *r == self.spec_channel(),
    {
        &self.channel
    }
}

/// Everything a build script records: the build, package-manager and
/// toolchain information together.
#[derive(Debug, Eq, PartialEq)]
pub struct BuildInfo {
    build: Build,
    cargo: Cargo,
    rust: Rust,
}

impl BuildInfo {
    /// The build record held.
    pub closed spec fn spec_build(self) -> Build {
        self.build
    }

    /// The package-manager record held.
    pub closed spec fn spec_cargo(self) -> Cargo {
        self.cargo
    }

    /// The toolchain record held.
    pub closed spec fn spec_rust(self) -> Rust {
        self.rust
    }

    /// A record holding all three parts.
    #[inline]
    #[must_use]
    pub fn new(build: Build, cargo: Cargo, rust: Rust) -> (r: BuildInfo)
        ensures
            r.spec_build() == build,
            r.spec_cargo() == cargo,
            r.spec_rust() == rust,
    {
        BuildInfo { build, cargo, rust }
    }

    /// Returns information about the build.
    #[inline]
    #[must_use]
    pub fn build(&self) -> (r: &Build)
        ensures
            *r == self.spec_build(),
    {
        &self.build
    }

    /// Returns information about the package manager's settings.
    #[inline]
    #[must_use]
    pub fn cargo(&self) -> (r: &Cargo)
        ensures
            *r == self.spec_cargo(),
    {
        &self.cargo
    }

    /// Returns information about the toolchain.
    #[inline]
    #[must_use]
    pub fn rust(&self) -> (r: &Rust)
        ensures
            *r == self.spec_rust(),
    {
        &self.rust
    }
}

} // verus!

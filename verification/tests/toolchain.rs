use chksum_build::{
    Architecture, Channel, ChannelVersion, Date, Host, LinuxAbi, System, Toolchain, Vendor,
};

fn linux_gnu_host() -> Host {
    Host {
        architecture: Architecture::x86_64,
        vendor: Some(Vendor::Unknown),
        system: System::Linux(LinuxAbi::GNU),
    }
}

#[test]
fn test_toolchain_from_str() {
    assert_eq!(
        Toolchain::from_str("stable-x86_64-unknown-linux-gnu").unwrap(),
        Toolchain {
            channel: Channel::Stable,
            date: None,
            host: Some(linux_gnu_host()),
        }
    );
    assert_eq!(
        Toolchain::from_str("nightly-x86_64-unknown-linux-gnu").unwrap(),
        Toolchain {
            channel: Channel::Nightly,
            date: None,
            host: Some(linux_gnu_host()),
        }
    );
}

#[test]
fn test_toolchain_with_date() {
    assert_eq!(
        Toolchain::from_str("nightly-2023-01-15-x86_64-unknown-linux-gnu").unwrap(),
        Toolchain {
            channel: Channel::Nightly,
            date: Some(Date::new(2023, 1, 15).unwrap()),
            host: Some(linux_gnu_host()),
        }
    );
    assert_eq!(
        Toolchain::from_str("beta-2024-02-29").unwrap(),
        Toolchain {
            channel: Channel::Beta,
            date: Some(Date::new(2024, 2, 29).unwrap()),
            host: None,
        }
    );
}

#[test]
fn test_toolchain_channel_only() {
    assert_eq!(
        Toolchain::from_str("1.52.1").unwrap(),
        Toolchain {
            channel: Channel::Version(ChannelVersion::MajorMinorPatch(1, 52, 1)),
            date: None,
            host: None,
        }
    );
}

#[test]
fn test_toolchain_rejects_invalid_dates() {
    // digit-shaped but not a real calendar date
    assert!(Toolchain::from_str("nightly-2023-02-29").is_err());
    assert!(Toolchain::from_str("nightly-2023-04-31").is_err());
    assert!(Toolchain::from_str("nightly-2023-13-01").is_err());
    assert!(Toolchain::from_str("nightly-2023-00-10").is_err());
    assert!(Toolchain::from_str("nightly-2023-01-00").is_err());
    // a leap day of a leap year is accepted
    assert!(Toolchain::from_str("nightly-2024-02-29").is_ok());
    // century years follow the 400-year rule
    assert!(Toolchain::from_str("nightly-2000-02-29").is_ok());
    assert!(Toolchain::from_str("nightly-1900-02-29").is_err());
}

#[test]
fn test_toolchain_rejects_leftovers() {
    assert!(Toolchain::from_str("stablefoo").is_err());
    assert!(Toolchain::from_str("stable-").is_err());
    assert!(Toolchain::from_str("stable-x86_64-unknown-linux-gnu-").is_err());
    assert!(Toolchain::from_str("nightly-2023-01-15-").is_err());
    assert!(Toolchain::from_str("").is_err());
}

#[test]
fn test_toolchain_round_trip() {
    for text in [
        "stable",
        "beta",
        "nightly",
        "1.52.1",
        "stable-x86_64-unknown-linux-gnu",
        "nightly-2023-01-15-x86_64-unknown-linux-gnu",
        "nightly-2023-01-15",
        "1.3-i686-apple-darwin",
    ] {
        let toolchain = Toolchain::from_str(text).unwrap();
        assert_eq!(toolchain.to_string(), text);
        assert_eq!(Toolchain::from_str(&toolchain.to_string()).unwrap(), toolchain);
    }
}

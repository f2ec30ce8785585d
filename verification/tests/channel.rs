use chksum_build::error::{ErrorKind, Rule};
use chksum_build::{Channel, ChannelVersion};

#[test]
fn test_channel_display() {
    assert_eq!(Channel::Stable.to_string(), "stable");
    assert_eq!(Channel::Beta.to_string(), "beta");
    assert_eq!(Channel::Nightly.to_string(), "nightly");
    assert_eq!(Channel::Version(ChannelVersion::MajorMinor(1, 3)).to_string(), "1.3");
    assert_eq!(
        Channel::Version(ChannelVersion::MajorMinorPatch(1, 52, 1)).to_string(),
        "1.52.1"
    );
}

#[test]
fn test_channel_from_str() {
    assert_eq!(Channel::from_str("stable").unwrap(), Channel::Stable);
    assert!(Channel::from_str("Stable").is_err());
    assert!(Channel::from_str("STABLE").is_err());
    assert_eq!(Channel::from_str("beta").unwrap(), Channel::Beta);
    assert!(Channel::from_str("Beta").is_err());
    assert!(Channel::from_str("BETA").is_err());
    assert_eq!(Channel::from_str("nightly").unwrap(), Channel::Nightly);
    assert!(Channel::from_str("Nightly").is_err());
    assert!(Channel::from_str("NIGHTLY").is_err());
    assert_eq!(
        Channel::from_str("1.3").unwrap(),
        Channel::Version(ChannelVersion::MajorMinor(1, 3))
    );
    assert!(Channel::from_str("1.3.").is_err());
    assert_eq!(
        Channel::from_str("1.52.1").unwrap(),
        Channel::Version(ChannelVersion::MajorMinorPatch(1, 52, 1))
    );
    assert!(Channel::from_str("1.52.").is_err());
    assert!(Channel::from_str("1.52.1.").is_err());
}

#[test]
fn test_channel_version_four_components() {
    // the third component parses, and the leftover `.5` fails the
    // whole-input requirement
    let err = Channel::from_str("1.3.4.5").unwrap_err();
    assert_eq!(err.kind, ErrorKind::TrailingInput);
}

#[test]
fn test_channel_version_overflow() {
    // a numeral too large for the target integer width is a value error
    let err = Channel::from_str("99999999999999999999999999.1").unwrap_err();
    assert_eq!(err.kind, ErrorKind::Value);
}

#[test]
fn test_channel_version_leading_zeros_normalize() {
    // a zero-padded numeral is accepted, and rendering gives the canonical
    // unpadded spelling
    let channel = Channel::from_str("01.3").unwrap();
    assert_eq!(channel, Channel::Version(ChannelVersion::MajorMinor(1, 3)));
    assert_eq!(channel.to_string(), "1.3");
}

#[test]
fn test_channel_rejects_bare_number() {
    assert!(Channel::from_str("5").is_err());
    assert!(Channel::from_str("52").is_err());
    assert!(Channel::from_str("1.").is_err());
    assert!(Channel::from_str(".1").is_err());
    assert!(Channel::from_str("").is_err());
}

#[test]
fn test_channel_round_trip() {
    for text in ["stable", "beta", "nightly", "1.3", "1.52.1", "0.0", "10.20.30"] {
        let channel = Channel::from_str(text).unwrap();
        assert_eq!(channel.to_string(), text);
        assert_eq!(Channel::from_str(&channel.to_string()).unwrap(), channel);
    }
}

#[test]
fn test_channel_error_trace_is_ordered_outermost_last() {
    let err = Channel::from_str("1.x").unwrap_err();
    assert_eq!(err.kind, ErrorKind::Syntax);
    assert_eq!(err.frames.first().unwrap().rule, Rule::Version);
    assert_eq!(err.frames.last().unwrap().rule, Rule::Channel);
}

use chksum_build::error::ErrorKind;
use chksum_build::{Build, BuildInfo, Cargo, Channel, Date, DateTime, Profile, Rust};

#[test]
fn test_datetime_from_str() {
    let expected = DateTime::new(Date::new(2023, 1, 15).unwrap(), 12, 30, 45).unwrap();
    assert_eq!(DateTime::from_str("2023-01-15 12:30:45").unwrap(), expected);
    assert_eq!(expected.to_string(), "2023-01-15 12:30:45");
}

#[test]
fn test_datetime_rejects_out_of_range_times() {
    let err = DateTime::from_str("2023-01-15 24:00:00").unwrap_err();
    assert_eq!(err.kind, ErrorKind::Value);
    // a digit-shaped but impossible calendar date is a value error too,
    // not a syntax error
    let err = DateTime::from_str("2023-02-30 10:00:00").unwrap_err();
    assert_eq!(err.kind, ErrorKind::Value);
    assert!(DateTime::from_str("2023-01-15 12:60:00").is_err());
    assert!(DateTime::from_str("2023-01-15 12:00:60").is_err());
    assert!(DateTime::from_str("2023-02-29 12:00:00").is_err());
    assert!(DateTime::from_str("2023-01-15T12:00:00").is_err());
    assert!(DateTime::from_str("2023-01-15 12:00").is_err());
    assert!(DateTime::from_str("2023-01-15 12:00:00 ").is_err());
}

#[test]
fn test_datetime_midnight_round_trip() {
    let midnight = DateTime::from_str("0000-01-01 00:00:00").unwrap();
    assert_eq!(midnight.to_string(), "0000-01-01 00:00:00");
}

#[test]
fn test_build_info_holds_its_parts() {
    let datetime = DateTime::from_str("2023-01-15 12:30:45").unwrap();
    let info = BuildInfo::new(
        Build::new(datetime),
        Cargo::new(Profile::Release),
        Rust::new(Channel::Stable),
    );
    assert_eq!(info.build().datetime(), &datetime);
    assert_eq!(info.cargo().profile(), &Profile::Release);
    assert_eq!(info.rust().channel(), &Channel::Stable);
}

#[test]
fn test_date_new_checks_the_calendar() {
    assert!(Date::new(2023, 1, 31).is_some());
    assert!(Date::new(2023, 4, 31).is_none());
    assert!(Date::new(2023, 2, 29).is_none());
    assert!(Date::new(2024, 2, 29).is_some());
    assert!(Date::new(2023, 0, 1).is_none());
    assert!(Date::new(2023, 1, 0).is_none());
    assert!(Date::new(10000, 1, 1).is_none());
}

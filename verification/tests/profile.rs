use chksum_build::error::ErrorKind;
use chksum_build::Profile;

#[test]
fn test_profile_display() {
    assert_eq!(Profile::Release.to_string(), "release");
    assert_eq!(Profile::Debug.to_string(), "debug");
}

#[test]
fn test_profile_from_str() {
    assert_eq!(Profile::from_str("release").unwrap(), Profile::Release);
    assert!(Profile::from_str("Release").is_err());
    assert!(Profile::from_str("RELEASE").is_err());
    assert_eq!(Profile::from_str("debug").unwrap(), Profile::Debug);
    assert!(Profile::from_str("dbg").is_err());
    assert!(Profile::from_str("Debug").is_err());
    assert!(Profile::from_str("DEBUG").is_err());
}

#[test]
fn test_profile_trailing_input() {
    let err = Profile::from_str("releases").unwrap_err();
    assert_eq!(err.kind, ErrorKind::TrailingInput);
    let err = Profile::from_str("debugx").unwrap_err();
    assert_eq!(err.kind, ErrorKind::TrailingInput);
}

#[test]
fn test_profile_empty_input() {
    let err = Profile::from_str("").unwrap_err();
    assert_eq!(err.kind, ErrorKind::Syntax);
}

use chksum_build::{setup, BuildScript};

#[test]
fn test_setup_build() {
    let stdout = BuildScript::default().setup_build("2023-01-15 12:30:45");
    assert_eq!(
        stdout,
        "cargo:rustup-env=CHKSUM_BUILD_INFO_BUILD_DATETIME=2023-01-15 12:30:45\n"
    );
}

#[test]
fn test_setup_cargo() {
    let stdout = BuildScript::default().setup_cargo("release").unwrap();
    assert_eq!(
        stdout,
        "cargo:rustup-cfg=release\ncargo:rustup-env=CHKSUM_BUILD_INFO_CARGO_PROFILE=release\n"
    );
}

#[test]
fn test_setup_rust() {
    let stdout = BuildScript::default()
        .setup_rust("nightly-x86_64-unknown-linux-gnu")
        .unwrap();
    assert_eq!(
        stdout,
        "cargo:rustup-cfg=nightly\ncargo:rustup-env=CHKSUM_BUILD_INFO_RUST_CHANNEL=nightly\n"
    );
}

#[test]
fn test_setup_whole_run() {
    let script = BuildScript::default();
    let stdout = setup(
        &script,
        "2023-01-15 12:30:45",
        "debug",
        "1.52.1-x86_64-pc-windows-msvc",
    )
    .unwrap();
    assert_eq!(
        stdout,
        "cargo:rustup-env=CHKSUM_BUILD_INFO_BUILD_DATETIME=2023-01-15 12:30:45\n\
         cargo:rustup-cfg=debug\n\
         cargo:rustup-env=CHKSUM_BUILD_INFO_CARGO_PROFILE=debug\n\
         cargo:rustup-cfg=1.52.1\n\
         cargo:rustup-env=CHKSUM_BUILD_INFO_RUST_CHANNEL=1.52.1\n"
    );
}

#[test]
fn test_setup_rejects_bad_tokens() {
    let script = BuildScript::default();
    assert!(script.setup_cargo("Release").is_err());
    assert!(script.setup_rust("nightly-").is_err());
    assert!(setup(&script, "2023-01-15 12:30:45", "released", "stable").is_err());
    assert!(setup(&script, "2023-01-15 12:30:45", "release", "Stable").is_err());
}

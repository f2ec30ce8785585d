use chksum_build::error::{ErrorKind, Rule};
use chksum_build::{Architecture, Host, LinuxAbi, System, Vendor, WindowsAbi};

#[test]
fn test_host_from_str() {
    assert_eq!(
        Host::from_str("i686-apple-darwin").unwrap(),
        Host {
            architecture: Architecture::i686,
            vendor: Some(Vendor::Apple),
            system: System::Darwin,
        }
    );
    assert_eq!(
        Host::from_str("i686-pc-windows-gnu").unwrap(),
        Host {
            architecture: Architecture::i686,
            vendor: Some(Vendor::PC),
            system: System::Windows(WindowsAbi::GNU),
        }
    );
    assert_eq!(
        Host::from_str("i686-pc-windows-msvc").unwrap(),
        Host {
            architecture: Architecture::i686,
            vendor: Some(Vendor::PC),
            system: System::Windows(WindowsAbi::MSVC),
        }
    );
    assert_eq!(
        Host::from_str("i686-unknown-linux-gnu").unwrap(),
        Host {
            architecture: Architecture::i686,
            vendor: Some(Vendor::Unknown),
            system: System::Linux(LinuxAbi::GNU),
        }
    );
    assert_eq!(
        Host::from_str("i686-unknown-linux-musl").unwrap(),
        Host {
            architecture: Architecture::i686,
            vendor: Some(Vendor::Unknown),
            system: System::Linux(LinuxAbi::MUSL),
        }
    );
    assert_eq!(
        Host::from_str("x86_64-apple-darwin").unwrap(),
        Host {
            architecture: Architecture::x86_64,
            vendor: Some(Vendor::Apple),
            system: System::Darwin,
        }
    );
    assert_eq!(
        Host::from_str("x86_64-pc-windows-gnu").unwrap(),
        Host {
            architecture: Architecture::x86_64,
            vendor: Some(Vendor::PC),
            system: System::Windows(WindowsAbi::GNU),
        }
    );
    assert_eq!(
        Host::from_str("x86_64-pc-windows-gnullvm").unwrap(),
        Host {
            architecture: Architecture::x86_64,
            vendor: Some(Vendor::PC),
            system: System::Windows(WindowsAbi::GNULLVM),
        }
    );
    assert_eq!(
        Host::from_str("x86_64-pc-windows-msvc").unwrap(),
        Host {
            architecture: Architecture::x86_64,
            vendor: Some(Vendor::PC),
            system: System::Windows(WindowsAbi::MSVC),
        }
    );
    assert_eq!(
        Host::from_str("x86_64-unknown-linux-gnu").unwrap(),
        Host {
            architecture: Architecture::x86_64,
            vendor: Some(Vendor::Unknown),
            system: System::Linux(LinuxAbi::GNU),
        }
    );
    assert_eq!(
        Host::from_str("x86_64-unknown-linux-gnux32").unwrap(),
        Host {
            architecture: Architecture::x86_64,
            vendor: Some(Vendor::Unknown),
            system: System::Linux(LinuxAbi::GNUX32),
        }
    );
    assert_eq!(
        Host::from_str("x86_64-unknown-linux-musl").unwrap(),
        Host {
            architecture: Architecture::x86_64,
            vendor: Some(Vendor::Unknown),
            system: System::Linux(LinuxAbi::MUSL),
        }
    );
}

#[test]
fn test_host_without_vendor() {
    // the vendor segment is genuinely optional
    assert_eq!(
        Host::from_str("x86_64-linux-gnu").unwrap(),
        Host {
            architecture: Architecture::x86_64,
            vendor: None,
            system: System::Linux(LinuxAbi::GNU),
        }
    );
    assert_eq!(
        Host::from_str("x86_64-linux-gnu").unwrap().to_string(),
        "x86_64-linux-gnu"
    );
}

#[test]
fn test_host_abi_prefix_disambiguation() {
    // an ABI tag that is a prefix of a longer tag must resolve to the
    // longer one when its full text is present
    let host = Host::from_str("x86_64-pc-windows-gnullvm").unwrap();
    assert_eq!(host.system, System::Windows(WindowsAbi::GNULLVM));
    let host = Host::from_str("x86_64-unknown-linux-gnux32").unwrap();
    assert_eq!(host.system, System::Linux(LinuxAbi::GNUX32));
    // a short tag followed by more letters matches nothing
    assert!(Host::from_str("x86_64-pc-windows-gnull").is_err());
    assert!(Host::from_str("x86_64-unknown-linux-gnux").is_err());
}

#[test]
fn test_host_rejects_case_variants_and_leftovers() {
    assert!(Host::from_str("X86_64-unknown-linux-gnu").is_err());
    assert!(Host::from_str("x86_64-unknown-Linux-gnu").is_err());
    assert!(Host::from_str("x86_64-unknown-linux-gnu-").is_err());
    assert!(Host::from_str("x86_64-unknown-linux").is_err());
    assert!(Host::from_str("x86_64-unknown").is_err());
    assert!(Host::from_str("i686-apple-darwin-gnu").is_err());
}

#[test]
fn test_host_round_trip() {
    for text in [
        "i686-apple-darwin",
        "x86_64-pc-windows-gnullvm",
        "x86_64-unknown-linux-gnux32",
        "i686-linux-musl",
        "x86_64-darwin",
    ] {
        let host = Host::from_str(text).unwrap();
        assert_eq!(host.to_string(), text);
        assert_eq!(Host::from_str(&host.to_string()).unwrap(), host);
    }
}

#[test]
fn test_host_error_trace_names_the_failing_segment() {
    // an unknown ABI tag fails naming the system-abi rule, innermost first,
    // with the host rule outermost
    let err = Host::from_str("x86_64-unknown-linux-zzz").unwrap_err();
    assert_eq!(err.kind, ErrorKind::Syntax);
    assert_eq!(err.frames.first().unwrap().rule, Rule::SystemAbi);
    assert_eq!(err.frames.last().unwrap().rule, Rule::Host);
    // an unknown architecture fails naming the architecture rule
    let err = Host::from_str("arm64-apple-darwin").unwrap_err();
    assert_eq!(err.frames.first().unwrap().rule, Rule::Architecture);
    assert_eq!(err.frames.last().unwrap().rule, Rule::Host);
    // leftover text after a valid triple is a trailing-input error
    let err = Host::from_str("i686-apple-darwinx").unwrap_err();
    assert_eq!(err.kind, ErrorKind::TrailingInput);
    assert_eq!(err.frames.last().unwrap().rule, Rule::Host);
}

use std::str::FromStr;

use hermit_entry::{detect_format, Format, HermitVersion, UhyveIfVersion};
use hermit_entry::note::{Nhdr32, _AbiTag, _Note};

#[test]
fn cmp_hermit_version() {
    let small = HermitVersion {
        major: 0,
        minor: 1,
        patch: 2,
    };
    let big = HermitVersion {
        major: 2,
        minor: 1,
        patch: 0,
    };

    assert!(small < big);
    assert!(small == small);
    assert!(big == big);
    assert!(big > small);
}

#[test]
fn parse_hermit_version() {
    let version = HermitVersion::from_str("0.1.2").unwrap();
    assert_eq!(
        version,
        HermitVersion {
            major: 0,
            minor: 1,
            patch: 2,
        }
    );

    let version = HermitVersion::from_str("2.1.0").unwrap();
    assert_eq!(
        version,
        HermitVersion {
            major: 2,
            minor: 1,
            patch: 0,
        }
    );
}

#[test]
fn parse_hermit_version_rejects() {
    assert_eq!(HermitVersion::from_str("1.2").is_err(), true);
    assert_eq!(HermitVersion::from_str("1.2.3.4").is_err(), true);
    assert_eq!(HermitVersion::from_str("a.2.3").is_err(), true);
    assert_eq!(HermitVersion::from_str("1..3").is_err(), true);
    assert_eq!(HermitVersion::from_str("4294967296.0.0").is_err(), true);
    assert_eq!(HermitVersion::from_str("").is_err(), true);
}

#[test]
fn parse_hermit_version_limits() {
    assert_eq!(
        HermitVersion::parse("4294967295.+7.010"),
        Ok(HermitVersion { major: 4294967295, minor: 7, patch: 10 })
    );
}

#[test]
fn uhyve_if_version_orders() {
    assert!(UhyveIfVersion(1) < UhyveIfVersion(2));
    assert_eq!(UhyveIfVersion(3), UhyveIfVersion(3));
}

#[test]
fn detect_formats() {
    assert_eq!(detect_format(&[0x7f, b'E', b'L', b'F', 2, 1, 1, 0xff]), Some(Format::ElfKernel));
    assert_eq!(detect_format(&[0x7f, b'E', b'L', b'F', 2, 1, 1, 0x00]), None);
    assert_eq!(detect_format(&[0x1f, 0x8b, 0x08, 0, 0, 0, 0, 0]), Some(Format::Image));
    assert_eq!(detect_format(&[0x1f, 0x8b, 0x08]), None);
    assert_eq!(detect_format(&[]), None);
    assert_eq!(detect_format(&[0; 8]), None);
}

#[test]
fn entry_version_note() {
    let n = _Note::entry_version();
    assert_eq!(n.header, Nhdr32 { n_namesz: 7, n_descsz: 1, n_type: 0x5a00 });
    assert_eq!(&n.name, b"HERMIT\0\0");
    assert_eq!(n.data, [4]);
}

#[test]
fn abi_tag_note() {
    let t = _AbiTag::new(HermitVersion { major: 0, minor: 10, patch: 3 });
    assert_eq!(t.header, Nhdr32 { n_namesz: 4, n_descsz: 16, n_type: 1 });
    assert_eq!(&t.name, b"GNU\0");
    assert_eq!(t.data, [6, 0, 10, 3]);
}

//! Loading and entry API for unikernel images: kernel binary parsing and relocation,
//! the boot-information protocol, and a reader for the image archive format.

use vstd::prelude::*;
use vstd::string::StringSliceAdditionalSpecFns;

pub mod boot_info;
pub mod bytes;
pub mod config;
pub mod elf;
pub mod filename;
pub mod note;
pub mod tar_parser;
pub mod text;
pub mod thin_tree;

pub use filename::{Filename, StrFilename};
pub use note::{_AbiTag, _Note};

use text::{decimal_u32, first_index, parses_unsigned, split_at_byte, unsigned_value};

verus! {

/// Note type of the note that carries the entry version; its name is `HERMIT`.
pub const NT_HERMIT_ENTRY_VERSION: u32 = 0x5a00;

/// The entry version that this loader and kernel speak.
pub const HERMIT_ENTRY_VERSION: u8 = 4;

/// Note type of the ABI tag note.
pub const NT_GNU_ABI_TAG: u32 = 1;

/// Operating system number of Hermit in the ABI tag note.
pub const ELF_NOTE_OS_HERMIT: u32 = 6;

/// Possible input formats for a loader.
#[derive(Clone, Copy, Debug, PartialEq, Eq, PartialOrd, Ord, Hash)]
pub enum Format {
    /// An ELF kernel image.
    ElfKernel,
    /// A gzipped tar file holding a configuration, an ELF kernel image and other files.
    Image,
}

/// The format that the leading bytes of `data` announce.
pub open spec fn format_of(data: Seq<u8>) -> Option<Format> {
    if data.len() < 8 {
        None
    } else if data[0] == 0x7f && data[1] == 69 && data[2] == 76 && data[3] == 70 && data[7] == 0xff {
        Some(Format::ElfKernel)
    } else if data[0] == 0x1f && data[1] == 0x8b && data[2] == 0x08 {
        Some(Format::Image)
    } else {
        None
    }
}

/// Detects the format of an input file by its magic bytes: an ELF object with the
/// standalone ABI is a kernel, a gzip stream is an image.
pub fn detect_format(data: &[u8]) -> (r: Option<Format>)
    ensures
        r == format_of(data@),
{
    if data.len() < 8 {
        None
    } else if data[0] == 0x7f && data[1] == 69 && data[2] == 76 && data[3] == 70 && data[7] == 0xff {
        Some(Format::ElfKernel)
    } else if data[0] == 0x1f && data[1] == 0x8b && data[2] == 0x08 {
        Some(Format::Image)
    } else {
        None
    }
}

/// A Hermit version.
#[derive(PartialOrd, Ord, PartialEq, Eq, Clone, Copy, Debug)]
pub struct HermitVersion {
    /// The major version.
    pub major: u32,
    /// The minor version.
    pub minor: u32,
    /// The patch version.
    pub patch: u32,
}

/// An error which can be returned when parsing a [`HermitVersion`].
#[derive(Debug, Clone, PartialEq, Eq)]
#[non_exhaustive]
pub struct ParseHermitVersionError;

/// A Uhyve interface version.
#[derive(PartialOrd, Ord, PartialEq, Eq, Clone, Copy, Debug)]
pub struct UhyveIfVersion(pub u32);

/// The three parts of `major.minor.patch`: the text before the first `.`, between it and
/// the second, and after the second.
pub open spec fn version_parts(s: Seq<u8>) -> Option<(Seq<u8>, Seq<u8>, Seq<u8>)> {
    let i = first_index(s, 46);
    if i >= s.len() {
        None
    } else {
        let rest = s.skip(i + 1);
        let j = first_index(rest, 46);
        if j >= rest.len() {
            None
        } else {
            Some((s.take(i), rest.take(j), rest.skip(j + 1)))
        }
    }
}

/// The version that `s` spells, if it does.
pub open spec fn version_of(s: Seq<u8>) -> Option<HermitVersion> {
    match version_parts(s) {
        Some((a, b, c)) => if parses_unsigned(a, 10, u32::MAX as int) && parses_unsigned(
            b,
            10,
            u32::MAX as int,
        ) && parses_unsigned(c, 10, u32::MAX as int) {
            Some(
                HermitVersion {
                    major: unsigned_value(a, 10) as u32,
                    minor: unsigned_value(b, 10) as u32,
                    patch: unsigned_value(c, 10) as u32,
                },
            )
        } else {
            None
        },
        None => None,
    }
}

impl HermitVersion {
    /// Parses `major.minor.patch`, each a decimal `u32`.
    pub fn parse(s: &str) -> (r: Result<HermitVersion, ParseHermitVersionError>)
        ensures
            match version_of(s.spec_bytes()) {
                Some(v) => r == Ok::<HermitVersion, ParseHermitVersionError>(v),
                None => r is Err,
            },
    {
        let (major, rest) = match split_at_byte(s, 46) {
            Some(p) => p,
            None => return Err(ParseHermitVersionError),
        };
        let (minor, patch) = match split_at_byte(rest, 46) {
            Some(p) => p,
            None => return Err(ParseHermitVersionError),
        };
        let major = match decimal_u32(major) {
            Ok(v) => v,
            Err(_) => return Err(ParseHermitVersionError),
        };
        let minor = match decimal_u32(minor) {
            Ok(v) => v,
            Err(_) => return Err(ParseHermitVersionError),
        };
        let patch = match decimal_u32(patch) {
            Ok(v) => v,
            Err(_) => return Err(ParseHermitVersionError),
        };
        Ok(HermitVersion { major, minor, patch })
    }
}

impl core::str::FromStr for HermitVersion {
    type Err = ParseHermitVersionError;

    fn from_str(s: &str) -> Result<Self, Self::Err> {
        HermitVersion::parse(s)
    }
}

} // verus!


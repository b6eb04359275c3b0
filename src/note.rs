//! The notes a kernel carries so that loaders can check it before loading.

use vstd::prelude::*;

use crate::HermitVersion;

verus! {

/// A 32-bit note header.
#[derive(Clone, Copy, Debug, PartialEq, Eq)]
pub struct Nhdr32 {
    pub n_namesz: u32,
    pub n_descsz: u32,
    pub n_type: u32,
}

/// The note that carries the entry version: named `HERMIT`, one byte of descriptor.
#[derive(Clone, Copy, Debug, PartialEq, Eq)]
pub struct _Note {
    pub header: Nhdr32,
    pub name: [u8; 8],
    pub data: [u8; 1],
}

impl _Note {
    /// The entry-version note of this version.
    pub fn entry_version() -> (r: Self)
        ensures
            r.header == (Nhdr32 { n_namesz: 7, n_descsz: 1, n_type: crate::NT_HERMIT_ENTRY_VERSION }),
            r.name@ == seq![72u8, 69u8, 82u8, 77u8, 73u8, 84u8, 0u8, 0u8],
            r.data@ == seq![crate::HERMIT_ENTRY_VERSION],
    {
        let r = _Note {
            header: Nhdr32 { n_namesz: 7, n_descsz: 1, n_type: crate::NT_HERMIT_ENTRY_VERSION },
            name: [72u8, 69u8, 82u8, 77u8, 73u8, 84u8, 0u8, 0u8],
            data: [crate::HERMIT_ENTRY_VERSION],
        };
        assert(r.name@ =~= seq![72u8, 69u8, 82u8, 77u8, 73u8, 84u8, 0u8, 0u8]);
        assert(r.data@ =~= seq![crate::HERMIT_ENTRY_VERSION]);
        r
    }
}

/// The ABI tag note: named `GNU`, giving the operating system and its version.
#[derive(Clone, Copy, Debug, PartialEq, Eq)]
pub struct _AbiTag {
    pub header: Nhdr32,
    pub name: [u8; 4],
    pub data: [u32; 4],
}

impl _AbiTag {
    /// The ABI tag note of the Hermit version `version`.
    pub fn new(version: HermitVersion) -> (r: Self)
        ensures
            r.header == (Nhdr32 { n_namesz: 4, n_descsz: 16, n_type: crate::NT_GNU_ABI_TAG }),
            r.name@ == seq![71u8, 78u8, 85u8, 0u8],
            r.data@ == seq![crate::ELF_NOTE_OS_HERMIT, version.major, version.minor, version.patch],
    {
        let r = _AbiTag {
            header: Nhdr32 { n_namesz: 4, n_descsz: 16, n_type: crate::NT_GNU_ABI_TAG },
            name: [71u8, 78u8, 85u8, 0u8],
            data: [crate::ELF_NOTE_OS_HERMIT, version.major, version.minor, version.patch],
        };
        assert(r.name@ =~= seq![71u8, 78u8, 85u8, 0u8]);
        assert(r.data@ =~= seq![crate::ELF_NOTE_OS_HERMIT, version.major, version.minor, version.patch]);
        r
    }
}

} // verus!

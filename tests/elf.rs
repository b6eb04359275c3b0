use hermit_entry::boot_info::TlsInfo;
use hermit_entry::elf::{KernelObject, LoadKernelError, ParseKernelErrorKind};

fn put16(b: &mut [u8], off: usize, v: u16) {
    b[off..off + 2].copy_from_slice(&v.to_le_bytes());
}
fn put32(b: &mut [u8], off: usize, v: u32) {
    b[off..off + 4].copy_from_slice(&v.to_le_bytes());
}
fn put64(b: &mut [u8], off: usize, v: u64) {
    b[off..off + 8].copy_from_slice(&v.to_le_bytes());
}

#[allow(clippy::too_many_arguments)]
fn phdr(b: &mut [u8], off: usize, ty: u32, offset: u64, vaddr: u64, filesz: u64, memsz: u64, align: u64) {
    put32(b, off, ty);
    put32(b, off + 4, 0);
    put64(b, off + 8, offset);
    put64(b, off + 16, vaddr);
    put64(b, off + 24, vaddr);
    put64(b, off + 32, filesz);
    put64(b, off + 40, memsz);
    put64(b, off + 48, align);
}

struct Options {
    e_type: u16,
    version: u8,
    needed: bool,
    reloc_type: u64,
    tls: bool,
}

const DEFAULT: Options = Options { e_type: 3, version: 4, needed: false, reloc_type: 8, tls: false };

/// A kernel with one loadable segment at 0x1000 of memory size 0x2000 holding the whole
/// file, an entry-version note, a dynamic segment, and one relocation at 0x10 with
/// addend 5.
fn kernel(o: &Options) -> Vec<u8> {
    let mut b = vec![0u8; 344];
    b[0..4].copy_from_slice(b"\x7fELF");
    b[4] = 2;
    b[5] = 1;
    b[6] = 1;
    b[7] = 0xff;
    put16(&mut b, 16, o.e_type);
    put16(&mut b, 18, 62);
    put32(&mut b, 20, 1);
    put64(&mut b, 24, 0x1100);
    put64(&mut b, 32, 64);
    put64(&mut b, 40, 0);
    put16(&mut b, 52, 64);
    put16(&mut b, 54, 56);
    put16(&mut b, 56, 3);
    put16(&mut b, 58, 64);
    put16(&mut b, 60, 0);
    phdr(&mut b, 64, 1, 0, 0x1000, 344, 0x2000, 0x1000);
    phdr(&mut b, 120, 4, 232, 0x1000 + 232, 24, 24, 4);
    if o.tls {
        phdr(&mut b, 176, 7, 0, 0x1800, 0x10, 0x20, 8);
    } else {
        phdr(&mut b, 176, 2, 256, 0x1000 + 256, 64, 64, 8);
    }
    // note: "HERMIT\0" padded to 8, one byte of descriptor padded to 4
    put32(&mut b, 232, 7);
    put32(&mut b, 236, 1);
    put32(&mut b, 240, 0x5a00);
    b[244..251].copy_from_slice(b"HERMIT\0");
    b[252] = o.version;
    // dynamic entries
    put64(&mut b, 256, 7);
    put64(&mut b, 264, 0x1000 + 320);
    put64(&mut b, 272, 8);
    put64(&mut b, 280, 24);
    if o.needed {
        put64(&mut b, 288, 1);
        put64(&mut b, 296, 1);
    }
    // relocation
    put64(&mut b, 320, 0x10);
    put64(&mut b, 328, o.reloc_type);
    put64(&mut b, 336, 5);
    b
}

#[test]
fn relative_relocation_at_base() {
    let elf = kernel(&DEFAULT);
    let k = KernelObject::parse(&elf).unwrap();
    assert_eq!(k.mem_size(), 0x2000);
    assert_eq!(k.start_addr(), None);
    let mut mem = vec![0xaau8; 0x2000];
    let loaded = k.load_kernel(&mut mem, 0x4000).unwrap();
    assert_eq!(&mem[0x10..0x18], &0x4005u64.to_ne_bytes());
    assert_eq!(&mem[0..4], b"\x7fELF");
    assert_eq!(&mem[344..0x2000], &vec![0u8; 0x2000 - 344][..]);
    assert_eq!(loaded.entry_point, 0x5100);
    assert_eq!(loaded.load_info.kernel_image_addr_range, 0x4000..0x6000);
    assert_eq!(loaded.load_info.tls_info, None);
}

#[test]
fn parsing_twice_gives_the_same_kernel() {
    let elf = kernel(&DEFAULT);
    let a = KernelObject::parse(&elf).unwrap();
    let b = KernelObject::parse(&elf).unwrap();
    assert_eq!(a.mem_size(), b.mem_size());
    assert_eq!(a.start_addr(), b.start_addr());
    let mut ma = vec![0u8; a.mem_size()];
    let mut mb = vec![0u8; b.mem_size()];
    assert_eq!(a.load_kernel(&mut ma, 0x7000), b.load_kernel(&mut mb, 0x7000));
    assert_eq!(ma, mb);
}

#[test]
fn fixed_address_kernel_is_not_relocated() {
    let elf = kernel(&Options { e_type: 2, tls: true, ..DEFAULT });
    let k = KernelObject::parse(&elf).unwrap();
    assert_eq!(k.start_addr(), Some(0x1000));
    let mut mem = vec![0u8; k.mem_size()];
    let loaded = k.load_kernel(&mut mem, 0x1000).unwrap();
    assert_eq!(&mem[..344], &elf[..]);
    assert_eq!(loaded.entry_point, 0x1100);
    assert_eq!(
        loaded.load_info.tls_info,
        Some(TlsInfo { start: 0x1800, filesz: 0x10, memsz: 0x20, align: 8 })
    );
}

#[test]
fn tls_start_is_shifted_when_relocatable() {
    let elf = kernel(&Options { tls: true, ..DEFAULT });
    let k = KernelObject::parse(&elf).unwrap();
    let mut mem = vec![0u8; k.mem_size()];
    let loaded = k.load_kernel(&mut mem, 0x10000).unwrap();
    assert_eq!(loaded.load_info.tls_info.unwrap().start, 0x11800);
    // no dynamic segment: no relocation
    assert_eq!(&mem[0x10..0x18], &elf[0x10..0x18]);
}

#[test]
fn needed_library_is_rejected() {
    let elf = kernel(&Options { needed: true, ..DEFAULT });
    let e = KernelObject::parse(&elf).err().unwrap();
    assert_eq!(e.kind, ParseKernelErrorKind::NeedsDynamicLibraries);
    assert_eq!(e.message(), "kernel was linked against dynamic libraries");
}

#[test]
fn other_entry_version_is_rejected() {
    for v in [0u8, 3, 5, 0xff] {
        let elf = kernel(&Options { version: v, ..DEFAULT });
        let e = KernelObject::parse(&elf).err().unwrap();
        assert_eq!(e.kind, ParseKernelErrorKind::EntryVersionMismatch);
    }
}

#[test]
fn header_checks() {
    assert_eq!(KernelObject::parse(&[0u8; 10]).err().unwrap().kind, ParseKernelErrorKind::TooSmall);

    let mut elf = kernel(&DEFAULT);
    elf[4] = 1;
    assert_eq!(KernelObject::parse(&elf).err().unwrap().kind, ParseKernelErrorKind::Not64Bit);

    let mut elf = kernel(&DEFAULT);
    elf[5] = 2;
    assert_eq!(KernelObject::parse(&elf).err().unwrap().kind, ParseKernelErrorKind::NotLittleEndian);

    let elf = kernel(&Options { e_type: 1, ..DEFAULT });
    assert_eq!(KernelObject::parse(&elf).err().unwrap().kind, ParseKernelErrorKind::UnsupportedType);

    let mut elf = kernel(&DEFAULT);
    elf[18] = 183;
    assert_eq!(KernelObject::parse(&elf).err().unwrap().kind, ParseKernelErrorKind::WrongArchitecture);

    let mut elf = kernel(&DEFAULT);
    elf[56] = 200;
    assert_eq!(
        KernelObject::parse(&elf).err().unwrap().kind,
        ParseKernelErrorKind::ProgramHeadersOutOfBounds
    );
}

#[test]
fn note_checks() {
    let mut elf = kernel(&DEFAULT);
    elf[120] = 5; // the note segment becomes some other type
    assert_eq!(KernelObject::parse(&elf).err().unwrap().kind, ParseKernelErrorKind::NoNoteSegment);

    let mut elf = kernel(&DEFAULT);
    elf[244] = b'h'; // "hERMIT"
    assert_eq!(KernelObject::parse(&elf).err().unwrap().kind, ParseKernelErrorKind::NoEntryVersion);

    let mut elf = kernel(&DEFAULT);
    elf[120 + 8 + 4] = 0xff; // note offset far outside the file
    assert_eq!(
        KernelObject::parse(&elf).err().unwrap().kind,
        ParseKernelErrorKind::NoteSegmentOutOfBounds
    );
}

#[test]
fn unsupported_relocation_fails_loading() {
    let elf = kernel(&Options { reloc_type: 2, ..DEFAULT });
    let k = KernelObject::parse(&elf).unwrap();
    let mut mem = vec![0u8; k.mem_size()];
    assert_eq!(k.load_kernel(&mut mem, 0x4000), Err(LoadKernelError::UnsupportedRelocation(2)));
}

#[test]
fn absolute_relocation_without_symbols_fails_loading() {
    let elf = kernel(&Options { reloc_type: 1, ..DEFAULT });
    let k = KernelObject::parse(&elf).unwrap();
    let mut mem = vec![0u8; k.mem_size()];
    assert_eq!(k.load_kernel(&mut mem, 0x4000), Err(LoadKernelError::UnknownSymbol));
}

#[test]
fn relocation_outside_image_fails_loading() {
    let mut elf = kernel(&DEFAULT);
    elf[320..328].copy_from_slice(&0x1ffcu64.to_le_bytes());
    let k = KernelObject::parse(&elf).unwrap();
    let mut mem = vec![0u8; k.mem_size()];
    assert_eq!(k.load_kernel(&mut mem, 0x4000), Err(LoadKernelError::RelocationOutOfBounds));
}

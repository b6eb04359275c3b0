//! Parsing and loading kernel objects from 64-bit little-endian ELF files.

use vstd::prelude::*;

use goblin::elf64::{dynamic, program_header};

use crate::boot_info::{LoadInfo, TlsInfo};
use crate::bytes::{le_u16, le_u32, le_u64, put_u64, read_u16, read_u32, read_u64, write_u64};

verus! {

broadcast use vstd::slice::group_slice_axioms;

/// Index of the object class in the identification bytes.
pub const EI_CLASS: usize = 4;
/// Index of the data encoding in the identification bytes.
pub const EI_DATA: usize = 5;
/// 64-bit objects.
pub const ELFCLASS64: u8 = 2;
/// Little-endian objects.
pub const ELFDATA2LSB: u8 = 1;
/// Executable file.
pub const ET_EXEC: u16 = 2;
/// Shared object file, used for position-independent executables.
pub const ET_DYN: u16 = 3;
/// The architecture this loader loads for: AMD x86-64.
pub const ELF_ARCH: u16 = 62;
/// Loadable segment.
pub const PT_LOAD: u32 = 1;
/// Dynamic linking information.
pub const PT_DYNAMIC: u32 = 2;
/// Auxiliary notes.
pub const PT_NOTE: u32 = 4;
/// Thread-local storage template.
pub const PT_TLS: u32 = 7;
/// Dynamic linker symbol table section.
pub const SHT_DYNSYM: u32 = 11;
/// Name of a needed library.
pub const DT_NEEDED: u64 = 1;
/// Address of the relocation table with addends.
pub const DT_RELA: u64 = 7;
/// Size in bytes of the relocation table with addends.
pub const DT_RELASZ: u64 = 8;
/// Number of relative relocations without addends.
pub const DT_RELCOUNT: u64 = 0x6fff_fffa;
/// Absolute 64-bit relocation.
pub const R_ABS64: u32 = 1;
/// Global data relocation.
pub const R_GLOB_DAT: u32 = 6;
/// Relative relocation.
pub const R_RELATIVE: u32 = 8;
/// Weak symbol binding.
pub const STB_WEAK: u8 = 2;
/// Undefined section index.
pub const SHN_UNDEF: u16 = 0;

/// Size of the file header.
pub const EHDR_SIZE: usize = 64;
/// Size of one program header.
pub const PHDR_SIZE: usize = 56;
/// Size of one section header.
pub const SHDR_SIZE: usize = 64;
/// Size of one dynamic entry.
pub const DYN_SIZE: usize = 16;
/// Size of one relocation with addend.
pub const RELA_SIZE: usize = 24;
/// Size of one symbol.
pub const SYM_SIZE: usize = 24;
/// Size of a note header.
pub const NHDR_SIZE: usize = 12;

/// The fields of the ELF file header that loading reads.
#[derive(Clone, Copy, Debug, PartialEq, Eq)]
pub struct FileHeader {
    pub class: u8,
    pub data: u8,
    pub e_type: u16,
    pub e_machine: u16,
    pub e_entry: u64,
    pub e_phoff: u64,
    pub e_shoff: u64,
    pub e_phnum: u16,
    pub e_shnum: u16,
}

/// A program header.
#[derive(Clone, Copy, Debug, PartialEq, Eq)]
pub struct ProgramHeader {
    pub p_type: u32,
    pub p_flags: u32,
    pub p_offset: u64,
    pub p_vaddr: u64,
    pub p_paddr: u64,
    pub p_filesz: u64,
    pub p_memsz: u64,
    pub p_align: u64,
}

/// The fields of a section header that loading reads.
#[derive(Clone, Copy, Debug, PartialEq, Eq)]
pub struct SectionHeader {
    pub sh_type: u32,
    pub sh_offset: u64,
    pub sh_size: u64,
}

/// An entry of the dynamic segment.
#[derive(Clone, Copy, Debug, PartialEq, Eq)]
pub struct Dyn {
    pub d_tag: u64,
    pub d_val: u64,
}

/// A relocation with an explicit addend.
#[derive(Clone, Copy, Debug, PartialEq, Eq)]
pub struct Rela {
    pub r_offset: u64,
    pub r_info: u64,
    pub r_addend: i64,
}

/// The fields of a dynamic symbol that relocation reads.
#[derive(Clone, Copy, Debug, PartialEq, Eq)]
pub struct Sym {
    pub st_info: u8,
    pub st_shndx: u16,
    pub st_value: u64,
}

pub open spec fn header_at(b: Seq<u8>) -> FileHeader {
    FileHeader {
        class: b[4],
        data: b[5],
        e_type: le_u16(b, 16),
        e_machine: le_u16(b, 18),
        e_entry: le_u64(b, 24),
        e_phoff: le_u64(b, 32),
        e_shoff: le_u64(b, 40),
        e_phnum: le_u16(b, 56),
        e_shnum: le_u16(b, 60),
    }
}

pub open spec fn ph_at(b: Seq<u8>, off: int) -> ProgramHeader {
    ProgramHeader {
        p_type: le_u32(b, off),
        p_flags: le_u32(b, off + 4),
        p_offset: le_u64(b, off + 8),
        p_vaddr: le_u64(b, off + 16),
        p_paddr: le_u64(b, off + 24),
        p_filesz: le_u64(b, off + 32),
        p_memsz: le_u64(b, off + 40),
        p_align: le_u64(b, off + 48),
    }
}

pub open spec fn sh_at(b: Seq<u8>, off: int) -> SectionHeader {
    SectionHeader {
        sh_type: le_u32(b, off + 4),
        sh_offset: le_u64(b, off + 24),
        sh_size: le_u64(b, off + 32),
    }
}

pub open spec fn dyn_at(b: Seq<u8>, off: int) -> Dyn {
    Dyn { d_tag: le_u64(b, off), d_val: le_u64(b, off + 8) }
}

pub open spec fn rela_at(b: Seq<u8>, off: int) -> Rela {
    Rela { r_offset: le_u64(b, off), r_info: le_u64(b, off + 8), r_addend: le_u64(b, off + 16) as i64 }
}

pub open spec fn sym_at(b: Seq<u8>, off: int) -> Sym {
    Sym { st_info: b[off + 4], st_shndx: le_u16(b, off + 6), st_value: le_u64(b, off + 8) }
}

pub open spec fn phs_at(b: Seq<u8>, off: int, n: int) -> Seq<ProgramHeader> {
    Seq::new(n as nat, |i: int| ph_at(b, off + PHDR_SIZE * i))
}

pub open spec fn shs_at(b: Seq<u8>, off: int, n: int) -> Seq<SectionHeader> {
    Seq::new(n as nat, |i: int| sh_at(b, off + SHDR_SIZE * i))
}

pub open spec fn dyns_at(b: Seq<u8>, off: int, n: int) -> Seq<Dyn> {
    Seq::new(n as nat, |i: int| dyn_at(b, off + DYN_SIZE * i))
}

pub open spec fn relas_at(b: Seq<u8>, off: int, n: int) -> Seq<Rela> {
    Seq::new(n as nat, |i: int| rela_at(b, off + RELA_SIZE * i))
}

pub open spec fn syms_at(b: Seq<u8>, off: int, n: int) -> Seq<Sym> {
    Seq::new(n as nat, |i: int| sym_at(b, off + SYM_SIZE * i))
}

/// `size` bytes from `off` lie within a buffer of `len` bytes.
pub open spec fn fits(len: int, off: int, size: int) -> bool {
    0 <= off && 0 <= size && off + size <= len
}

/// The first program header of type `t`.
pub open spec fn find_ph(phs: Seq<ProgramHeader>, t: u32) -> Option<ProgramHeader>
    decreases phs.len(),
{
    if phs.len() == 0 {
        None
    } else {
        match find_ph(phs.drop_last(), t) {
            Some(ph) => Some(ph),
            None => if phs.last().p_type == t {
                Some(phs.last())
            } else {
                None
            },
        }
    }
}

/// The last program header of type `t`.
pub open spec fn find_last_ph(phs: Seq<ProgramHeader>, t: u32) -> Option<ProgramHeader>
    decreases phs.len(),
{
    if phs.len() == 0 {
        None
    } else if phs.last().p_type == t {
        Some(phs.last())
    } else {
        find_last_ph(phs.drop_last(), t)
    }
}

/// The first section header of type `t`.
pub open spec fn find_sh(shs: Seq<SectionHeader>, t: u32) -> Option<SectionHeader>
    decreases shs.len(),
{
    if shs.len() == 0 {
        None
    } else {
        match find_sh(shs.drop_last(), t) {
            Some(sh) => Some(sh),
            None => if shs.last().sh_type == t {
                Some(shs.last())
            } else {
                None
            },
        }
    }
}

/// The value of the last dynamic entry with tag `tag`.
pub open spec fn last_dyn(dyns: Seq<Dyn>, tag: u64) -> Option<u64>
    decreases dyns.len(),
{
    if dyns.len() == 0 {
        None
    } else if dyns.last().d_tag == tag {
        Some(dyns.last().d_val)
    } else {
        last_dyn(dyns.drop_last(), tag)
    }
}

/// The first loadable segment whose memory holds `addr`.
pub open spec fn segment_holding(phs: Seq<ProgramHeader>, addr: u64) -> Option<ProgramHeader>
    decreases phs.len(),
{
    if phs.len() == 0 {
        None
    } else {
        match segment_holding(phs.drop_last(), addr) {
            Some(ph) => Some(ph),
            None => {
                let ph = phs.last();
                if ph.p_type == PT_LOAD && addr >= ph.p_vaddr && addr - ph.p_vaddr < ph.p_memsz {
                    Some(ph)
                } else {
                    None
                }
            },
        }
    }
}

/// The file offset of the virtual address `addr`, through the first loadable segment
/// that holds it.
pub open spec fn vm_to_offset(phs: Seq<ProgramHeader>, addr: u64) -> Option<u64> {
    match segment_holding(phs, addr) {
        Some(ph) => if ph.p_offset + (addr - ph.p_vaddr) <= u64::MAX {
            Some((ph.p_offset + (addr - ph.p_vaddr)) as u64)
        } else {
            None
        },
        None => None,
    }
}

/// The dynamic information that loading reads: the file offset and size of the
/// relocation table with addends, and the count of relocations without addends.
pub open spec fn dynamic_info(dyns: Seq<Dyn>, phs: Seq<ProgramHeader>) -> (usize, usize, usize) {
    let rela = match last_dyn(dyns, DT_RELA) {
        Some(v) => match vm_to_offset(phs, v) {
            Some(o) => o as usize,
            None => 0usize,
        },
        None => 0usize,
    };
    let relasz = match last_dyn(dyns, DT_RELASZ) {
        Some(v) => v as usize,
        None => 0usize,
    };
    let relcount = match last_dyn(dyns, DT_RELCOUNT) {
        Some(v) => v as usize,
        None => 0usize,
    };
    (rela, relasz, relcount)
}

} // verus!

verus! {

/// `a` is a power of two.
pub open spec fn is_pow2(a: usize) -> bool {
    a != 0 && a & ((a - 1) as usize) == 0
}

/// `x` rounded up to a multiple of `a`.
pub open spec fn round_up(x: int, a: int) -> int {
    if x % a == 0 {
        x
    } else {
        x + a - x % a
    }
}

/// Relies on `align_address::Align::align_up` for `usize`: the smallest multiple of
/// `align` (a power of two) that is no less than `addr`; it panics on overflow.
#[verifier::external_body]
fn align_up(addr: usize, align: usize) -> (r: usize)
    requires
        is_pow2(align),
        addr + align <= usize::MAX,
    ensures
        r == round_up(addr as int, align as int),
{
    align_address::Align::align_up(addr, align)
}

/// The name of the note that carries the entry version.
pub open spec fn hermit_name() -> Seq<u8> {
    seq![72u8, 69u8, 82u8, 77u8, 73u8, 84u8]
}

/// One note read from the front of `b` with alignment `a`: its type, name (without
/// the terminating NUL), descriptor, and the number of bytes it takes up. `None` when
/// the note does not fit in `b` or `a` is no power of two.
pub open spec fn note_at(b: Seq<u8>, a: usize) -> Option<(u32, Seq<u8>, Seq<u8>, int)> {
    if b.len() < NHDR_SIZE || !is_pow2(a) || a > b.len() {
        None
    } else {
        let namesz = le_u32(b, 0) as int;
        let descsz = le_u32(b, 4) as int;
        let ty = le_u32(b, 8);
        if namesz == 0 || NHDR_SIZE + namesz - 1 > b.len() || NHDR_SIZE + namesz + a > usize::MAX {
            None
        } else {
            let o1 = round_up(NHDR_SIZE + namesz, a as int);
            if o1 + descsz > b.len() || o1 + descsz + a > usize::MAX {
                None
            } else {
                let o2 = round_up(o1 + descsz, a as int);
                if o2 > b.len() {
                    None
                } else {
                    Some(
                        (ty, b.subrange(NHDR_SIZE as int, NHDR_SIZE + namesz - 1), b.subrange(o1, o1 + descsz), o2),
                    )
                }
            }
        }
    }
}

/// The descriptor of the first note named `HERMIT` with the entry-version type, among
/// the notes read one after another from `b`.
pub open spec fn hermit_note_desc(b: Seq<u8>, a: usize) -> Option<Seq<u8>>
    decreases b.len(),
{
    match note_at(b, a) {
        None => None,
        Some((ty, name, desc, adv)) => if name == hermit_name() && ty == crate::NT_HERMIT_ENTRY_VERSION {
            Some(desc)
        } else if 0 < adv <= b.len() {
            hermit_note_desc(b.skip(adv), a)
        } else {
            None
        },
    }
}

/// A note of a note segment.
pub struct Note<'a> {
    pub ty: u32,
    pub name: &'a [u8],
    pub desc: &'a [u8],
}

/// Reads the notes of a note segment one after another.
pub struct NoteIterator<'a> {
    pub bytes: &'a [u8],
    pub align: usize,
}

/// Starts reading the notes in `bytes`, each aligned to `align`.
pub fn iter_notes(bytes: &[u8], align: usize) -> (r: NoteIterator<'_>)
    ensures
        r.bytes@ == bytes@,
        r.align == align,
{
    NoteIterator { bytes, align }
}

pub proof fn lemma_round_up(x: int, a: int)
    requires
        0 <= x,
        0 < a,
    ensures
        x <= round_up(x, a) < x + a,
{
    vstd::arithmetic::div_mod::lemma_mod_bound(x, a);
}

impl<'a> NoteIterator<'a> {
    /// Reads the next note; `None`, with nothing consumed, when the rest holds no
    /// complete note.
    pub fn next(&mut self) -> (r: Option<Note<'a>>)
        ensures
            final(self).align == old(self).align,
            match note_at(old(self).bytes@, old(self).align) {
                None => r is None && final(self).bytes@ == old(self).bytes@,
                Some((ty, name, desc, adv)) => r matches Some(n) && n.ty == ty && n.name@ == name
                    && n.desc@ == desc && final(self).bytes@ == old(self).bytes@.skip(adv),
            },
    {
        let b = self.bytes;
        let a = self.align;
        if b.len() < NHDR_SIZE || a == 0 || a & (a - 1) != 0 || a > b.len() {
            return None;
        }
        let namesz = read_u32(b, 0) as usize;
        let descsz = read_u32(b, 4) as usize;
        let ty = read_u32(b, 8);
        if namesz == 0 || namesz - 1 > b.len() - NHDR_SIZE || a > usize::MAX - NHDR_SIZE || namesz > usize::MAX - NHDR_SIZE - a {
            return None;
        }
        let name = vstd::slice::slice_subrange(b, NHDR_SIZE, NHDR_SIZE + (namesz - 1));
        proof {
            lemma_round_up(NHDR_SIZE + namesz, a as int);
        }
        let o1 = align_up(NHDR_SIZE + namesz, a);
        if o1 > b.len() || descsz > b.len() - o1 || o1 + descsz > usize::MAX - a {
            return None;
        }
        let desc = vstd::slice::slice_subrange(b, o1, o1 + descsz);
        proof {
            lemma_round_up(o1 + descsz, a as int);
        }
        let o2 = align_up(o1 + descsz, a);
        if o2 > b.len() {
            return None;
        }
        self.bytes = vstd::slice::slice_subrange(b, o2, b.len());
        proof {
            assert(self.bytes@ =~= b@.skip(o2 as int));
        }
        Some(Note { ty, name, desc })
    }
}

} // verus!

verus! {

/// Why a kernel object was refused.
#[derive(Clone, Copy, Debug, PartialEq, Eq)]
pub enum ParseKernelErrorKind {
    TooSmall,
    ProgramHeadersOutOfBounds,
    SectionHeadersOutOfBounds,
    Not64Bit,
    NotLittleEndian,
    NoNoteSegment,
    NoteSegmentOutOfBounds,
    NoEntryVersion,
    EntryVersionMismatch,
    UnsupportedType,
    WrongArchitecture,
    DynamicSegmentOutOfBounds,
    NeedsDynamicLibraries,
    RelocationsWithoutAddend,
    RelocationsOutOfBounds,
    SymbolsOutOfBounds,
    NoLoadableSegment,
    LoadableSegmentOutOfBounds,
}

/// An error returned when parsing a kernel ELF fails.
#[derive(Clone, Copy, Debug, PartialEq, Eq)]
pub struct ParseKernelError {
    pub kind: ParseKernelErrorKind,
}

impl ParseKernelError {
    /// A short description of the error.
    pub fn message(&self) -> &'static str {
        match self.kind {
            ParseKernelErrorKind::TooSmall => "kernel is too small for an ELF header",
            ParseKernelErrorKind::ProgramHeadersOutOfBounds => "program headers lie outside the kernel",
            ParseKernelErrorKind::SectionHeadersOutOfBounds => "section headers lie outside the kernel",
            ParseKernelErrorKind::Not64Bit => "kernel is not a 64-bit object",
            ParseKernelErrorKind::NotLittleEndian => "kernel object is not little endian",
            ParseKernelErrorKind::NoNoteSegment => "Kernel does not have note section",
            ParseKernelErrorKind::NoteSegmentOutOfBounds => "note segment lies outside the kernel",
            ParseKernelErrorKind::NoEntryVersion => "Kernel does not specify hermit entry version",
            ParseKernelErrorKind::EntryVersionMismatch => "hermit entry version does not match",
            ParseKernelErrorKind::UnsupportedType => "kernel has unsupported ELF type",
            ParseKernelErrorKind::WrongArchitecture => "kernel is not compiled for the correct architecture",
            ParseKernelErrorKind::DynamicSegmentOutOfBounds => "dynamic segment lies outside the kernel",
            ParseKernelErrorKind::NeedsDynamicLibraries => "kernel was linked against dynamic libraries",
            ParseKernelErrorKind::RelocationsWithoutAddend => "kernel has relocations without addends",
            ParseKernelErrorKind::RelocationsOutOfBounds => "relocation table lies outside the kernel",
            ParseKernelErrorKind::SymbolsOutOfBounds => "symbol table lies outside the kernel",
            ParseKernelErrorKind::NoLoadableSegment => "kernel has no loadable segment",
            ParseKernelErrorKind::LoadableSegmentOutOfBounds => "loadable segment lies outside the kernel image",
        }
    }
}

/// What a parsed kernel object holds.
pub ghost struct KernelModel {
    pub header: FileHeader,
    pub phs: Seq<ProgramHeader>,
    pub relas: Seq<Rela>,
    pub dynsyms: Seq<Sym>,
}

/// The dynamic entries, when the first dynamic segment (if any) lies in the file.
pub open spec fn dyns_of(b: Seq<u8>, phs: Seq<ProgramHeader>) -> Option<Seq<Dyn>> {
    match find_ph(phs, PT_DYNAMIC) {
        None => Some(seq![]),
        Some(d) => if fits(b.len() as int, d.p_offset as int, d.p_filesz as int) {
            Some(dyns_at(b, d.p_offset as int, d.p_filesz as int / DYN_SIZE as int))
        } else {
            None
        },
    }
}

/// The dynamic symbols, when the first dynamic symbol section (if any) lies in the file.
pub open spec fn syms_of(b: Seq<u8>, shs: Seq<SectionHeader>) -> Option<Seq<Sym>> {
    match find_sh(shs, SHT_DYNSYM) {
        None => Some(seq![]),
        Some(s) => if fits(b.len() as int, s.sh_offset as int, s.sh_size as int) {
            Some(syms_at(b, s.sh_offset as int, s.sh_size as int / SYM_SIZE as int))
        } else {
            None
        },
    }
}

/// Some dynamic entry names a needed library.
pub open spec fn needs_library(dyns: Seq<Dyn>) -> bool {
    exists|i: int| 0 <= i < dyns.len() && #[trigger] dyns[i].d_tag == DT_NEEDED
}

/// A loadable segment lies within `[lo, hi)` in memory and within the file.
pub open spec fn segment_ok(ph: ProgramHeader, lo: int, hi: int, len: int) -> bool {
    &&& lo <= ph.p_vaddr
    &&& ph.p_vaddr + ph.p_memsz <= hi
    &&& ph.p_filesz <= ph.p_memsz
    &&& fits(len, ph.p_offset as int, ph.p_filesz as int)
}

/// Every loadable segment lies between the start of the first and the end of the
/// last one, and within the file.
pub open spec fn segments_valid(phs: Seq<ProgramHeader>, len: int) -> bool {
    match (find_ph(phs, PT_LOAD), find_last_ph(phs, PT_LOAD)) {
        (Some(f), Some(l)) => {
            &&& l.p_vaddr + l.p_memsz <= u64::MAX
            &&& l.p_vaddr + l.p_memsz - f.p_vaddr <= usize::MAX
            &&& forall|i: int|
                0 <= i < phs.len() && #[trigger] phs[i].p_type == PT_LOAD ==> segment_ok(
                    phs[i],
                    f.p_vaddr as int,
                    l.p_vaddr + l.p_memsz,
                    len,
                )
        },
        _ => false,
    }
}

/// The outcome of parsing `b` once the file header has passed its checks.
pub open spec fn dynamic_outcome(
    b: Seq<u8>,
    h: FileHeader,
    phs: Seq<ProgramHeader>,
    shs: Seq<SectionHeader>,
) -> Result<KernelModel, ParseKernelErrorKind> {
    match dyns_of(b, phs) {
        None => Err(ParseKernelErrorKind::DynamicSegmentOutOfBounds),
        Some(dyns) => if needs_library(dyns) {
            Err(ParseKernelErrorKind::NeedsDynamicLibraries)
        } else {
            let (rela, relasz, relcount) = dynamic_info(dyns, phs);
            if relcount != 0 {
                Err(ParseKernelErrorKind::RelocationsWithoutAddend)
            } else if !fits(b.len() as int, rela as int, relasz as int) {
                Err(ParseKernelErrorKind::RelocationsOutOfBounds)
            } else {
                match syms_of(b, shs) {
                    None => Err(ParseKernelErrorKind::SymbolsOutOfBounds),
                    Some(syms) => if find_ph(phs, PT_LOAD) is None {
                        Err(ParseKernelErrorKind::NoLoadableSegment)
                    } else if !segments_valid(phs, b.len() as int) {
                        Err(ParseKernelErrorKind::LoadableSegmentOutOfBounds)
                    } else {
                        Ok(
                            KernelModel {
                                header: h,
                                phs,
                                relas: relas_at(b, rela as int, relasz as int / RELA_SIZE as int),
                                dynsyms: syms,
                            },
                        )
                    },
                }
            }
        },
    }
}

/// The outcome of parsing `b` as a kernel object: the checks in order, the first that
/// fails giving the error.
pub open spec fn parse_outcome(b: Seq<u8>) -> Result<KernelModel, ParseKernelErrorKind> {
    if b.len() < EHDR_SIZE {
        Err(ParseKernelErrorKind::TooSmall)
    } else {
        let h = header_at(b);
        if !fits(b.len() as int, h.e_phoff as int, PHDR_SIZE * h.e_phnum) {
            Err(ParseKernelErrorKind::ProgramHeadersOutOfBounds)
        } else if !fits(b.len() as int, h.e_shoff as int, SHDR_SIZE * h.e_shnum) {
            Err(ParseKernelErrorKind::SectionHeadersOutOfBounds)
        } else if h.class != ELFCLASS64 {
            Err(ParseKernelErrorKind::Not64Bit)
        } else if h.data != ELFDATA2LSB {
            Err(ParseKernelErrorKind::NotLittleEndian)
        } else {
            let phs = phs_at(b, h.e_phoff as int, h.e_phnum as int);
            let shs = shs_at(b, h.e_shoff as int, h.e_shnum as int);
            match find_ph(phs, PT_NOTE) {
                None => Err(ParseKernelErrorKind::NoNoteSegment),
                Some(n) => if !fits(b.len() as int, n.p_offset as int, n.p_filesz as int) {
                    Err(ParseKernelErrorKind::NoteSegmentOutOfBounds)
                } else {
                    match hermit_note_desc(
                        b.subrange(n.p_offset as int, n.p_offset + n.p_filesz),
                        n.p_align as usize,
                    ) {
                        None => Err(ParseKernelErrorKind::NoEntryVersion),
                        Some(d) => if d.len() == 0 || d[0] != crate::HERMIT_ENTRY_VERSION {
                            Err(ParseKernelErrorKind::EntryVersionMismatch)
                        } else if h.e_type != ET_DYN && h.e_type != ET_EXEC {
                            Err(ParseKernelErrorKind::UnsupportedType)
                        } else if h.e_machine != ELF_ARCH {
                            Err(ParseKernelErrorKind::WrongArchitecture)
                        } else {
                            dynamic_outcome(b, h, phs, shs)
                        },
                    }
                },
            }
        }
    }
}

} // verus!

verus! {

proof fn lemma_entry_fits(size: int, i: int, n: int)
    requires
        0 <= i < n,
        0 <= size,
    ensures
        size * i + size <= size * n,
{
    assert(size * i + size <= size * n) by (nonlinear_arith)
        requires
            0 <= i < n,
            0 <= size,
    ;
}

fn read_ph(b: &[u8], off: usize) -> (r: ProgramHeader)
    requires
        off + PHDR_SIZE <= b.len(),
    ensures
        r == ph_at(b@, off as int),
{
    ProgramHeader {
        p_type: read_u32(b, off),
        p_flags: read_u32(b, off + 4),
        p_offset: read_u64(b, off + 8),
        p_vaddr: read_u64(b, off + 16),
        p_paddr: read_u64(b, off + 24),
        p_filesz: read_u64(b, off + 32),
        p_memsz: read_u64(b, off + 40),
        p_align: read_u64(b, off + 48),
    }
}

fn read_phs(b: &[u8], off: usize, n: usize) -> (r: Vec<ProgramHeader>)
    requires
        off + PHDR_SIZE * n <= b.len(),
    ensures
        r@ == phs_at(b@, off as int, n as int),
{
    let mut v: Vec<ProgramHeader> = Vec::new();
    let mut i: usize = 0;
    while i < n
        invariant
            i <= n,
            off + PHDR_SIZE * n <= b.len(),
            v@ =~= phs_at(b@, off as int, i as int),
        decreases n - i,
    {
        proof {
            lemma_entry_fits(PHDR_SIZE as int, i as int, n as int);
        }
        v.push(read_ph(b, off + PHDR_SIZE * i));
        i = i + 1;
    }
    v
}

fn read_shs(b: &[u8], off: usize, n: usize) -> (r: Vec<SectionHeader>)
    requires
        off + SHDR_SIZE * n <= b.len(),
    ensures
        r@ == shs_at(b@, off as int, n as int),
{
    let mut v: Vec<SectionHeader> = Vec::new();
    let mut i: usize = 0;
    while i < n
        invariant
            i <= n,
            off + SHDR_SIZE * n <= b.len(),
            v@ =~= shs_at(b@, off as int, i as int),
        decreases n - i,
    {
        proof {
            lemma_entry_fits(SHDR_SIZE as int, i as int, n as int);
        }
        let o = off + SHDR_SIZE * i;
        v.push(
            SectionHeader {
                sh_type: read_u32(b, o + 4),
                sh_offset: read_u64(b, o + 24),
                sh_size: read_u64(b, o + 32),
            },
        );
        i = i + 1;
    }
    v
}

fn read_dyns(b: &[u8], off: usize, n: usize) -> (r: Vec<Dyn>)
    requires
        off + DYN_SIZE * n <= b.len(),
    ensures
        r@ == dyns_at(b@, off as int, n as int),
{
    let mut v: Vec<Dyn> = Vec::new();
    let mut i: usize = 0;
    while i < n
        invariant
            i <= n,
            off + DYN_SIZE * n <= b.len(),
            v@ =~= dyns_at(b@, off as int, i as int),
        decreases n - i,
    {
        proof {
            lemma_entry_fits(DYN_SIZE as int, i as int, n as int);
        }
        let o = off + DYN_SIZE * i;
        v.push(Dyn { d_tag: read_u64(b, o), d_val: read_u64(b, o + 8) });
        i = i + 1;
    }
    v
}

fn read_relas(b: &[u8], off: usize, n: usize) -> (r: Vec<Rela>)
    requires
        off + RELA_SIZE * n <= b.len(),
    ensures
        r@ == relas_at(b@, off as int, n as int),
{
    let mut v: Vec<Rela> = Vec::new();
    let mut i: usize = 0;
    while i < n
        invariant
            i <= n,
            off + RELA_SIZE * n <= b.len(),
            v@ =~= relas_at(b@, off as int, i as int),
        decreases n - i,
    {
        proof {
            lemma_entry_fits(RELA_SIZE as int, i as int, n as int);
        }
        let o = off + RELA_SIZE * i;
        v.push(
            Rela {
                r_offset: read_u64(b, o),
                r_info: read_u64(b, o + 8),
                r_addend: #[verifier::truncate] (read_u64(b, o + 16) as i64),
            },
        );
        i = i + 1;
    }
    v
}

fn read_syms(b: &[u8], off: usize, n: usize) -> (r: Vec<Sym>)
    requires
        off + SYM_SIZE * n <= b.len(),
    ensures
        r@ == syms_at(b@, off as int, n as int),
{
    let mut v: Vec<Sym> = Vec::new();
    let mut i: usize = 0;
    while i < n
        invariant
            i <= n,
            off + SYM_SIZE * n <= b.len(),
            v@ =~= syms_at(b@, off as int, i as int),
        decreases n - i,
    {
        proof {
            lemma_entry_fits(SYM_SIZE as int, i as int, n as int);
        }
        let o = off + SYM_SIZE * i;
        v.push(
            Sym { st_info: b[o + 4], st_shndx: read_u16(b, o + 6), st_value: read_u64(b, o + 8) },
        );
        i = i + 1;
    }
    v
}

fn first_ph(phs: &Vec<ProgramHeader>, t: u32) -> (r: Option<ProgramHeader>)
    ensures
        r == find_ph(phs@, t),
{
    let mut cur: Option<ProgramHeader> = None;
    let mut i: usize = 0;
    while i < phs.len()
        invariant
            i <= phs@.len(),
            cur == find_ph(phs@.take(i as int), t),
        decreases phs@.len() - i,
    {
        proof {
            assert(phs@.take(i + 1).drop_last() =~= phs@.take(i as int));
        }
        if cur.is_none() && phs[i].p_type == t {
            cur = Some(phs[i]);
        }
        i = i + 1;
    }
    proof {
        assert(phs@.take(phs@.len() as int) =~= phs@);
    }
    cur
}

fn last_ph(phs: &Vec<ProgramHeader>, t: u32) -> (r: Option<ProgramHeader>)
    ensures
        r == find_last_ph(phs@, t),
{
    let mut cur: Option<ProgramHeader> = None;
    let mut i: usize = 0;
    while i < phs.len()
        invariant
            i <= phs@.len(),
            cur == find_last_ph(phs@.take(i as int), t),
        decreases phs@.len() - i,
    {
        proof {
            assert(phs@.take(i + 1).drop_last() =~= phs@.take(i as int));
        }
        if phs[i].p_type == t {
            cur = Some(phs[i]);
        }
        i = i + 1;
    }
    proof {
        assert(phs@.take(phs@.len() as int) =~= phs@);
    }
    cur
}

fn first_sh(shs: &Vec<SectionHeader>, t: u32) -> (r: Option<SectionHeader>)
    ensures
        r == find_sh(shs@, t),
{
    let mut cur: Option<SectionHeader> = None;
    let mut i: usize = 0;
    while i < shs.len()
        invariant
            i <= shs@.len(),
            cur == find_sh(shs@.take(i as int), t),
        decreases shs@.len() - i,
    {
        proof {
            assert(shs@.take(i + 1).drop_last() =~= shs@.take(i as int));
        }
        if cur.is_none() && shs[i].sh_type == t {
            cur = Some(shs[i]);
        }
        i = i + 1;
    }
    proof {
        assert(shs@.take(shs@.len() as int) =~= shs@);
    }
    cur
}

fn any_needed(dyns: &Vec<Dyn>) -> (r: bool)
    ensures
        r == needs_library(dyns@),
{
    let mut i: usize = 0;
    while i < dyns.len()
        invariant
            i <= dyns@.len(),
            forall|j: int| 0 <= j < i ==> dyns@[j].d_tag != DT_NEEDED,
        decreases dyns@.len() - i,
    {
        if dyns[i].d_tag == DT_NEEDED {
            return true;
        }
        i = i + 1;
    }
    false
}

/// Relies on `goblin::elf64::dynamic::DynamicInfo::new`: for each tag the last entry
/// wins; the relocation table's address becomes a file offset through the first
/// loadable segment that holds it (0 when none does or the offset overflows).
#[verifier::external_body]
fn goblin_dynamic_info(dyns: &Vec<Dyn>, phs: &Vec<ProgramHeader>) -> (r: (usize, usize, usize))
    ensures
        r == dynamic_info(dyns@, phs@),
{
    let d: Vec<dynamic::Dyn> = dyns.iter().map(|x| dynamic::Dyn { d_tag: x.d_tag, d_val: x.d_val }).collect();
    let p: Vec<program_header::ProgramHeader> = phs.iter().map(|h| program_header::ProgramHeader {
        p_type: h.p_type, p_flags: h.p_flags, p_offset: h.p_offset, p_vaddr: h.p_vaddr,
        p_paddr: h.p_paddr, p_filesz: h.p_filesz, p_memsz: h.p_memsz, p_align: h.p_align,
    }).collect();
    let info = dynamic::DynamicInfo::new(&d, &p);
    (info.rela, info.relasz, info.relcount)
}

} // verus!

verus! {

/// A parsed kernel object ready for loading.
pub struct KernelObject<'a> {
    /// The raw bytes of the parsed ELF file.
    elf: &'a [u8],
    /// The file header at the beginning of `elf`.
    header: FileHeader,
    /// The program headers; loadable segments are copied, the TLS segment is described.
    phs: Vec<ProgramHeader>,
    /// Relocations with an explicit addend.
    relas: Vec<Rela>,
    /// Symbol table for relocations.
    dynsyms: Vec<Sym>,
}

impl<'a> KernelObject<'a> {
    /// The bytes the object was parsed from.
    pub closed spec fn bytes(&self) -> Seq<u8> {
        self.elf@
    }

    /// What the object holds.
    pub closed spec fn model(&self) -> KernelModel {
        KernelModel {
            header: self.header,
            phs: self.phs@,
            relas: self.relas@,
            dynsyms: self.dynsyms@,
        }
    }

    #[verifier::type_invariant]
    closed spec fn inv(&self) -> bool {
        parse_outcome(self.elf@) == Ok::<KernelModel, ParseKernelErrorKind>(self.model())
    }

    /// Parses raw bytes of an ELF file into a loadable kernel object.
    pub fn parse(elf: &'a [u8]) -> (r: Result<KernelObject<'a>, ParseKernelError>)
        ensures
            match r {
                Ok(k) => k.bytes() == elf@ && parse_outcome(elf@) == Ok::<
                    KernelModel,
                    ParseKernelErrorKind,
                >(k.model()),
                Err(e) => parse_outcome(elf@) == Err::<KernelModel, ParseKernelErrorKind>(e.kind),
            },
    {
        let len = elf.len();
        if len < EHDR_SIZE {
            return Err(ParseKernelError { kind: ParseKernelErrorKind::TooSmall });
        }
        let header = FileHeader {
            class: elf[EI_CLASS],
            data: elf[EI_DATA],
            e_type: read_u16(elf, 16),
            e_machine: read_u16(elf, 18),
            e_entry: read_u64(elf, 24),
            e_phoff: read_u64(elf, 32),
            e_shoff: read_u64(elf, 40),
            e_phnum: read_u16(elf, 56),
            e_shnum: read_u16(elf, 60),
        };
        let phnum = header.e_phnum as usize;
        let shnum = header.e_shnum as usize;
        if header.e_phoff > len as u64 || (PHDR_SIZE * phnum) as u64 > len as u64 - header.e_phoff {
            return Err(ParseKernelError { kind: ParseKernelErrorKind::ProgramHeadersOutOfBounds });
        }
        if header.e_shoff > len as u64 || (SHDR_SIZE * shnum) as u64 > len as u64 - header.e_shoff {
            return Err(ParseKernelError { kind: ParseKernelErrorKind::SectionHeadersOutOfBounds });
        }
        let phs = read_phs(elf, header.e_phoff as usize, phnum);
        let shs = read_shs(elf, header.e_shoff as usize, shnum);

        // General compatibility checks
        if header.class != ELFCLASS64 {
            return Err(ParseKernelError { kind: ParseKernelErrorKind::Not64Bit });
        }
        if header.data != ELFDATA2LSB {
            return Err(ParseKernelError { kind: ParseKernelErrorKind::NotLittleEndian });
        }
        let note_ph = match first_ph(&phs, PT_NOTE) {
            Some(ph) => ph,
            None => return Err(ParseKernelError { kind: ParseKernelErrorKind::NoNoteSegment }),
        };
        if note_ph.p_offset > len as u64 || note_ph.p_filesz > len as u64 - note_ph.p_offset {
            return Err(ParseKernelError { kind: ParseKernelErrorKind::NoteSegmentOutOfBounds });
        }
        let note_bytes = vstd::slice::slice_subrange(
            elf,
            note_ph.p_offset as usize,
            (note_ph.p_offset + note_ph.p_filesz) as usize,
        );
        let desc = match find_hermit_note(note_bytes, #[verifier::truncate] (note_ph.p_align as usize)) {
            Some(d) => d,
            None => return Err(ParseKernelError { kind: ParseKernelErrorKind::NoEntryVersion }),
        };
        if desc.len() == 0 || desc[0] != crate::HERMIT_ENTRY_VERSION {
            return Err(ParseKernelError { kind: ParseKernelErrorKind::EntryVersionMismatch });
        }
        if header.e_type != ET_DYN && header.e_type != ET_EXEC {
            return Err(ParseKernelError { kind: ParseKernelErrorKind::UnsupportedType });
        }
        if header.e_machine != ELF_ARCH {
            return Err(ParseKernelError { kind: ParseKernelErrorKind::WrongArchitecture });
        }

        let dyns = match first_ph(&phs, PT_DYNAMIC) {
            None => Vec::new(),
            Some(ph) => {
                if ph.p_offset > len as u64 || ph.p_filesz > len as u64 - ph.p_offset {
                    return Err(
                        ParseKernelError { kind: ParseKernelErrorKind::DynamicSegmentOutOfBounds },
                    );
                }
                read_dyns(elf, ph.p_offset as usize, ph.p_filesz as usize / DYN_SIZE)
            },
        };
        proof {
            assert(dyns_of(elf@, phs@) == Some(dyns@)) by {
                if find_ph(phs@, PT_DYNAMIC) is None {
                    assert(dyns@ =~= seq![]);
                }
            }
        }
        if any_needed(&dyns) {
            return Err(ParseKernelError { kind: ParseKernelErrorKind::NeedsDynamicLibraries });
        }
        let (rela, relasz, relcount) = goblin_dynamic_info(&dyns, &phs);
        if relcount != 0 {
            return Err(ParseKernelError { kind: ParseKernelErrorKind::RelocationsWithoutAddend });
        }
        if rela > len || relasz > len - rela {
            return Err(ParseKernelError { kind: ParseKernelErrorKind::RelocationsOutOfBounds });
        }
        let relas = read_relas(elf, rela, relasz / RELA_SIZE);

        let dynsyms = match first_sh(&shs, SHT_DYNSYM) {
            None => Vec::new(),
            Some(sh) => {
                if sh.sh_offset > len as u64 || sh.sh_size > len as u64 - sh.sh_offset {
                    return Err(ParseKernelError { kind: ParseKernelErrorKind::SymbolsOutOfBounds });
                }
                read_syms(elf, sh.sh_offset as usize, sh.sh_size as usize / SYM_SIZE)
            },
        };
        proof {
            assert(syms_of(elf@, shs@) == Some(dynsyms@)) by {
                if find_sh(shs@, SHT_DYNSYM) is None {
                    assert(dynsyms@ =~= seq![]);
                }
            }
        }
        if first_ph(&phs, PT_LOAD).is_none() {
            return Err(ParseKernelError { kind: ParseKernelErrorKind::NoLoadableSegment });
        }
        if !check_segments(&phs, len) {
            return Err(ParseKernelError { kind: ParseKernelErrorKind::LoadableSegmentOutOfBounds });
        }
        Ok(KernelObject { elf, header, phs, relas, dynsyms })
    }
}

/// Finds the entry-version note among the notes in `bytes`.
fn find_hermit_note<'b>(bytes: &'b [u8], align: usize) -> (r: Option<&'b [u8]>)
    ensures
        match r {
            Some(d) => hermit_note_desc(bytes@, align) == Some(d@),
            None => hermit_note_desc(bytes@, align) is None,
        },
{
    let mut it = iter_notes(bytes, align);
    loop
        invariant
            it.align == align,
            hermit_note_desc(it.bytes@, align) == hermit_note_desc(bytes@, align),
        decreases it.bytes@.len(),
    {
        let ghost before = it.bytes@;
        let before_len = it.bytes.len();
        match it.next() {
            None => return None,
            Some(note) => {
                let n = note.name;
                if n.len() == 6 && n[0] == 72 && n[1] == 69 && n[2] == 82 && n[3] == 77 && n[4]
                    == 73 && n[5] == 84 && note.ty == crate::NT_HERMIT_ENTRY_VERSION {
                    proof {
                        assert(n@ =~= hermit_name());
                    }
                    return Some(note.desc);
                }
                proof {
                    assert(n@ != hermit_name()
                        || note.ty != crate::NT_HERMIT_ENTRY_VERSION) by {
                        if n@ == hermit_name() {
                            assert(n@[0] == 72 && n@[5] == 84);
                        }
                    }
                    let adv = note_at(before, align).unwrap().3;
                    if !(0 < adv <= before.len()) {
                        // the note consumed nothing: stop
                        assert(hermit_note_desc(before, align) is None);
                    }
                }
                if it.bytes.len() == before_len {
                    return None;
                }
            },
        }
    }
}

/// Checks the layout of the loadable segments.
fn check_segments(phs: &Vec<ProgramHeader>, len: usize) -> (r: bool)
    ensures
        r == segments_valid(phs@, len as int),
{
    let first = first_ph(phs, PT_LOAD);
    let last = last_ph(phs, PT_LOAD);
    match (first, last) {
        (Some(f), Some(l)) => {
            if l.p_vaddr > u64::MAX - l.p_memsz {
                return false;
            }
            let lo = f.p_vaddr;
            let hi = l.p_vaddr + l.p_memsz;
            if hi >= lo && hi - lo > usize::MAX as u64 {
                return false;
            }
            let mut i: usize = 0;
            while i < phs.len()
                invariant
                    i <= phs@.len(),
                    lo == f.p_vaddr,
                    hi == l.p_vaddr + l.p_memsz,
                    find_ph(phs@, PT_LOAD) == Some(f),
                    find_last_ph(phs@, PT_LOAD) == Some(l),
                    forall|j: int|
                        0 <= j < i && #[trigger] phs@[j].p_type == PT_LOAD ==> segment_ok(
                            phs@[j],
                            lo as int,
                            hi as int,
                            len as int,
                        ),
                decreases phs@.len() - i,
            {
                let ph = phs[i];
                if ph.p_type == PT_LOAD {
                    if ph.p_vaddr < lo || ph.p_vaddr > hi || ph.p_memsz > hi - ph.p_vaddr
                        || ph.p_filesz > ph.p_memsz || ph.p_offset > len as u64 || ph.p_filesz
                        > len as u64 - ph.p_offset {
                        proof {
                            assert(phs@[i as int].p_type == PT_LOAD);
                            assert(!segment_ok(phs@[i as int], lo as int, hi as int, len as int));

                        }
                        return false;
                    }
                }
                i = i + 1;
            }
            true
        },
        _ => false,
    }
}

} // verus!

verus! {

/// The first loadable segment.
pub open spec fn first_load(m: KernelModel) -> ProgramHeader {
    find_ph(m.phs, PT_LOAD).unwrap()
}

/// The last loadable segment.
pub open spec fn last_load(m: KernelModel) -> ProgramHeader {
    find_last_ph(m.phs, PT_LOAD).unwrap()
}

/// Bytes from the start of the first loadable segment to the end of the last.
pub open spec fn spec_mem_size(m: KernelModel) -> int {
    last_load(m).p_vaddr + last_load(m).p_memsz - first_load(m).p_vaddr
}

/// The kernel is position-independent.
pub open spec fn relocatable(m: KernelModel) -> bool {
    m.header.e_type == ET_DYN
}

/// The address the kernel must be loaded at, if it is not position-independent.
pub open spec fn spec_start_addr(m: KernelModel) -> Option<u64> {
    if relocatable(m) {
        None
    } else {
        Some(first_load(m).p_vaddr)
    }
}

/// `addr`, shifted by the load base when the kernel is position-independent.
pub open spec fn shifted(m: KernelModel, addr: u64, base: u64) -> u64 {
    if relocatable(m) {
        addr.wrapping_add(base)
    } else {
        addr
    }
}

/// The TLS image description of a kernel loaded at `base`.
pub open spec fn spec_tls_info(m: KernelModel, base: u64) -> Option<TlsInfo> {
    match find_ph(m.phs, PT_TLS) {
        Some(ph) => Some(
            TlsInfo {
                start: shifted(m, ph.p_vaddr, base),
                filesz: ph.p_filesz,
                memsz: ph.p_memsz,
                align: ph.p_align,
            },
        ),
        None => None,
    }
}

/// `mem` with `content` written from `dst` on.
pub open spec fn place(mem: Seq<u8>, dst: int, content: Seq<u8>) -> Seq<u8> {
    Seq::new(
        mem.len(),
        |k: int|
            if dst <= k < dst + content.len() {
                content[k - dst]
            } else {
                mem[k]
            },
    )
}

/// The memory image of a segment: its file bytes, then zeros up to its memory size.
pub open spec fn segment_image(elf: Seq<u8>, ph: ProgramHeader) -> Seq<u8> {
    elf.subrange(ph.p_offset as int, ph.p_offset + ph.p_filesz) + Seq::new(
        (ph.p_memsz - ph.p_filesz) as nat,
        |i: int| 0u8,
    )
}

/// `mem` after copying each loadable segment, in order, to its address less `lo`.
pub open spec fn loaded_image(mem: Seq<u8>, elf: Seq<u8>, phs: Seq<ProgramHeader>, lo: u64) -> Seq<u8>
    decreases phs.len(),
{
    if phs.len() == 0 {
        mem
    } else {
        let m = loaded_image(mem, elf, phs.drop_last(), lo);
        let ph = phs.last();
        if ph.p_type == PT_LOAD {
            place(m, ph.p_vaddr - lo, segment_image(elf, ph))
        } else {
            m
        }
    }
}

/// Why relocating a loaded kernel failed.
#[derive(Clone, Copy, Debug, PartialEq, Eq)]
pub enum LoadKernelError {
    /// A relocation of a kind this loader does not perform.
    UnsupportedRelocation(u32),
    /// A relocation whose target lies outside the loaded image.
    RelocationOutOfBounds,
    /// A relocation that names a symbol the symbol table does not hold.
    UnknownSymbol,
    /// A relocation against an undefined weak symbol whose target is not zero.
    WeakSymbolTargetNotZero,
    /// A global-data relocation with an addend.
    GlobDatAddendNotZero,
}

pub open spec fn r_type(info: u64) -> u32 {
    (info & 0xffff_ffffu64) as u32
}

pub open spec fn r_sym(info: u64) -> u32 {
    (info >> 32u64) as u32
}

/// An undefined weak symbol, which resolves to zero.
pub open spec fn weak_undefined(s: Sym) -> bool {
    (s.st_info >> 4u8) == STB_WEAK && s.st_shndx == SHN_UNDEF
}

/// The eight bytes from `off` are zero.
pub open spec fn zero_at(mem: Seq<u8>, off: int) -> bool {
    forall|k: int| off <= k < off + 8 ==> mem[k] == 0
}

/// `mem` after applying one relocation for the load base `base`.
pub open spec fn apply_relocation(mem: Seq<u8>, r: Rela, syms: Seq<Sym>, base: u64) -> Result<
    Seq<u8>,
    LoadKernelError,
> {
    let t = r_type(r.r_info);
    let off = r.r_offset as int;
    if t != R_ABS64 && t != R_GLOB_DAT && t != R_RELATIVE {
        Err(LoadKernelError::UnsupportedRelocation(t))
    } else if off + 8 > mem.len() {
        Err(LoadKernelError::RelocationOutOfBounds)
    } else if t == R_RELATIVE {
        Ok(put_u64(mem, off, base.wrapping_add_signed(r.r_addend)))
    } else if r_sym(r.r_info) >= syms.len() {
        Err(LoadKernelError::UnknownSymbol)
    } else {
        let s = syms[r_sym(r.r_info) as int];
        if weak_undefined(s) {
            if zero_at(mem, off) {
                Ok(mem)
            } else {
                Err(LoadKernelError::WeakSymbolTargetNotZero)
            }
        } else if t == R_GLOB_DAT && r.r_addend != 0 {
            Err(LoadKernelError::GlobDatAddendNotZero)
        } else {
            Ok(put_u64(mem, off, base.wrapping_add(s.st_value).wrapping_add_signed(r.r_addend)))
        }
    }
}

/// `mem` after applying the relocations in order; the first failure ends it.
pub open spec fn apply_relocations(mem: Seq<u8>, relas: Seq<Rela>, syms: Seq<Sym>, base: u64) -> Result<
    Seq<u8>,
    LoadKernelError,
>
    decreases relas.len(),
{
    if relas.len() == 0 {
        Ok(mem)
    } else {
        match apply_relocations(mem, relas.drop_last(), syms, base) {
            Ok(m) => apply_relocation(m, relas.last(), syms, base),
            Err(e) => Err(e),
        }
    }
}

/// The memory after loading a kernel at `base`, or why relocation failed.
pub open spec fn load_outcome(mem: Seq<u8>, elf: Seq<u8>, m: KernelModel, base: u64) -> Result<
    Seq<u8>,
    LoadKernelError,
> {
    let img = loaded_image(mem, elf, m.phs, first_load(m).p_vaddr);
    if relocatable(m) {
        apply_relocations(img, m.relas, m.dynsyms, base)
    } else {
        Ok(img)
    }
}

/// Load information required by the loader.
#[derive(Debug, PartialEq, Eq)]
pub struct LoadedKernel {
    /// Load information required by the kernel.
    pub load_info: LoadInfo,
    /// The kernel's entry point.
    pub entry_point: u64,
}

proof fn lemma_find_ph_in(phs: Seq<ProgramHeader>, t: u32)
    ensures
        find_ph(phs, t) matches Some(x) ==> exists|i: int|
            0 <= i < phs.len() && phs[i] == x && #[trigger] phs[i].p_type == t,
        find_last_ph(phs, t) matches Some(x) ==> exists|i: int|
            0 <= i < phs.len() && phs[i] == x && #[trigger] phs[i].p_type == t,
    decreases phs.len(),
{
    if phs.len() > 0 {
        lemma_find_ph_in(phs.drop_last(), t);
        if let Some(x) = find_ph(phs.drop_last(), t) {
            let i = choose|i: int| 0 <= i < phs.drop_last().len() && phs.drop_last()[i] == x && #[trigger] phs.drop_last()[i].p_type == t;
            assert(phs[i] == x && phs[i].p_type == t);
        } else {
            if phs.last().p_type == t {
                assert(phs[phs.len() - 1].p_type == t);
            }
        }
        if phs.last().p_type == t {
            assert(phs[phs.len() - 1].p_type == t);
        } else if let Some(x) = find_last_ph(phs.drop_last(), t) {
            let i = choose|i: int| 0 <= i < phs.drop_last().len() && phs.drop_last()[i] == x && #[trigger] phs.drop_last()[i].p_type == t;
            assert(phs[i] == x && phs[i].p_type == t);
        }
    }
}

/// The load span of a parsed kernel: both ends lie in it, and it fits in memory.
proof fn lemma_load_span(b: Seq<u8>, m: KernelModel)
    requires
        parse_outcome(b) == Ok::<KernelModel, ParseKernelErrorKind>(m),
    ensures
        first_load(m).p_vaddr <= last_load(m).p_vaddr + last_load(m).p_memsz,
        last_load(m).p_vaddr + last_load(m).p_memsz <= u64::MAX,
        0 <= spec_mem_size(m) <= usize::MAX,
        find_ph(m.phs, PT_LOAD) is Some,
        find_last_ph(m.phs, PT_LOAD) is Some,
        forall|i: int|
            0 <= i < m.phs.len() && #[trigger] m.phs[i].p_type == PT_LOAD ==> segment_ok(
                m.phs[i],
                first_load(m).p_vaddr as int,
                last_load(m).p_vaddr + last_load(m).p_memsz,
                b.len() as int,
            ),
        m.header.e_type == ET_DYN || m.header.e_type == ET_EXEC,
{
    lemma_model_facts(b, m);
    lemma_find_ph_in(m.phs, PT_LOAD);
}

proof fn lemma_model_facts(b: Seq<u8>, m: KernelModel)
    requires
        parse_outcome(b) == Ok::<KernelModel, ParseKernelErrorKind>(m),
    ensures
        segments_valid(m.phs, b.len() as int),
        find_ph(m.phs, PT_LOAD) is Some,
        find_last_ph(m.phs, PT_LOAD) is Some,
        m.header.e_type == ET_DYN || m.header.e_type == ET_EXEC,
{
}

proof fn lemma_err_sticks(mem: Seq<u8>, relas: Seq<Rela>, syms: Seq<Sym>, base: u64, i: int)
    requires
        0 <= i <= relas.len(),
        apply_relocations(mem, relas.take(i), syms, base) is Err,
    ensures
        apply_relocations(mem, relas, syms, base) == apply_relocations(mem, relas.take(i), syms, base),
    decreases relas.len() - i,
{
    if i < relas.len() {
        assert(relas.take(i + 1).drop_last() =~= relas.take(i));
        lemma_err_sticks(mem, relas, syms, base, i + 1);
    } else {
        assert(relas.take(i) =~= relas);
    }
}

/// Copies a loadable segment to `dst`, zero-filling the rest of its memory size.
fn copy_segment(memory: &mut [u8], elf: &[u8], ph: ProgramHeader, dst: usize)
    requires
        ph.p_filesz <= ph.p_memsz,
        ph.p_offset + ph.p_filesz <= elf.len(),
        dst + ph.p_memsz <= old(memory).len(),
    ensures
        final(memory)@ == place(old(memory)@, dst as int, segment_image(elf@, ph)),
{
    let fsz = ph.p_filesz as usize;
    let msz = ph.p_memsz as usize;
    let off = ph.p_offset as usize;
    let ghost before = memory@;
    let ghost content = segment_image(elf@, ph);
    let mut j: usize = 0;
    while j < msz
        invariant
            j <= msz,
            fsz <= msz,
            msz == ph.p_memsz,
            fsz == ph.p_filesz,
            off == ph.p_offset,
            off + fsz <= elf.len(),
            dst + msz <= memory.len(),
            content == segment_image(elf@, ph),
            content.len() == msz,
            before.len() == memory@.len(),
            memory@ =~= Seq::new(
                before.len(),
                |k: int|
                    if dst <= k < dst + j {
                        content[k - dst]
                    } else {
                        before[k]
                    },
            ),
        decreases msz - j,
    {
        let v = if j < fsz {
            elf[off + j]
        } else {
            0u8
        };
        proof {
            assert(v == content[j as int]);
        }
        memory[dst + j] = v;
        j = j + 1;
    }
    proof {
        assert(memory@ =~= place(before, dst as int, content));
    }
}

/// Applies the relocations in order, stopping at the first that fails.
fn relocate_all(memory: &mut [u8], relas: &Vec<Rela>, syms: &Vec<Sym>, base: u64) -> (res: Result<
    (),
    LoadKernelError,
>)
    ensures
        final(memory)@.len() == old(memory)@.len(),
        match apply_relocations(old(memory)@, relas@, syms@, base) {
            Ok(m) => res is Ok && final(memory)@ == m,
            Err(e) => res == Err::<(), LoadKernelError>(e),
        },
{
    let ghost img = memory@;
    let mut i: usize = 0;
    while i < relas.len()
        invariant
            i <= relas@.len(),
            img == old(memory)@,
            memory@.len() == img.len(),
            apply_relocations(img, relas@.take(i as int), syms@, base) == Ok::<
                Seq<u8>,
                LoadKernelError,
            >(memory@),
        decreases relas@.len() - i,
    {
        proof {
            assert(relas@.take(i + 1).drop_last() =~= relas@.take(i as int));
        }
        match relocate(memory, relas[i], syms, base) {
            Ok(()) => {},
            Err(e) => {
                proof {
                    assert(relas@.take(i + 1).last() == relas@[i as int]);
                    lemma_err_sticks(img, relas@, syms@, base, i + 1);
                }
                return Err(e);
            },
        }
        i = i + 1;
    }
    proof {
        assert(relas@.take(relas@.len() as int) =~= relas@);
    }
    Ok(())
}

fn zero_at_exec(memory: &[u8], off: usize) -> (r: bool)
    requires
        off + 8 <= memory.len(),
    ensures
        r == zero_at(memory@, off as int),
{
    let mut k: usize = 0;
    while k < 8
        invariant
            k <= 8,
            off + 8 <= memory.len(),
            forall|j: int| off <= j < off + k ==> memory@[j] == 0,
        decreases 8 - k,
    {
        if memory[off + k] != 0 {
            assert(memory@[off + k] != 0);
            return false;
        }
        k = k + 1;
    }
    true
}

/// Applies one relocation.
fn relocate(memory: &mut [u8], r: Rela, syms: &Vec<Sym>, base: u64) -> (res: Result<(), LoadKernelError>)
    ensures
        final(memory)@.len() == old(memory)@.len(),
        match apply_relocation(old(memory)@, r, syms@, base) {
            Ok(m) => res is Ok && final(memory)@ == m,
            Err(e) => res == Err::<(), LoadKernelError>(e),
        },
{
    let t = #[verifier::truncate] ((r.r_info & 0xffff_ffffu64) as u32);
    if t != R_ABS64 && t != R_GLOB_DAT && t != R_RELATIVE {
        return Err(LoadKernelError::UnsupportedRelocation(t));
    }
    if r.r_offset > memory.len() as u64 || 8 > memory.len() as u64 - r.r_offset {
        return Err(LoadKernelError::RelocationOutOfBounds);
    }
    let off = r.r_offset as usize;
    if t == R_RELATIVE {
        write_u64(memory, off, base.wrapping_add_signed(r.r_addend));
        return Ok(());
    }
    let si = (#[verifier::truncate] ((r.r_info >> 32u64) as u32)) as usize;
    if si >= syms.len() {
        return Err(LoadKernelError::UnknownSymbol);
    }
    let s = syms[si];
    if (s.st_info >> 4u8) == STB_WEAK && s.st_shndx == SHN_UNDEF {
        if !zero_at_exec(memory, off) {
            return Err(LoadKernelError::WeakSymbolTargetNotZero);
        }
        return Ok(());
    }
    if t == R_GLOB_DAT && r.r_addend != 0 {
        return Err(LoadKernelError::GlobDatAddendNotZero);
    }
    write_u64(memory, off, base.wrapping_add(s.st_value).wrapping_add_signed(r.r_addend));
    Ok(())
}

impl<'a> KernelObject<'a> {
    /// Required memory size for loading.
    pub fn mem_size(&self) -> (r: usize)
        ensures
            r == spec_mem_size(self.model()),
    {
        proof {
            use_type_invariant(self);
            lemma_load_span(self.elf@, self.model());
        }
        let first = first_ph(&self.phs, PT_LOAD).unwrap();
        let last = last_ph(&self.phs, PT_LOAD).unwrap();
        ((last.p_vaddr + last.p_memsz) - first.p_vaddr) as usize
    }

    fn is_relocatable(&self) -> (r: bool)
        ensures
            r == relocatable(self.model()),
    {
        self.header.e_type == ET_DYN
    }

    /// Returns the required start address; `None` when the kernel is position-independent
    /// and may be loaded anywhere.
    pub fn start_addr(&self) -> (r: Option<u64>)
        ensures
            r == spec_start_addr(self.model()),
    {
        proof {
            use_type_invariant(self);
            lemma_model_facts(self.elf@, self.model());
        }
        if self.is_relocatable() {
            None
        } else {
            Some(first_ph(&self.phs, PT_LOAD).unwrap().p_vaddr)
        }
    }

    fn tls_info(&self, start_addr: u64) -> (r: Option<TlsInfo>)
        ensures
            r == spec_tls_info(self.model(), start_addr),
    {
        match first_ph(&self.phs, PT_TLS) {
            Some(ph) => {
                let start = if self.is_relocatable() {
                    ph.p_vaddr.wrapping_add(start_addr)
                } else {
                    ph.p_vaddr
                };
                Some(TlsInfo { start, filesz: ph.p_filesz, memsz: ph.p_memsz, align: ph.p_align })
            },
            None => None,
        }
    }

    fn entry_point(&self, start_addr: u64) -> (r: u64)
        ensures
            r == shifted(self.model(), self.model().header.e_entry, start_addr),
    {
        if self.is_relocatable() {
            self.header.e_entry.wrapping_add(start_addr)
        } else {
            self.header.e_entry
        }
    }

    /// Loads the kernel into `memory`, which stands for the addresses from `start_addr`
    /// on: copies each loadable segment, zero-fills the rest of its memory size, and
    /// relocates a position-independent kernel for `start_addr`.
    pub fn load_kernel(&self, memory: &mut [u8], start_addr: u64) -> (r: Result<
        LoadedKernel,
        LoadKernelError,
    >)
        requires
            old(memory)@.len() == spec_mem_size(self.model()),
            !relocatable(self.model()) ==> start_addr == first_load(self.model()).p_vaddr,
            start_addr + spec_mem_size(self.model()) <= u64::MAX,
        ensures
            final(memory)@.len() == old(memory)@.len(),
            match r {
                Ok(lk) => {
                    &&& load_outcome(old(memory)@, self.bytes(), self.model(), start_addr) == Ok::<
                        Seq<u8>,
                        LoadKernelError,
                    >(final(memory)@)
                    &&& lk.load_info.kernel_image_addr_range.start == start_addr
                    &&& lk.load_info.kernel_image_addr_range.end == start_addr + spec_mem_size(
                        self.model(),
                    )
                    &&& lk.load_info.tls_info == spec_tls_info(self.model(), start_addr)
                    &&& lk.entry_point == shifted(
                        self.model(),
                        self.model().header.e_entry,
                        start_addr,
                    )
                },
                Err(e) => load_outcome(old(memory)@, self.bytes(), self.model(), start_addr) == Err::<
                    Seq<u8>,
                    LoadKernelError,
                >(e),
            },
    {
        proof {
            use_type_invariant(self);
            lemma_load_span(self.elf@, self.model());
        }
        let ghost m = self.model();
        let ghost m0 = memory@;
        let lo = first_ph(&self.phs, PT_LOAD).unwrap().p_vaddr;
        let mem_size = self.mem_size();
        let mut i: usize = 0;
        while i < self.phs.len()
            invariant
                i <= self.phs@.len(),
                m == self.model(),
                lo == first_load(m).p_vaddr,
                mem_size == spec_mem_size(m),
                memory@.len() == mem_size,
                forall|k: int|
                    0 <= k < m.phs.len() && #[trigger] m.phs[k].p_type == PT_LOAD ==> segment_ok(
                        m.phs[k],
                        lo as int,
                        last_load(m).p_vaddr + last_load(m).p_memsz,
                        self.elf@.len() as int,
                    ),
                memory@ == loaded_image(m0, self.elf@, self.phs@.take(i as int), lo),
            decreases self.phs@.len() - i,
        {
            proof {
                assert(self.phs@.take(i + 1).drop_last() =~= self.phs@.take(i as int));
            }
            let ph = self.phs[i];
            if ph.p_type == PT_LOAD {
                proof {
                    assert(m.phs[i as int].p_type == PT_LOAD);
                }
                copy_segment(memory, self.elf, ph, (ph.p_vaddr - lo) as usize);
            }
            i = i + 1;
        }
        proof {
            assert(self.phs@.take(self.phs@.len() as int) =~= self.phs@);
        }
        if self.is_relocatable() {
            let res = relocate_all(memory, &self.relas, &self.dynsyms, start_addr);
            if let Err(e) = res {
                return Err(e);
            }
        }
        Ok(
            LoadedKernel {
                load_info: LoadInfo {
                    kernel_image_addr_range: start_addr..start_addr + mem_size as u64,
                    tls_info: self.tls_info(start_addr),
                },
                entry_point: self.entry_point(start_addr),
            },
        )
    }
}

} // verus!

verus! {

/// The program headers of `b`, read where its file header says they are.
pub open spec fn program_headers(b: Seq<u8>) -> Seq<ProgramHeader> {
    let h = header_at(b);
    phs_at(b, h.e_phoff as int, h.e_phnum as int)
}

/// `b` has a file header and program headers, and its dynamic segment names a needed
/// library.
pub open spec fn declares_needed_library(b: Seq<u8>) -> bool {
    &&& b.len() >= EHDR_SIZE
    &&& fits(b.len() as int, header_at(b).e_phoff as int, PHDR_SIZE * header_at(b).e_phnum)
    &&& match dyns_of(b, program_headers(b)) {
        Some(d) => needs_library(d),
        None => false,
    }
}

/// `b` has a file header and program headers, and its entry-version note carries a
/// version other than the one this loader speaks.
pub open spec fn declares_other_entry_version(b: Seq<u8>) -> bool {
    &&& b.len() >= EHDR_SIZE
    &&& fits(b.len() as int, header_at(b).e_phoff as int, PHDR_SIZE * header_at(b).e_phnum)
    &&& match find_ph(program_headers(b), PT_NOTE) {
        Some(n) => {
            &&& fits(b.len() as int, n.p_offset as int, n.p_filesz as int)
            &&& match hermit_note_desc(
                b.subrange(n.p_offset as int, n.p_offset + n.p_filesz),
                n.p_align as usize,
            ) {
                Some(d) => d.len() > 0 && d[0] != crate::HERMIT_ENTRY_VERSION,
                None => false,
            }
        },
        None => false,
    }
}

/// A kernel that names any needed library is refused, whatever its other fields hold.
pub proof fn lemma_needed_library_rejected(b: Seq<u8>)
    requires
        declares_needed_library(b),
    ensures
        parse_outcome(b) is Err,
{
}

/// A kernel whose entry-version note holds another version is refused, whatever its
/// other fields hold.
pub proof fn lemma_other_entry_version_rejected(b: Seq<u8>)
    requires
        declares_other_entry_version(b),
    ensures
        parse_outcome(b) is Err,
{
}

/// Parsing depends on the bytes alone: two kernel objects parsed from the same bytes
/// need the same memory size and start address, and load and relocate any memory the
/// same way.
pub proof fn lemma_parse_idempotent(
    b: Seq<u8>,
    m1: KernelModel,
    m2: KernelModel,
    mem: Seq<u8>,
    base: u64,
)
    requires
        parse_outcome(b) == Ok::<KernelModel, ParseKernelErrorKind>(m1),
        parse_outcome(b) == Ok::<KernelModel, ParseKernelErrorKind>(m2),
    ensures
        spec_mem_size(m1) == spec_mem_size(m2),
        spec_start_addr(m1) == spec_start_addr(m2),
        load_outcome(mem, b, m1, base) == load_outcome(mem, b, m2, base),
        spec_tls_info(m1, base) == spec_tls_info(m2, base),
        shifted(m1, m1.header.e_entry, base) == shifted(m2, m2.header.e_entry, base),
{
}

} // verus!

verus! {

/// Byte `k` of the destination lies in the memory of some loadable segment placed
/// relative to `lo`.
pub open spec fn covered(phs: Seq<ProgramHeader>, lo: u64, k: int) -> bool {
    exists|i: int|
        0 <= i < phs.len() && #[trigger] phs[i].p_type == PT_LOAD && phs[i].p_vaddr - lo <= k
            < phs[i].p_vaddr - lo + phs[i].p_memsz
}

/// Copying the segments writes every byte they cover, whatever the destination held
/// before: two destinations of one length agree there after loading.
pub proof fn lemma_loaded_bytes_independent(
    m1: Seq<u8>,
    m2: Seq<u8>,
    elf: Seq<u8>,
    phs: Seq<ProgramHeader>,
    lo: u64,
    k: int,
)
    requires
        m1.len() == m2.len(),
        0 <= k < m1.len(),
        covered(phs, lo, k),
        forall|i: int|
            0 <= i < phs.len() && #[trigger] phs[i].p_type == PT_LOAD ==> phs[i].p_filesz
                <= phs[i].p_memsz && fits(elf.len() as int, phs[i].p_offset as int, phs[i].p_filesz as int),
    ensures
        loaded_image(m1, elf, phs, lo)[k] == loaded_image(m2, elf, phs, lo)[k],
    decreases phs.len(),
{
    let ph = phs.last();
    let lower = phs.drop_last();
    lemma_loaded_len(m1, elf, lower, lo);
    lemma_loaded_len(m2, elf, lower, lo);
    if ph.p_type == PT_LOAD && ph.p_vaddr - lo <= k < ph.p_vaddr - lo + ph.p_memsz {
        assert(phs[phs.len() - 1].p_type == PT_LOAD);
        assert(segment_image(elf, ph).len() == ph.p_memsz);
    } else {
        let i = choose|i: int|
            0 <= i < phs.len() && #[trigger] phs[i].p_type == PT_LOAD && phs[i].p_vaddr - lo <= k
                < phs[i].p_vaddr - lo + phs[i].p_memsz;
        assert(i != phs.len() - 1);
        assert(lower[i] == phs[i]);
        assert forall|i2: int| 0 <= i2 < lower.len() && #[trigger] lower[i2].p_type == PT_LOAD implies lower[i2].p_filesz
            <= lower[i2].p_memsz && fits(elf.len() as int, lower[i2].p_offset as int, lower[i2].p_filesz as int) by {
            assert(lower[i2] == phs[i2]);
        }
        lemma_loaded_bytes_independent(m1, m2, elf, lower, lo, k);
    }
}

proof fn lemma_loaded_len(m: Seq<u8>, elf: Seq<u8>, phs: Seq<ProgramHeader>, lo: u64)
    ensures
        loaded_image(m, elf, phs, lo).len() == m.len(),
    decreases phs.len(),
{
    if phs.len() > 0 {
        lemma_loaded_len(m, elf, phs.drop_last(), lo);
    }
}

} // verus!

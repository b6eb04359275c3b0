//! A zero-copy reader for the records of an already decompressed tar archive.

use vstd::prelude::*;

use core::ops::Range;

use crate::elf::round_up;
use crate::filename::{truncate, until_nul, Filename, StrFilename};
use crate::text::{find_byte, octal_u16, octal_u64, parses_unsigned, str_from_utf8, unsigned_value};

verus! {

broadcast use vstd::slice::group_slice_axioms;

/// Size of a header block, and the unit in which contents are stored.
pub const BLOCK_SIZE: usize = 512;

/// A reader over the records of an archive, from the front of what remains.
#[derive(Clone, Copy)]
pub struct Parser<'a> {
    input: &'a [u8],
    offset: usize,
}

/// A regular file of an archive.
#[derive(Debug)]
pub struct File<'a> {
    /// Its name.
    pub name: Filename<'a>,
    /// Whether any execute permission bit is set.
    pub is_exec: bool,
    /// Where its content lies in the archive.
    pub value_range: Range<usize>,
    /// Its content.
    pub value: &'a [u8],
}

/// Why reading an archive, or building an index of it, failed.
#[derive(Debug, PartialEq)]
pub enum ParserError<'a> {
    /// A record runs past the end of the archive.
    UnexpectedEof,
    /// A numeric field is not an octal number that fits.
    ParseInt(core::num::ParseIntError),
    /// A size does not fit in memory.
    FromInt(core::num::TryFromIntError),
    /// A numeric field is not UTF-8.
    Utf8(core::str::Utf8Error),
    /// A file name is not UTF-8.
    Utf8Opaque,
    /// A path runs through a file as if it were a directory; holds the path to that file.
    FileOverridenWithDirectory(StrFilename<'a>),
}

/// A file name, as byte strings.
pub ghost enum NameModel {
    One(Seq<u8>),
    Two(Seq<u8>, Seq<u8>),
}

pub open spec fn name_view(n: Filename) -> NameModel {
    match n {
        Filename::One(x) => NameModel::One(x@),
        Filename::Two(x, y) => NameModel::Two(x@, y@),
    }
}

/// What a file record holds.
pub ghost struct FileModel {
    pub name: NameModel,
    pub is_exec: bool,
    pub start: int,
    pub end: int,
    pub value: Seq<u8>,
}

pub open spec fn file_view(f: File) -> FileModel {
    FileModel {
        name: name_view(f.name),
        is_exec: f.is_exec,
        start: f.value_range.start as int,
        end: f.value_range.end as int,
        value: f.value@,
    }
}

/// The kinds of read failure.
pub ghost enum Failure {
    UnexpectedEof,
    ParseInt,
    FromInt,
    Utf8,
}

pub open spec fn error_is(e: ParserError, f: Failure) -> bool {
    match f {
        Failure::UnexpectedEof => e is UnexpectedEof,
        Failure::ParseInt => e is ParseInt,
        Failure::FromInt => e is FromInt,
        Failure::Utf8 => e is Utf8,
    }
}

/// The result of reading the next record.
pub ghost enum Step {
    /// The archive ends here.
    End,
    /// A regular file, with what remains after it and the offset of that.
    Record(FileModel, Seq<u8>, int),
    /// Reading failed.
    Fail(Failure),
}

/// The block is all zero bytes: the end-of-archive marker.
pub open spec fn block_is_zero(h: Seq<u8>) -> bool {
    forall|i: int| 0 <= i < BLOCK_SIZE ==> h[i] == 0
}

/// An octal numeric field, cut at its first NUL.
pub open spec fn octal_field(h: Seq<u8>, start: int, end: int) -> Seq<u8> {
    until_nul(h.subrange(start, end))
}

/// Some execute bit is set in the mode field (false when it does not parse).
pub open spec fn mode_is_exec(h: Seq<u8>) -> bool {
    let t = octal_field(h, 100, 108);
    &&& vstd::utf8::valid_utf8(t)
    &&& parses_unsigned(t, 8, u16::MAX as int)
    &&& (unsigned_value(t, 8) as u16) & 0o111u16 != 0
}

/// The entry is a regular file.
pub open spec fn is_regular(h: Seq<u8>) -> bool {
    h[156] == 0 || h[156] == 48
}

pub open spec fn ustar_magic() -> Seq<u8> {
    seq![117u8, 115u8, 116u8, 97u8, 114u8, 0u8]
}

/// The name of a record: the name field, joined to the prefix field when the header is
/// in the ustar format and its prefix is in use.
pub open spec fn record_name(h: Seq<u8>) -> NameModel {
    let name = until_nul(h.subrange(0, 100));
    let prefix = h.subrange(345, 500);
    if h.subrange(257, 263) == ustar_magic() && (prefix[0] != 0 || name.contains(92u8))
        && until_nul(prefix).len() > 0 {
        NameModel::Two(until_nul(prefix), name)
    } else {
        NameModel::One(name)
    }
}

/// Reads the next regular file from `input`, which lies at `offset` in the archive,
/// passing over entries of other kinds.
pub open spec fn tar_step(input: Seq<u8>, offset: int) -> Step
    decreases input.len(),
{
    if input.len() < BLOCK_SIZE {
        if input.len() == 0 {
            Step::End
        } else {
            Step::Fail(Failure::UnexpectedEof)
        }
    } else {
        let h = input.take(BLOCK_SIZE as int);
        let rest = input.skip(BLOCK_SIZE as int);
        let sf = octal_field(h, 124, 136);
        if block_is_zero(h) {
            Step::End
        } else if !vstd::utf8::valid_utf8(sf) {
            Step::Fail(Failure::Utf8)
        } else if !parses_unsigned(sf, 8, u64::MAX as int) {
            Step::Fail(Failure::ParseInt)
        } else {
            let size = unsigned_value(sf, 8);
            let padded = round_up(size, BLOCK_SIZE as int);
            if size > usize::MAX {
                Step::Fail(Failure::FromInt)
            } else if is_regular(h) && size > rest.len() {
                Step::Fail(Failure::UnexpectedEof)
            } else if !(0 <= padded <= rest.len()) {
                Step::Fail(Failure::UnexpectedEof)
            } else if is_regular(h) {
                Step::Record(
                    FileModel {
                        name: record_name(h),
                        is_exec: mode_is_exec(h),
                        start: offset + BLOCK_SIZE,
                        end: offset + BLOCK_SIZE + size,
                        value: rest.take(size),
                    },
                    rest.skip(padded),
                    offset + BLOCK_SIZE + padded,
                )
            } else {
                tar_step(rest.skip(padded), offset + BLOCK_SIZE + padded)
            }
        }
    }
}

/// Parses an octal numeric field, cut at its first NUL.
fn try_parse_octal<'a>(s: &[u8]) -> (r: Result<u64, ParserError<'a>>)
    ensures
        ({
            let t = until_nul(s@);
            match r {
                Ok(v) => vstd::utf8::valid_utf8(t) && parses_unsigned(t, 8, u64::MAX as int)
                    && v == unsigned_value(t, 8),
                Err(e) => if !vstd::utf8::valid_utf8(t) {
                    e is Utf8
                } else {
                    !parses_unsigned(t, 8, u64::MAX as int) && e is ParseInt
                },
            }
        }),
{
    match str_from_utf8(truncate(s)) {
        Err(e) => Err(ParserError::Utf8(e)),
        Ok(text) => match octal_u64(text) {
            Ok(v) => Ok(v),
            Err(e) => Err(ParserError::ParseInt(e)),
        },
    }
}

/// Whether the mode field sets an execute bit; false when it does not parse.
fn mode_exec(field: &[u8]) -> (r: bool)
    ensures
        r == ({
            let t = until_nul(field@);
            &&& vstd::utf8::valid_utf8(t)
            &&& parses_unsigned(t, 8, u16::MAX as int)
            &&& (unsigned_value(t, 8) as u16) & 0o111u16 != 0
        }),
{
    match str_from_utf8(truncate(field)) {
        Err(_) => false,
        Ok(text) => match octal_u16(text) {
            Ok(mode) => mode & 0o111u16 != 0,
            Err(_) => false,
        },
    }
}

fn all_zero(h: &[u8]) -> (r: bool)
    ensures
        r == (forall|i: int| 0 <= i < h@.len() ==> h@[i] == 0),
{
    let mut i: usize = 0;
    while i < h.len()
        invariant
            i <= h@.len(),
            forall|j: int| 0 <= j < i ==> h@[j] == 0,
        decreases h@.len() - i,
    {
        if h[i] != 0 {
            return false;
        }
        i = i + 1;
    }
    true
}

} // verus!

verus! {

fn is_ustar(magic: &[u8]) -> (r: bool)
    requires
        magic@.len() == 6,
    ensures
        r == (magic@ == ustar_magic()),
{
    let r = magic[0] == 117 && magic[1] == 115 && magic[2] == 116 && magic[3] == 97 && magic[4]
        == 114 && magic[5] == 0;
    proof {
        if r {
            assert(magic@ =~= ustar_magic());
        } else {
            assert(magic@ != ustar_magic()) by {
                if magic@ == ustar_magic() {
                    assert(magic@[0] == ustar_magic()[0]);
                    assert(magic@[5] == ustar_magic()[5]);
                }
            }
        }
    }
    r
}

fn name_of<'a>(header: &'a [u8]) -> (r: Filename<'a>)
    requires
        header@.len() == BLOCK_SIZE,
    ensures
        name_view(r) == record_name(header@),
{
    let name = truncate(vstd::slice::slice_subrange(header, 0, 100));
    let magic = vstd::slice::slice_subrange(header, 257, 263);
    let prefix = vstd::slice::slice_subrange(header, 345, 500);
    let backslash = find_byte(name, 92);
    proof {
        if backslash < name@.len() {
            assert(name@[backslash as int] == 92u8);
            assert(name@.contains(92u8));
        } else {
            assert(!name@.contains(92u8));
        }
    }
    if is_ustar(magic) && (prefix[0] != 0 || backslash < name.len()) {
        let p = truncate(prefix);
        if p.len() > 0 {
            return Filename::Two(p, name);
        }
    }
    Filename::One(name)
}

impl<'a> Parser<'a> {
    /// What remains to be read.
    pub closed spec fn remaining(&self) -> Seq<u8> {
        self.input@
    }

    /// The offset in the archive of what remains.
    pub closed spec fn position(&self) -> int {
        self.offset as int
    }

    #[verifier::type_invariant]
    closed spec fn inv(&self) -> bool {
        self.offset + self.input@.len() <= usize::MAX
    }

    /// A reader at the start of `input`.
    pub fn new(input: &'a [u8]) -> (r: Self)
        ensures
            r.remaining() == input@,
            r.position() == 0,
    {
        let _ = input.len();
        Parser { input, offset: 0 }
    }

    fn next_intern(&mut self) -> (r: Result<Option<File<'a>>, ParserError<'a>>)
        ensures
            match tar_step(old(self).remaining(), old(self).position()) {
                Step::End => r matches Ok(None) && tar_step(final(self).remaining(), final(self).position()) is End,
                Step::Record(fm, rest, off) => r matches Ok(Some(f)) && file_view(f) == fm
                    && final(self).remaining() == rest && final(self).position() == off,
                Step::Fail(k) => r matches Err(e) && error_is(e, k),
            },
    {
        proof {
            use_type_invariant(&*self);
        }
        let mut input = self.input;
        let mut offset = self.offset;
        while input.len() >= BLOCK_SIZE
            invariant
                offset + input@.len() <= usize::MAX,
                tar_step(input@, offset as int) == tar_step(
                    old(self).remaining(),
                    old(self).position(),
                ),
            decreases input@.len(),
        {
            let header = vstd::slice::slice_subrange(input, 0, BLOCK_SIZE);
            let rest = vstd::slice::slice_subrange(input, BLOCK_SIZE, input.len());
            proof {
                assert(header@ =~= input@.take(BLOCK_SIZE as int));
                assert(rest@ =~= input@.skip(BLOCK_SIZE as int));
            }
            if all_zero(header) {
                *self = Parser { input, offset };
                return Ok(None);
            }
            let size64 = match try_parse_octal(vstd::slice::slice_subrange(header, 124, 136)) {
                Ok(v) => v,
                Err(e) => return Err(e),
            };
            let size = match usize::try_from(size64) {
                Ok(v) => v,
                Err(e) => return Err(ParserError::FromInt(e)),
            };
            let regular = header[156] == 0 || header[156] == 48;
            if size > rest.len() {
                proof {
                    crate::elf::lemma_round_up(size as int, BLOCK_SIZE as int);
                }
                return Err(ParserError::UnexpectedEof);
            }
            let padded = if size % BLOCK_SIZE == 0 {
                size
            } else {
                size + (BLOCK_SIZE - size % BLOCK_SIZE)
            };
            if padded > rest.len() {
                return Err(ParserError::UnexpectedEof);
            }
            let after = vstd::slice::slice_subrange(rest, padded, rest.len());
            proof {
                assert(after@ =~= rest@.skip(padded as int));
            }
            if regular {
                let is_exec = mode_exec(vstd::slice::slice_subrange(header, 100, 108));
                let value = vstd::slice::slice_subrange(rest, 0, size);
                let start = offset + BLOCK_SIZE;
                let name = name_of(header);
                *self = Parser { input: after, offset: offset + BLOCK_SIZE + padded };
                proof {
                    assert(value@ =~= rest@.take(size as int));
                }
                return Ok(Some(File { name, is_exec, value_range: start..start + size, value }));
            }
            input = after;
            offset = offset + BLOCK_SIZE + padded;
        }
        if input.len() == 0 {
            *self = Parser { input, offset };
            Ok(None)
        } else {
            Err(ParserError::UnexpectedEof)
        }
    }

    /// Reads the next regular file. After an error nothing more is read: every later
    /// call returns `None`.
    pub fn next(&mut self) -> (r: Option<Result<File<'a>, ParserError<'a>>>)
        ensures
            match tar_step(old(self).remaining(), old(self).position()) {
                Step::End => r is None && tar_step(final(self).remaining(), final(self).position()) is End,
                Step::Record(fm, rest, off) => r matches Some(Ok(f)) && file_view(f) == fm
                    && final(self).remaining() == rest && final(self).position() == off,
                Step::Fail(k) => r matches Some(Err(e)) && error_is(e, k) && final(self).remaining().len() == 0,
            },
    {
        match self.next_intern() {
            Ok(None) => None,
            Ok(Some(x)) => Some(Ok(x)),
            Err(e) => {
                let empty = vstd::slice::slice_subrange(self.input, 0, 0);
                *self = Parser { input: empty, offset: 0 };
                Some(Err(e))
            },
        }
    }
}

/// Once nothing remains, reading ends: after a failure, which leaves nothing to read,
/// every later read yields nothing.
pub proof fn lemma_nothing_after_failure(offset: int)
    ensures
        tar_step(seq![], offset) is End,
{
}

/// Reading always makes progress: a step ends the archive, fails (after which nothing
/// remains to read), or yields a file and leaves at least one block less to read.
pub proof fn lemma_step_progress(input: Seq<u8>, offset: int)
    ensures
        tar_step(input, offset) matches Step::Record(_, rest, _) ==> rest.len() + BLOCK_SIZE
            <= input.len(),
    decreases input.len(),
{
    if input.len() >= BLOCK_SIZE {
        let h = input.take(BLOCK_SIZE as int);
        let rest = input.skip(BLOCK_SIZE as int);
        let sf = octal_field(h, 124, 136);
        let size = unsigned_value(sf, 8);
        let padded = round_up(size, BLOCK_SIZE as int);
        if 0 <= padded <= rest.len() && !is_regular(h) {
            lemma_step_progress(rest.skip(padded), offset + BLOCK_SIZE + padded);
        }
    }
}

/// The regular files read from an archive, in order, and the failure that ended
/// reading, if one did.
pub open spec fn archive_read(input: Seq<u8>, offset: int) -> (Seq<FileModel>, Option<Failure>)
    decreases input.len(),
{
    match tar_step(input, offset) {
        Step::End => (seq![], None),
        Step::Fail(f) => (seq![], Some(f)),
        Step::Record(fm, rest, off) => if rest.len() < input.len() {
            let r = archive_read(rest, off);
            (seq![fm] + r.0, r.1)
        } else {
            // never: every record takes up at least its header block
            (seq![fm], None)
        },
    }
}

/// Reading an archive yields at most one file per block of its bytes (and, after them,
/// at most one error): the sequence of records is finite.
pub proof fn lemma_records_bounded(input: Seq<u8>, offset: int)
    ensures
        archive_read(input, offset).0.len() * BLOCK_SIZE <= input.len(),
    decreases input.len(),
{
    lemma_step_progress(input, offset);
    if let Step::Record(fm, rest, off) = tar_step(input, offset) {
        lemma_records_bounded(rest, off);
        let n = archive_read(rest, off).0.len();
        assert((n + 1) * BLOCK_SIZE == n * BLOCK_SIZE + BLOCK_SIZE) by (nonlinear_arith);
    }
}

} // verus!

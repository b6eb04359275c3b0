use hermit_entry::tar_parser::{File, Parser, ParserError};
use hermit_entry::thin_tree::ThinTreeRef;
use hermit_entry::{Filename, StrFilename};

fn header(name: &str, mode: &str, size: &str, typeflag: u8, prefix: &str) -> Vec<u8> {
    let mut h = vec![0u8; 512];
    h[..name.len()].copy_from_slice(name.as_bytes());
    h[100..100 + mode.len()].copy_from_slice(mode.as_bytes());
    h[124..124 + size.len()].copy_from_slice(size.as_bytes());
    h[156] = typeflag;
    h[257..263].copy_from_slice(b"ustar\0");
    h[263..265].copy_from_slice(b"00");
    h[345..345 + prefix.len()].copy_from_slice(prefix.as_bytes());
    h
}

fn entry(name: &str, mode: &str, typeflag: u8, prefix: &str, content: &[u8]) -> Vec<u8> {
    let mut v = header(name, mode, &format!("{:011o}", content.len()), typeflag, prefix);
    v.extend_from_slice(content);
    let pad = (512 - content.len() % 512) % 512;
    v.extend(std::iter::repeat(0u8).take(pad));
    v
}

fn archive(entries: &[Vec<u8>]) -> Vec<u8> {
    let mut v: Vec<u8> = entries.concat();
    v.extend(std::iter::repeat(0u8).take(1024));
    v
}

fn files(image: &[u8]) -> Vec<Result<File<'_>, ParserError<'_>>> {
    let mut p = Parser::new(image);
    let mut out = Vec::new();
    while let Some(x) = p.next() {
        out.push(x);
        assert!(out.len() < 10_000);
    }
    out
}

#[test]
fn reads_regular_files_and_skips_others() {
    let image = archive(&[
        entry("dir/", "0000755", b'5', "", b""),
        entry("dir/a.txt", "0000644", b'0', "", b"hello"),
        entry("dir/run", "0000755", 0, "", &[7u8; 600]),
    ]);
    let fs = files(&image);
    assert_eq!(fs.len(), 2);
    let a = fs[0].as_ref().unwrap();
    assert_eq!(a.name, Filename::One(b"dir/a.txt"));
    assert!(!a.is_exec);
    assert_eq!(a.value_range, 1024..1029);
    assert_eq!(a.value, b"hello");
    let r = fs[1].as_ref().unwrap();
    assert_eq!(r.name, Filename::One(b"dir/run"));
    assert!(r.is_exec);
    assert_eq!(r.value_range, 2048..2648);
    assert_eq!(r.value, &[7u8; 600][..]);
}

#[test]
fn long_names_use_the_prefix() {
    let image = archive(&[entry("name", "0000644", b'0', "some/long/prefix", b"x")]);
    let fs = files(&image);
    assert_eq!(fs[0].as_ref().unwrap().name, Filename::Two(b"some/long/prefix", b"name"));
    assert_eq!(
        fs[0].as_ref().unwrap().name.try_as_str(),
        Some(StrFilename::Two("some/long/prefix", "name"))
    );
}

#[test]
fn empty_input_and_end_marker() {
    assert!(files(&[]).is_empty());
    assert!(files(&[0u8; 1024]).is_empty());
    let mut p = Parser::new(&[0u8; 512]);
    assert!(p.next().is_none());
    assert!(p.next().is_none());
}

#[test]
fn truncated_content_ends_with_an_error() {
    let mut image = entry("a", "0000644", b'0', "", &[1u8; 100]);
    image.truncate(512 + 50);
    let mut p = Parser::new(&image);
    assert_eq!(p.next().map(|r| r.err()), Some(Some(ParserError::UnexpectedEof)));
    assert!(p.next().is_none());
}

#[test]
fn short_trailing_block_is_an_error() {
    let fs = files(&[1u8; 100]);
    assert_eq!(fs.len(), 1);
    assert_eq!(fs[0].as_ref().err(), Some(&ParserError::UnexpectedEof));
}

#[test]
fn malformed_size_fields() {
    let image = archive(&[header("a", "0000644", "12z", b'0', "")]);
    let fs = files(&image);
    assert_eq!(fs.len(), 1);
    assert!(matches!(fs[0], Err(ParserError::ParseInt(_))));

    let mut h = header("a", "0000644", "1", b'0', "");
    h[124] = 0xff;
    let image = archive(&[h]);
    let fs = files(&image);
    assert_eq!(fs.len(), 1);
    assert!(matches!(fs[0], Err(ParserError::Utf8(_))));
}

#[test]
fn bad_mode_is_not_executable() {
    let image = archive(&[entry("a", "zzz", b'0', "", b"1")]);
    let fs = files(&image);
    assert!(!fs[0].as_ref().unwrap().is_exec);
}

#[test]
fn random_bytes_never_loop_or_crash() {
    let mut seed: u64 = 0x1234_5678;
    for len in [0usize, 1, 511, 512, 513, 1024, 1500, 4096] {
        for _ in 0..20 {
            let data: Vec<u8> = (0..len)
                .map(|_| {
                    seed = seed.wrapping_mul(6364136223846793005).wrapping_add(1442695040888963407);
                    (seed >> 33) as u8
                })
                .collect();
            let fs = files(&data);
            for (i, f) in fs.iter().enumerate() {
                if f.is_err() {
                    assert_eq!(i, fs.len() - 1);
                }
            }
        }
    }
}

#[test]
fn path_through_a_file_conflicts() {
    let mut t = ThinTreeRef::File(b"");
    assert_eq!(t.update(StrFilename::One("a/b"), b"X"), Ok(()));
    assert_eq!(
        t.update(StrFilename::One("a/b/c"), b"Y"),
        Err(ParserError::FileOverridenWithDirectory(StrFilename::One("a/b")))
    );
    assert_eq!(t.resolve(StrFilename::One("a/b")), Some(&ThinTreeRef::File(b"X")));
}

#[test]
fn duplicate_path_last_wins() {
    let mut t = ThinTreeRef::File(b"");
    assert_eq!(t.update(StrFilename::One("a/b"), b"X"), Ok(()));
    assert_eq!(t.update(StrFilename::One("a/b"), b"Y"), Ok(()));
    assert_eq!(t.resolve(StrFilename::One("a/b")), Some(&ThinTreeRef::File(b"Y")));
}

#[test]
fn lookups() {
    let mut t = ThinTreeRef::File(b"");
    t.update(StrFilename::One("a/b"), b"X").unwrap();
    t.update(StrFilename::Two("a/c", "d"), b"Z").unwrap();
    assert_eq!(t.resolve(StrFilename::One("a/c/d")), Some(&ThinTreeRef::File(b"Z")));
    assert_eq!(t.resolve(StrFilename::One("a/x")), None);
    assert_eq!(t.resolve(StrFilename::One("a/b/c")), None);
    assert!(matches!(t.resolve(StrFilename::One("a")), Some(ThinTreeRef::Directory(_))));
    assert_eq!(t.resolve(StrFilename::One("")), Some(&t));
}

#[test]
fn placeholder_is_promoted() {
    let mut t = ThinTreeRef::File(b"");
    t.update(StrFilename::One("a"), b"").unwrap();
    assert_eq!(t.update(StrFilename::One("a/b"), b"Q"), Ok(()));
    assert_eq!(t.resolve(StrFilename::One("a/b")), Some(&ThinTreeRef::File(b"Q")));
}

#[test]
fn index_of_an_image() {
    let image = archive(&[
        entry("hermit.toml", "0000644", b'0', "", b"version = \"1\""),
        entry("kernel", "0000755", b'0', "bin", b"ELF"),
        entry("hermit.toml", "0000644", b'0', "", b"later"),
    ]);
    let t = ThinTreeRef::try_from_image(&image).unwrap();
    assert_eq!(t.resolve(StrFilename::One("hermit.toml")), Some(&ThinTreeRef::File(b"later")));
    assert_eq!(t.resolve(StrFilename::One("bin/kernel")), Some(&ThinTreeRef::File(b"ELF")));
}

#[test]
fn index_of_a_broken_image() {
    assert_eq!(ThinTreeRef::try_from_image(&[1u8; 10]), Err(ParserError::UnexpectedEof));
    let image = archive(&[entry("\u{0}\u{0}", "0000644", b'0', "", b"x")]);
    assert!(ThinTreeRef::try_from_image(&image).is_ok());
    let mut bad = header("x", "0000644", "1", b'0', "");
    bad[0] = 0xff;
    bad.extend(std::iter::repeat(0u8).take(512));
    let image = archive(&[bad]);
    assert_eq!(ThinTreeRef::try_from_image(&image), Err(ParserError::Utf8Opaque));
    let image = archive(&[
        entry("a", "0000644", b'0', "", b"x"),
        entry("a/b", "0000644", b'0', "", b"y"),
    ]);
    assert_eq!(
        ThinTreeRef::try_from_image(&image),
        Err(ParserError::FileOverridenWithDirectory(StrFilename::One("a")))
    );
}

#[test]
fn resolve_mut_changes_in_place() {
    let mut t = ThinTreeRef::File(b"");
    t.update(StrFilename::One("a/b"), b"X").unwrap();
    *t.resolve_mut(StrFilename::One("a/b")).unwrap() = ThinTreeRef::File(b"W");
    assert_eq!(t.resolve(StrFilename::One("a/b")), Some(&ThinTreeRef::File(b"W")));
    assert!(t.resolve_mut(StrFilename::One("a/z")).is_none());
    assert!(t.resolve_mut(StrFilename::One("a/b/c")).is_none());
}

#[test]
fn largest_size_field_past_the_end() {
    let image = archive(&[header("big", "0000644", "77777777777", b'0', "")]);
    let fs = files(&image);
    assert_eq!(fs.len(), 1);
    assert_eq!(fs[0].as_ref().err(), Some(&ParserError::UnexpectedEof));
    // twelve octal digits fill the field: the largest size it can state
    let image = archive(&[header("big", "0000644", "777777777777", b'0', "")]);
    let fs = files(&image);
    assert_eq!(fs[0].as_ref().err(), Some(&ParserError::UnexpectedEof));
}

#[test]
fn file_in_place_of_a_directory_conflicts() {
    let mut t = ThinTreeRef::File(b"");
    assert_eq!(t.update(StrFilename::One("a/b/c"), b"Y"), Ok(()));
    assert_eq!(
        t.update(StrFilename::One("a/b"), b"X"),
        Err(ParserError::FileOverridenWithDirectory(StrFilename::One("a/b")))
    );
    assert_eq!(t.resolve(StrFilename::One("a/b/c")), Some(&ThinTreeRef::File(b"Y")));

    let image = archive(&[
        entry("a/b/c", "0000644", b'0', "", b"y"),
        entry("a/b", "0000644", b'0', "", b"x"),
    ]);
    assert_eq!(
        ThinTreeRef::try_from_image(&image),
        Err(ParserError::FileOverridenWithDirectory(StrFilename::One("a/b")))
    );
}

#[test]
fn resolve_mut_keeps_the_rest() {
    let mut t = ThinTreeRef::File(b"");
    t.update(StrFilename::One("a/b"), b"X").unwrap();
    t.update(StrFilename::One("a/c"), b"Z").unwrap();
    t.update(StrFilename::One("d"), b"D").unwrap();
    *t.resolve_mut(StrFilename::One("a/b")).unwrap() = ThinTreeRef::File(b"W");
    assert_eq!(t.resolve(StrFilename::One("a/c")), Some(&ThinTreeRef::File(b"Z")));
    assert_eq!(t.resolve(StrFilename::One("d")), Some(&ThinTreeRef::File(b"D")));
}

#[test]
fn first_error_of_an_image_is_returned() {
    // a conflict comes before the truncated record at the end
    let mut image = [
        entry("a", "0000644", b'0', "", b"x"),
        entry("a/b", "0000644", b'0', "", b"y"),
        entry("c", "0000644", b'0', "", &[1u8; 100]),
    ]
    .concat();
    image.truncate(image.len() - 400);
    assert_eq!(
        ThinTreeRef::try_from_image(&image),
        Err(ParserError::FileOverridenWithDirectory(StrFilename::One("a")))
    );
    // a bad size field ends reading with that error
    let image = archive(&[entry("a", "0000644", b'0', "", b"x"), header("b", "0000644", "9", b'0', "")]);
    assert!(matches!(ThinTreeRef::try_from_image(&image), Err(ParserError::ParseInt(_))));
}

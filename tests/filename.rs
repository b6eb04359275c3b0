use hermit_entry::filename::truncate;
use hermit_entry::{Filename, StrFilename};

#[test]
fn test_filename_iter_one() {
    let mut it = StrFilename::One("aleph/beta/omicron");
    for i in ["aleph", "beta", "omicron"] {
        assert_eq!(it.next(), Some(i));
    }
    assert_eq!(it.next(), None);
}

#[test]
fn test_filename_truncate_one() {
    let mut it = StrFilename::One("aleph/beta/omicron").truncate(2);
    for i in ["aleph", "beta"] {
        assert_eq!(it.next(), Some(i));
    }
    assert_eq!(it.next(), None);
}

#[test]
fn test_filename_iter_two() {
    let mut it = StrFilename::Two("aleph/beta", "omicron/depth");
    for i in ["aleph", "beta", "omicron", "depth"] {
        assert_eq!(it.next(), Some(i));
    }
    assert_eq!(it.next(), None);
}

#[test]
fn test_filename_truncate_two() {
    let mut it = StrFilename::Two("aleph/beta", "omicron/depth").truncate(2);
    for i in ["aleph", "beta"] {
        assert_eq!(it.next(), Some(i));
    }
    assert_eq!(it.next(), None);

    let mut it = StrFilename::Two("aleph/beta", "omicron/depth").truncate(3);
    for i in ["aleph", "beta", "omicron"] {
        assert_eq!(it.next(), Some(i));
    }
    assert_eq!(it.next(), None);

    let mut it = StrFilename::Two("aleph/beta", "omicron/depth").truncate(4);
    for i in ["aleph", "beta", "omicron", "depth"] {
        assert_eq!(it.next(), Some(i));
    }
    assert_eq!(it.next(), None);

    let mut it = StrFilename::Two("aleph/beta", "omicron/depth").truncate(5);
    for i in ["aleph", "beta", "omicron", "depth"] {
        assert_eq!(it.next(), Some(i));
    }
    assert_eq!(it.next(), None);
}

#[test]
fn filename_empty_and_trailing_components() {
    let mut it = StrFilename::One("");
    assert_eq!(it.next(), None);
    assert_eq!(it.next(), None);

    let mut it = StrFilename::One("a/");
    assert_eq!(it.next(), Some("a"));
    assert_eq!(it.next(), None);

    let mut it = StrFilename::One("/a");
    assert_eq!(it.next(), Some(""));
    assert_eq!(it.next(), Some("a"));
    assert_eq!(it.next(), None);

    let mut it = StrFilename::Two("", "b");
    assert_eq!(it.next(), Some(""));
    assert_eq!(it.next(), Some("b"));
    assert_eq!(it.next(), None);
}

#[test]
fn filename_truncate_edges() {
    assert_eq!(StrFilename::One("a/b/c").truncate(0), StrFilename::One("a/b/c"));
    assert_eq!(StrFilename::One("a/b/c").truncate(1), StrFilename::One("a"));
    assert_eq!(StrFilename::One("a/b/c").truncate(7), StrFilename::One("a/b/c"));
    assert_eq!(StrFilename::Two("a/b", "c").truncate(1), StrFilename::One("a"));
    assert_eq!(StrFilename::Two("a/b", "c/d").truncate(3), StrFilename::Two("a/b", "c"));
}

#[test]
fn truncate_cuts_at_nul() {
    assert_eq!(truncate(b"abc\0def"), b"abc");
    assert_eq!(truncate(b"abc"), b"abc");
    assert_eq!(truncate(b"\0abc"), b"");
    assert_eq!(truncate(b""), b"");
}

#[test]
fn filename_try_as_str() {
    assert_eq!(Filename::One(b"a/b").try_as_str(), Some(StrFilename::One("a/b")));
    assert_eq!(Filename::Two(b"p", b"n").try_as_str(), Some(StrFilename::Two("p", "n")));
    assert_eq!(Filename::One(b"\xff").try_as_str(), None);
    assert_eq!(Filename::Two(b"ok", b"\xc3").try_as_str(), None);
    assert_eq!(Filename::Two(b"\xc3", b"ok").try_as_str(), None);
}

#[test]
fn filename_from_str() {
    let mut it = StrFilename::from("x/y");
    assert_eq!(it, StrFilename::One("x/y"));
    assert_eq!(it.next(), Some("x"));
    assert_eq!(it.next(), Some("y"));
    assert_eq!(it.next(), None);
}

//! A compact index of an archive's files by path, built without copying their contents.

use vstd::prelude::*;
use vstd::string::StringSliceAdditionalSpecFns;

use crate::filename::{path_segments, split_segments, truncates_to, StrFilename};
use crate::tar_parser::{
    archive_read, error_is, lemma_step_progress, Failure, FileModel, NameModel, Parser, ParserError,
};

verus! {

broadcast use vstd::slice::group_slice_axioms;

/// A node of the index: a file holding its content, or a directory mapping each
/// component name to a child, in order of first insertion. The empty file is the
/// placeholder of a node not yet filled in.
#[derive(Debug, PartialEq, Eq)]
pub enum ThinTreeRef<'a> {
    File(&'a [u8]),
    Directory(Vec<(&'a str, ThinTreeRef<'a>)>),
}

/// `j` is the position of the first entry named `k`, or `es.len()` when there is none.
pub open spec fn is_child_index<'a>(es: Seq<(&'a str, ThinTreeRef<'a>)>, k: Seq<u8>, j: int) -> bool {
    &&& 0 <= j <= es.len()
    &&& forall|m: int| 0 <= m < j ==> (#[trigger] es[m]).0.spec_bytes() != k
    &&& j < es.len() ==> es[j].0.spec_bytes() == k
}

/// Position of the first entry named `k`, or `es.len()` when there is none.
pub open spec fn child_index<'a>(es: Seq<(&'a str, ThinTreeRef<'a>)>, k: Seq<u8>) -> int {
    choose|j: int| is_child_index(es, k, j)
}

pub proof fn lemma_child_index<'a>(es: Seq<(&'a str, ThinTreeRef<'a>)>, k: Seq<u8>, j: int)
    requires
        is_child_index(es, k, j),
    ensures
        child_index(es, k) == j,
{
    let c = child_index(es, k);
    assert(is_child_index(es, k, c));
    if c < j {
        assert(es[c].0.spec_bytes() != k);
    } else if j < c {
        assert(es[j].0.spec_bytes() != k);
    }
}

pub proof fn lemma_child_index_exists<'a>(es: Seq<(&'a str, ThinTreeRef<'a>)>, k: Seq<u8>)
    ensures
        is_child_index(es, k, child_index(es, k)),
    decreases es.len(),
{
    if es.len() == 0 {
        assert(is_child_index(es, k, 0));
    } else {
        let init = es.drop_last();
        lemma_child_index_exists(init, k);
        let c = child_index(init, k);
        assert forall|m: int| 0 <= m < c implies (#[trigger] es[m]).0.spec_bytes() != k by {
            assert(es[m] == init[m]);
        }
        if c < init.len() {
            assert(es[c] == init[c]);
            assert(is_child_index(es, k, c));
        } else if es.last().0.spec_bytes() == k {
            assert(is_child_index(es, k, es.len() - 1));
        } else {
            assert(is_child_index(es, k, es.len() as int));
        }
    }
}

/// The node reached from `t` by following `path`; `None` when a component is missing or
/// the path runs into a file.
pub open spec fn lookup<'a>(t: ThinTreeRef<'a>, path: Seq<Seq<u8>>) -> Option<ThinTreeRef<'a>>
    decreases path.len(),
{
    if path.len() == 0 {
        Some(t)
    } else {
        match t {
            ThinTreeRef::Directory(es) => {
                let j = child_index(es@, path[0]);
                if 0 <= j < es@.len() {
                    lookup(es@[j].1, path.drop_first())
                } else {
                    None
                }
            },
            ThinTreeRef::File(_) => None,
        }
    }
}

/// Where setting a file at `path` in `t` would use one path both as a file and as a
/// directory: the number of components leading to a non-empty file that the path runs
/// through, or to the non-empty directory that stands where the file would go.
pub open spec fn conflict_at<'a>(t: ThinTreeRef<'a>, path: Seq<Seq<u8>>) -> Option<nat>
    decreases path.len(),
{
    if path.len() == 0 {
        match t {
            ThinTreeRef::Directory(es) => if es@.len() > 0 {
                Some(0)
            } else {
                None
            },
            ThinTreeRef::File(_) => None,
        }
    } else {
        match t {
            ThinTreeRef::File(x) => if x@.len() > 0 {
                Some(0)
            } else {
                None
            },
            ThinTreeRef::Directory(es) => {
                let j = child_index(es@, path[0]);
                if 0 <= j < es@.len() {
                    match conflict_at(es@[j].1, path.drop_first()) {
                        Some(n) => Some(n + 1),
                        None => None,
                    }
                } else {
                    None
                }
            },
        }
    }
}

/// `q` leaves `p` at some component: they agree before it and differ at it.
pub open spec fn diverges(p: Seq<Seq<u8>>, q: Seq<Seq<u8>>) -> bool {
    exists|k: int| 0 <= k < p.len() && k < q.len() && p.take(k) == q.take(k) && p[k] != q[k]
}

/// Compares two strings byte by byte.
fn str_eq(a: &str, b: &str) -> (r: bool)
    ensures
        r == (a.spec_bytes() == b.spec_bytes()),
{
    let x = a.as_bytes();
    let y = b.as_bytes();
    if x.len() != y.len() {
        return false;
    }
    let mut i: usize = 0;
    while i < x.len()
        invariant
            i <= x@.len(),
            x@ == a.spec_bytes(),
            y@ == b.spec_bytes(),
            x@.len() == y@.len(),
            forall|j: int| 0 <= j < i ==> x@[j] == y@[j],
        decreases x@.len() - i,
    {
        if x[i] != y[i] {
            assert(x@[i as int] != y@[i as int]);
            return false;
        }
        i = i + 1;
    }
    assert(x@ =~= y@);
    true
}

fn find_child<'a>(es: &Vec<(&'a str, ThinTreeRef<'a>)>, k: &str) -> (r: usize)
    ensures
        is_child_index(es@, k.spec_bytes(), r as int),
        r == child_index(es@, k.spec_bytes()),
{
    let mut j: usize = 0;
    while j < es.len() && !str_eq(es[j].0, k)
        invariant
            j <= es@.len(),
            forall|m: int| 0 <= m < j ==> (#[trigger] es@[m]).0.spec_bytes() != k.spec_bytes(),
        decreases es@.len() - j,
    {
        j = j + 1;
    }
    proof {
        lemma_child_index(es@, k.spec_bytes(), j as int);
    }
    j
}

} // verus!

verus! {

/// The components of a path, as byte strings.
pub open spec fn comp_bytes<'a>(v: Seq<&'a str>) -> Seq<Seq<u8>> {
    v.map_values(|s: &'a str| s.spec_bytes())
}

/// The components of `entry`, in order.
fn components<'a>(entry: StrFilename<'a>) -> (r: Vec<&'a str>)
    ensures
        comp_bytes(r@) == entry.segments(),
{
    let mut it = entry;
    let mut v: Vec<&'a str> = Vec::new();
    loop
        invariant
            comp_bytes(v@) + it.segments() == entry.segments(),
        decreases it.segments().len(),
    {
        let ghost before = it.segments();
        match it.next() {
            None => {
                assert(comp_bytes(v@) =~= entry.segments());
                return v;
            },
            Some(c) => {
                proof {
                    assert(comp_bytes(v@.push(c)) =~= comp_bytes(v@).push(c.spec_bytes()));
                    assert(before =~= seq![c.spec_bytes()] + it.segments());
                    assert(comp_bytes(v@.push(c)) + it.segments() =~= comp_bytes(v@) + before);
                }
                v.push(c);
            },
        }
    }
}

fn find_conflict<'a>(t: &ThinTreeRef<'a>, path: &Vec<&'a str>, i: usize) -> (res: Option<usize>)
    requires
        i <= path@.len(),
    ensures
        match conflict_at(*t, comp_bytes(path@).skip(i as int)) {
            Some(n) => res matches Some(k) && k as nat == n && n <= path@.len() - i,
            None => res is None,
        },
    decreases path@.len() - i,
{
    let ghost p = comp_bytes(path@).skip(i as int);
    if i == path.len() {
        return match t {
            ThinTreeRef::Directory(es) => if es.len() > 0 {
                Some(0)
            } else {
                None
            },
            ThinTreeRef::File(_) => None,
        };
    }
    proof {
        assert(p[0] == path@[i as int].spec_bytes());
        assert(p.drop_first() =~= comp_bytes(path@).skip(i + 1));
    }
    match t {
        ThinTreeRef::File(x) => if x.len() > 0 {
            Some(0)
        } else {
            None
        },
        ThinTreeRef::Directory(es) => {
            let j = find_child(es, path[i]);
            if j < es.len() {
                match find_conflict(&es[j].1, path, i + 1) {
                    Some(n) => Some(n + 1),
                    None => None,
                }
            } else {
                None
            }
        },
    }
}

pub broadcast proof fn lemma_child_index_update<'a>(
    es: Seq<(&'a str, ThinTreeRef<'a>)>,
    j: int,
    e: (&'a str, ThinTreeRef<'a>),
    x: Seq<u8>,
)
    requires
        0 <= j < es.len(),
        e.0.spec_bytes() == es[j].0.spec_bytes(),
    ensures
        #[trigger] child_index(es.update(j, e), x) == child_index(es, x),
{
    let c = child_index(es, x);
    lemma_child_index_exists(es, x);
    let es2 = es.update(j, e);
    assert forall|m: int| 0 <= m < c implies (#[trigger] es2[m]).0.spec_bytes() != x by {
        assert(es[m].0.spec_bytes() != x);
    }
    assert(is_child_index(es2, x, c));
    lemma_child_index(es2, x, c);
}

proof fn lemma_child_index_push<'a>(
    es: Seq<(&'a str, ThinTreeRef<'a>)>,
    e: (&'a str, ThinTreeRef<'a>),
    x: Seq<u8>,
)
    requires
        e.0.spec_bytes() != x,
    ensures
        child_index(es, x) < es.len() ==> child_index(es.push(e), x) == child_index(es, x),
        child_index(es, x) >= es.len() ==> child_index(es.push(e), x) == es.len() + 1,
{
    let c = child_index(es, x);
    lemma_child_index_exists(es, x);
    let es2 = es.push(e);
    if c < es.len() {
        assert forall|m: int| 0 <= m < c implies (#[trigger] es2[m]).0.spec_bytes() != x by {
            assert(es[m].0.spec_bytes() != x);
        }
        assert(is_child_index(es2, x, c));
        lemma_child_index(es2, x, c);
    } else {
        assert forall|m: int| 0 <= m < es.len() + 1 implies (#[trigger] es2[m]).0.spec_bytes() != x by {
            if m < es.len() {
                assert(es[m].0.spec_bytes() != x);
            }
        }
        assert(is_child_index(es2, x, (es.len() + 1) as int));
        lemma_child_index(es2, x, (es.len() + 1) as int);
    }
}

/// Paths that leave `p` at the same first component leave its tail at the next.
proof fn lemma_diverges_tail(p: Seq<Seq<u8>>, q: Seq<Seq<u8>>)
    requires
        diverges(p, q),
        p.len() > 0,
        q.len() > 0,
        p[0] == q[0],
    ensures
        diverges(p.drop_first(), q.drop_first()),
{
    let k = choose|k: int| 0 <= k < p.len() && k < q.len() && p.take(k) == q.take(k) && p[k] != q[k];
    assert(k > 0);
    assert(p.drop_first().take(k - 1) =~= p.take(k).drop_first());
    assert(q.drop_first().take(k - 1) =~= q.take(k).drop_first());
    assert(p.drop_first()[k - 1] != q.drop_first()[k - 1]);
}

/// Paths that leave `p` have at least one component.
proof fn lemma_diverges_nonempty(p: Seq<Seq<u8>>, q: Seq<Seq<u8>>)
    requires
        diverges(p, q),
    ensures
        q.len() > 0,
        p.len() > 0,
{
}

/// Inserts the file `r` at the components of `path` from `i` on, creating directories
/// and filling in placeholders on the way.
fn insert<'a>(t: ThinTreeRef<'a>, path: &Vec<&'a str>, i: usize, r: &'a [u8]) -> (res: ThinTreeRef<'a>)
    requires
        i <= path@.len(),
        conflict_at(t, comp_bytes(path@).skip(i as int)) is None,
    ensures
        lookup(res, comp_bytes(path@).skip(i as int)) == Some(ThinTreeRef::File(r)),
        forall|q: Seq<Seq<u8>>|
            diverges(comp_bytes(path@).skip(i as int), q) ==> #[trigger] lookup(res, q) == lookup(t, q),
    decreases path@.len() - i,
{
    let ghost p = comp_bytes(path@).skip(i as int);
    if i == path.len() {
        proof {
            assert forall|q: Seq<Seq<u8>>| diverges(p, q) implies #[trigger] lookup(ThinTreeRef::File(r), q) == lookup(t, q) by {
                assert(p.len() == 0);
            }
        }
        return ThinTreeRef::File(r);
    }
    proof {
        assert(p[0] == path@[i as int].spec_bytes());
        assert(p.drop_first() =~= comp_bytes(path@).skip(i + 1));
    }
    let empty = vstd::slice::slice_subrange(r, 0, 0);
    let ghost t0 = t;
    let mut es = match t {
        ThinTreeRef::Directory(es) => es,
        ThinTreeRef::File(_) => Vec::new(),
    };
    let ghost es0 = es@;
    let key = path[i];
    let j = find_child(&es, key);
    if j < es.len() {
        let (k, child) = es.remove(j);
        proof {
            assert(es0[j as int] == (k, child));
        }
        let ghost old_child = child;
        let newc = insert(child, path, i + 1, r);
        es.insert(j, (k, newc));
        proof {
            assert(es@ =~= es0.update(j as int, (k, newc)));
            assert forall|x: Seq<u8>| true implies child_index(es@, x) == child_index(es0, x) by {
                lemma_child_index_update(es0, j as int, (k, newc), x);
            }
            assert(child_index(es@, p[0]) == j);
            assert forall|q: Seq<Seq<u8>>| diverges(p, q) implies #[trigger] lookup(ThinTreeRef::Directory(es), q) == lookup(t0, q) by {
                lemma_diverges_nonempty(p, q);
                let c = child_index(es0, q[0]);
                if q[0] == p[0] {
                    lemma_diverges_tail(p, q);
                    assert(lookup(newc, q.drop_first()) == lookup(old_child, q.drop_first()));
                } else {
                    lemma_child_index_exists(es0, q[0]);
                    if c < es0.len() {
                        assert(c != j);
                        assert(es@[c] == es0[c]);
                    }
                }
            }
        }
    } else {
        let newc = insert(ThinTreeRef::File(empty), path, i + 1, r);
        es.push((key, newc));
        proof {
            assert(es@ == es0.push((key, newc)));
            assert(is_child_index(es@, p[0], es0.len() as int)) by {
                assert forall|m: int| 0 <= m < es0.len() implies (#[trigger] es@[m]).0.spec_bytes() != p[0] by {
                    assert(es@[m] == es0[m]);
                }
            }
            lemma_child_index(es@, p[0], es0.len() as int);
            assert forall|q: Seq<Seq<u8>>| diverges(p, q) implies #[trigger] lookup(ThinTreeRef::Directory(es), q) == lookup(t0, q) by {
                lemma_diverges_nonempty(p, q);
                if q[0] == p[0] {
                    lemma_diverges_tail(p, q);
                    assert(lookup(newc, q.drop_first()) == lookup(ThinTreeRef::File(empty), q.drop_first()));
                } else {
                    lemma_child_index_push(es0, (key, newc), q[0]);
                    let c = child_index(es0, q[0]);
                    lemma_child_index_exists(es0, q[0]);
                    if c < es0.len() {
                        assert(es@[c] == es0[c]);
                    }
                }
            }
        }
    }
    ThinTreeRef::Directory(es)
}

} // verus!

verus! {

/// The path components of a record name.
pub open spec fn name_segments(n: NameModel) -> Seq<Seq<u8>> {
    match n {
        NameModel::One(x) => path_segments(x),
        NameModel::Two(x, y) => split_segments(x) + path_segments(y),
    }
}

/// The parts of a record name: the path, or the prefix and the name.
pub open spec fn name_parts(n: NameModel) -> (Seq<u8>, Option<Seq<u8>>) {
    match n {
        NameModel::One(x) => (x, None),
        NameModel::Two(x, y) => (x, Some(y)),
    }
}

/// `t` is the empty placeholder file.
pub open spec fn is_placeholder<'a>(t: ThinTreeRef<'a>) -> bool {
    match t {
        ThinTreeRef::File(x) => x@.len() == 0,
        ThinTreeRef::Directory(_) => false,
    }
}

/// Following `path` from `t` leads to a file holding `v`.
pub open spec fn holds_file<'a>(t: ThinTreeRef<'a>, path: Seq<Seq<u8>>, v: Seq<u8>) -> bool {
    match lookup(t, path) {
        Some(ThinTreeRef::File(x)) => x@ == v,
        _ => false,
    }
}

/// Every part of a record name is UTF-8.
pub open spec fn name_is_utf8(n: NameModel) -> bool {
    match n {
        NameModel::One(x) => vstd::utf8::valid_utf8(x),
        NameModel::Two(x, y) => vstd::utf8::valid_utf8(x) && vstd::utf8::valid_utf8(y),
    }
}

/// `t2` is `t1` with the file `v` set at `p`: nothing in `t1` stood in the way, `p`
/// leads to `v`, and every path that leaves `p` leads where it did in `t1`.
pub open spec fn sets_file<'a>(t1: ThinTreeRef<'a>, p: Seq<Seq<u8>>, v: Seq<u8>, t2: ThinTreeRef<'a>) -> bool {
    &&& conflict_at(t1, p) is None
    &&& holds_file(t2, p, v)
    &&& forall|q: Seq<Seq<u8>>| diverges(p, q) ==> #[trigger] lookup(t2, q) == lookup(t1, q)
}

/// The tree after `ts[i]` is it with file `i` of `fs` set at its path.
pub open spec fn chain_step<'a>(fs: Seq<FileModel>, ts: Seq<ThinTreeRef<'a>>, i: int) -> bool {
    &&& name_is_utf8(fs[i].name)
    &&& sets_file(ts[i], name_segments(fs[i].name), fs[i].value, ts[i + 1])
}

/// `ts` are the trees from the placeholder on, each the one before with the next file
/// of `fs` set at its path.
pub open spec fn index_chain<'a>(fs: Seq<FileModel>, ts: Seq<ThinTreeRef<'a>>) -> bool {
    &&& 1 <= ts.len() <= fs.len() + 1
    &&& is_placeholder(ts[0])
    &&& forall|i: int| 0 <= i < ts.len() - 1 ==> #[trigger] chain_step(fs, ts, i)
}

/// Indexing stops with the error `e` after the trees `ts`: when every file of `fs`
/// was set, reading the archive failed afterwards and `e` is that failure; otherwise the
/// next file's name is not UTF-8, or its path conflicts, and `e` names the conflicting
/// path.
pub open spec fn index_stops<'a>(
    fs: Seq<FileModel>,
    fail: Option<Failure>,
    ts: Seq<ThinTreeRef<'a>>,
    e: ParserError<'a>,
) -> bool {
    let i = ts.len() - 1;
    &&& index_chain(fs, ts)
    &&& if ts.len() == fs.len() + 1 {
        match fail {
            Some(f) => error_is(e, f),
            None => false,
        }
    } else if !name_is_utf8(fs[i].name) {
        e is Utf8Opaque
    } else {
        match conflict_at(ts.last(), name_segments(fs[i].name)) {
            Some(n) => match e {
                ParserError::FileOverridenWithDirectory(f) => truncates_to(name_parts(fs[i].name), n, f),
                _ => false,
            },
            None => false,
        }
    }
}

impl<'a> ThinTreeRef<'a> {
    /// Sets the node at `entry` to the file `r`, creating directories and filling in
    /// placeholders along the way. Fails, changing nothing, when the path runs through a
    /// non-empty file or leads to a non-empty directory; the error holds the path to that
    /// node.
    pub fn update(&mut self, entry: StrFilename<'a>, r: &'a [u8]) -> (res: Result<(), ParserError<'a>>)
        ensures
            match conflict_at(*old(self), entry.segments()) {
                None => {
                    &&& res is Ok
                    &&& lookup(*final(self), entry.segments()) == Some(ThinTreeRef::File(r))
                    &&& forall|q: Seq<Seq<u8>>|
                        diverges(entry.segments(), q) ==> #[trigger] lookup(*final(self), q)
                            == lookup(*old(self), q)
                },
                Some(n) => {
                    &&& *final(self) == *old(self)
                    &&& res matches Err(ParserError::FileOverridenWithDirectory(f))
                        && entry.is_truncation(n, f)
                },
            },
    {
        let path = components(entry);
        proof {
            assert(comp_bytes(path@).skip(0) =~= comp_bytes(path@));
        }
        match find_conflict(self, &path, 0) {
            Some(n) => {
                let f = entry.truncate(n);
                proof {
                    assert(conflict_at(*self, entry.segments()) == Some(n as nat));
                    assert(entry.is_truncation(n as nat, f));
                }
                Err(ParserError::FileOverridenWithDirectory(f))
            },
            None => {
                let empty = vstd::slice::slice_subrange(r, 0, 0);
                let mut t = ThinTreeRef::File(empty);
                core::mem::swap(self, &mut t);
                *self = insert(t, &path, 0, r);
                Ok(())
            },
        }
    }

    /// The node at `entry`, if the path leads to one.
    pub fn resolve(&self, entry: StrFilename<'_>) -> (r: Option<&Self>)
        ensures
            match lookup(*self, entry.segments()) {
                Some(t) => r matches Some(x) && *x == t,
                None => r is None,
            },
    {
        let path = components(entry);
        let ghost p = comp_bytes(path@);
        let mut this: &Self = self;
        let mut i: usize = 0;
        proof {
            assert(p.skip(0) =~= p);
        }
        while i < path.len()
            invariant
                i <= path@.len(),
                p == comp_bytes(path@),
                p == entry.segments(),
                lookup(*self, p) == lookup(*this, p.skip(i as int)),
            decreases path@.len() - i,
        {
            proof {
                assert(p.skip(i as int)[0] == path@[i as int].spec_bytes());
                assert(p.skip(i as int).drop_first() =~= p.skip(i + 1));
            }
            match this {
                ThinTreeRef::Directory(es) => {
                    let j = find_child(es, path[i]);
                    if j < es.len() {
                        this = &es[j].1;
                    } else {
                        return None;
                    }
                },
                ThinTreeRef::File(_) => {
                    return None;
                },
            }
            i = i + 1;
        }
        proof {
            assert(p.skip(i as int).len() == 0);
        }
        Some(this)
    }

    /// Indexes every regular file of an archive by its path; a later file at the same
    /// path replaces an earlier one. The first failure, of reading, of a name, or of
    /// setting a file, is returned as it is.
    pub fn try_from_image(image: &'a [u8]) -> (r: Result<Self, ParserError<'a>>)
        ensures
            ({
                let (fs, fail) = archive_read(image@, 0);
                match r {
                    Ok(t) => fail is None && exists|ts: Seq<ThinTreeRef<'a>>|
                        index_chain(fs, ts) && ts.len() == fs.len() + 1 && ts.last() == t,
                    Err(e) => exists|ts: Seq<ThinTreeRef<'a>>| index_stops(fs, fail, ts, e),
                }
            }),
    {
        let empty = vstd::slice::slice_subrange(image, 0, 0);
        let mut content = ThinTreeRef::File(empty);
        let mut parser = Parser::new(image);
        let ghost mut done: Seq<FileModel> = seq![];
        let ghost mut ts: Seq<ThinTreeRef<'a>> = seq![content];
        loop
            invariant
                archive_read(image@, 0) == (done + archive_read(parser.remaining(), parser.position()).0,
                    archive_read(parser.remaining(), parser.position()).1),
                ts.len() == done.len() + 1,
                ts.last() == content,
                is_placeholder(ts[0]),
                forall|i: int| 0 <= i < ts.len() - 1 ==> #[trigger] chain_step(done, ts, i),
            decreases parser.remaining().len(),
        {
            let ghost before = parser.remaining();
            let ghost pos = parser.position();
            proof {
                lemma_step_progress(before, pos);
            }
            match parser.next() {
                None => {
                    proof {
                        assert(done + seq![] =~= done);
                        assert(index_chain(done, ts));
                    }
                    return Ok(content);
                },
                Some(Err(e)) => {
                    proof {
                        assert(archive_read(before, pos).0 =~= seq![]);
                        assert(archive_read(image@, 0).0 =~= done);
                        assert(index_chain(done, ts));
                        assert(index_stops(done, archive_read(image@, 0).1, ts, e));
                    }
                    return Err(e);
                },
                Some(Ok(file)) => {
                    let ghost fm = crate::tar_parser::file_view(file);
                    let ghost later = archive_read(parser.remaining(), parser.position());
                    let ghost fs = archive_read(image@, 0).0;
                    proof {
                        assert(archive_read(before, pos).0 == seq![fm] + later.0);
                        assert(fs =~= done + (seq![fm] + later.0));
                        assert(fs[done.len() as int] == fm);
                        assert forall|i: int| 0 <= i < ts.len() - 1 implies #[trigger] chain_step(fs, ts, i) by {
                            assert(chain_step(done, ts, i));
                            assert(fs[i] == done[i]);
                        }
                        assert(index_chain(fs, ts));
                    }
                    let name = match file.name.try_as_str() {
                        Some(n) => n,
                        None => {
                            proof {
                                assert(index_stops(fs, archive_read(image@, 0).1, ts, ParserError::Utf8Opaque));
                            }
                            return Err(ParserError::Utf8Opaque);
                        },
                    };
                    proof {
                        assert(name.segments() == name_segments(fm.name));
                    }
                    let ghost before = content;
                    match content.update(name, file.value) {
                        Ok(()) => {},
                        Err(e) => {
                            proof {
                                assert(name.parts() == name_parts(fm.name));
                                assert(index_stops(fs, archive_read(image@, 0).1, ts, e));
                            }
                            return Err(e);
                        },
                    }
                    proof {
                        assert(done.push(fm) + later.0 =~= done + (seq![fm] + later.0));
                        let ts2 = ts.push(content);
                        let done2 = done.push(fm);
                        assert forall|i: int| 0 <= i < ts2.len() - 1 implies #[trigger] chain_step(done2, ts2, i) by {
                            if i < ts.len() - 1 {
                                assert(chain_step(done, ts, i));
                                assert(ts2[i] == ts[i] && ts2[i + 1] == ts[i + 1]);
                                assert(done2[i] == done[i]);
                            } else {
                                assert(ts2[i] == before);
                                assert(done2[i] == fm);
                            }
                        }
                        done = done.push(fm);
                        ts = ts2;
                    }
                },
            }
        }
    }
}

} // verus!

verus! {

/// A path that already leads to a file can be set again: inserting it meets no
/// conflict, so the later file replaces the earlier one.
pub proof fn lemma_same_path_replaces<'a>(t: ThinTreeRef<'a>, p: Seq<Seq<u8>>, x: Seq<u8>)
    requires
        holds_file(t, p, x),
    ensures
        conflict_at(t, p) is None,
    decreases p.len(),
{
    if p.len() > 0 {
        if let ThinTreeRef::Directory(es) = t {
            let j = child_index(es@, p[0]);
            lemma_same_path_replaces(es@[j].1, p.drop_first(), x);
        }
    }
}

/// A path that leads to a non-empty directory cannot be set to a file: the conflict
/// names the whole path.
pub proof fn lemma_directory_in_place_conflicts<'a>(
    t: ThinTreeRef<'a>,
    p: Seq<Seq<u8>>,
    m: Vec<(&'a str, ThinTreeRef<'a>)>,
)
    requires
        lookup(t, p) == Some(ThinTreeRef::Directory(m)),
        m@.len() > 0,
    ensures
        conflict_at(t, p) == Some(p.len()),
    decreases p.len(),
{
    if p.len() > 0 {
        if let ThinTreeRef::Directory(es) = t {
            let j = child_index(es@, p[0]);
            lemma_directory_in_place_conflicts(es@[j].1, p.drop_first(), m);
        }
    }
}

/// A path that runs on through a non-empty file conflicts exactly at that file: the
/// conflict names the components that lead to it.
pub proof fn lemma_path_through_file_conflicts<'a>(
    t: ThinTreeRef<'a>,
    p: Seq<Seq<u8>>,
    q: Seq<Seq<u8>>,
    x: Seq<u8>,
)
    requires
        holds_file(t, p, x),
        x.len() > 0,
        q.len() > p.len(),
        q.take(p.len() as int) == p,
    ensures
        conflict_at(t, q) == Some(p.len()),
    decreases p.len(),
{
    if p.len() > 0 {
        assert(q[0] == q.take(p.len() as int)[0]);
        if let ThinTreeRef::Directory(es) = t {
            let j = child_index(es@, p[0]);
            assert(q.drop_first().take(p.len() - 1) =~= p.drop_first());
            lemma_path_through_file_conflicts(es@[j].1, p.drop_first(), q.drop_first(), x);
        }
    }
}

} // verus!

verus! {

/// `t1` differs from `t0` at most in the node that `p` leads to: every directory on the
/// way keeps its entries, names and order, except for the child that `p` goes through.
pub open spec fn changed_only_at<'a>(t0: ThinTreeRef<'a>, t1: ThinTreeRef<'a>, p: Seq<Seq<u8>>) -> bool
    decreases p.len(),
{
    if p.len() == 0 {
        true
    } else {
        match (t0, t1) {
            (ThinTreeRef::Directory(es0), ThinTreeRef::Directory(es1)) => {
                let j = child_index(es0@, p[0]);
                &&& 0 <= j < es0@.len()
                &&& es1@.len() == es0@.len()
                &&& forall|k: int| 0 <= k < es0@.len() && k != j ==> #[trigger] es1@[k] == es0@[k]
                &&& es1@[j].0 == es0@[j].0
                &&& changed_only_at(es0@[j].1, es1@[j].1, p.drop_first())
            },
            _ => false,
        }
    }
}

/// A tree changed only at the node that `p` leads to leads every path that leaves `p`
/// where it led before.
pub broadcast proof fn lemma_changed_only_at<'a>(t0: ThinTreeRef<'a>, t1: ThinTreeRef<'a>, p: Seq<Seq<u8>>)
    requires
        changed_only_at(t0, t1, p),
    ensures
        #![trigger changed_only_at(t0, t1, p)]
        forall|q: Seq<Seq<u8>>| diverges(p, q) ==> #[trigger] lookup(t1, q) == lookup(t0, q),
    decreases p.len(),
{
    if p.len() > 0 {
        if let (ThinTreeRef::Directory(es0), ThinTreeRef::Directory(es1)) = (t0, t1) {
            let j = child_index(es0@, p[0]);
            lemma_child_index_exists(es0@, p[0]);
            lemma_changed_only_at(es0@[j].1, es1@[j].1, p.drop_first());
            assert(es1@ =~= es0@.update(j, es1@[j]));
            assert forall|q: Seq<Seq<u8>>| diverges(p, q) implies #[trigger] lookup(t1, q) == lookup(t0, q) by {
                lemma_diverges_nonempty(p, q);
                lemma_child_index_update(es0@, j, es1@[j], q[0]);
                if q[0] == p[0] {
                    lemma_diverges_tail(p, q);
                    assert(child_index(es1@, q[0]) == j);
                    assert(lookup(es1@[j].1, q.drop_first()) == lookup(es0@[j].1, q.drop_first()));
                } else {
                    let c = child_index(es0@, q[0]);
                    lemma_child_index_exists(es0@, q[0]);
                    if 0 <= c < es0@.len() {
                        assert(c != j);
                        assert(es1@[c] == es0@[c]);
                    }
                }
            }
        }
    }
}

fn resolve_mut_at<'b, 'a>(t: &'b mut ThinTreeRef<'a>, path: &Vec<&str>, i: usize) -> (r: &'b mut ThinTreeRef<'a>)
    requires
        i <= path@.len(),
        lookup(*old(t), comp_bytes(path@).skip(i as int)) is Some,
    ensures
        Some(*r) == lookup(*old(t), comp_bytes(path@).skip(i as int)),
        lookup(*final(t), comp_bytes(path@).skip(i as int)) == Some(*final(r)),
        changed_only_at(*old(t), *final(t), comp_bytes(path@).skip(i as int)),
    decreases path@.len() - i,
{
    broadcast use lemma_child_index_update;

    let ghost p = comp_bytes(path@).skip(i as int);
    if i == path.len() {
        proof {
            assert(p.len() == 0);
        }
        return t;
    }
    proof {
        assert(p[0] == path@[i as int].spec_bytes());
        assert(p.drop_first() =~= comp_bytes(path@).skip(i + 1));
    }
    match t {
        ThinTreeRef::Directory(es) => {
            let j = find_child(es, path[i]);
            proof {
                lemma_child_index_exists(es@, p[0]);
            }
            resolve_mut_at(&mut es[j].1, path, i + 1)
        },
        other => other,
    }
}

impl<'a> ThinTreeRef<'a> {
    /// The node at `entry`, if the path leads to one, for changing in place.
    pub fn resolve_mut(&mut self, entry: StrFilename<'_>) -> (r: Option<&mut Self>)
        ensures
            match lookup(*old(self), entry.segments()) {
                Some(s) => r matches Some(x) && *x == s && lookup(*final(self), entry.segments())
                    == Some(*final(x)) && changed_only_at(*old(self), *final(self), entry.segments())
                    && forall|q: Seq<Seq<u8>>|
                    diverges(entry.segments(), q) ==> #[trigger] lookup(*final(self), q)
                        == lookup(*old(self), q),
                None => r is None && *final(self) == *old(self),
            },
    {
        broadcast use lemma_changed_only_at;

        if self.resolve(entry).is_none() {
            return None;
        }
        let path = components(entry);
        proof {
            assert(comp_bytes(path@).skip(0) =~= comp_bytes(path@));
        }
        Some(resolve_mut_at(self, &path, 0))
    }
}

} // verus!

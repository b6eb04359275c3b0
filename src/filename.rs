//! Archive file names, as raw bytes and as UTF-8 paths split into components.

use vstd::prelude::*;
use vstd::string::StringSliceAdditionalSpecFns;

use crate::text::{find_byte, first_index, is_first_index, split_at_byte, str_from_utf8};

verus! {

broadcast use vstd::utf8::group_utf8_lib;

/// The bytes of `s` before its first NUL byte (all of `s` when it has none).
pub open spec fn until_nul(s: Seq<u8>) -> Seq<u8> {
    s.take(first_index(s, 0))
}

/// Cuts a fixed-width field at its first NUL byte.
pub fn truncate(slice: &[u8]) -> (r: &[u8])
    ensures
        r@ == until_nul(slice@),
{
    let i = find_byte(slice, 0);
    vstd::slice::slice_subrange(slice, 0, i)
}

/// A file name as stored in an archive header: one field, or a prefix and a name.
#[derive(Clone, Copy, Debug, PartialEq, Eq)]
pub enum Filename<'a> {
    One(&'a [u8]),
    Two(&'a [u8], &'a [u8]),
}

/// A UTF-8 file name: one path, or a prefix path and a name, joined by `/`.
#[derive(Clone, Copy, Debug, PartialEq, Eq)]
pub enum StrFilename<'a> {
    One(&'a str),
    Two(&'a str, &'a str),
}

/// The components that remain to be read from a path: nothing for the empty path,
/// otherwise the text up to the first `/`, then the components of what follows it.
pub open spec fn path_segments(s: Seq<u8>) -> Seq<Seq<u8>>
    decreases s.len(),
{
    if s.len() == 0 {
        seq![]
    } else {
        let i = first_index(s, 47);
        if 0 <= i < s.len() {
            seq![s.take(i)] + path_segments(s.skip(i + 1))
        } else {
            seq![s]
        }
    }
}

/// Every piece of `s` between separators `/`, including empty ones at either end.
pub open spec fn split_segments(s: Seq<u8>) -> Seq<Seq<u8>>
    decreases s.len(),
{
    let i = first_index(s, 47);
    if 0 <= i < s.len() {
        seq![s.take(i)] + split_segments(s.skip(i + 1))
    } else {
        seq![s]
    }
}

/// Number of `/` bytes in `s`.
pub open spec fn slash_count(s: Seq<u8>) -> nat
    decreases s.len(),
{
    if s.len() == 0 {
        0
    } else {
        slash_count(s.drop_last()) + if s.last() == 47 {
            1nat
        } else {
            0nat
        }
    }
}

/// `p` is `s` cut before its `n`-th `/`; `s` itself when `n` is zero or `s` has fewer.
pub open spec fn kept_prefix(s: Seq<u8>, n: nat, p: Seq<u8>) -> bool {
    if n == 0 || slash_count(s) < n {
        p == s
    } else {
        exists|k: int|
            0 <= k < s.len() && s[k] == 47 && slash_count(s.take(k)) == n - 1 && p == s.take(k)
    }
}

/// How many of `n` components are left to take after the path `s`.
pub open spec fn components_left(s: Seq<u8>, n: nat) -> nat {
    if n == 0 || slash_count(s) >= n {
        0
    } else {
        (n - slash_count(s)) as nat
    }
}

proof fn lemma_slash_count_step(s: Seq<u8>, j: int)
    requires
        0 <= j < s.len(),
    ensures
        slash_count(s.take(j + 1)) == slash_count(s.take(j)) + if s[j] == 47 {
            1nat
        } else {
            0nat
        },
{
    assert(s.take(j + 1).drop_last() =~= s.take(j));
}

/// Cuts `x` before its `n`-th `/`, and tells how many of the `n` are left.
fn cut_components<'a>(x: &'a str, n: usize) -> (r: (&'a str, usize))
    ensures
        kept_prefix(x.spec_bytes(), n as nat, r.0.spec_bytes()),
        r.1 == components_left(x.spec_bytes(), n as nat),
{
    if n == 0 {
        return (x, 0);
    }
    let bytes = x.as_bytes();
    let ghost s = bytes@;
    let mut k: usize = n;
    let mut j: usize = 0;
    while j < bytes.len()
        invariant
            s == x.spec_bytes(),
            bytes@ == s,
            0 <= j <= s.len(),
            1 <= k <= n,
            k == n - slash_count(s.take(j as int)),
        decreases s.len() - j,
    {
        proof {
            lemma_slash_count_step(s, j as int);
        }
        if bytes[j] == 47 {
            k = k - 1;
            if k == 0 {
                proof {
                    vstd::utf8::is_char_boundary_iff_not_is_continuation_byte(s, j as int);
                    assert(slash_count(s) >= n) by {
                        lemma_slash_count_mono(s, j as int + 1, s.len() as int);
                        assert(s.take(s.len() as int) =~= s);
                    }
                }
                let (head, _) = x.split_at(j);
                return (head, 0);
            }
        }
        j = j + 1;
    }
    proof {
        assert(s.take(s.len() as int) =~= s);
    }
    (x, k)
}

proof fn lemma_slash_count_mono(s: Seq<u8>, a: int, b: int)
    requires
        0 <= a <= b <= s.len(),
    ensures
        slash_count(s.take(a)) <= slash_count(s.take(b)),
    decreases b - a,
{
    if a < b {
        lemma_slash_count_mono(s, a, b - 1);
        lemma_slash_count_step(s, b - 1);
    }
}

impl<'a> Filename<'a> {
    /// The name as UTF-8, when every part of it is valid UTF-8.
    pub fn try_as_str(&self) -> (r: Option<StrFilename<'a>>)
        ensures
            match *self {
                Filename::One(x) => match r {
                    Some(StrFilename::One(s)) => vstd::utf8::valid_utf8(x@) && s.spec_bytes() == x@,
                    Some(StrFilename::Two(_, _)) => false,
                    None => !vstd::utf8::valid_utf8(x@),
                },
                Filename::Two(x, y) => match r {
                    Some(StrFilename::Two(s, t)) => vstd::utf8::valid_utf8(x@)
                        && vstd::utf8::valid_utf8(y@) && s.spec_bytes() == x@ && t.spec_bytes()
                        == y@,
                    Some(StrFilename::One(_)) => false,
                    None => !(vstd::utf8::valid_utf8(x@) && vstd::utf8::valid_utf8(y@)),
                },
            },
    {
        match *self {
            Filename::One(x) => match str_from_utf8(x) {
                Ok(s) => Some(StrFilename::One(s)),
                Err(_) => None,
            },
            Filename::Two(x, y) => match str_from_utf8(x) {
                Ok(s) => match str_from_utf8(y) {
                    Ok(t) => Some(StrFilename::Two(s, t)),
                    Err(_) => None,
                },
                Err(_) => None,
            },
        }
    }
}

/// `r` is the name with the parts `parts` cut to its first `n` components: each part is
/// cut before the `/` that ends the `n`-th component, and a prefix that already holds `n`
/// components drops the name after it.
pub open spec fn truncates_to(parts: (Seq<u8>, Option<Seq<u8>>), n: nat, r: StrFilename) -> bool {
    let x = parts.0;
    match parts.1 {
        None => r matches StrFilename::One(x2) && kept_prefix(x, n, x2.spec_bytes()),
        Some(y) => {
            let m = components_left(x, n);
            if m > 1 {
                r matches StrFilename::Two(x2, y2) && kept_prefix(x, n, x2.spec_bytes())
                    && kept_prefix(y, (m - 1) as nat, y2.spec_bytes())
            } else {
                r matches StrFilename::One(x2) && kept_prefix(x, n, x2.spec_bytes())
            }
        },
    }
}

impl<'a> From<&'a str> for StrFilename<'a> {
    fn from(x: &'a str) -> (r: Self)
        ensures
            r == StrFilename::One(x),
    {
        StrFilename::One(x)
    }
}

impl<'a> vstd::std_specs::convert::FromSpecImpl<&'a str> for StrFilename<'a> {
    open spec fn obeys_from_spec() -> bool {
        true
    }

    open spec fn from_spec(v: &'a str) -> Self {
        StrFilename::One(v)
    }
}

impl<'a> StrFilename<'a> {
    /// The components of the name that are still to be read, in order.
    pub open spec fn segments(self) -> Seq<Seq<u8>> {
        match self {
            StrFilename::One(x) => path_segments(x.spec_bytes()),
            StrFilename::Two(x, y) => split_segments(x.spec_bytes()) + path_segments(
                y.spec_bytes(),
            ),
        }
    }

    /// The bytes of the name's parts: the path, or the prefix and the name.
    pub open spec fn parts(self) -> (Seq<u8>, Option<Seq<u8>>) {
        match self {
            StrFilename::One(x) => (x.spec_bytes(), None),
            StrFilename::Two(x, y) => (x.spec_bytes(), Some(y.spec_bytes())),
        }
    }

    /// `r` is this name cut to its first `n` components.
    pub open spec fn is_truncation(self, n: nat, r: Self) -> bool {
        truncates_to(self.parts(), n, r)
    }

    /// Truncates the name to its first `n` components (leaves it whole for `n == 0`).
    pub fn truncate(self, n: usize) -> (r: Self)
        ensures
            self.is_truncation(n as nat, r),
    {
        match self {
            StrFilename::One(x) => {
                let (x2, _) = cut_components(x, n);
                StrFilename::One(x2)
            },
            StrFilename::Two(x, y) => {
                let (x2, m) = cut_components(x, n);
                if m > 1 {
                    let (y2, _) = cut_components(y, m - 1);
                    StrFilename::Two(x2, y2)
                } else {
                    StrFilename::One(x2)
                }
            },
        }
    }

    /// Reads the next component of the name.
    pub fn next(&mut self) -> (r: Option<&'a str>)
        ensures
            old(self).segments().len() == 0 ==> r is None,
            old(self).segments().len() > 0 ==> (r matches Some(c) && c.spec_bytes()
                == old(self).segments()[0] && final(self).segments()
                == old(self).segments().drop_first()),
    {
        let cur = *self;
        match cur {
            StrFilename::One(x) => {
                if x.as_bytes().len() == 0 {
                    proof {
                        assert(path_segments(x.spec_bytes()) =~= seq![]);
                    }
                    return None;
                }
                match split_at_byte(x, 47) {
                    None => {
                        proof {
                            vstd::utf8::encode_utf8_valid_utf8(x@);
                            vstd::utf8::is_char_boundary_start_end_of_seq(x.spec_bytes());
                            assert(x.spec_bytes().take(x.spec_bytes().len() as int) =~= x.spec_bytes());
                        }
                        let (_, empty) = x.split_at(x.as_bytes().len());
                        proof {
                            assert(path_segments(empty.spec_bytes()) =~= seq![]);
                        }
                        *self = StrFilename::One(empty);
                        Some(x)
                    },
                    Some((head, rest)) => {
                        *self = StrFilename::One(rest);
                        Some(head)
                    },
                }
            },
            StrFilename::Two(x, y) => {
                match split_at_byte(x, 47) {
                    None => {
                        proof {
                            assert(x.spec_bytes().take(x.spec_bytes().len() as int) =~= x.spec_bytes());
                        }
                        *self = StrFilename::One(y);
                        Some(x)
                    },
                    Some((head, rest)) => {
                        *self = StrFilename::Two(rest, y);
                        proof {
                            assert(split_segments(x.spec_bytes()) =~= seq![head.spec_bytes()]
                                + split_segments(rest.spec_bytes()));
                        }
                        Some(head)
                    },
                }
            },
        }
    }
}

} // verus!

//! The image configuration: its input parameters, and finding files in the image.

use vstd::prelude::*;

verus! {

/// The configuration file name, relative to the image root.
pub const DEFAULT_CONFIG_NAME: &'static str = "hermit.toml";

/// Input parameters for the kernel and the application.
#[derive(Debug, PartialEq, Eq)]
pub struct Input {
    /// Arguments passed to the kernel.
    pub kernel_args: Vec<String>,
    /// Arguments passed to the application.
    pub app_args: Vec<String>,
    /// Environment variables.
    pub env_vars: Vec<String>,
}

/// `i` is the position of the last entry named `name`, or `-1` when there is none.
pub open spec fn is_last_named<'n, 'a>(entries: Seq<(&'n [u8], &'a [u8])>, name: Seq<u8>, i: int) -> bool {
    &&& -1 <= i < entries.len()
    &&& forall|m: int| i < m < entries.len() ==> (#[trigger] entries[m]).0@ != name
    &&& i >= 0 ==> entries[i].0@ == name
}

fn bytes_eq(a: &[u8], b: &[u8]) -> (r: bool)
    ensures
        r == (a@ == b@),
{
    if a.len() != b.len() {
        return false;
    }
    let mut i: usize = 0;
    while i < a.len()
        invariant
            i <= a@.len(),
            a@.len() == b@.len(),
            forall|j: int| 0 <= j < i ==> a@[j] == b@[j],
        decreases a@.len() - i,
    {
        if a[i] != b[i] {
            assert(a@[i as int] != b@[i as int]);
            return false;
        }
        i = i + 1;
    }
    assert(a@ =~= b@);
    true
}

/// The data of the last entry named `name`: when an archive holds a name more than
/// once, the latest entry wins.
pub fn latest_entry<'n, 'a>(entries: &Vec<(&'n [u8], &'a [u8])>, name: &[u8]) -> (r: Option<&'a [u8]>)
    ensures
        match r {
            Some(d) => exists|i: int| is_last_named(entries@, name@, i) && i >= 0 && entries@[i].1 == d,
            None => is_last_named(entries@, name@, -1),
        },
{
    let mut i: usize = entries.len();
    while i > 0
        invariant
            i <= entries@.len(),
            forall|m: int| i <= m < entries@.len() ==> (#[trigger] entries@[m]).0@ != name@,
        decreases i,
    {
        if bytes_eq(entries[i - 1].0, name) {
            assert(is_last_named(entries@, name@, i - 1));
            return Some(entries[i - 1].1);
        }
        i = i - 1;
    }
    None
}

} // verus!

//! Byte-level text helpers: searching, UTF-8 validation and unsigned number parsing.

use vstd::prelude::*;
use vstd::string::StringSliceAdditionalSpecFns;

verus! {

broadcast use vstd::utf8::group_utf8_lib;

#[verifier::external_type_specification]
#[verifier::external_body]
pub struct ExParseIntError(core::num::ParseIntError);

#[verifier::external_type_specification]
#[verifier::external_body]
pub struct ExUtf8Error(core::str::Utf8Error);

/// `i` is the position of the first `b` in `s`, or `s.len()` when there is none.
pub open spec fn is_first_index(s: Seq<u8>, b: u8, i: int) -> bool {
    &&& 0 <= i <= s.len()
    &&& forall|j: int| 0 <= j < i ==> s[j] != b
    &&& i < s.len() ==> s[i] == b
}

/// Position of the first `b` in `s`, or `s.len()` when `s` holds no `b`.
pub open spec fn first_index(s: Seq<u8>, b: u8) -> int {
    choose|i: int| is_first_index(s, b, i)
}

pub proof fn lemma_first_index(s: Seq<u8>, b: u8, i: int)
    requires
        is_first_index(s, b, i),
    ensures
        first_index(s, b) == i,
{
    let k = first_index(s, b);
    assert(is_first_index(s, b, k));
    if k < i {
        assert(s[k] != b);
    } else if i < k {
        assert(s[i] != b);
    }
}

/// Finds the first occurrence of `b` in `s`; returns `s.len()` when there is none.
pub fn find_byte(s: &[u8], b: u8) -> (r: usize)
    ensures
        r as int == first_index(s@, b),
        is_first_index(s@, b, r as int),
{
    let mut i: usize = 0;
    while i < s.len() && s[i] != b
        invariant
            0 <= i <= s@.len(),
            forall|j: int| 0 <= j < i ==> s@[j] != b,
        decreases s@.len() - i,
    {
        i = i + 1;
    }
    proof {
        lemma_first_index(s@, b, i as int);
    }
    i
}

/// `d` is a non-empty run of digits in base `radix` (at most ten).
pub open spec fn all_digits(d: Seq<u8>, radix: nat) -> bool {
    forall|i: int| 0 <= i < d.len() ==> 48 <= #[trigger] d[i] && d[i] - 48 < radix
}

/// The value of a run of digits in base `radix`, most significant first.
pub open spec fn digits_value(d: Seq<u8>, radix: nat) -> int
    decreases d.len(),
{
    if d.len() == 0 {
        0
    } else {
        digits_value(d.drop_last(), radix) * radix + (d.last() - 48)
    }
}

/// The digits of an unsigned number: the text without one leading `+`.
pub open spec fn unsigned_digits(s: Seq<u8>) -> Seq<u8> {
    if s.len() > 0 && s[0] == 43 {
        s.drop_first()
    } else {
        s
    }
}

/// `s` is an unsigned number in base `radix` no greater than `max`.
pub open spec fn parses_unsigned(s: Seq<u8>, radix: nat, max: int) -> bool {
    let d = unsigned_digits(s);
    &&& d.len() > 0
    &&& all_digits(d, radix)
    &&& digits_value(d, radix) <= max
}

/// The value of the unsigned number `s` in base `radix`.
pub open spec fn unsigned_value(s: Seq<u8>, radix: nat) -> int {
    digits_value(unsigned_digits(s), radix)
}

/// Relies on `core::str::from_utf8`: `Ok` exactly for valid UTF-8, holding the same bytes.
#[verifier::external_body]
pub fn str_from_utf8(b: &[u8]) -> (r: Result<&str, core::str::Utf8Error>)
    ensures
        r is Ok <==> vstd::utf8::valid_utf8(b@),
        r is Ok ==> r->Ok_0.spec_bytes() == b@,
{
    core::str::from_utf8(b)
}

/// Relies on `num_traits::Num::from_str_radix` for `u16` in base 8, which is
/// `u16::from_str_radix`: an optional `+` and octal digits, no greater than `u16::MAX`.
#[verifier::external_body]
pub fn octal_u16(s: &str) -> (r: Result<u16, core::num::ParseIntError>)
    ensures
        r is Ok <==> parses_unsigned(s.spec_bytes(), 8, u16::MAX as int),
        r is Ok ==> r->Ok_0 == unsigned_value(s.spec_bytes(), 8),
{
    <u16 as num_traits::Num>::from_str_radix(s, 8)
}

/// Relies on `num_traits::Num::from_str_radix` for `u64` in base 8, which is
/// `u64::from_str_radix`: an optional `+` and octal digits, no greater than `u64::MAX`.
#[verifier::external_body]
pub fn octal_u64(s: &str) -> (r: Result<u64, core::num::ParseIntError>)
    ensures
        r is Ok <==> parses_unsigned(s.spec_bytes(), 8, u64::MAX as int),
        r is Ok ==> r->Ok_0 == unsigned_value(s.spec_bytes(), 8),
{
    <u64 as num_traits::Num>::from_str_radix(s, 8)
}

/// Relies on `str::parse::<u32>`: an optional `+` and decimal digits, no greater
/// than `u32::MAX`.
#[verifier::external_body]
pub fn decimal_u32(s: &str) -> (r: Result<u32, core::num::ParseIntError>)
    ensures
        r is Ok <==> parses_unsigned(s.spec_bytes(), 10, u32::MAX as int),
        r is Ok ==> r->Ok_0 == unsigned_value(s.spec_bytes(), 10),
{
    s.parse::<u32>()
}

/// Splits `s` around the first `sep`, an ASCII byte, that it holds.
pub fn split_at_byte<'a>(s: &'a str, sep: u8) -> (r: Option<(&'a str, &'a str)>)
    requires
        sep < 128,
    ensures
        ({
            let b = s.spec_bytes();
            let i = first_index(b, sep);
            &&& is_first_index(b, sep, i)
            &&& r is None <==> i == b.len()
            &&& r matches Some((x, y)) ==> x.spec_bytes() == b.take(i) && y.spec_bytes() == b.skip(i + 1)
        }),
{
    let bytes = s.as_bytes();
    let i = find_byte(bytes, sep);
    if i == bytes.len() {
        return None;
    }
    proof {
        vstd::utf8::encode_utf8_valid_utf8(s@);
        vstd::utf8::is_char_boundary_iff_not_is_continuation_byte(s.spec_bytes(), i as int);
    }
    let (x, rest) = s.split_at(i);
    proof {
        let rb = rest.spec_bytes();
        vstd::utf8::encode_utf8_valid_utf8(rest@);
        assert(rb[0] == sep);
        if rb.len() == 1 {
            vstd::utf8::is_char_boundary_start_end_of_seq(rb);
        } else {
            assert(vstd::utf8::length_of_first_scalar(rb) == 1);
            assert(vstd::utf8::is_char_boundary(rb, 1)) by {
                reveal_with_fuel(vstd::utf8::is_char_boundary, 2);
            }
        }
    }
    let (_, y) = rest.split_at(1);
    proof {
        assert(y.spec_bytes() =~= s.spec_bytes().skip(i + 1));
    }
    Some((x, y))
}

} // verus!

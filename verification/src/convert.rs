//! Texts as numbers and bytes, and numbers as their bits.

use vstd::prelude::*;
use vstd::utf8::{decode_utf8, encode_utf8, valid_utf8};
use crate::text::unsigned_value;

verus! {

/// What `str::parse::<u32>` says of a text that it does not take.
pub uninterp spec fn u32_fault(s: Seq<char>) -> Seq<char>;

/// `str::parse::<u32>`: decimal digits with an optional `+` before them, of a
/// number that fits. Claimed are the number and when there is one, and that the
/// text of the error depends on the text alone.
#[verifier::external_body]
pub(crate) fn parse_u32(s: &str) -> (r: Result<u32, String>)
    ensures
        match unsigned_value(s@, u32::MAX as nat) {
            Some(n) => r is Ok && r->Ok_0 == n,
            None => r is Err && r->Err_0@ == u32_fault(s@),
        },
{
    s.parse::<u32>().map_err(|e| e.to_string())
}

/// What `str::parse::<u64>` says of a text that it does not take.
pub uninterp spec fn u64_fault(s: Seq<char>) -> Seq<char>;

/// `str::parse::<u64>`: decimal digits with an optional `+` before them, of a
/// number that fits. Claimed are the number and when there is one, and that the
/// text of the error depends on the text alone.
#[verifier::external_body]
pub(crate) fn parse_u64(s: &str) -> (r: Result<u64, String>)
    ensures
        match unsigned_value(s@, u64::MAX as nat) {
            Some(n) => r is Ok && r->Ok_0 == n,
            None => r is Err && r->Err_0@ == u64_fault(s@),
        },
{
    s.parse::<u64>().map_err(|e| e.to_string())
}

/// What `String::from_utf8` says of bytes that are not UTF-8.
pub uninterp spec fn utf8_error(b: Seq<u8>) -> Seq<char>;

/// `String::from_utf8`: the text of bytes that are UTF-8. Claimed are the text and
/// when there is one, and that the text of the error depends on the bytes alone.
#[verifier::external_body]
pub(crate) fn text_from_utf8(b: &Vec<u8>) -> (r: Result<String, String>)
    ensures
        if valid_utf8(b@) {
            r is Ok && r->Ok_0@ == decode_utf8(b@)
        } else {
            r is Err && r->Err_0@ == utf8_error(b@)
        },
{
    String::from_utf8(b.clone()).map_err(|e| e.to_string())
}

/// A text's bytes.
pub fn bytes_of(s: &str) -> (r: Vec<u8>)
    ensures
        r@ == encode_utf8(s@),
{
    let b = s.as_bytes();
    let mut out: Vec<u8> = Vec::new();
    let mut i: usize = 0;
    while i < b.len()
        invariant
            i <= b.len(),
            out@ == b@.take(i as int),
        decreases b.len() - i,
    {
        out.push(b[i]);
        i = i + 1;
        proof {
            assert(out@ =~= b@.take(i as int));
        }
    }
    proof {
        assert(out@ =~= b@);
    }
    out
}

/// The signed number of 32 bits.
pub open spec fn signed32(v: u32) -> i32 {
    if v < 0x8000_0000 {
        v as i32
    } else {
        (v - 0x1_0000_0000) as i32
    }
}

/// The 32 bits of a signed number.
pub open spec fn unsigned32(v: i32) -> u32 {
    if v < 0 {
        (v + 0x1_0000_0000) as u32
    } else {
        v as u32
    }
}

/// The signed number of 64 bits.
pub open spec fn signed64(v: u64) -> i64 {
    if v < 0x8000_0000_0000_0000 {
        v as i64
    } else {
        (v - 0x1_0000_0000_0000_0000) as i64
    }
}

/// The 64 bits of a signed number.
pub open spec fn unsigned64(v: i64) -> u64 {
    if v < 0 {
        (v + 0x1_0000_0000_0000_0000) as u64
    } else {
        v as u64
    }
}

/// The signed number of 32 bits.
pub fn signed32_of(v: u32) -> (r: i32)
    ensures
        r == signed32(v),
{
    if v < 0x8000_0000 {
        v as i32
    } else {
        (v as i64 - 0x1_0000_0000) as i32
    }
}

/// The 32 bits of a signed number.
pub fn unsigned32_of(v: i32) -> (r: u32)
    ensures
        r == unsigned32(v),
{
    if v < 0 {
        (v as i64 + 0x1_0000_0000) as u32
    } else {
        v as u32
    }
}

/// The signed number of 64 bits.
pub fn signed64_of(v: u64) -> (r: i64)
    ensures
        r == signed64(v),
{
    if v < 0x8000_0000_0000_0000 {
        v as i64
    } else {
        (v as i128 - 0x1_0000_0000_0000_0000) as i64
    }
}

/// The 64 bits of a signed number.
pub fn unsigned64_of(v: i64) -> (r: u64)
    ensures
        r == unsigned64(v),
{
    if v < 0 {
        (v as i128 + 0x1_0000_0000_0000_0000) as u64
    } else {
        v as u64
    }
}

/// A number is that of its bits, and bits are those of their number.
pub proof fn bits_read_back(a: i32, b: u32, c: i64, d: u64)
    ensures
        signed32(unsigned32(a)) == a,
        unsigned32(signed32(b)) == b,
        signed64(unsigned64(c)) == c,
        unsigned64(signed64(d)) == d,
{
}

/// Bits and their number differ by a whole turn or not at all, and the number is
/// negative where the highest bit is set.
pub proof fn bits_wrap_around(a: u32, b: u64)
    ensures
        signed32(a) == a || signed32(a) == a - 0x1_0000_0000,
        signed32(a) < 0 <==> a >= 0x8000_0000,
        signed64(b) == b || signed64(b) == b - 0x1_0000_0000_0000_0000,
        signed64(b) < 0 <==> b >= 0x8000_0000_0000_0000,
{
}

} // verus!

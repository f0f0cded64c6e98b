//! The status codes of the C interface, and a failed call.

use vstd::prelude::*;
use crate::stop::{drained, text_is_drained};
use vstd::utf8::{decode_utf8, valid_utf8};

verus! {

pub const TURBO_OK: i32 = 0;
pub const TURBO_E_INVALID_ARGUMENT: i32 = 256;
pub const TURBO_E_INVALID_STRUCT_SIZE: i32 = 257;
pub const TURBO_E_INVALID_UTF8: i32 = 258;
pub const TURBO_E_INVALID_HANDLE: i32 = 259;
pub const TURBO_E_INVALID_SHAPE: i32 = 260;
pub const TURBO_E_INVALID_STATE: i32 = 261;
pub const TURBO_E_INVALID_ENUM: i32 = 262;
pub const TURBO_E_UNSUPPORTED: i32 = 512;
pub const TURBO_E_UNSUPPORTED_OPTION: i32 = 513;
pub const TURBO_E_UNSUPPORTED_TASK: i32 = 514;
pub const TURBO_E_OUT_OF_MEMORY: i32 = 768;
pub const TURBO_E_BUSY: i32 = 769;
pub const TURBO_E_CAPACITY: i32 = 771;
pub const TURBO_E_DEVICE_NOT_FOUND: i32 = 1024;
pub const TURBO_E_DEVICE_UNAVAILABLE: i32 = 1025;
pub const TURBO_E_RUNTIME: i32 = 1026;
pub const TURBO_E_BUNDLE_NOT_FOUND: i32 = 1280;
pub const TURBO_E_BUNDLE_INVALID: i32 = 1281;
pub const TURBO_E_BUNDLE_INTEGRITY: i32 = 1282;
pub const TURBO_E_BUNDLE_NO_ARTIFACT: i32 = 1283;
pub const TURBO_E_INTERNAL: i32 = 1536;
pub const TURBO_E_PANIC: i32 = 1537;

/// A failed call: the status code, the one-based field it names (0 for none)
/// and its message. A refusal that the server makes itself is one of these too.
#[derive(Debug)]
pub struct Failure {
    pub code: i32,
    pub field: u32,
    pub message: String,
}

/// A failed call with its message as characters.
pub struct FailureView {
    pub code: i32,
    pub field: u32,
    pub message: Seq<char>,
}

impl View for Failure {
    type V = FailureView;

    open spec fn view(&self) -> FailureView {
        FailureView { code: self.code, field: self.field, message: self.message@ }
    }
}

/// A failure.
pub open spec fn failure(code: i32, field: u32, message: Seq<char>) -> FailureView {
    FailureView { code, field, message }
}

impl Failure {
    /// A failure.
    pub fn new(code: i32, field: u32, message: String) -> (r: Failure)
        ensures
            r@ == failure(code, field, message@),
    {
        Failure { code, field, message }
    }
}

/// The name of a status code in the header.
pub open spec fn code_name(code: i32) -> Seq<char> {
    if code == TURBO_OK {
        "TURBO_OK"@
    } else if code == TURBO_E_INVALID_ARGUMENT {
        "TURBO_E_INVALID_ARGUMENT"@
    } else if code == TURBO_E_INVALID_STRUCT_SIZE {
        "TURBO_E_INVALID_STRUCT_SIZE"@
    } else if code == TURBO_E_INVALID_UTF8 {
        "TURBO_E_INVALID_UTF8"@
    } else if code == TURBO_E_INVALID_HANDLE {
        "TURBO_E_INVALID_HANDLE"@
    } else if code == TURBO_E_INVALID_SHAPE {
        "TURBO_E_INVALID_SHAPE"@
    } else if code == TURBO_E_INVALID_STATE {
        "TURBO_E_INVALID_STATE"@
    } else if code == TURBO_E_INVALID_ENUM {
        "TURBO_E_INVALID_ENUM"@
    } else if code == TURBO_E_UNSUPPORTED {
        "TURBO_E_UNSUPPORTED"@
    } else if code == TURBO_E_UNSUPPORTED_OPTION {
        "TURBO_E_UNSUPPORTED_OPTION"@
    } else if code == TURBO_E_UNSUPPORTED_TASK {
        "TURBO_E_UNSUPPORTED_TASK"@
    } else if code == TURBO_E_OUT_OF_MEMORY {
        "TURBO_E_OUT_OF_MEMORY"@
    } else if code == TURBO_E_BUSY {
        "TURBO_E_BUSY"@
    } else if code == TURBO_E_CAPACITY {
        "TURBO_E_CAPACITY"@
    } else if code == TURBO_E_DEVICE_NOT_FOUND {
        "TURBO_E_DEVICE_NOT_FOUND"@
    } else if code == TURBO_E_DEVICE_UNAVAILABLE {
        "TURBO_E_DEVICE_UNAVAILABLE"@
    } else if code == TURBO_E_RUNTIME {
        "TURBO_E_RUNTIME"@
    } else if code == TURBO_E_BUNDLE_NOT_FOUND {
        "TURBO_E_BUNDLE_NOT_FOUND"@
    } else if code == TURBO_E_BUNDLE_INVALID {
        "TURBO_E_BUNDLE_INVALID"@
    } else if code == TURBO_E_BUNDLE_INTEGRITY {
        "TURBO_E_BUNDLE_INTEGRITY"@
    } else if code == TURBO_E_BUNDLE_NO_ARTIFACT {
        "TURBO_E_BUNDLE_NO_ARTIFACT"@
    } else if code == TURBO_E_INTERNAL {
        "TURBO_E_INTERNAL"@
    } else if code == TURBO_E_PANIC {
        "TURBO_E_PANIC"@
    } else {
        "TURBO_E_UNKNOWN"@
    }
}

/// The name of a status code in the header; `TURBO_E_UNKNOWN` for any other number.
pub fn status_name(code: i32) -> (r: String)
    ensures
        r@ == code_name(code),
{
    let s: &str = if code == TURBO_OK {
        "TURBO_OK"
    } else if code == TURBO_E_INVALID_ARGUMENT {
        "TURBO_E_INVALID_ARGUMENT"
    } else if code == TURBO_E_INVALID_STRUCT_SIZE {
        "TURBO_E_INVALID_STRUCT_SIZE"
    } else if code == TURBO_E_INVALID_UTF8 {
        "TURBO_E_INVALID_UTF8"
    } else if code == TURBO_E_INVALID_HANDLE {
        "TURBO_E_INVALID_HANDLE"
    } else if code == TURBO_E_INVALID_SHAPE {
        "TURBO_E_INVALID_SHAPE"
    } else if code == TURBO_E_INVALID_STATE {
        "TURBO_E_INVALID_STATE"
    } else if code == TURBO_E_INVALID_ENUM {
        "TURBO_E_INVALID_ENUM"
    } else if code == TURBO_E_UNSUPPORTED {
        "TURBO_E_UNSUPPORTED"
    } else if code == TURBO_E_UNSUPPORTED_OPTION {
        "TURBO_E_UNSUPPORTED_OPTION"
    } else if code == TURBO_E_UNSUPPORTED_TASK {
        "TURBO_E_UNSUPPORTED_TASK"
    } else if code == TURBO_E_OUT_OF_MEMORY {
        "TURBO_E_OUT_OF_MEMORY"
    } else if code == TURBO_E_BUSY {
        "TURBO_E_BUSY"
    } else if code == TURBO_E_CAPACITY {
        "TURBO_E_CAPACITY"
    } else if code == TURBO_E_DEVICE_NOT_FOUND {
        "TURBO_E_DEVICE_NOT_FOUND"
    } else if code == TURBO_E_DEVICE_UNAVAILABLE {
        "TURBO_E_DEVICE_UNAVAILABLE"
    } else if code == TURBO_E_RUNTIME {
        "TURBO_E_RUNTIME"
    } else if code == TURBO_E_BUNDLE_NOT_FOUND {
        "TURBO_E_BUNDLE_NOT_FOUND"
    } else if code == TURBO_E_BUNDLE_INVALID {
        "TURBO_E_BUNDLE_INVALID"
    } else if code == TURBO_E_BUNDLE_INTEGRITY {
        "TURBO_E_BUNDLE_INTEGRITY"
    } else if code == TURBO_E_BUNDLE_NO_ARTIFACT {
        "TURBO_E_BUNDLE_NO_ARTIFACT"
    } else if code == TURBO_E_INTERNAL {
        "TURBO_E_INTERNAL"
    } else if code == TURBO_E_PANIC {
        "TURBO_E_PANIC"
    } else {
        "TURBO_E_UNKNOWN"
    };
    s.to_owned()
}

/// The bytes of a fixed buffer up to its first zero.
pub open spec fn before_nul(b: Seq<u8>) -> Seq<u8>
    decreases b.len(),
{
    if b.len() == 0 || b[0] == 0 {
        Seq::empty()
    } else {
        seq![b[0]] + before_nul(b.skip(1))
    }
}

/// The bytes of a fixed buffer up to its first zero.
pub fn field_bytes(b: &Vec<u8>) -> (r: Vec<u8>)
    ensures
        r@ == before_nul(b@),
{
    let mut out: Vec<u8> = Vec::new();
    let mut i: usize = 0;
    proof {
        assert(b@.skip(0) =~= b@);
        assert(out@ + before_nul(b@) =~= before_nul(b@));
    }
    while i < b.len() && b[i] != 0
        invariant
            i <= b.len(),
            out@ + before_nul(b@.skip(i as int)) == before_nul(b@),
        decreases b.len() - i,
    {
        let ghost had = out@;
        out.push(b[i]);
        proof {
            let rest = b@.skip(i as int);
            assert(rest.skip(1) =~= b@.skip(i + 1));
            assert(before_nul(rest) == seq![b@[i as int]] + before_nul(b@.skip(i + 1)));
            assert(had + before_nul(rest) =~= out@ + before_nul(b@.skip(i + 1)));
        }
        i = i + 1;
    }
    proof {
        assert(before_nul(b@.skip(i as int)) =~= Seq::empty());
        assert(out@ =~= before_nul(b@));
    }
    out
}

/// Bytes as text, with U+FFFD in place of each broken sequence.
pub open spec fn lossy_text(b: Seq<u8>) -> Seq<char> {
    decode_utf8(drained(b, true).0)
}

/// `String::from_utf8_lossy`: the text of UTF-8 bytes, with U+FFFD in place of
/// what is not UTF-8. Claimed is that every character of the bytes stays, and that
/// each broken sequence, of the length that `Utf8Error::error_len` tells, and an
/// unfinished last character become one U+FFFD.
#[verifier::external_body]
fn decode_lossy(b: &Vec<u8>) -> (r: String)
    ensures
        r@ == lossy_text(b@),
{
    String::from_utf8_lossy(b).into_owned()
}

/// A fixed buffer as text, up to its first zero.
pub fn field(b: &Vec<u8>) -> (r: String)
    ensures
        r@ == lossy_text(before_nul(b@)),
        valid_utf8(before_nul(b@)) ==> r@ == decode_utf8(before_nul(b@)),
{
    let text = field_bytes(b);
    proof {
        if valid_utf8(text@) {
            text_is_drained(text@, Seq::empty(), true);
            assert(text@ + Seq::<u8>::empty() =~= text@);
            assert(drained(text@, true).0 =~= text@);
        }
    }
    decode_lossy(&text)
}

/// The text before a buffer's first zero holds no zero, and ends at one or at
/// the buffer's end.
pub proof fn text_ends_at_the_first_zero(b: Seq<u8>)
    ensures
        before_nul(b).len() <= b.len(),
        before_nul(b) == b.take(before_nul(b).len() as int),
        !before_nul(b).contains(0u8),
        before_nul(b).len() < b.len() ==> b[before_nul(b).len() as int] == 0,
    decreases b.len(),
{
    if b.len() > 0 && b[0] != 0 {
        let rest = b.skip(1);
        text_ends_at_the_first_zero(rest);
        let n = before_nul(rest).len() as int;
        assert(before_nul(b) =~= b.take(n + 1)) by {
            assert forall|i: int| 0 <= i < n + 1 implies before_nul(b)[i] == b[i] by {
                if i > 0 {
                    assert(before_nul(rest)[i - 1] == rest.take(n)[i - 1]);
                }
            }
        }
        assert(!before_nul(b).contains(0u8)) by {
            if before_nul(b).contains(0u8) {
                let i = choose|i: int| 0 <= i < before_nul(b).len() && before_nul(b)[i] == 0u8;
                assert(before_nul(rest)[i - 1] == 0u8);
                assert(before_nul(rest).contains(0u8));
            }
        }
    } else {
        assert(before_nul(b) =~= b.take(0));
    }
}

/// The count of texts as the C interface takes it, or the refusal of more.
pub fn text_count(n: usize) -> (r: Result<u32, Failure>)
    ensures
        if n <= u32::MAX {
            r == Ok::<u32, Failure>(n as u32)
        } else {
            r is Err && r->Err_0@ == failure(
                TURBO_E_INVALID_SHAPE,
                0,
                "more texts than a uint32_t holds"@,
            )
        },
{
    if n <= 0xffff_ffff {
        Ok(n as u32)
    } else {
        Err(Failure::new(TURBO_E_INVALID_SHAPE, 0, "more texts than a uint32_t holds".to_owned()))
    }
}

/// Every status code has the name that the header gives its number, and a number
/// without one has the name of an unknown code.
pub proof fn a_code_has_the_name_of_its_number(code: i32)
    ensures
        code == 0 ==> code_name(code) == "TURBO_OK"@,
        code == 0x100 ==> code_name(code) == "TURBO_E_INVALID_ARGUMENT"@,
        code == 0x101 ==> code_name(code) == "TURBO_E_INVALID_STRUCT_SIZE"@,
        code == 0x102 ==> code_name(code) == "TURBO_E_INVALID_UTF8"@,
        code == 0x103 ==> code_name(code) == "TURBO_E_INVALID_HANDLE"@,
        code == 0x104 ==> code_name(code) == "TURBO_E_INVALID_SHAPE"@,
        code == 0x105 ==> code_name(code) == "TURBO_E_INVALID_STATE"@,
        code == 0x106 ==> code_name(code) == "TURBO_E_INVALID_ENUM"@,
        code == 0x200 ==> code_name(code) == "TURBO_E_UNSUPPORTED"@,
        code == 0x201 ==> code_name(code) == "TURBO_E_UNSUPPORTED_OPTION"@,
        code == 0x202 ==> code_name(code) == "TURBO_E_UNSUPPORTED_TASK"@,
        code == 0x300 ==> code_name(code) == "TURBO_E_OUT_OF_MEMORY"@,
        code == 0x301 ==> code_name(code) == "TURBO_E_BUSY"@,
        code == 0x303 ==> code_name(code) == "TURBO_E_CAPACITY"@,
        code == 0x400 ==> code_name(code) == "TURBO_E_DEVICE_NOT_FOUND"@,
        code == 0x401 ==> code_name(code) == "TURBO_E_DEVICE_UNAVAILABLE"@,
        code == 0x402 ==> code_name(code) == "TURBO_E_RUNTIME"@,
        code == 0x500 ==> code_name(code) == "TURBO_E_BUNDLE_NOT_FOUND"@,
        code == 0x501 ==> code_name(code) == "TURBO_E_BUNDLE_INVALID"@,
        code == 0x502 ==> code_name(code) == "TURBO_E_BUNDLE_INTEGRITY"@,
        code == 0x503 ==> code_name(code) == "TURBO_E_BUNDLE_NO_ARTIFACT"@,
        code == 0x600 ==> code_name(code) == "TURBO_E_INTERNAL"@,
        code == 0x601 ==> code_name(code) == "TURBO_E_PANIC"@,
        code < 0 || 0 < code < 0x100 || 0x106 < code < 0x200 || 0x202 < code < 0x300 || code == 0x302
            || 0x303 < code < 0x400 || 0x402 < code < 0x500 || 0x503 < code < 0x600 || code > 0x601
            ==> code_name(code) == "TURBO_E_UNKNOWN"@,
{
}

} // verus!

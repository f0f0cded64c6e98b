//! Status codes as gRPC statuses.

use vstd::prelude::*;
use crate::api::{
    code_name, status_name, Failure, FailureView, TURBO_E_BUNDLE_INTEGRITY, TURBO_E_BUNDLE_INVALID,
    TURBO_E_BUNDLE_NOT_FOUND, TURBO_E_BUNDLE_NO_ARTIFACT, TURBO_E_BUSY, TURBO_E_CAPACITY,
    TURBO_E_DEVICE_NOT_FOUND, TURBO_E_DEVICE_UNAVAILABLE, TURBO_E_INTERNAL, TURBO_E_INVALID_ARGUMENT,
    TURBO_E_INVALID_ENUM, TURBO_E_INVALID_HANDLE, TURBO_E_INVALID_SHAPE, TURBO_E_INVALID_STATE,
    TURBO_E_INVALID_STRUCT_SIZE, TURBO_E_INVALID_UTF8, TURBO_E_OUT_OF_MEMORY, TURBO_E_PANIC,
    TURBO_E_RUNTIME, TURBO_E_UNSUPPORTED, TURBO_E_UNSUPPORTED_OPTION, TURBO_E_UNSUPPORTED_TASK, TURBO_OK,
};
use crate::text::{
    cat3, cat5, cat7, decimal, decimal_of, signed_decimal, signed_of, views,
};

verus! {

/// A gRPC status code.
#[derive(Clone, Copy, Debug, PartialEq, Eq, Structural)]
pub enum Code {
    Success,
    Cancelled,
    Unknown,
    InvalidArgument,
    DeadlineExceeded,
    NotFound,
    AlreadyExists,
    PermissionDenied,
    ResourceExhausted,
    FailedPrecondition,
    Aborted,
    OutOfRange,
    Unimplemented,
    Internal,
    Unavailable,
    DataLoss,
    Unauthenticated,
}

/// The number of a gRPC status code.
pub open spec fn number(c: Code) -> nat {
    match c {
        Code::Success => 0,
        Code::Cancelled => 1,
        Code::Unknown => 2,
        Code::InvalidArgument => 3,
        Code::DeadlineExceeded => 4,
        Code::NotFound => 5,
        Code::AlreadyExists => 6,
        Code::PermissionDenied => 7,
        Code::ResourceExhausted => 8,
        Code::FailedPrecondition => 9,
        Code::Aborted => 10,
        Code::OutOfRange => 11,
        Code::Unimplemented => 12,
        Code::Internal => 13,
        Code::Unavailable => 14,
        Code::DataLoss => 15,
        Code::Unauthenticated => 16,
    }
}

/// The number of a gRPC status code.
pub fn number_of(c: Code) -> (r: u32)
    ensures
        r == number(c),
{
    match c {
        Code::Success => 0,
        Code::Cancelled => 1,
        Code::Unknown => 2,
        Code::InvalidArgument => 3,
        Code::DeadlineExceeded => 4,
        Code::NotFound => 5,
        Code::AlreadyExists => 6,
        Code::PermissionDenied => 7,
        Code::ResourceExhausted => 8,
        Code::FailedPrecondition => 9,
        Code::Aborted => 10,
        Code::OutOfRange => 11,
        Code::Unimplemented => 12,
        Code::Internal => 13,
        Code::Unavailable => 14,
        Code::DataLoss => 15,
        Code::Unauthenticated => 16,
    }
}

/// The gRPC status code of a status code.
pub open spec fn code_of(code: i32) -> Code {
    if code == TURBO_OK {
        Code::Success
    } else if code == TURBO_E_INVALID_ARGUMENT || code == TURBO_E_INVALID_UTF8 || code
        == TURBO_E_INVALID_SHAPE || code == TURBO_E_INVALID_ENUM {
        Code::InvalidArgument
    } else if code == TURBO_E_INVALID_STRUCT_SIZE || code == TURBO_E_INVALID_HANDLE || code
        == TURBO_E_RUNTIME || code == TURBO_E_INTERNAL || code == TURBO_E_PANIC {
        Code::Internal
    } else if code == TURBO_E_INVALID_STATE || code == TURBO_E_DEVICE_NOT_FOUND || code
        == TURBO_E_BUNDLE_INVALID || code == TURBO_E_BUNDLE_NO_ARTIFACT {
        Code::FailedPrecondition
    } else if code == TURBO_E_UNSUPPORTED || code == TURBO_E_UNSUPPORTED_OPTION || code
        == TURBO_E_UNSUPPORTED_TASK {
        Code::Unimplemented
    } else if code == TURBO_E_OUT_OF_MEMORY {
        Code::ResourceExhausted
    } else if code == TURBO_E_BUSY || code == TURBO_E_DEVICE_UNAVAILABLE {
        Code::Unavailable
    } else if code == TURBO_E_CAPACITY {
        Code::OutOfRange
    } else if code == TURBO_E_BUNDLE_NOT_FOUND {
        Code::NotFound
    } else if code == TURBO_E_BUNDLE_INTEGRITY {
        Code::DataLoss
    } else {
        Code::Unknown
    }
}

/// The gRPC status code of a status code.
pub fn grpc_code(code: i32) -> (r: Code)
    ensures
        r == code_of(code),
{
    if code == TURBO_OK {
        return Code::Success;
    }
    if code == TURBO_E_INVALID_ARGUMENT || code == TURBO_E_INVALID_UTF8 || code
        == TURBO_E_INVALID_SHAPE || code == TURBO_E_INVALID_ENUM {
        return Code::InvalidArgument;
    }
    if code == TURBO_E_INVALID_STRUCT_SIZE || code == TURBO_E_INVALID_HANDLE || code == TURBO_E_RUNTIME
        || code == TURBO_E_INTERNAL || code == TURBO_E_PANIC {
        return Code::Internal;
    }
    if code == TURBO_E_INVALID_STATE || code == TURBO_E_DEVICE_NOT_FOUND || code
        == TURBO_E_BUNDLE_INVALID || code == TURBO_E_BUNDLE_NO_ARTIFACT {
        return Code::FailedPrecondition;
    }
    if code == TURBO_E_UNSUPPORTED || code == TURBO_E_UNSUPPORTED_OPTION || code
        == TURBO_E_UNSUPPORTED_TASK {
        return Code::Unimplemented;
    }
    if code == TURBO_E_OUT_OF_MEMORY {
        return Code::ResourceExhausted;
    }
    if code == TURBO_E_BUSY || code == TURBO_E_DEVICE_UNAVAILABLE {
        return Code::Unavailable;
    }
    if code == TURBO_E_CAPACITY {
        return Code::OutOfRange;
    }
    if code == TURBO_E_BUNDLE_NOT_FOUND {
        return Code::NotFound;
    }
    if code == TURBO_E_BUNDLE_INTEGRITY {
        return Code::DataLoss;
    }
    Code::Unknown
}

/// The fields of the embedding options, one-based: what a write's failure names.
pub open spec fn embed_fields() -> Seq<Seq<char>> {
    seq![
        "truncate"@,
        "max_tokens"@,
        "prompt_role"@,
        "normalize"@,
        "pooling"@,
        "output_dim"@,
    ]
}

/// The fields of the embedding options, one-based: what a write's failure names.
pub fn embed_options() -> (r: Vec<String>)
    ensures
        views(r@) == embed_fields(),
        r.len() == 6,
{
    let mut v: Vec<String> = Vec::new();
    v.push("truncate".to_owned());
    v.push("max_tokens".to_owned());
    v.push("prompt_role".to_owned());
    v.push("normalize".to_owned());
    v.push("pooling".to_owned());
    v.push("output_dim".to_owned());
    proof {
        assert(views(v@) =~= embed_fields());
    }
    v
}

/// The fields of a session's description, one-based: what making one names.
pub open spec fn session_fields() -> Seq<Seq<char>> {
    seq!["max_batch"@, "max_seq"@, "precision"@]
}

/// The fields of a session's description, one-based: what making one names.
pub fn session_desc() -> (r: Vec<String>)
    ensures
        views(r@) == session_fields(),
{
    let mut v: Vec<String> = Vec::new();
    v.push("max_batch".to_owned());
    v.push("max_seq".to_owned());
    v.push("precision".to_owned());
    proof {
        assert(views(v@) =~= session_fields());
    }
    v
}

/// `<name>: <message>`, or `<name> field <n> (<field>): <message>` when the
/// failure names a field of `fields`.
pub open spec fn described(f: FailureView, fields: Seq<Seq<char>>) -> Seq<char> {
    if f.field == 0 {
        code_name(f.code) + ": "@ + f.message
    } else if f.field <= fields.len() {
        code_name(f.code) + " field "@ + decimal(f.field as nat) + " ("@ + fields[f.field - 1] + "): "@
            + f.message
    } else {
        code_name(f.code) + " field "@ + decimal(f.field as nat) + ": "@ + f.message
    }
}

/// The failure as a line of text; `fields` are the fields of the struct that the
/// call took.
pub fn describe(f: &Failure, fields: &Vec<String>) -> (r: String)
    ensures
        r@ == described(f@, views(fields@)),
{
    let name = status_name(f.code);
    if f.field == 0 {
        return cat3(name.as_str(), ": ", f.message.as_str());
    }
    let n = decimal_of(f.field as u128);
    if (f.field - 1) as usize >= fields.len() {
        return cat5(name.as_str(), " field ", n.as_str(), ": ", f.message.as_str());
    }
    cat7(
        name.as_str(),
        " field ",
        n.as_str(),
        " (",
        fields[(f.field - 1) as usize].as_str(),
        "): ",
        f.message.as_str(),
    )
}

/// The status a gRPC client receives: a code, a message, and the trailing metadata.
#[derive(Debug)]
pub struct Status {
    pub code: Code,
    pub message: String,
    /// `turbo-code`.
    pub turbo_code: String,
    /// `turbo-field`.
    pub turbo_field: String,
}

/// The status of a failure: the code it maps to, its description, and its code
/// and field as trailing metadata.
pub fn to_status(f: &Failure, fields: &Vec<String>) -> (r: Status)
    ensures
        r.code == code_of(f.code),
        r.message@ == described(f@, views(fields@)),
        r.turbo_code@ == signed_decimal(f.code as int),
        r.turbo_field@ == decimal(f.field as nat),
{
    Status {
        code: grpc_code(f.code),
        message: describe(f, fields),
        turbo_code: signed_of(f.code as i64),
        turbo_field: decimal_of(f.field as u128),
    }
}

/// The status of a failure of a call without a struct of fields.
pub fn plain(f: &Failure) -> (r: Status)
    ensures
        r.code == code_of(f.code),
        r.message@ == described(f@, Seq::empty()),
        r.turbo_code@ == signed_decimal(f.code as int),
        r.turbo_field@ == decimal(f.field as nat),
{
    let none: Vec<String> = Vec::new();
    proof {
        assert(views(none@) =~= Seq::empty());
    }
    to_status(f, &none)
}

/// The status of a message over the transport's limit, where the response is one.
pub open spec fn size_status(status: Option<Seq<char>>, has_turbo_code: bool) -> Option<u32> {
    match status {
        Some(s) => if s == decimal(number(Code::OutOfRange)) && !has_turbo_code {
            Some(number(Code::ResourceExhausted) as u32)
        } else {
            None
        },
        None => None,
    }
}

/// The `grpc-status` to send in place of the one that a response has. The
/// transport refuses a message over its limit with `OutOfRange`, before the
/// service sees it; the service's own refusals all carry `turbo-code`. So an
/// `OutOfRange` without it is that one, and is answered `ResourceExhausted`.
pub fn too_large(grpc_status: &Option<String>, has_turbo_code: bool) -> (r: Option<u32>)
    ensures
        r == size_status(crate::text::opt_view(*grpc_status), has_turbo_code),
{
    match grpc_status {
        None => None,
        Some(s) => {
            let out_of_range = decimal_of(number_of(Code::OutOfRange) as u128);
            if crate::text::same(s.as_str(), out_of_range.as_str()) && !has_turbo_code {
                Some(number_of(Code::ResourceExhausted))
            } else {
                None
            }
        },
    }
}

/// `OutOfRange` is the capacity refusal's alone, and only success is answered `Ok`.
pub proof fn codes_tell_apart(code: i32)
    ensures
        code_of(code) == Code::OutOfRange <==> code == TURBO_E_CAPACITY,
        code_of(code) == Code::Success <==> code == TURBO_OK,
        code_of(code) == Code::Unknown <==> code_name(code) == "TURBO_E_UNKNOWN"@,
{
    reveal_strlit("TURBO_E_UNKNOWN");
    reveal_strlit("TURBO_OK");
    reveal_strlit("TURBO_E_INVALID_ARGUMENT");
    reveal_strlit("TURBO_E_INVALID_STRUCT_SIZE");
    reveal_strlit("TURBO_E_INVALID_UTF8");
    reveal_strlit("TURBO_E_INVALID_HANDLE");
    reveal_strlit("TURBO_E_INVALID_SHAPE");
    reveal_strlit("TURBO_E_INVALID_STATE");
    reveal_strlit("TURBO_E_INVALID_ENUM");
    reveal_strlit("TURBO_E_UNSUPPORTED");
    reveal_strlit("TURBO_E_UNSUPPORTED_OPTION");
    reveal_strlit("TURBO_E_UNSUPPORTED_TASK");
    reveal_strlit("TURBO_E_OUT_OF_MEMORY");
    reveal_strlit("TURBO_E_BUSY");
    reveal_strlit("TURBO_E_CAPACITY");
    reveal_strlit("TURBO_E_DEVICE_NOT_FOUND");
    reveal_strlit("TURBO_E_DEVICE_UNAVAILABLE");
    reveal_strlit("TURBO_E_RUNTIME");
    reveal_strlit("TURBO_E_BUNDLE_NOT_FOUND");
    reveal_strlit("TURBO_E_BUNDLE_INVALID");
    reveal_strlit("TURBO_E_BUNDLE_INTEGRITY");
    reveal_strlit("TURBO_E_BUNDLE_NO_ARTIFACT");
    reveal_strlit("TURBO_E_INTERNAL");
    reveal_strlit("TURBO_E_PANIC");
    assert("TURBO_E_UNKNOWN"@.len() == 15);
    assert("TURBO_OK"@.len() == 8);
    assert("TURBO_E_INVALID_ARGUMENT"@.len() == 24);
    assert("TURBO_E_INVALID_STRUCT_SIZE"@.len() == 27);
    assert("TURBO_E_INVALID_UTF8"@.len() == 20);
    assert("TURBO_E_INVALID_HANDLE"@.len() == 22);
    assert("TURBO_E_INVALID_SHAPE"@.len() == 21);
    assert("TURBO_E_INVALID_STATE"@.len() == 21);
    assert("TURBO_E_INVALID_ENUM"@.len() == 20);
    assert("TURBO_E_UNSUPPORTED"@.len() == 19);
    assert("TURBO_E_UNSUPPORTED_OPTION"@.len() == 26);
    assert("TURBO_E_UNSUPPORTED_TASK"@.len() == 24);
    assert("TURBO_E_OUT_OF_MEMORY"@.len() == 21);
    assert("TURBO_E_BUSY"@.len() == 12);
    assert("TURBO_E_CAPACITY"@.len() == 16);
    assert("TURBO_E_DEVICE_NOT_FOUND"@.len() == 24);
    assert("TURBO_E_DEVICE_UNAVAILABLE"@.len() == 26);
    assert("TURBO_E_BUNDLE_NOT_FOUND"@.len() == 24);
    assert("TURBO_E_BUNDLE_INVALID"@.len() == 22);
    assert("TURBO_E_BUNDLE_INTEGRITY"@.len() == 24);
    assert("TURBO_E_BUNDLE_NO_ARTIFACT"@.len() == 26);
    assert("TURBO_E_INTERNAL"@.len() == 16);
    assert("TURBO_E_PANIC"@.len() == 13);
    assert("TURBO_E_UNKNOWN"@[8] == 'U');
    assert("TURBO_E_RUNTIME"@[8] == 'R');
}

/// Every status code has the number that gRPC gives it.
pub proof fn status_codes_have_their_numbers(c: Code)
    ensures
        c == Code::Success <==> number(c) == 0,
        c == Code::Cancelled <==> number(c) == 1,
        c == Code::Unknown <==> number(c) == 2,
        c == Code::InvalidArgument <==> number(c) == 3,
        c == Code::DeadlineExceeded <==> number(c) == 4,
        c == Code::NotFound <==> number(c) == 5,
        c == Code::AlreadyExists <==> number(c) == 6,
        c == Code::PermissionDenied <==> number(c) == 7,
        c == Code::ResourceExhausted <==> number(c) == 8,
        c == Code::FailedPrecondition <==> number(c) == 9,
        c == Code::Aborted <==> number(c) == 10,
        c == Code::OutOfRange <==> number(c) == 11,
        c == Code::Unimplemented <==> number(c) == 12,
        c == Code::Internal <==> number(c) == 13,
        c == Code::Unavailable <==> number(c) == 14,
        c == Code::DataLoss <==> number(c) == 15,
        c == Code::Unauthenticated <==> number(c) == 16,
{
}

/// What a client is answered, by the number of the library's code: what it asked wrongly,
/// what the server cannot do, what it has no room for now or ever, what is not there, and
/// what went wrong inside.
pub proof fn a_client_is_answered_by_the_code(code: i32)
    ensures
        code == 256 || code == 258 || code == 260 || code == 262 <==> code_of(code) == Code::InvalidArgument,
        code == 257 || code == 259 || code == 1026 || code == 1536 || code == 1537 <==> code_of(code)
            == Code::Internal,
        code == 261 || code == 1024 || code == 1281 || code == 1283 <==> code_of(code)
            == Code::FailedPrecondition,
        code == 512 || code == 513 || code == 514 <==> code_of(code) == Code::Unimplemented,
        code == 768 <==> code_of(code) == Code::ResourceExhausted,
        code == 769 || code == 1025 <==> code_of(code) == Code::Unavailable,
        code == 771 <==> code_of(code) == Code::OutOfRange,
        code == 1280 <==> code_of(code) == Code::NotFound,
        code == 1282 <==> code_of(code) == Code::DataLoss,
        code == 0 <==> code_of(code) == Code::Success,
{
}

/// A failure is described by its code's name and its message, and where it is one of a
/// field, by the field's number between them, and its name where it is known.
pub proof fn a_failure_is_described_by_name_field_and_message(f: FailureView, fields: Seq<Seq<char>>)
    ensures
        crate::text::starts(described(f, fields), code_name(f.code)),
        crate::text::ends(described(f, fields), f.message),
        0 < f.field <= fields.len() ==> crate::text::occurs(described(f, fields), fields[f.field - 1]),
        f.field > 0 ==> crate::text::starts(
            described(f, fields),
            code_name(f.code) + " field "@ + decimal(f.field as nat),
        ),
{
    let d = described(f, fields);
    let name = code_name(f.code);
    assert(d.take(name.len() as int) =~= name);
    assert(d.skip(d.len() - f.message.len()) =~= f.message);
    if f.field > 0 {
        let head = name + " field "@ + decimal(f.field as nat);
        assert(d.take(head.len() as int) =~= head);
        if f.field <= fields.len() {
            let at = (head + " ("@).len() as int;
            let word = fields[f.field - 1];
            assert(d.subrange(at, at + word.len()) =~= word);
            assert(crate::text::occurs_at(d, word, at));
        }
    }
}

/// The fields of the options are numbered as they are listed.
pub proof fn option_fields_are_numbered_from_one()
    ensures
        embed_fields().len() == 6,
        embed_fields()[0] == "truncate"@,
        embed_fields()[1] == "max_tokens"@,
        embed_fields()[2] == "prompt_role"@,
        embed_fields()[3] == "normalize"@,
        embed_fields()[4] == "pooling"@,
        embed_fields()[5] == "output_dim"@,
        session_fields().len() == 3,
        session_fields()[0] == "max_batch"@,
        session_fields()[1] == "max_seq"@,
        session_fields()[2] == "precision"@,
{
}

/// A message over the transport's limit is told as an exhausted resource, 8, where
/// the transport said 11 and the library said nothing; every other status stays.
pub proof fn only_the_transports_own_limit_is_retold(status: Option<Seq<char>>, has_turbo_code: bool)
    ensures
        size_status(status, has_turbo_code) == Some(8u32) <==> status == Some(decimal(11))
            && !has_turbo_code,
        size_status(status, has_turbo_code) is None <==> status != Some(decimal(11)) || has_turbo_code,
{
}

} // verus!

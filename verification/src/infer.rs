//! An inference request as the one write it becomes. Everything here is the
//! server's own checking, made before any library call; what the header checks
//! is left to the library.

use vstd::prelude::*;
use vstd::slice::slice_subrange;
use crate::api::{
    failure, Failure, FailureView, TURBO_E_INVALID_ARGUMENT, TURBO_E_INVALID_ENUM, TURBO_E_INVALID_SHAPE,
};
use crate::bytes::{le_bytes, le_read_back, le_round_trip, le_value, pow256, read_le};
use crate::names::{
    names_in, names_of, normalize_names, normalize_table, pooling_names, pooling_table, prompt_names,
    prompt_table, table_view, truncate_names, truncate_table, value_in, value_of, Table,
};
use crate::order::{lex_le, lex_le_of, lex_total, lex_transitive};
use crate::status::{embed_fields, embed_options};
use crate::text::{
    all_quoted, cat3, cat4, cat5, cat6, cat7, cat8, cat9, decimal, decimal_of, holds, join_of,
    joined, quoted_list, same, signed_decimal, signed_of, unsigned_bracketed,
    unsigned_bracketed_of, views,
};

verus! {

/// A double-precision number: its bits, and how it is shown and debugged.
#[derive(Clone, Debug)]
pub struct Real {
    pub bits: u64,
    pub shown: String,
    pub debug: String,
}

/// A double-precision number with its texts as characters.
pub struct RealView {
    pub bits: u64,
    pub shown: Seq<char>,
    pub debug: Seq<char>,
}

impl View for Real {
    type V = RealView;

    open spec fn view(&self) -> RealView {
        RealView { bits: self.bits, shown: self.shown@, debug: self.debug@ }
    }
}

/// A parameter's value.
#[derive(Clone, Debug)]
pub enum ParameterChoice {
    BoolParam(bool),
    Int64Param(i64),
    StringParam(String),
    DoubleParam(Real),
    Uint64Param(u64),
}

/// A parameter.
#[derive(Clone, Debug)]
pub struct InferParameter {
    pub parameter_choice: Option<ParameterChoice>,
}

/// Parameters by name, each name once.
pub type Parameters = Vec<(String, InferParameter)>;

/// A request's embedding options by their header values; 0 is the model's.
#[derive(Clone, Copy, Debug, PartialEq, Eq, Structural)]
pub struct Options {
    pub truncate: u32,
    pub max_tokens: u32,
    pub prompt_role: u32,
    pub normalize: u32,
    pub pooling: u32,
    pub output_dim: u32,
}

/// A refusal of an argument.
pub open spec fn bad(message: Seq<char>) -> FailureView {
    failure(TURBO_E_INVALID_ARGUMENT, 0, message)
}

/// A refusal of a shape.
pub open spec fn bad_shape(message: Seq<char>) -> FailureView {
    failure(TURBO_E_INVALID_SHAPE, 0, message)
}

/// A refusal of an argument.
fn refuse(message: String) -> (r: Failure)
    ensures
        r@ == bad(message@),
{
    Failure::new(TURBO_E_INVALID_ARGUMENT, 0, message)
}

/// A refusal of a shape.
fn refuse_shape(message: String) -> (r: Failure)
    ensures
        r@ == bad_shape(message@),
{
    Failure::new(TURBO_E_INVALID_SHAPE, 0, message)
}

/// What a parameter's value is called.
pub open spec fn kind_text(c: Option<ParameterChoice>) -> Seq<char> {
    match c {
        None => "no value"@,
        Some(ParameterChoice::BoolParam(_)) => "a bool_param"@,
        Some(ParameterChoice::Int64Param(_)) => "an int64_param"@,
        Some(ParameterChoice::StringParam(_)) => "a string_param"@,
        Some(ParameterChoice::DoubleParam(_)) => "a double_param"@,
        Some(ParameterChoice::Uint64Param(_)) => "a uint64_param"@,
    }
}

/// What a parameter's value is called.
pub fn kind(c: &Option<ParameterChoice>) -> (r: &'static str)
    ensures
        r@ == kind_text(*c),
{
    match c {
        None => "no value",
        Some(ParameterChoice::BoolParam(_)) => "a bool_param",
        Some(ParameterChoice::Int64Param(_)) => "an int64_param",
        Some(ParameterChoice::StringParam(_)) => "a string_param",
        Some(ParameterChoice::DoubleParam(_)) => "a double_param",
        Some(ParameterChoice::Uint64Param(_)) => "a uint64_param",
    }
}

/// The constants that an option field takes, by the field's number; none for a
/// field that takes a number.
pub open spec fn field_names(field: int) -> Option<Seq<(u32, Seq<char>)>> {
    if field == 1 {
        Some(truncate_names())
    } else if field == 3 {
        Some(prompt_names())
    } else if field == 4 {
        Some(normalize_names())
    } else if field == 5 {
        Some(pooling_names())
    } else {
        None
    }
}

/// The constants that an option field takes.
pub fn constants(field: usize) -> (r: Option<Table>)
    ensures
        match field_names(field as int) {
            Some(t) => r is Some && table_view(r->0@) == t,
            None => r is None,
        },
{
    if field == 1 {
        Some(truncate_table())
    } else if field == 3 {
        Some(prompt_table())
    } else if field == 4 {
        Some(normalize_table())
    } else if field == 5 {
        Some(pooling_table())
    } else {
        None
    }
}

/// Where a parameter of this name first stands, from place `i` on; the length if
/// nowhere.
pub open spec fn param_at(params: Seq<(String, InferParameter)>, name: Seq<char>, i: int) -> int
    decreases params.len() - i,
{
    if 0 <= i < params.len() && params[i].0@ != name {
        param_at(params, name, i + 1)
    } else {
        i
    }
}

/// The least of the first `n` names that are no field of the options.
pub open spec fn least_unknown(params: Seq<(String, InferParameter)>, n: int) -> Option<Seq<char>>
    decreases n,
{
    if n <= 0 {
        None
    } else {
        let name = params[n - 1].0@;
        match least_unknown(params, n - 1) {
            None => if embed_fields().contains(name) {
                None
            } else {
                Some(name)
            },
            Some(least) => if embed_fields().contains(name) || lex_le(least, name) {
                Some(least)
            } else {
                Some(name)
            },
        }
    }
}

/// The value that a request gives an option field: 0 where it does not name it.
pub open spec fn field_value(params: Seq<(String, InferParameter)>, field: int) -> Result<
    u32,
    FailureView,
> {
    let name = embed_fields()[field - 1];
    let at = param_at(params, name, 0);
    if at >= params.len() {
        Ok(0)
    } else {
        let choice = params[at].1.parameter_choice;
        match field_names(field) {
            Some(table) => match choice {
                Some(ParameterChoice::StringParam(s)) => match value_in(table, s@, 0) {
                    Some(v) => Ok(v),
                    None => Err(
                        failure(
                            TURBO_E_INVALID_ENUM,
                            0,
                            "parameter "@ + name + ": `"@ + s@ + "` is not one of "@ + joined(
                                names_in(table),
                                ", "@,
                            ),
                        ),
                    ),
                },
                _ => Err(
                    failure(
                        TURBO_E_INVALID_ARGUMENT,
                        field as u32,
                        "parameter "@ + name + " takes a string_param, not "@ + kind_text(choice),
                    ),
                ),
            },
            None => match choice {
                Some(ParameterChoice::Int64Param(n)) => if 0 <= n <= u32::MAX {
                    Ok(n as u32)
                } else {
                    Err(
                        failure(
                            TURBO_E_INVALID_ARGUMENT,
                            field as u32,
                            "parameter "@ + name + ": "@ + signed_decimal(n as int)
                                + " is outside 0 to 4294967295"@,
                        ),
                    )
                },
                _ => Err(
                    failure(
                        TURBO_E_INVALID_ARGUMENT,
                        field as u32,
                        "parameter "@ + name + " takes an int64_param, not "@ + kind_text(choice),
                    ),
                ),
            },
        }
    }
}

/// The values of the first `n` option fields, or the first refusal.
pub open spec fn field_values(params: Seq<(String, InferParameter)>, n: int) -> Result<
    Seq<u32>,
    FailureView,
>
    decreases n,
{
    if n <= 0 {
        Ok(Seq::empty())
    } else {
        match field_values(params, n - 1) {
            Err(e) => Err(e),
            Ok(v) => match field_value(params, n) {
                Err(e) => Err(e),
                Ok(x) => Ok(v.push(x)),
            },
        }
    }
}

/// The options that a request's parameters give, or the refusal: first of the
/// least unknown name, then of the first field that is not given as it is taken.
pub open spec fn options_of(params: Seq<(String, InferParameter)>) -> Result<Options, FailureView> {
    match least_unknown(params, params.len() as int) {
        Some(name) => Err(
            bad("parameter `"@ + name + "` is not a field of turbo_embed_options"@),
        ),
        None => match field_values(params, 6) {
            Err(e) => Err(e),
            Ok(v) => Ok(
                Options {
                    truncate: v[0],
                    max_tokens: v[1],
                    prompt_role: v[2],
                    normalize: v[3],
                    pooling: v[4],
                    output_dim: v[5],
                },
            ),
        },
    }
}

/// A refused field decides the whole.
proof fn field_refusal_stays(params: Seq<(String, InferParameter)>, i: int, n: int)
    requires
        0 <= i <= n,
    ensures
        field_values(params, i) is Err ==> field_values(params, n) == field_values(params, i),
    decreases n,
{
    if i < n {
        field_refusal_stays(params, i, n - 1);
    }
}

/// The least name that is no field of the options.
fn find_unknown(params: &Parameters, fields: &Vec<String>) -> (r: Option<String>)
    requires
        views(fields@) == embed_fields(),
    ensures
        crate::text::opt_view(r) == least_unknown(params@, params.len() as int),
{
    let mut least: Option<String> = None;
    let mut i: usize = 0;
    while i < params.len()
        invariant
            i <= params.len(),
            views(fields@) == embed_fields(),
            crate::text::opt_view(least) == least_unknown(params@, i as int),
        decreases params.len() - i,
    {
        let name = params[i].0.as_str();
        if !holds(fields, name) {
            let smaller = match &least {
                None => true,
                Some(l) => !lex_le_of(l.as_str(), name),
            };
            if smaller {
                least = Some(name.to_owned());
            }
        }
        i = i + 1;
    }
    least
}

/// The value of one option field.
fn read_field(params: &Parameters, fields: &Vec<String>, field: usize) -> (r: Result<u32, Failure>)
    requires
        views(fields@) == embed_fields(),
        1 <= field <= 6,
        fields.len() == 6,
    ensures
        match field_value(params@, field as int) {
            Ok(v) => r == Ok::<u32, Failure>(v),
            Err(e) => r is Err && r->Err_0@ == e,
        },
{
    let name = fields[field - 1].as_str();
    assert(views(fields@)[field - 1] == name@);
    let mut at: usize = 0;
    while at < params.len() && !same(params[at].0.as_str(), name)
        invariant
            at <= params.len(),
            param_at(params@, name@, at as int) == param_at(params@, name@, 0),
        decreases params.len() - at,
    {
        at = at + 1;
    }
    if at >= params.len() {
        return Ok(0);
    }
    let choice = &params[at].1.parameter_choice;
    match constants(field) {
        Some(table) => match choice {
            Some(ParameterChoice::StringParam(s)) => match value_of(&table, s.as_str()) {
                Some(v) => Ok(v),
                None => Err(
                    Failure::new(
                        TURBO_E_INVALID_ENUM,
                        0,
                        cat6(
                            "parameter ",
                            name,
                            ": `",
                            s.as_str(),
                            "` is not one of ",
                            join_of(&names_of(&table), ", ").as_str(),
                        ),
                    ),
                ),
            },
            _ => Err(
                Failure::new(
                    TURBO_E_INVALID_ARGUMENT,
                    field as u32,
                    cat4("parameter ", name, " takes a string_param, not ", kind(choice)),
                ),
            ),
        },
        None => match choice {
            Some(ParameterChoice::Int64Param(n)) => if 0 <= *n && *n <= 0xffff_ffff {
                Ok(*n as u32)
            } else {
                Err(
                    Failure::new(
                        TURBO_E_INVALID_ARGUMENT,
                        field as u32,
                        cat5(
                            "parameter ",
                            name,
                            ": ",
                            signed_of(*n).as_str(),
                            " is outside 0 to 4294967295",
                        ),
                    ),
                )
            },
            _ => Err(
                Failure::new(
                    TURBO_E_INVALID_ARGUMENT,
                    field as u32,
                    cat4("parameter ", name, " takes an int64_param, not ", kind(choice)),
                ),
            ),
        },
    }
}

/// The request's parameters as options: every field 0 but those that it names.
pub fn options(params: &Parameters) -> (r: Result<Options, Failure>)
    ensures
        match options_of(params@) {
            Ok(o) => r == Ok::<Options, Failure>(o),
            Err(e) => r is Err && r->Err_0@ == e,
        },
{
    let fields = embed_options();
    match find_unknown(params, &fields) {
        Some(name) => return Err(
            refuse(cat3("parameter `", name.as_str(), "` is not a field of turbo_embed_options")),
        ),
        None => {},
    }
    let mut v: Vec<u32> = Vec::new();
    let mut i: usize = 0;
    while i < 6
        invariant
            i <= 6,
            v.len() == i,
            fields.len() == 6,
            views(fields@) == embed_fields(),
            least_unknown(params@, params.len() as int) is None,
            field_values(params@, i as int) == Ok::<Seq<u32>, FailureView>(v@),
        decreases 6 - i,
    {
        proof {
            field_refusal_stays(params@, i + 1, 6);
        }
        match read_field(params, &fields, i + 1) {
            Err(e) => return Err(e),
            Ok(x) => v.push(x),
        }
        i = i + 1;
    }
    Ok(
        Options {
            truncate: v[0],
            max_tokens: v[1],
            prompt_role: v[2],
            normalize: v[3],
            pooling: v[4],
            output_dim: v[5],
        },
    )
}

/// A refused unknown name is a parameter's, no field's, and none is smaller.
pub proof fn least_unknown_is_least(params: Seq<(String, InferParameter)>, n: int)
    requires
        0 <= n <= params.len(),
    ensures
        match least_unknown(params, n) {
            None => forall|i: int| 0 <= i < n ==> embed_fields().contains((#[trigger] params[i]).0@),
            Some(least) => {
                &&& !embed_fields().contains(least)
                &&& exists|i: int| 0 <= i < n && (#[trigger] params[i]).0@ == least
                &&& forall|i: int|
                    0 <= i < n && !embed_fields().contains((#[trigger] params[i]).0@) ==> lex_le(
                        least,
                        params[i].0@,
                    )
            },
        },
    decreases n,
{
    if n > 0 {
        least_unknown_is_least(params, n - 1);
        let name = params[n - 1].0@;
        crate::order::lex_reflexive(name);
        if let Some(least) = least_unknown(params, n - 1) {
            lex_total(least, name);
            if least_unknown(params, n) == Some(name) && !lex_le(least, name) {
                assert forall|i: int|
                    0 <= i < n && !embed_fields().contains((#[trigger] params[i]).0@) implies lex_le(
                    name,
                    params[i].0@,
                ) by {
                    if i < n - 1 {
                        lex_transitive(name, least, params[i].0@);
                    }
                }
                assert(params[n - 1].0@ == name);
            } else {
                let w = choose|i: int| 0 <= i < n - 1 && (#[trigger] params[i]).0@ == least;
                assert(params[w].0@ == least);
            }
        }
    }
}

/// Byte slices as sequences.
pub open spec fn slice_views(v: Seq<&[u8]>) -> Seq<Seq<u8>> {
    Seq::new(v.len(), |i: int| v[i]@)
}

/// Raw bytes from element `k` on: each element a four-byte little-endian length
/// and that many bytes, back to back, with nothing left over.
pub open spec fn split_raw(b: Seq<u8>, k: nat) -> Result<Seq<Seq<u8>>, FailureView>
    decreases b.len(),
{
    if b.len() == 0 {
        Ok(Seq::empty())
    } else if b.len() < 4 {
        Err(
            bad(
                "raw `texts` element "@ + decimal(k) + ": "@ + decimal(b.len())
                    + " bytes left, too few for a length"@,
            ),
        )
    } else {
        let n = le_value(b.take(4));
        let left = (b.len() - 4) as nat;
        if left < n {
            Err(
                bad(
                    "raw `texts` element "@ + decimal(k) + ": length "@ + decimal(n) + " with "@
                        + decimal(left) + " bytes left"@,
                ),
            )
        } else {
            match split_raw(b.skip(4 + n as int), k + 1) {
                Err(e) => Err(e),
                Ok(rest) => Ok(seq![b.subrange(4, 4 + n as int)] + rest),
            }
        }
    }
}

/// The elements of raw bytes.
pub fn split_bytes<'a>(b: &'a Vec<u8>) -> (r: Result<Vec<&'a [u8]>, Failure>)
    ensures
        match split_raw(b@, 0) {
            Ok(v) => r is Ok && slice_views(r->Ok_0@) == v,
            Err(e) => r is Err && r->Err_0@ == e,
        },
{
    let mut out: Vec<&'a [u8]> = Vec::new();
    let mut at: usize = 0;
    proof {
        assert(b@.skip(0) =~= b@);
        assert(slice_views(out@) =~= Seq::empty());
        if let Ok(v) = split_raw(b@, 0) {
            assert(slice_views(out@) + v =~= v);
        }
    }
    while at < b.len()
        invariant
            at <= b.len(),
            out.len() <= at,
            match split_raw(b@.skip(at as int), out.len() as nat) {
                Ok(rest) => split_raw(b@, 0) == Ok::<Seq<Seq<u8>>, FailureView>(
                    slice_views(out@) + rest,
                ),
                Err(e) => split_raw(b@, 0) == Err::<Seq<Seq<u8>>, FailureView>(e),
            },
        decreases b.len() - at,
    {
        let ghost tail = b@.skip(at as int);
        let left = b.len() - at;
        if left < 4 {
            return Err(
                refuse(
                    cat5(
                        "raw `texts` element ",
                        decimal_of(out.len() as u128).as_str(),
                        ": ",
                        decimal_of(left as u128).as_str(),
                        " bytes left, too few for a length",
                    ),
                ),
            );
        }
        let n = read_le(b, at, 4);
        proof {
            assert(b@.subrange(at as int, at + 4) =~= tail.take(4));
        }
        let left: u64 = (left - 4) as u64;
        if left < n {
            return Err(
                refuse(
                    cat7(
                        "raw `texts` element ",
                        decimal_of(out.len() as u128).as_str(),
                        ": length ",
                        decimal_of(n as u128).as_str(),
                        " with ",
                        decimal_of(left as u128).as_str(),
                        " bytes left",
                    ),
                ),
            );
        }
        let n: usize = n as usize;
        let ghost before = slice_views(out@);
        let piece = slice_subrange(b.as_slice(), at + 4, at + 4 + n);
        let ghost text = piece@;
        out.push(piece);
        proof {
            assert(text =~= tail.subrange(4, 4 + n));
            assert(slice_views(out@) =~= before.push(text));
            assert(tail.skip(4 + n) =~= b@.skip(at + 4 + n));
            if let Ok(rest) = split_raw(b@.skip(at + 4 + n), out.len() as nat) {
                assert(before + (seq![text] + rest) =~= slice_views(out@) + rest);
            }
        }
        at = at + 4 + n;
    }
    proof {
        assert(b@.skip(at as int) =~= Seq::empty());
        assert(slice_views(out@) + Seq::<Seq<u8>>::empty() =~= slice_views(out@));
    }
    Ok(out)
}

/// Elements as raw bytes: each with its length before it.
pub open spec fn framed(v: Seq<Seq<u8>>) -> Seq<u8>
    decreases v.len(),
{
    if v.len() == 0 {
        Seq::empty()
    } else {
        le_bytes(v[0].len(), 4) + v[0] + framed(v.skip(1))
    }
}

/// Elements that were framed are split as they were.
pub proof fn framed_splits_back(v: Seq<Seq<u8>>, k: nat)
    requires
        forall|i: int| 0 <= i < v.len() ==> (#[trigger] v[i]).len() <= u32::MAX,
    ensures
        split_raw(framed(v), k) == Ok::<Seq<Seq<u8>>, FailureView>(v),
    decreases v.len(),
{
    if v.len() > 0 {
        let n = v[0].len();
        let head = le_bytes(n, 4);
        reveal_with_fuel(pow256, 5);
        le_round_trip(n, 4);
        let b = framed(v);
        assert(b.take(4) =~= head);
        assert(b.subrange(4, 4 + n as int) =~= v[0]);
        assert(b.skip(4 + n as int) =~= framed(v.skip(1)));
        framed_splits_back(v.skip(1), k + 1);
        assert(seq![v[0]] + v.skip(1) =~= v);
    } else {
        assert(v =~= Seq::empty());
    }
}

/// Raw bytes that split are what framing the elements gives: nothing is dropped.
pub proof fn split_frames_back(b: Seq<u8>, k: nat)
    requires
        split_raw(b, k) is Ok,
    ensures
        framed(split_raw(b, k)->Ok_0) == b,
    decreases b.len(),
{
    if b.len() > 0 {
        let n = le_value(b.take(4)) as int;
        let rest = b.skip(4 + n);
        split_frames_back(rest, k + 1);
        let v = split_raw(b, k)->Ok_0;
        le_read_back(b.take(4));
        assert(v.skip(1) =~= split_raw(rest, k + 1)->Ok_0);
        assert(b =~= b.take(4) + b.subrange(4, 4 + n) + rest);
    } else {
        assert(b =~= Seq::empty());
    }
}

/// A tensor's typed contents; floating-point elements are held by their bits.
#[derive(Debug)]
pub struct InferTensorContents {
    pub bool_contents: Vec<bool>,
    pub int_contents: Vec<i32>,
    pub int64_contents: Vec<i64>,
    pub uint_contents: Vec<u32>,
    pub uint64_contents: Vec<u64>,
    pub fp32_contents: Vec<u32>,
    pub fp64_contents: Vec<u64>,
    pub bytes_contents: Vec<Vec<u8>>,
}

/// An input tensor.
#[derive(Debug)]
pub struct InferInputTensor {
    pub name: String,
    pub datatype: String,
    pub shape: Vec<i64>,
    pub parameters: Parameters,
    pub contents: Option<InferTensorContents>,
}

/// A requested output.
#[derive(Debug)]
pub struct InferRequestedOutputTensor {
    pub name: String,
    pub parameters: Parameters,
}

/// An inference request.
#[derive(Debug)]
pub struct ModelInferRequest {
    pub model_name: String,
    pub model_version: String,
    pub id: String,
    pub parameters: Parameters,
    pub inputs: Vec<InferInputTensor>,
    pub outputs: Vec<InferRequestedOutputTensor>,
    pub raw_input_contents: Vec<Vec<u8>>,
}

/// The rows of one write, pointing into the request.
#[allow(inconsistent_fields)]
#[derive(Debug)]
pub enum Rows<'a> {
    /// Texts, typed or raw.
    Texts(Vec<&'a [u8]>),
    /// Token rows of the request's own integers.
    Typed {
        batch: u32,
        seq: u32,
        ids: &'a [i32],
        mask: &'a [i32],
        types: Option<&'a [i32]>,
    },
    /// Token rows as little-endian bytes.
    Raw {
        batch: u32,
        seq: u32,
        ids: &'a Vec<u8>,
        mask: &'a Vec<u8>,
        types: Option<&'a Vec<u8>>,
    },
}

/// The one write of a request.
#[derive(Debug)]
pub struct Plan<'a> {
    pub rows: Rows<'a>,
    pub opts: Options,
}

/// The rows of one write as sequences.
#[allow(inconsistent_fields)]
pub enum RowsView {
    Texts(Seq<Seq<u8>>),
    Typed { batch: u32, seq: u32, ids: Seq<i32>, mask: Seq<i32>, types: Option<Seq<i32>> },
    Raw { batch: u32, seq: u32, ids: Seq<u8>, mask: Seq<u8>, types: Option<Seq<u8>> },
}

impl<'a> View for Rows<'a> {
    type V = RowsView;

    open spec fn view(&self) -> RowsView {
        match self {
            Rows::Texts(v) => RowsView::Texts(slice_views(v@)),
            Rows::Typed { batch, seq, ids, mask, types } => RowsView::Typed {
                batch: *batch,
                seq: *seq,
                ids: ids@,
                mask: mask@,
                types: match types {
                    Some(t) => Some(t@),
                    None => None,
                },
            },
            Rows::Raw { batch, seq, ids, mask, types } => RowsView::Raw {
                batch: *batch,
                seq: *seq,
                ids: ids@,
                mask: mask@,
                types: match types {
                    Some(t) => Some(t@),
                    None => None,
                },
            },
        }
    }
}

/// The refusal of the first requested output that is not `vectors`, or has
/// parameters, from place `i` on.
pub open spec fn output_fault(outputs: Seq<InferRequestedOutputTensor>, i: int) -> Option<FailureView>
    decreases outputs.len() - i,
{
    if i < 0 || i >= outputs.len() {
        None
    } else if outputs[i].name@ != "vectors"@ {
        Some(
            bad(
                "requested output `"@ + outputs[i].name@
                    + "`: the model's one output is `vectors`"@,
            ),
        )
    } else if outputs[i].parameters.len() > 0 {
        Some(bad("requested output `vectors` has parameters; none are defined"@))
    } else {
        output_fault(outputs, i + 1)
    }
}

/// The refusal of the requested outputs.
pub open spec fn outputs_fault(outputs: Seq<InferRequestedOutputTensor>) -> Option<FailureView> {
    match output_fault(outputs, 0) {
        Some(e) => Some(e),
        None => if outputs.len() > 1 {
            Some(bad("requested output `vectors` is named more than once"@))
        } else {
            None
        },
    }
}

/// The refusal of the first input with parameters, from place `i` on.
pub open spec fn parameter_fault(inputs: Seq<InferInputTensor>, i: int) -> Option<FailureView>
    decreases inputs.len() - i,
{
    if i < 0 || i >= inputs.len() {
        None
    } else if inputs[i].parameters.len() > 0 {
        Some(bad("input `"@ + inputs[i].name@ + "` has parameters; none are defined"@))
    } else {
        parameter_fault(inputs, i + 1)
    }
}

/// Whether an input of this name is taken.
pub open spec fn is_input(name: Seq<char>) -> bool {
    name == "texts"@ || name == "ids"@ || name == "mask"@ || name == "types"@
}

/// The refusal of the first input that is not taken, from place `i` on.
pub open spec fn name_fault(inputs: Seq<InferInputTensor>, i: int) -> Option<FailureView>
    decreases inputs.len() - i,
{
    if i < 0 || i >= inputs.len() {
        None
    } else if !is_input(inputs[i].name@) {
        Some(
            bad(
                "input `"@ + inputs[i].name@
                    + "`: the inputs are `texts`, or `ids` and `mask` with `types` optional"@,
            ),
        )
    } else {
        name_fault(inputs, i + 1)
    }
}

/// Where an input of this name first stands, from place `i` on; the number of
/// inputs if nowhere.
pub open spec fn input_at(inputs: Seq<InferInputTensor>, name: Seq<char>, i: int) -> int
    decreases inputs.len() - i,
{
    if 0 <= i < inputs.len() && inputs[i].name@ != name {
        input_at(inputs, name, i + 1)
    } else {
        i
    }
}

/// The place of the input of this name, if there is one, or the refusal of two.
pub open spec fn find_input(inputs: Seq<InferInputTensor>, name: Seq<char>) -> Result<
    Option<int>,
    FailureView,
> {
    let first = input_at(inputs, name, 0);
    if first >= inputs.len() {
        Ok(None)
    } else if input_at(inputs, name, first + 1) < inputs.len() {
        Err(bad("input `"@ + name + "` is given more than once"@))
    } else {
        Ok(Some(first))
    }
}

/// The names of the inputs.
pub open spec fn input_names(inputs: Seq<InferInputTensor>) -> Seq<Seq<char>> {
    Seq::new(inputs.len(), |i: int| inputs[i].name@)
}

/// Which inputs a request gives.
pub enum InputSet {
    /// `texts`, at this place.
    Texts(int),
    /// `ids`, `mask` and, where it is given, `types`.
    Tokens(int, int, Option<int>),
}

/// Which inputs a request gives, or the refusal of any other set.
pub open spec fn input_set(inputs: Seq<InferInputTensor>) -> Result<InputSet, FailureView> {
    match find_input(inputs, "texts"@) {
        Err(e) => Err(e),
        Ok(texts) => match find_input(inputs, "ids"@) {
            Err(e) => Err(e),
            Ok(ids) => match find_input(inputs, "mask"@) {
                Err(e) => Err(e),
                Ok(mask) => match find_input(inputs, "types"@) {
                    Err(e) => Err(e),
                    Ok(types) => if ids is Some && mask is Some && texts is None {
                        Ok(InputSet::Tokens(ids->0, mask->0, types))
                    } else if texts is Some && ids is None && mask is None && types is None {
                        Ok(InputSet::Texts(texts->0))
                    } else {
                        Err(
                            bad(
                                "inputs "@ + ("["@ + joined(all_quoted(input_names(inputs)), ", "@)
                                    + "]"@)
                                    + ": a request gives `texts` alone, or `ids` and `mask` with `types` optional"@,
                            ),
                        )
                    },
                },
            },
        },
    }
}

/// The refusal of the first input of another datatype, from place `i` on.
pub open spec fn datatype_fault(inputs: Seq<InferInputTensor>, want: Seq<char>, i: int) -> Option<
    FailureView,
>
    decreases inputs.len() - i,
{
    if i < 0 || i >= inputs.len() {
        None
    } else if inputs[i].datatype@ != want {
        Some(
            bad(
                "input `"@ + inputs[i].name@ + "` is "@ + inputs[i].datatype@ + "; it takes "@ + want
                    + ", and nothing is converted"@,
            ),
        )
    } else {
        datatype_fault(inputs, want, i + 1)
    }
}

/// The refusal of the first extent that is no `uint32_t`, from place `i` on.
pub open spec fn extent_fault(shape: Seq<i64>, name: Seq<char>, i: int) -> Option<FailureView>
    decreases shape.len() - i,
{
    if i < 0 || i >= shape.len() {
        None
    } else if !(0 <= shape[i] <= u32::MAX) {
        Some(
            bad_shape(
                "input `"@ + name + "` has extent "@ + signed_decimal(shape[i] as int)
                    + ", outside 0 to 4294967295"@,
            ),
        )
    } else {
        extent_fault(shape, name, i + 1)
    }
}

/// The refusal of a tensor's shape.
pub open spec fn shape_fault(t: InferInputTensor, rank: nat) -> Option<FailureView> {
    if t.shape.len() != rank {
        Some(
            bad_shape(
                "input `"@ + t.name@ + "` has rank "@ + decimal(t.shape.len() as nat)
                    + "; it takes rank "@ + decimal(rank),
            ),
        )
    } else {
        extent_fault(t.shape@, t.name@, 0)
    }
}

/// The refusal of the first input's shape that is refused, from place `i` on.
pub open spec fn shapes_fault(inputs: Seq<InferInputTensor>, rank: nat, i: int) -> Option<FailureView>
    decreases inputs.len() - i,
{
    if i < 0 || i >= inputs.len() {
        None
    } else {
        match shape_fault(inputs[i], rank) {
            Some(e) => Some(e),
            None => shapes_fault(inputs, rank, i + 1),
        }
    }
}

/// Whether an input from place `i` on has typed contents.
pub open spec fn has_typed(inputs: Seq<InferInputTensor>, i: int) -> bool
    decreases inputs.len() - i,
{
    if i < 0 || i >= inputs.len() {
        false
    } else {
        inputs[i].contents is Some || has_typed(inputs, i + 1)
    }
}

/// The refusal of raw contents beside typed ones, or of another number of them.
pub open spec fn raw_fault(req: ModelInferRequest) -> Option<FailureView> {
    if req.raw_input_contents.len() == 0 {
        None
    } else if has_typed(req.inputs@, 0) {
        Some(bad("the request has both raw_input_contents and typed contents"@))
    } else if req.raw_input_contents.len() != req.inputs.len() {
        Some(
            bad(
                decimal(req.raw_input_contents.len() as nat) + " raw_input_contents entries for "@
                    + decimal(req.inputs.len() as nat) + " inputs"@,
            ),
        )
    } else {
        None
    }
}

/// The first typed field but `keep` that has contents.
pub open spec fn other_contents(c: InferTensorContents, keep: Seq<char>) -> Option<Seq<char>> {
    if c.bool_contents.len() > 0 && keep != "bool_contents"@ {
        Some("bool_contents"@)
    } else if c.int_contents.len() > 0 && keep != "int_contents"@ {
        Some("int_contents"@)
    } else if c.int64_contents.len() > 0 && keep != "int64_contents"@ {
        Some("int64_contents"@)
    } else if c.uint_contents.len() > 0 && keep != "uint_contents"@ {
        Some("uint_contents"@)
    } else if c.uint64_contents.len() > 0 && keep != "uint64_contents"@ {
        Some("uint64_contents"@)
    } else if c.fp32_contents.len() > 0 && keep != "fp32_contents"@ {
        Some("fp32_contents"@)
    } else if c.fp64_contents.len() > 0 && keep != "fp64_contents"@ {
        Some("fp64_contents"@)
    } else if c.bytes_contents.len() > 0 && keep != "bytes_contents"@ {
        Some("bytes_contents"@)
    } else {
        None
    }
}

/// The refusal of an input with contents in any typed field but `keep`.
pub open spec fn only_fault(t: InferInputTensor, keep: Seq<char>) -> Option<FailureView> {
    match t.contents {
        None => None,
        Some(c) => match other_contents(c, keep) {
            Some(n) => Some(bad("input `"@ + t.name@ + "` has "@ + n + "; it takes "@ + keep)),
            None => None,
        },
    }
}

/// The byte strings of an input's typed contents.
pub open spec fn typed_bytes(t: InferInputTensor) -> Seq<Seq<u8>> {
    match t.contents {
        None => Seq::empty(),
        Some(c) => Seq::new(c.bytes_contents@.len(), |i: int| c.bytes_contents@[i]@),
    }
}

/// The integers of an input's typed contents.
pub open spec fn typed_ints(t: InferInputTensor) -> Seq<i32> {
    match t.contents {
        None => Seq::empty(),
        Some(c) => c.int_contents@,
    }
}

/// The elements of `texts` at place `k`.
pub open spec fn text_elements(req: ModelInferRequest, k: int) -> Result<Seq<Seq<u8>>, FailureView> {
    if req.raw_input_contents.len() > 0 {
        split_raw(req.raw_input_contents@[k]@, 0)
    } else {
        match only_fault(req.inputs@[k], "bytes_contents"@) {
            Some(e) => Err(e),
            None => Ok(typed_bytes(req.inputs@[k])),
        }
    }
}

/// The rows of a request that gives `texts` at place `k`.
pub open spec fn text_rows(req: ModelInferRequest, k: int) -> Result<RowsView, FailureView> {
    match text_elements(req, k) {
        Err(e) => Err(e),
        Ok(v) => {
            let batch = req.inputs@[k].shape@[0];
            if v.len() != batch {
                Err(
                    bad_shape(
                        "input `texts` is shaped ["@ + decimal(batch as nat) + "] and has "@ + decimal(
                            v.len(),
                        ) + " elements"@,
                    ),
                )
            } else {
                Ok(RowsView::Texts(v))
            }
        },
    }
}

/// A tensor's extents as they are shown.
pub open spec fn shape_text(shape: Seq<i64>) -> Seq<char> {
    unsigned_bracketed(Seq::new(shape.len(), |i: int| shape[i] as u64))
}

/// The refusal of an input that is not shaped like `ids`.
pub open spec fn match_fault(t: InferInputTensor, ids: InferInputTensor) -> Option<FailureView> {
    if t.shape@ != ids.shape@ {
        Some(
            bad_shape(
                "input `"@ + t.name@ + "` is shaped "@ + shape_text(t.shape@) + " and `ids` "@
                    + shape_text(ids.shape@),
            ),
        )
    } else {
        None
    }
}

/// The raw token rows of the input at place `k`.
pub open spec fn raw_rows(req: ModelInferRequest, k: int, batch: u32, seq: u32) -> Result<
    Seq<u8>,
    FailureView,
> {
    let b = req.raw_input_contents@[k]@;
    if b.len() != 4 * (batch * seq) {
        Err(
            bad_shape(
                "input `"@ + req.inputs@[k].name@ + "` is shaped ["@ + decimal(batch as nat) + ", "@
                    + decimal(seq as nat) + "] and its raw contents are "@ + (decimal(b.len())
                    + " bytes, not "@ + decimal((4 * (batch * seq)) as nat)),
            ),
        )
    } else {
        Ok(b)
    }
}

/// The typed token rows of the input at place `k`.
pub open spec fn int_rows(req: ModelInferRequest, k: int, batch: u32, seq: u32) -> Result<
    Seq<i32>,
    FailureView,
> {
    match only_fault(req.inputs@[k], "int_contents"@) {
        Some(e) => Err(e),
        None => {
            let v = typed_ints(req.inputs@[k]);
            if v.len() != batch * seq {
                Err(
                    bad_shape(
                        "input `"@ + req.inputs@[k].name@ + "` is shaped ["@ + decimal(batch as nat)
                            + ", "@ + decimal(seq as nat) + "] and has "@ + decimal(v.len())
                            + " elements"@,
                    ),
                )
            } else {
                Ok(v)
            }
        },
    }
}

/// The rows of a request that gives token rows at these places.
pub open spec fn token_rows(req: ModelInferRequest, ids: int, mask: int, types: Option<int>) -> Result<
    RowsView,
    FailureView,
> {
    let t = req.inputs@;
    match match_fault(t[mask], t[ids]) {
        Some(e) => Err(e),
        None => match (match types {
            Some(k) => match_fault(t[k], t[ids]),
            None => None,
        }) {
            Some(e) => Err(e),
            None => {
                let batch = t[ids].shape@[0] as u32;
                let seq = t[ids].shape@[1] as u32;
                if req.raw_input_contents.len() > 0 {
                    raw_token_rows(req, ids, mask, types, batch, seq)
                } else {
                    int_token_rows(req, ids, mask, types, batch, seq)
                }
            },
        },
    }
}

/// The rows of a request that gives raw token rows.
pub open spec fn raw_token_rows(
    req: ModelInferRequest,
    ids: int,
    mask: int,
    types: Option<int>,
    batch: u32,
    seq: u32,
) -> Result<RowsView, FailureView> {
    match raw_rows(req, ids, batch, seq) {
        Err(e) => Err(e),
        Ok(i) => match raw_rows(req, mask, batch, seq) {
            Err(e) => Err(e),
            Ok(m) => match types {
                None => Ok(RowsView::Raw { batch, seq, ids: i, mask: m, types: None }),
                Some(k) => match raw_rows(req, k, batch, seq) {
                    Err(e) => Err(e),
                    Ok(t) => Ok(RowsView::Raw { batch, seq, ids: i, mask: m, types: Some(t) }),
                },
            },
        },
    }
}

/// The rows of a request that gives typed token rows.
pub open spec fn int_token_rows(
    req: ModelInferRequest,
    ids: int,
    mask: int,
    types: Option<int>,
    batch: u32,
    seq: u32,
) -> Result<RowsView, FailureView> {
    match int_rows(req, ids, batch, seq) {
        Err(e) => Err(e),
        Ok(i) => match int_rows(req, mask, batch, seq) {
            Err(e) => Err(e),
            Ok(m) => match types {
                None => Ok(RowsView::Typed { batch, seq, ids: i, mask: m, types: None }),
                Some(k) => match int_rows(req, k, batch, seq) {
                    Err(e) => Err(e),
                    Ok(t) => Ok(RowsView::Typed { batch, seq, ids: i, mask: m, types: Some(t) }),
                },
            },
        },
    }
}

/// The refusal of what a request gives beside its elements: the requested outputs,
/// the parameters and the names of its inputs.
pub open spec fn header_fault(req: ModelInferRequest) -> Option<FailureView> {
    match outputs_fault(req.outputs@) {
        Some(e) => Some(e),
        None => match parameter_fault(req.inputs@, 0) {
            Some(e) => Some(e),
            None => name_fault(req.inputs@, 0),
        },
    }
}

/// The refusal of the inputs' datatypes, their shapes, or raw contents that do
/// not go with them.
pub open spec fn tensors_fault(req: ModelInferRequest, text: bool) -> Option<FailureView> {
    match datatype_fault(
        req.inputs@,
        if text {
            "BYTES"@
        } else {
            "INT32"@
        },
        0,
    ) {
        Some(e) => Some(e),
        None => match shapes_fault(
            req.inputs@,
            if text {
                1
            } else {
                2
            },
            0,
        ) {
            Some(e) => Some(e),
            None => raw_fault(req),
        },
    }
}

/// The rows that a request asks for, or the refusal.
pub open spec fn rows_of(req: ModelInferRequest) -> Result<RowsView, FailureView> {
    match header_fault(req) {
        Some(e) => Err(e),
        None => match input_set(req.inputs@) {
            Err(e) => Err(e),
            Ok(set) => match tensors_fault(req, set is Texts) {
                Some(e) => Err(e),
                None => match set {
                    InputSet::Texts(k) => text_rows(req, k),
                    InputSet::Tokens(ids, mask, types) => token_rows(req, ids, mask, types),
                },
            },
        },
    }
}

/// What a request asks for, or the refusal: the parameters are read last.
pub open spec fn plan_of(req: ModelInferRequest) -> Result<(RowsView, Options), FailureView> {
    match rows_of(req) {
        Err(e) => Err(e),
        Ok(rows) => match options_of(req.parameters@) {
            Err(e) => Err(e),
            Ok(opts) => Ok((rows, opts)),
        },
    }
}

/// Check the requested outputs, the parameters and the names of the inputs.
fn check_header(req: &ModelInferRequest) -> (r: Result<(), Failure>)
    ensures
        match header_fault(*req) {
            Some(e) => r is Err && r->Err_0@ == e,
            None => r is Ok,
        },
{
    let mut i: usize = 0;
    while i < req.outputs.len()
        invariant
            i <= req.outputs.len(),
            output_fault(req.outputs@, i as int) == output_fault(req.outputs@, 0),
        decreases req.outputs.len() - i,
    {
        let o = &req.outputs[i];
        if !same(o.name.as_str(), "vectors") {
            return Err(
                refuse(
                    cat3(
                        "requested output `",
                        o.name.as_str(),
                        "`: the model's one output is `vectors`",
                    ),
                ),
            );
        }
        if o.parameters.len() > 0 {
            return Err(
                refuse("requested output `vectors` has parameters; none are defined".to_owned()),
            );
        }
        i = i + 1;
    }
    if req.outputs.len() > 1 {
        return Err(refuse("requested output `vectors` is named more than once".to_owned()));
    }
    let mut i: usize = 0;
    while i < req.inputs.len()
        invariant
            i <= req.inputs.len(),
            outputs_fault(req.outputs@) is None,
            parameter_fault(req.inputs@, i as int) == parameter_fault(req.inputs@, 0),
        decreases req.inputs.len() - i,
    {
        if req.inputs[i].parameters.len() > 0 {
            return Err(
                refuse(
                    cat3(
                        "input `",
                        req.inputs[i].name.as_str(),
                        "` has parameters; none are defined",
                    ),
                ),
            );
        }
        i = i + 1;
    }
    let mut i: usize = 0;
    while i < req.inputs.len()
        invariant
            i <= req.inputs.len(),
            outputs_fault(req.outputs@) is None,
            parameter_fault(req.inputs@, 0) is None,
            name_fault(req.inputs@, i as int) == name_fault(req.inputs@, 0),
        decreases req.inputs.len() - i,
    {
        let name = req.inputs[i].name.as_str();
        if !(same(name, "texts") || same(name, "ids") || same(name, "mask") || same(name, "types")) {
            return Err(
                refuse(
                    cat3(
                        "input `",
                        name,
                        "`: the inputs are `texts`, or `ids` and `mask` with `types` optional",
                    ),
                ),
            );
        }
        i = i + 1;
    }
    Ok(())
}

/// Where an input of this name first stands, from place `from` on.
fn seek(inputs: &Vec<InferInputTensor>, name: &str, from: usize) -> (r: usize)
    requires
        from <= inputs.len(),
    ensures
        r == input_at(inputs@, name@, from as int),
        from <= r <= inputs.len(),
{
    let mut i: usize = from;
    while i < inputs.len() && !same(inputs[i].name.as_str(), name)
        invariant
            from <= i <= inputs.len(),
            input_at(inputs@, name@, i as int) == input_at(inputs@, name@, from as int),
        decreases inputs.len() - i,
    {
        i = i + 1;
    }
    i
}

/// The place as a number.
pub open spec fn place(k: Option<usize>) -> Option<int> {
    match k {
        Some(k) => Some(k as int),
        None => None,
    }
}

/// The place of the input of this name.
fn find(inputs: &Vec<InferInputTensor>, name: &str) -> (r: Result<Option<usize>, Failure>)
    ensures
        match find_input(inputs@, name@) {
            Ok(k) => r is Ok && place(r->Ok_0) == k && (k is Some ==> 0 <= k->0 < inputs.len()),
            Err(e) => r is Err && r->Err_0@ == e,
        },
{
    let first = seek(inputs, name, 0);
    if first >= inputs.len() {
        return Ok(None);
    }
    if seek(inputs, name, first + 1) < inputs.len() {
        return Err(refuse(cat3("input `", name, "` is given more than once")));
    }
    Ok(Some(first))
}

/// Which inputs a request gives: `texts`, or `ids`, `mask` and `types`.
fn which(inputs: &Vec<InferInputTensor>) -> (r: Result<
    (Option<usize>, Option<usize>, Option<usize>, Option<usize>),
    Failure,
>)
    ensures
        match input_set(inputs@) {
            Ok(InputSet::Texts(k)) => {
                &&& r is Ok
                &&& place(r->Ok_0.0) == Some(k)
                &&& 0 <= k < inputs.len()
            },
            Ok(InputSet::Tokens(ids, mask, types)) => {
                &&& r is Ok
                &&& r->Ok_0.0 is None
                &&& place(r->Ok_0.1) == Some(ids)
                &&& place(r->Ok_0.2) == Some(mask)
                &&& place(r->Ok_0.3) == types
                &&& 0 <= ids < inputs.len()
                &&& 0 <= mask < inputs.len()
                &&& types is Some ==> 0 <= types->0 < inputs.len()
            },
            Err(e) => r is Err && r->Err_0@ == e,
        },
{
    let texts = match find(inputs, "texts") {
        Err(e) => return Err(e),
        Ok(k) => k,
    };
    let ids = match find(inputs, "ids") {
        Err(e) => return Err(e),
        Ok(k) => k,
    };
    let mask = match find(inputs, "mask") {
        Err(e) => return Err(e),
        Ok(k) => k,
    };
    let types = match find(inputs, "types") {
        Err(e) => return Err(e),
        Ok(k) => k,
    };
    let token_set = ids.is_some() && mask.is_some() && texts.is_none();
    let text_set = texts.is_some() && ids.is_none() && mask.is_none() && types.is_none();
    if !token_set && !text_set {
        let mut given: Vec<String> = Vec::new();
        let mut i: usize = 0;
        while i < inputs.len()
            invariant
                i <= inputs.len(),
                given.len() == i,
                forall|j: int| 0 <= j < i ==> (#[trigger] given@[j])@ == inputs@[j].name@,
            decreases inputs.len() - i,
        {
            given.push(inputs[i].name.clone());
            i = i + 1;
        }
        proof {
            assert(views(given@) =~= input_names(inputs@));
        }
        return Err(
            refuse(
                cat3(
                    "inputs ",
                    quoted_list(&given).as_str(),
                    ": a request gives `texts` alone, or `ids` and `mask` with `types` optional",
                ),
            ),
        );
    }
    Ok((texts, ids, mask, types))
}

/// Check one tensor's shape: of this rank, each extent a `uint32_t`.
fn shape(t: &InferInputTensor, rank: usize) -> (r: Result<(), Failure>)
    ensures
        match shape_fault(*t, rank as nat) {
            Some(e) => r is Err && r->Err_0@ == e,
            None => {
                &&& r is Ok
                &&& t.shape.len() == rank
                &&& forall|i: int| 0 <= i < rank ==> 0 <= #[trigger] t.shape@[i] <= u32::MAX
            },
        },
{
    if t.shape.len() != rank {
        return Err(
            refuse_shape(
                cat6(
                    "input `",
                    t.name.as_str(),
                    "` has rank ",
                    decimal_of(t.shape.len() as u128).as_str(),
                    "; it takes rank ",
                    decimal_of(rank as u128).as_str(),
                ),
            ),
        );
    }
    let mut i: usize = 0;
    while i < t.shape.len()
        invariant
            i <= t.shape.len(),
            t.shape.len() == rank,
            extent_fault(t.shape@, t.name@, i as int) == extent_fault(t.shape@, t.name@, 0),
            forall|j: int| 0 <= j < i ==> 0 <= #[trigger] t.shape@[j] <= u32::MAX,
        decreases t.shape.len() - i,
    {
        let e = t.shape[i];
        if e < 0 || e > 0xffff_ffff {
            return Err(
                refuse_shape(
                    cat5(
                        "input `",
                        t.name.as_str(),
                        "` has extent ",
                        signed_of(e).as_str(),
                        ", outside 0 to 4294967295",
                    ),
                ),
            );
        }
        i = i + 1;
    }
    Ok(())
}

/// Whether a tensor's shape was accepted.
pub open spec fn shaped(t: InferInputTensor, rank: nat) -> bool {
    &&& t.shape.len() == rank
    &&& forall|i: int| 0 <= i < rank ==> 0 <= #[trigger] t.shape@[i] <= u32::MAX
}

/// Check the inputs' datatypes, their shapes and the raw contents.
fn check_tensors(req: &ModelInferRequest, text: bool) -> (r: Result<(), Failure>)
    ensures
        match tensors_fault(*req, text) {
            Some(e) => r is Err && r->Err_0@ == e,
            None => {
                &&& r is Ok
                &&& forall|i: int|
                    0 <= i < req.inputs.len() ==> shaped(
                        #[trigger] req.inputs@[i],
                        if text {
                            1
                        } else {
                            2
                        },
                    )
            },
        },
{
    let want: &str = if text {
        "BYTES"
    } else {
        "INT32"
    };
    let rank: usize = if text {
        1
    } else {
        2
    };
    let mut i: usize = 0;
    while i < req.inputs.len()
        invariant
            i <= req.inputs.len(),
            want@ == (if text {
                "BYTES"@
            } else {
                "INT32"@
            }),
            datatype_fault(req.inputs@, want@, i as int) == datatype_fault(req.inputs@, want@, 0),
        decreases req.inputs.len() - i,
    {
        let t = &req.inputs[i];
        if !same(t.datatype.as_str(), want) {
            return Err(
                refuse(
                    cat7(
                        "input `",
                        t.name.as_str(),
                        "` is ",
                        t.datatype.as_str(),
                        "; it takes ",
                        want,
                        ", and nothing is converted",
                    ),
                ),
            );
        }
        i = i + 1;
    }
    let mut i: usize = 0;
    while i < req.inputs.len()
        invariant
            i <= req.inputs.len(),
            rank == (if text {
                1nat
            } else {
                2
            }),
            want@ == (if text {
                "BYTES"@
            } else {
                "INT32"@
            }),
            datatype_fault(req.inputs@, want@, 0) is None,
            shapes_fault(req.inputs@, rank as nat, i as int) == shapes_fault(
                req.inputs@,
                rank as nat,
                0,
            ),
            forall|j: int| 0 <= j < i ==> shaped(#[trigger] req.inputs@[j], rank as nat),
        decreases req.inputs.len() - i,
    {
        match shape(&req.inputs[i], rank) {
            Err(e) => return Err(e),
            Ok(()) => {},
        }
        i = i + 1;
    }
    if req.raw_input_contents.len() > 0 {
        let mut i: usize = 0;
        let mut typed = false;
        while i < req.inputs.len() && !typed
            invariant
                i <= req.inputs.len(),
                has_typed(req.inputs@, 0) == (typed || has_typed(req.inputs@, i as int)),
            decreases req.inputs.len() - i,
        {
            typed = req.inputs[i].contents.is_some();
            i = i + 1;
        }
        if typed {
            return Err(
                refuse("the request has both raw_input_contents and typed contents".to_owned()),
            );
        }
        if req.raw_input_contents.len() != req.inputs.len() {
            return Err(
                refuse(
                    cat4(
                        decimal_of(req.raw_input_contents.len() as u128).as_str(),
                        " raw_input_contents entries for ",
                        decimal_of(req.inputs.len() as u128).as_str(),
                        " inputs",
                    ),
                ),
            );
        }
    }
    Ok(())
}

/// Refuse contents in any typed field but `keep`.
fn only(t: &InferInputTensor, keep: &str) -> (r: Result<(), Failure>)
    ensures
        match only_fault(*t, keep@) {
            Some(e) => r is Err && r->Err_0@ == e,
            None => r is Ok,
        },
{
    let c = match &t.contents {
        None => return Ok(()),
        Some(c) => c,
    };
    let n: &str = if c.bool_contents.len() > 0 && !same(keep, "bool_contents") {
        "bool_contents"
    } else if c.int_contents.len() > 0 && !same(keep, "int_contents") {
        "int_contents"
    } else if c.int64_contents.len() > 0 && !same(keep, "int64_contents") {
        "int64_contents"
    } else if c.uint_contents.len() > 0 && !same(keep, "uint_contents") {
        "uint_contents"
    } else if c.uint64_contents.len() > 0 && !same(keep, "uint64_contents") {
        "uint64_contents"
    } else if c.fp32_contents.len() > 0 && !same(keep, "fp32_contents") {
        "fp32_contents"
    } else if c.fp64_contents.len() > 0 && !same(keep, "fp64_contents") {
        "fp64_contents"
    } else if c.bytes_contents.len() > 0 && !same(keep, "bytes_contents") {
        "bytes_contents"
    } else {
        return Ok(());
    };
    Err(refuse(cat6("input `", t.name.as_str(), "` has ", n, "; it takes ", keep)))
}

/// The elements of `texts` at place `k`.
fn elements<'a>(req: &'a ModelInferRequest, k: usize) -> (r: Result<Vec<&'a [u8]>, Failure>)
    requires
        k < req.inputs.len(),
        req.raw_input_contents.len() > 0 ==> req.raw_input_contents.len() == req.inputs.len(),
    ensures
        match text_elements(*req, k as int) {
            Ok(v) => r is Ok && slice_views(r->Ok_0@) == v,
            Err(e) => r is Err && r->Err_0@ == e,
        },
{
    if req.raw_input_contents.len() > 0 {
        return split_bytes(&req.raw_input_contents[k]);
    }
    let t = &req.inputs[k];
    match only(t, "bytes_contents") {
        Err(e) => return Err(e),
        Ok(()) => {},
    }
    let mut out: Vec<&'a [u8]> = Vec::new();
    proof {
        assert(slice_views(out@) =~= Seq::empty());
    }
    match &t.contents {
        None => {},
        Some(c) => {
            let mut i: usize = 0;
            while i < c.bytes_contents.len()
                invariant
                    i <= c.bytes_contents.len(),
                    out.len() == i,
                    forall|j: int| 0 <= j < i ==> (#[trigger] out@[j])@ == c.bytes_contents@[j]@,
                decreases c.bytes_contents.len() - i,
            {
                out.push(c.bytes_contents[i].as_slice());
                i = i + 1;
            }
            proof {
                assert(slice_views(out@) =~= typed_bytes(*t));
            }
        },
    }
    Ok(out)
}

/// The rows of a request that gives `texts` at place `k`.
fn read_texts<'a>(req: &'a ModelInferRequest, k: usize) -> (r: Result<Rows<'a>, Failure>)
    requires
        k < req.inputs.len(),
        shaped(req.inputs@[k as int], 1),
        req.raw_input_contents.len() > 0 ==> req.raw_input_contents.len() == req.inputs.len(),
    ensures
        match text_rows(*req, k as int) {
            Ok(v) => r is Ok && r->Ok_0@ == v,
            Err(e) => r is Err && r->Err_0@ == e,
        },
{
    let batch = req.inputs[k].shape[0];
    assert(0 <= req.inputs@[k as int].shape@[0] <= u32::MAX);
    let v = match elements(req, k) {
        Err(e) => return Err(e),
        Ok(v) => v,
    };
    if v.len() as u64 != batch as u64 {
        return Err(
            refuse_shape(
                cat5(
                    "input `texts` is shaped [",
                    decimal_of(batch as u128).as_str(),
                    "] and has ",
                    decimal_of(v.len() as u128).as_str(),
                    " elements",
                ),
            ),
        );
    }
    Ok(Rows::Texts(v))
}

/// A tensor's extents as they are shown.
fn shape_text_of(shape: &Vec<i64>) -> (r: String)
    requires
        forall|i: int| 0 <= i < shape.len() ==> 0 <= #[trigger] shape@[i],
    ensures
        r@ == shape_text(shape@),
{
    let mut v: Vec<u64> = Vec::new();
    let mut i: usize = 0;
    while i < shape.len()
        invariant
            i <= shape.len(),
            v.len() == i,
            forall|j: int| 0 <= j < shape.len() ==> 0 <= #[trigger] shape@[j],
            forall|j: int| 0 <= j < i ==> (#[trigger] v@[j]) == shape@[j] as u64,
        decreases shape.len() - i,
    {
        v.push(shape[i] as u64);
        i = i + 1;
    }
    proof {
        assert(v@ =~= Seq::new(shape@.len(), |i: int| shape@[i] as u64));
    }
    unsigned_bracketed_of(&v)
}

/// Check that an input is shaped like `ids`.
fn check_match(t: &InferInputTensor, ids: &InferInputTensor) -> (r: Result<(), Failure>)
    requires
        shaped(*t, 2),
        shaped(*ids, 2),
    ensures
        match match_fault(*t, *ids) {
            Some(e) => r is Err && r->Err_0@ == e,
            None => r is Ok,
        },
{
    if t.shape[0] != ids.shape[0] || t.shape[1] != ids.shape[1] {
        return Err(
            refuse_shape(
                cat6(
                    "input `",
                    t.name.as_str(),
                    "` is shaped ",
                    shape_text_of(&t.shape).as_str(),
                    " and `ids` ",
                    shape_text_of(&ids.shape).as_str(),
                ),
            ),
        );
    }
    proof {
        assert(t.shape@ =~= ids.shape@);
    }
    Ok(())
}

/// The raw token rows of the input at place `k`.
fn read_raw<'a>(req: &'a ModelInferRequest, k: usize, batch: u32, seq: u32) -> (r: Result<
    &'a Vec<u8>,
    Failure,
>)
    requires
        k < req.inputs.len(),
        req.raw_input_contents.len() == req.inputs.len(),
    ensures
        match raw_rows(*req, k as int, batch, seq) {
            Ok(v) => r is Ok && r->Ok_0@ == v,
            Err(e) => r is Err && r->Err_0@ == e,
        },
{
    let b = &req.raw_input_contents[k];
    proof {
        assert(0 <= batch * seq <= 0xffff_ffff * 0xffff_ffff) by (nonlinear_arith)
            requires
                0 <= batch <= 0xffff_ffff,
                0 <= seq <= 0xffff_ffff,
        ;
    }
    let want: u128 = 4 * (batch as u128 * seq as u128);
    if b.len() as u128 != want {
        return Err(
            refuse_shape(
                cat8(
                    "input `",
                    req.inputs[k].name.as_str(),
                    "` is shaped [",
                    decimal_of(batch as u128).as_str(),
                    ", ",
                    decimal_of(seq as u128).as_str(),
                    "] and its raw contents are ",
                    cat3(
                        decimal_of(b.len() as u128).as_str(),
                        " bytes, not ",
                        decimal_of(want).as_str(),
                    ).as_str(),
                ),
            ),
        );
    }
    Ok(b)
}

/// The typed token rows of an input that has contents in `int_contents` alone.
fn read_ints<'a>(req: &'a ModelInferRequest, k: usize, batch: u32, seq: u32) -> (r: Result<
    &'a [i32],
    Failure,
>)
    requires
        k < req.inputs.len(),
    ensures
        match int_rows(*req, k as int, batch, seq) {
            Ok(v) => r is Ok && r->Ok_0@ == v,
            Err(e) => r is Err && r->Err_0@ == e,
        },
{
    let t = &req.inputs[k];
    match only(t, "int_contents") {
        Err(e) => return Err(e),
        Ok(()) => {},
    }
    let v: &'a [i32] = match &t.contents {
        None => &[],
        Some(c) => c.int_contents.as_slice(),
    };
    proof {
        assert(v@ =~= typed_ints(*t));
        assert(0 <= batch * seq <= 0xffff_ffff * 0xffff_ffff) by (nonlinear_arith)
            requires
                0 <= batch <= 0xffff_ffff,
                0 <= seq <= 0xffff_ffff,
        ;
    }
    if v.len() as u128 != batch as u128 * seq as u128 {
        return Err(
            refuse_shape(
                cat9(
                    "input `",
                    t.name.as_str(),
                    "` is shaped [",
                    decimal_of(batch as u128).as_str(),
                    ", ",
                    decimal_of(seq as u128).as_str(),
                    "] and has ",
                    decimal_of(v.len() as u128).as_str(),
                    " elements",
                ),
            ),
        );
    }
    Ok(v)
}

/// The rows of a request that gives raw token rows.
fn read_raw_tokens<'a>(
    req: &'a ModelInferRequest,
    ids: usize,
    mask: usize,
    types: Option<usize>,
    batch: u32,
    seq: u32,
) -> (r: Result<Rows<'a>, Failure>)
    requires
        ids < req.inputs.len(),
        mask < req.inputs.len(),
        types is Some ==> types->0 < req.inputs.len(),
        req.raw_input_contents.len() == req.inputs.len(),
    ensures
        match raw_token_rows(*req, ids as int, mask as int, place(types), batch, seq) {
            Ok(v) => r is Ok && r->Ok_0@ == v,
            Err(e) => r is Err && r->Err_0@ == e,
        },
{
    let i = match read_raw(req, ids, batch, seq) {
        Err(e) => return Err(e),
        Ok(v) => v,
    };
    let m = match read_raw(req, mask, batch, seq) {
        Err(e) => return Err(e),
        Ok(v) => v,
    };
    let t = match types {
        None => None,
        Some(k) => match read_raw(req, k, batch, seq) {
            Err(e) => return Err(e),
            Ok(v) => Some(v),
        },
    };
    Ok(Rows::Raw { batch, seq, ids: i, mask: m, types: t })
}

/// The rows of a request that gives typed token rows.
fn read_int_tokens<'a>(
    req: &'a ModelInferRequest,
    ids: usize,
    mask: usize,
    types: Option<usize>,
    batch: u32,
    seq: u32,
) -> (r: Result<Rows<'a>, Failure>)
    requires
        ids < req.inputs.len(),
        mask < req.inputs.len(),
        types is Some ==> types->0 < req.inputs.len(),
    ensures
        match int_token_rows(*req, ids as int, mask as int, place(types), batch, seq) {
            Ok(v) => r is Ok && r->Ok_0@ == v,
            Err(e) => r is Err && r->Err_0@ == e,
        },
{
    let i = match read_ints(req, ids, batch, seq) {
        Err(e) => return Err(e),
        Ok(v) => v,
    };
    let m = match read_ints(req, mask, batch, seq) {
        Err(e) => return Err(e),
        Ok(v) => v,
    };
    let t = match types {
        None => None,
        Some(k) => match read_ints(req, k, batch, seq) {
            Err(e) => return Err(e),
            Ok(v) => Some(v),
        },
    };
    Ok(Rows::Typed { batch, seq, ids: i, mask: m, types: t })
}

/// The rows of a request that gives token rows at these places.
fn read_tokens<'a>(
    req: &'a ModelInferRequest,
    ids: usize,
    mask: usize,
    types: Option<usize>,
) -> (r: Result<Rows<'a>, Failure>)
    requires
        ids < req.inputs.len(),
        mask < req.inputs.len(),
        types is Some ==> types->0 < req.inputs.len(),
        forall|i: int| 0 <= i < req.inputs.len() ==> shaped(#[trigger] req.inputs@[i], 2),
        req.raw_input_contents.len() > 0 ==> req.raw_input_contents.len() == req.inputs.len(),
    ensures
        match token_rows(*req, ids as int, mask as int, place(types)) {
            Ok(v) => r is Ok && r->Ok_0@ == v,
            Err(e) => r is Err && r->Err_0@ == e,
        },
{
    let i = &req.inputs[ids];
    assert(shaped(req.inputs@[ids as int], 2));
    match check_match(&req.inputs[mask], i) {
        Err(e) => return Err(e),
        Ok(()) => {},
    }
    if let Some(k) = types {
        match check_match(&req.inputs[k], i) {
            Err(e) => return Err(e),
            Ok(()) => {},
        }
    }
    let batch: u32 = i.shape[0] as u32;
    let seq: u32 = i.shape[1] as u32;
    if req.raw_input_contents.len() > 0 {
        read_raw_tokens(req, ids, mask, types, batch, seq)
    } else {
        read_int_tokens(req, ids, mask, types, batch, seq)
    }
}

/// What the request asks for, or the refusal.
pub fn plan<'a>(req: &'a ModelInferRequest) -> (r: Result<Plan<'a>, Failure>)
    ensures
        match plan_of(*req) {
            Ok(p) => r is Ok && r->Ok_0.rows@ == p.0 && r->Ok_0.opts == p.1,
            Err(e) => r is Err && r->Err_0@ == e,
        },
{
    match check_header(req) {
        Err(e) => return Err(e),
        Ok(()) => {},
    }
    let (texts, ids, mask, types) = match which(&req.inputs) {
        Err(e) => return Err(e),
        Ok(set) => set,
    };
    match check_tensors(req, texts.is_some()) {
        Err(e) => return Err(e),
        Ok(()) => {},
    }
    let rows = match (texts, ids, mask) {
        (Some(k), _, _) => read_texts(req, k),
        (None, Some(ids), Some(mask)) => read_tokens(req, ids, mask, types),
        (None, _, _) => {
            assert(false);
            return Err(refuse(String::new()));
        },
    };
    let rows = match rows {
        Err(e) => return Err(e),
        Ok(rows) => rows,
    };
    match options(&req.parameters) {
        Err(e) => Err(e),
        Ok(opts) => Ok(Plan { rows, opts }),
    }
}

/// What a plan writes has the extents that it says: as many elements as rows and
/// columns, four bytes for each where they are raw.
pub proof fn planned_rows_fill_their_shape(req: ModelInferRequest)
    requires
        plan_of(req) is Ok,
    ensures
        match plan_of(req)->Ok_0.0 {
            RowsView::Texts(v) => v.len() <= u32::MAX,
            RowsView::Typed { batch, seq, ids, mask, types } => {
                &&& ids.len() == batch * seq
                &&& mask.len() == batch * seq
                &&& types is Some ==> types->0.len() == batch * seq
            },
            RowsView::Raw { batch, seq, ids, mask, types } => {
                &&& ids.len() == 4 * (batch * seq)
                &&& mask.len() == 4 * (batch * seq)
                &&& types is Some ==> types->0.len() == 4 * (batch * seq)
            },
        },
{
    if let Ok(InputSet::Texts(k)) = input_set(req.inputs@) {
        accepted_shape(req.inputs@, 1, 0, k);
        assert(req.inputs@[k].shape@[0] <= u32::MAX);
    }
}

/// No shape is refused, so each is accepted.
proof fn accepted_shape(inputs: Seq<InferInputTensor>, rank: nat, i: int, k: int)
    requires
        shapes_fault(inputs, rank, i) is None,
        0 <= i <= k < inputs.len(),
    ensures
        shaped(inputs[k], rank),
    decreases k - i,
{
    if i < k {
        accepted_shape(inputs, rank, i + 1, k);
    } else {
        assert forall|j: int| 0 <= j < rank implies 0 <= #[trigger] inputs[k].shape@[j] <= u32::MAX by {
            accepted_extent(inputs[k].shape@, inputs[k].name@, 0, j);
        }
    }
}

/// No extent is refused, so each is accepted.
proof fn accepted_extent(shape: Seq<i64>, name: Seq<char>, i: int, k: int)
    requires
        extent_fault(shape, name, i) is None,
        0 <= i <= k < shape.len(),
    ensures
        0 <= shape[k] <= u32::MAX,
    decreases k - i,
{
    if i < k {
        accepted_extent(shape, name, i + 1, k);
    }
}

/// Whether a parameter of a request is set to a choice: the first of its name is.
pub open spec fn is_set(params: Seq<(String, InferParameter)>, name: Seq<char>, choice: ParameterChoice) -> bool {
    let at = param_at(params, name, 0);
    at < params.len() && params[at].1.parameter_choice == Some(choice)
}

/// The place of a parameter is the first that has its name.
pub proof fn a_parameter_is_the_first_of_its_name(params: Seq<(String, InferParameter)>, name: Seq<char>, i: int)
    requires
        0 <= i <= params.len(),
    ensures
        i <= param_at(params, name, i) <= params.len(),
        param_at(params, name, i) < params.len() ==> params[param_at(params, name, i)].0@ == name,
        forall|k: int| i <= k < param_at(params, name, i) ==> (#[trigger] params[k]).0@ != name,
    decreases params.len() - i,
{
    if i < params.len() && params[i].0@ != name {
        a_parameter_is_the_first_of_its_name(params, name, i + 1);
    }
}

/// The fields of the options stand where they are numbered.
proof fn option_fields()
    ensures
        embed_fields().len() == 6,
        embed_fields()[0] == "truncate"@,
        embed_fields()[1] == "max_tokens"@,
        embed_fields()[2] == "prompt_role"@,
        embed_fields()[3] == "normalize"@,
        embed_fields()[4] == "pooling"@,
        embed_fields()[5] == "output_dim"@,
{
}

/// The options of a request are read each under its own name, by the names of their
/// values; what is not named is 0, the model's own.
pub proof fn options_are_read_by_name_and_value(params: Seq<(String, InferParameter)>, s: String, n: i64)
    requires
        options_of(params) is Ok,
    ensures
        ({
            let o = options_of(params)->Ok_0;
            let text = ParameterChoice::StringParam(s);
            let number = ParameterChoice::Int64Param(n);
            &&& is_set(params, "truncate"@, text) && s@ == "TRUNCATE_NONE"@ ==> o.truncate == 1
            &&& is_set(params, "truncate"@, text) && s@ == "TRUNCATE_RIGHT"@ ==> o.truncate == 2
            &&& is_set(params, "truncate"@, text) && s@ == "TRUNCATE_LEFT"@ ==> o.truncate == 3
            &&& is_set(params, "prompt_role"@, text) && s@ == "PROMPT_QUERY"@ ==> o.prompt_role == 1
            &&& is_set(params, "prompt_role"@, text) && s@ == "PROMPT_DOCUMENT"@ ==> o.prompt_role == 2
            &&& is_set(params, "normalize"@, text) && s@ == "NORMALIZE_NONE"@ ==> o.normalize == 1
            &&& is_set(params, "normalize"@, text) && s@ == "NORMALIZE_L2"@ ==> o.normalize == 2
            &&& is_set(params, "pooling"@, text) && s@ == "POOLING_MEAN"@ ==> o.pooling == 1
            &&& is_set(params, "pooling"@, text) && s@ == "POOLING_CLS"@ ==> o.pooling == 2
            &&& is_set(params, "pooling"@, text) && s@ == "POOLING_LAST"@ ==> o.pooling == 3
            &&& is_set(params, "max_tokens"@, number) ==> o.max_tokens == n
            &&& is_set(params, "output_dim"@, number) ==> o.output_dim == n
            &&& param_at(params, "truncate"@, 0) >= params.len() ==> o.truncate == 0
            &&& param_at(params, "max_tokens"@, 0) >= params.len() ==> o.max_tokens == 0
            &&& param_at(params, "prompt_role"@, 0) >= params.len() ==> o.prompt_role == 0
            &&& param_at(params, "normalize"@, 0) >= params.len() ==> o.normalize == 0
            &&& param_at(params, "pooling"@, 0) >= params.len() ==> o.pooling == 0
            &&& param_at(params, "output_dim"@, 0) >= params.len() ==> o.output_dim == 0
        }),
{
    reveal_with_fuel(field_values, 7);
    option_fields();
    crate::names::option_names_have_their_values();
    assert(field_values(params, 0) == Ok::<Seq<u32>, FailureView>(Seq::empty()));
    let o = options_of(params)->Ok_0;
    assert(field_value(params, 1) == Ok::<u32, FailureView>(o.truncate));
    assert(field_value(params, 2) == Ok::<u32, FailureView>(o.max_tokens));
    assert(field_value(params, 3) == Ok::<u32, FailureView>(o.prompt_role));
    assert(field_value(params, 4) == Ok::<u32, FailureView>(o.normalize));
    assert(field_value(params, 5) == Ok::<u32, FailureView>(o.pooling));
    assert(field_value(params, 6) == Ok::<u32, FailureView>(o.output_dim));
}

/// A parameter that is no option refuses a request.
pub proof fn unknown_parameters_are_refused(params: Seq<(String, InferParameter)>, i: int)
    requires
        0 <= i < params.len(),
        params[i].0@ != "truncate"@,
        params[i].0@ != "max_tokens"@,
        params[i].0@ != "prompt_role"@,
        params[i].0@ != "normalize"@,
        params[i].0@ != "pooling"@,
        params[i].0@ != "output_dim"@,
    ensures
        options_of(params) is Err,
{
    option_fields();
    let name = params[i].0@;
    assert(!embed_fields().contains(name));
    unknown_is_found(params, i, params.len() as int);
}

/// An unknown parameter is found.
proof fn unknown_is_found(params: Seq<(String, InferParameter)>, i: int, n: int)
    requires
        0 <= i < n <= params.len(),
        !embed_fields().contains(params[i].0@),
    ensures
        least_unknown(params, n) is Some,
    decreases n,
{
    if i < n - 1 {
        unknown_is_found(params, i, n - 1);
    }
}

/// The rows of a request are those of its inputs by their names. Texts are the strings
/// of its one input, as many as its shape says; tokens are the numbers of `ids`, the mask
/// those of `mask` and types those of `types`, all of one shape.
pub proof fn rows_are_those_of_the_named_inputs(req: ModelInferRequest)
    requires
        rows_of(req) is Ok,
    ensures
        rows_of(req)->Ok_0 matches RowsView::Texts(v) ==> exists|k: int|
            0 <= k < req.inputs.len() && (#[trigger] req.inputs@[k]).name@ == "texts"@ && req.inputs@[k].shape@[0]
                == v.len() && text_elements(req, k) == Ok::<Seq<Seq<u8>>, FailureView>(v),
        rows_of(req)->Ok_0 matches RowsView::Typed { batch, seq, ids, mask, types } ==> {
            &&& exists|k: int|
                0 <= k < req.inputs.len() && (#[trigger] req.inputs@[k]).name@ == "ids"@ && typed_ints(
                    req.inputs@[k],
                ) == ids && req.inputs@[k].shape@[0] as u32 == batch && req.inputs@[k].shape@[1] as u32 == seq
            &&& exists|k: int|
                0 <= k < req.inputs.len() && (#[trigger] req.inputs@[k]).name@ == "mask"@ && typed_ints(
                    req.inputs@[k],
                ) == mask
            &&& types matches Some(t) ==> exists|k: int|
                0 <= k < req.inputs.len() && (#[trigger] req.inputs@[k]).name@ == "types"@ && typed_ints(
                    req.inputs@[k],
                ) == t
            &&& types is None ==> forall|k: int| 0 <= k < req.inputs.len() ==> (#[trigger] req.inputs@[k]).name@ != "types"@
            &&& ids.len() == batch * seq && mask.len() == batch * seq
        },
        rows_of(req)->Ok_0 matches RowsView::Raw { batch, seq, ids, mask, types } ==> {
            &&& exists|k: int|
                0 <= k < req.inputs.len() && (#[trigger] req.inputs@[k]).name@ == "ids"@
                    && req.raw_input_contents@[k]@ == ids
            &&& exists|k: int|
                0 <= k < req.inputs.len() && (#[trigger] req.inputs@[k]).name@ == "mask"@
                    && req.raw_input_contents@[k]@ == mask
            &&& types matches Some(t) ==> exists|k: int|
                0 <= k < req.inputs.len() && (#[trigger] req.inputs@[k]).name@ == "types"@
                    && req.raw_input_contents@[k]@ == t
            &&& ids.len() == 4 * (batch * seq) && mask.len() == 4 * (batch * seq)
        },
{
    let inputs = req.inputs@;
    input_at_is_first(inputs, "texts"@, 0);
    input_at_is_first(inputs, "ids"@, 0);
    input_at_is_first(inputs, "mask"@, 0);
    input_at_is_first(inputs, "types"@, 0);
    let set = input_set(inputs)->Ok_0;
    match set {
        InputSet::Texts(k) => {
            assert(inputs[k].name@ == "texts"@);
        },
        InputSet::Tokens(ids, mask, types) => {
            assert(inputs[ids].name@ == "ids"@);
            assert(inputs[mask].name@ == "mask"@);
            if types is Some {
                assert(inputs[types->0].name@ == "types"@);
            }
        },
    }
}

/// The place of an input is the first that has its name.
proof fn input_at_is_first(inputs: Seq<InferInputTensor>, name: Seq<char>, i: int)
    requires
        0 <= i <= inputs.len(),
    ensures
        i <= input_at(inputs, name, i) <= inputs.len(),
        input_at(inputs, name, i) < inputs.len() ==> inputs[input_at(inputs, name, i)].name@ == name,
        forall|k: int| i <= k < input_at(inputs, name, i) ==> (#[trigger] inputs[k]).name@ != name,
    decreases inputs.len() - i,
{
    if i < inputs.len() && inputs[i].name@ != name {
        input_at_is_first(inputs, name, i + 1);
    }
}

/// A request gives texts alone, or ids and mask with types or without; each once, of the
/// datatype and rank that it takes, and raw or typed but not both.
pub proof fn inputs_are_texts_or_tokens(req: ModelInferRequest, k: int)
    requires
        rows_of(req) is Ok,
        0 <= k < req.inputs.len(),
    ensures
        ({
            let t = req.inputs@[k];
            &&& rows_of(req)->Ok_0 is Texts <==> t.name@ == "texts"@
            &&& t.name@ == "texts"@ ==> t.datatype@ == "BYTES"@ && t.shape.len() == 1
            &&& t.name@ != "texts"@ ==> t.datatype@ == "INT32"@ && t.shape.len() == 2 && (t.name@ == "ids"@
                || t.name@ == "mask"@ || t.name@ == "types"@)
            &&& t.parameters.len() == 0
            &&& req.raw_input_contents.len() > 0 ==> t.contents is None && req.raw_input_contents.len()
                == req.inputs.len()
        }),
{
    let inputs = req.inputs@;
    no_fault_of_names(inputs, 0);
    no_fault_of_parameters(inputs, 0);
    input_at_is_first(inputs, "texts"@, 0);
    let set = input_set(inputs)->Ok_0;
    let text = set is Texts;
    no_fault_of_datatypes(
        inputs,
        if text {
            "BYTES"@
        } else {
            "INT32"@
        },
        0,
    );
    no_fault_of_shapes(
        inputs,
        if text {
            1
        } else {
            2
        },
        0,
    );
    if req.raw_input_contents.len() > 0 {
        typed_is_found(inputs, 0);
    }
    if text {
        input_at_is_first(inputs, "ids"@, 0);
        input_at_is_first(inputs, "mask"@, 0);
        input_at_is_first(inputs, "types"@, 0);
        assert(inputs[k].name@ != "ids"@ && inputs[k].name@ != "mask"@ && inputs[k].name@ != "types"@);
    } else {
        assert(inputs[k].name@ != "texts"@);
    }
}

/// Without a fault every name is one of an input.
proof fn no_fault_of_names(inputs: Seq<InferInputTensor>, i: int)
    requires
        0 <= i <= inputs.len(),
        name_fault(inputs, i) is None,
    ensures
        forall|k: int| i <= k < inputs.len() ==> is_input((#[trigger] inputs[k]).name@),
    decreases inputs.len() - i,
{
    if i < inputs.len() {
        no_fault_of_names(inputs, i + 1);
    }
}

/// Without a fault no input has parameters.
proof fn no_fault_of_parameters(inputs: Seq<InferInputTensor>, i: int)
    requires
        0 <= i <= inputs.len(),
        parameter_fault(inputs, i) is None,
    ensures
        forall|k: int| i <= k < inputs.len() ==> (#[trigger] inputs[k]).parameters.len() == 0,
    decreases inputs.len() - i,
{
    if i < inputs.len() {
        no_fault_of_parameters(inputs, i + 1);
    }
}

/// Without a fault every datatype is the one that is taken.
proof fn no_fault_of_datatypes(inputs: Seq<InferInputTensor>, want: Seq<char>, i: int)
    requires
        0 <= i <= inputs.len(),
        datatype_fault(inputs, want, i) is None,
    ensures
        forall|k: int| i <= k < inputs.len() ==> (#[trigger] inputs[k]).datatype@ == want,
    decreases inputs.len() - i,
{
    if i < inputs.len() {
        no_fault_of_datatypes(inputs, want, i + 1);
    }
}

/// Without a fault every rank is the one that is taken.
proof fn no_fault_of_shapes(inputs: Seq<InferInputTensor>, rank: nat, i: int)
    requires
        0 <= i <= inputs.len(),
        shapes_fault(inputs, rank, i) is None,
    ensures
        forall|k: int| i <= k < inputs.len() ==> (#[trigger] inputs[k]).shape.len() == rank,
    decreases inputs.len() - i,
{
    if i < inputs.len() {
        no_fault_of_shapes(inputs, rank, i + 1);
    }
}

/// Typed contents are found.
proof fn typed_is_found(inputs: Seq<InferInputTensor>, i: int)
    requires
        0 <= i <= inputs.len(),
        !has_typed(inputs, i),
    ensures
        forall|k: int| i <= k < inputs.len() ==> (#[trigger] inputs[k]).contents is None,
    decreases inputs.len() - i,
{
    if i < inputs.len() {
        typed_is_found(inputs, i + 1);
    }
}

/// The texts of a request are the strings that it carries, typed or framed.
pub proof fn texts_are_the_strings_carried(req: ModelInferRequest, k: int, v: Seq<Seq<u8>>)
    requires
        0 <= k < req.inputs.len(),
    ensures
        req.raw_input_contents.len() > 0 && req.raw_input_contents@[k]@ == framed(v) && (forall|i: int|
            0 <= i < v.len() ==> (#[trigger] v[i]).len() <= u32::MAX) ==> text_elements(req, k) == Ok::<
            Seq<Seq<u8>>,
            FailureView,
        >(v),
        req.raw_input_contents.len() == 0 && (text_elements(req, k) is Ok) ==> text_elements(req, k)->Ok_0
            == typed_bytes(req.inputs@[k]),
{
    if req.raw_input_contents.len() > 0 && req.raw_input_contents@[k]@ == framed(v) && (forall|i: int|
        0 <= i < v.len() ==> (#[trigger] v[i]).len() <= u32::MAX) {
        framed_splits_back(v, 0);
    }
}

/// The outputs of a request are taken where it names none, or the one output once and
/// without parameters.
pub proof fn only_the_one_output_is_asked_for(outputs: Seq<InferRequestedOutputTensor>)
    ensures
        outputs_fault(outputs) is None <==> outputs.len() == 0 || outputs.len() == 1
            && outputs[0].name@ == "vectors"@ && outputs[0].parameters.len() == 0,
{
    reveal_with_fuel(output_fault, 3);
}

/// Contents beside the ones that are kept are told by the field that they stand in,
/// and none is told where all other fields are empty.
pub proof fn other_contents_are_told_by_their_field(c: InferTensorContents, keep: Seq<char>)
    ensures
        other_contents(c, keep) matches Some(f) ==> {
            &&& f != keep
            &&& f == "bool_contents"@ ==> c.bool_contents.len() > 0
            &&& f == "int_contents"@ ==> c.int_contents.len() > 0
            &&& f == "int64_contents"@ ==> c.int64_contents.len() > 0
            &&& f == "uint_contents"@ ==> c.uint_contents.len() > 0
            &&& f == "uint64_contents"@ ==> c.uint64_contents.len() > 0
            &&& f == "fp32_contents"@ ==> c.fp32_contents.len() > 0
            &&& f == "fp64_contents"@ ==> c.fp64_contents.len() > 0
            &&& f == "bytes_contents"@ ==> c.bytes_contents.len() > 0
        },
        other_contents(c, keep) is None ==> {
            &&& c.bool_contents.len() == 0 || keep == "bool_contents"@
            &&& c.int_contents.len() == 0 || keep == "int_contents"@
            &&& c.int64_contents.len() == 0 || keep == "int64_contents"@
            &&& c.uint_contents.len() == 0 || keep == "uint_contents"@
            &&& c.uint64_contents.len() == 0 || keep == "uint64_contents"@
            &&& c.fp32_contents.len() == 0 || keep == "fp32_contents"@
            &&& c.fp64_contents.len() == 0 || keep == "fp64_contents"@
            &&& c.bytes_contents.len() == 0 || keep == "bytes_contents"@
        },
{
    reveal_strlit("bool_contents");
    reveal_strlit("int_contents");
    reveal_strlit("int64_contents");
    reveal_strlit("uint_contents");
    reveal_strlit("uint64_contents");
    reveal_strlit("fp32_contents");
    reveal_strlit("fp64_contents");
    reveal_strlit("bytes_contents");
    assert("bool_contents"@[1] == 'o' && "bytes_contents"@[1] == 'y' && "int_contents"@[3] == '_'
        && "int64_contents"@[3] == '6' && "uint_contents"@[4] == '_' && "uint64_contents"@[4] == '6'
        && "fp32_contents"@[2] == '3' && "fp64_contents"@[2] == '6');
    assert("bool_contents"@[0] == 'b' && "bytes_contents"@[0] == 'b' && "int_contents"@[0] == 'i'
        && "int64_contents"@[0] == 'i' && "uint_contents"@[0] == 'u' && "uint64_contents"@[0] == 'u'
        && "fp32_contents"@[0] == 'f' && "fp64_contents"@[0] == 'f');
}

} // verus!

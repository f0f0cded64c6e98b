//! The gRPC binding of the Open Inference Protocol: its messages to and from the
//! requests and responses that both bindings share.

use vstd::prelude::*;
use crate::answer::{
    ended, finish_text, finish_text_of, generation_parameters, params_view, tensor_views, text_tensor,
    text_view, ParamView, TensorView,
};
use crate::bytes::{le_bytes, le_round_trip, le_value, pow256, read_all, read_le};
use crate::engine::Piece;
use crate::error::{plain, Class, Error, ErrorView};
use crate::infer::{
    framed, InferInputTensor, InferParameter, InferTensorContents, ModelInferRequest, ParameterChoice,
    Parameters,
};
use crate::oip::{
    as_signed32, as_signed64, as_words32, byte_views, elements, elements_of, to_flags, to_signed32,
    to_signed64, to_words32, too_many, too_many_of, unpacked, Data, DataView, InferRequest, InferResponse, Param, Params, Tensor,
    MODEL_VERSION,
};
use crate::order::{lex_antisymmetric, lex_le, lex_le_of, lex_total, lex_transitive};
use crate::text::{
    cat2, cat3, cat4, cat5, cat6, cat8, decimal, decimal_of, opt_view, same, signed_decimal, signed_of, views,
};
use crate::types::{kind_text, ModelKind};

verus! {

/// A parameter of a message as a value.
pub open spec fn choice_view(c: ParameterChoice) -> ParamView {
    match c {
        ParameterChoice::BoolParam(b) => ParamView::Bool(b),
        ParameterChoice::Int64Param(i) => ParamView::Int(i),
        ParameterChoice::StringParam(s) => ParamView::Str(s@),
        ParameterChoice::DoubleParam(d) => ParamView::Double(d@),
        ParameterChoice::Uint64Param(u) => ParamView::Uint(u),
    }
}

/// Parameters with the value under the name: in place of the one there, else
/// before the first greater name.
pub open spec fn with_param(p: Seq<(Seq<char>, ParamView)>, name: Seq<char>, v: ParamView, i: int) -> Seq<
    (Seq<char>, ParamView),
>
    decreases p.len() - i,
{
    if i < 0 || i >= p.len() {
        p.push((name, v))
    } else if p[i].0 == name {
        p.update(i, (name, v))
    } else if lex_le(name, p[i].0) {
        p.insert(i, (name, v))
    } else {
        with_param(p, name, v, i + 1)
    }
}

/// The first `n` parameters of a message that have a value, in name order.
pub open spec fn params_of(map: Seq<(String, InferParameter)>, n: int) -> Seq<(Seq<char>, ParamView)>
    decreases n,
{
    if n <= 0 {
        Seq::empty()
    } else {
        match map[n - 1].1.parameter_choice {
            None => params_of(map, n - 1),
            Some(c) => with_param(params_of(map, n - 1), map[n - 1].0@, choice_view(c), 0),
        }
    }
}

/// Put a parameter where it belongs.
fn put_param(p: &mut Params, name: &str, v: Param)
    ensures
        params_view(final(p)@) == with_param(params_view(old(p)@), name@, v@, 0),
{
    let ghost before = params_view(p@);
    let ghost seen = v@;
    let mut i: usize = 0;
    while i < p.len() && !same(p[i].0.as_str(), name) && !lex_le_of(name, p[i].0.as_str())
        invariant
            i <= p.len(),
            *p == *old(p),
            before == params_view(p@),
            with_param(before, name@, seen, i as int) == with_param(before, name@, seen, 0),
        decreases p.len() - i,
    {
        assert(before[i as int].0 == p@[i as int].0@);
        i = i + 1;
    }
    if i >= p.len() {
        p.push((name.to_owned(), v));
        proof {
            assert(params_view(p@) =~= before.push((name@, seen)));
        }
        return ;
    }
    assert(before[i as int].0 == p@[i as int].0@);
    if same(p[i].0.as_str(), name) {
        p.set(i, (name.to_owned(), v));
        proof {
            assert(params_view(p@) =~= before.update(i as int, (name@, seen)));
        }
    } else {
        p.insert(i, (name.to_owned(), v));
        proof {
            assert(params_view(p@) =~= before.insert(i as int, (name@, seen)));
        }
    }
}

/// The parameters of a message; one without a value is none.
pub fn params_from(map: &Parameters) -> (r: Params)
    ensures
        params_view(r@) == params_of(map@, map.len() as int),
{
    let mut out: Params = Vec::new();
    let mut i: usize = 0;
    proof {
        assert(params_view(out@) =~= Seq::empty());
    }
    while i < map.len()
        invariant
            i <= map.len(),
            params_view(out@) == params_of(map@, i as int),
        decreases map.len() - i,
    {
        match &map[i].1.parameter_choice {
            None => {},
            Some(c) => {
                let p = match c {
                    ParameterChoice::BoolParam(b) => Param::Bool(*b),
                    ParameterChoice::Int64Param(n) => Param::Int(*n),
                    ParameterChoice::StringParam(s) => Param::Str(s.clone()),
                    ParameterChoice::DoubleParam(d) => Param::Double(copy_real(d)),
                    ParameterChoice::Uint64Param(u) => Param::Uint(*u),
                };
                put_param(&mut out, map[i].0.as_str(), p);
            },
        }
        i = i + 1;
    }
    out
}

/// A number with its texts.
fn copy_real(d: &crate::infer::Real) -> (r: crate::infer::Real)
    ensures
        r@ == d@,
{
    crate::infer::Real { bits: d.bits, shown: d.shown.clone(), debug: d.debug.clone() }
}

/// Whether names stand in order, each once.
pub open spec fn names_ordered(p: Seq<(Seq<char>, ParamView)>) -> bool {
    forall|i: int, j: int|
        0 <= i < j < p.len() ==> lex_le((#[trigger] p[i]).0, (#[trigger] p[j]).0) && p[i].0 != p[j].0
}

/// The parameters of a message stand in name order, each name once.
pub proof fn params_are_ordered(map: Seq<(String, InferParameter)>, n: int)
    requires
        0 <= n <= map.len(),
    ensures
        names_ordered(params_of(map, n)),
    decreases n,
{
    if n > 0 {
        params_are_ordered(map, n - 1);
        if let Some(c) = map[n - 1].1.parameter_choice {
            insertion_is_ordered(params_of(map, n - 1), map[n - 1].0@, choice_view(c), 0);
        }
    }
}

/// Putting a parameter where it belongs keeps the order.
proof fn insertion_is_ordered(p: Seq<(Seq<char>, ParamView)>, name: Seq<char>, v: ParamView, i: int)
    requires
        names_ordered(p),
        0 <= i <= p.len(),
        forall|j: int| 0 <= j < i ==> lex_le((#[trigger] p[j]).0, name) && p[j].0 != name,
    ensures
        names_ordered(with_param(p, name, v, i)),
    decreases p.len() - i,
{
    let after = with_param(p, name, v, i);
    if i >= p.len() {
        assert forall|a: int, b: int| 0 <= a < b < after.len() implies lex_le(
            (#[trigger] after[a]).0,
            (#[trigger] after[b]).0,
        ) && after[a].0 != after[b].0 by {
            if b == p.len() {
                assert(lex_le(p[a].0, name));
            } else {
                assert(lex_le(p[a].0, p[b].0));
            }
        }
    } else if p[i].0 == name {
        assert forall|a: int, b: int| 0 <= a < b < after.len() implies lex_le(
            (#[trigger] after[a]).0,
            (#[trigger] after[b]).0,
        ) && after[a].0 != after[b].0 by {
            assert(after[a].0 == p[a].0 && after[b].0 == p[b].0);
            assert(lex_le(p[a].0, p[b].0));
        }
    } else if lex_le(name, p[i].0) {
        assert forall|a: int, b: int| 0 <= a < b < after.len() implies lex_le(
            (#[trigger] after[a]).0,
            (#[trigger] after[b]).0,
        ) && after[a].0 != after[b].0 by {
            if a == i {
                if b - 1 > i {
                    assert(lex_le(p[i].0, p[b - 1].0));
                    lex_transitive(name, p[i].0, p[b - 1].0);
                    if name == p[b - 1].0 {
                        lex_antisymmetric(p[i].0, name);
                    }
                }
            } else if b == i {
                assert(lex_le(p[a].0, name));
            } else {
                let x = if a < i { a } else { a - 1 };
                let y = if b < i { b } else { b - 1 };
                assert(after[a] == p[x] && after[b] == p[y]);
                assert(lex_le(p[x].0, p[y].0));
            }
        }
    } else {
        lex_total(p[i].0, name);
        insertion_is_ordered(p, name, v, i + 1);
    }
}

/// Parameters as those of a message.
pub open spec fn message_params(p: Seq<(Seq<char>, ParamView)>, m: Seq<(String, InferParameter)>) -> bool {
    &&& m.len() == p.len()
    &&& forall|i: int|
        0 <= i < m.len() ==> (#[trigger] m[i]).0@ == p[i].0 && m[i].1.parameter_choice is Some
            && choice_view(m[i].1.parameter_choice->0) == p[i].1
}

/// Parameters as those of a message.
pub fn params_to(map: &Params) -> (r: Parameters)
    ensures
        message_params(params_view(map@), r@),
{
    let mut out: Parameters = Vec::new();
    let mut i: usize = 0;
    while i < map.len()
        invariant
            i <= map.len(),
            out.len() == i,
            forall|j: int|
                0 <= j < i ==> (#[trigger] out@[j]).0@ == map@[j].0@
                    && out@[j].1.parameter_choice is Some && choice_view(
                    out@[j].1.parameter_choice->0,
                ) == map@[j].1@,
        decreases map.len() - i,
    {
        let c = match &map[i].1 {
            Param::Bool(b) => ParameterChoice::BoolParam(*b),
            Param::Int(n) => ParameterChoice::Int64Param(*n),
            Param::Str(s) => ParameterChoice::StringParam(s.clone()),
            Param::Double(d) => ParameterChoice::DoubleParam(copy_real(d)),
            Param::Uint(u) => ParameterChoice::Uint64Param(*u),
        };
        out.push((map[i].0.clone(), InferParameter { parameter_choice: Some(c) }));
        i = i + 1;
    }
    out
}

/// The refusal of raw bytes that are not so many elements of `n` bytes.
pub open spec fn fixed_fault(name: Seq<char>, len: nat, elements: i64, n: nat) -> Option<ErrorView> {
    if len % n != 0 || (elements >= 0 && len != elements * n) {
        Some(
            plain(
                Class::BadRequest,
                "input `"@ + name + "`: "@ + decimal(len) + " raw bytes do not hold "@
                    + signed_decimal(elements as int) + " elements of "@ + (decimal(n) + " bytes"@),
            ),
        )
    } else {
        None
    }
}

/// Check that raw bytes are so many elements of `n` bytes.
fn check_fixed(name: &str, len: usize, elements: i64, n: usize) -> (r: Result<(), Error>)
    requires
        1 <= n <= 8,
    ensures
        match fixed_fault(name@, len as nat, elements, n as nat) {
            Some(e) => r is Err && r->Err_0@ == e,
            None => r is Ok,
        },
{
    proof {
        if elements >= 0 {
            assert(0 <= elements * n <= 0x7fff_ffff_ffff_ffff * 8) by (nonlinear_arith)
                requires
                    0 <= elements <= 0x7fff_ffff_ffff_ffff,
                    1 <= n <= 8,
            ;
        }
    }
    if len % n != 0 || (elements >= 0 && len as i128 != elements as i128 * n as i128) {
        return Err(
            Error::plain(
                Class::BadRequest,
                cat8(
                    "input `",
                    name,
                    "`: ",
                    decimal_of(len as u128).as_str(),
                    " raw bytes do not hold ",
                    signed_of(elements).as_str(),
                    " elements of ",
                    cat2(decimal_of(n as u128).as_str(), " bytes").as_str(),
                ),
            ),
        );
    }
    Ok(())
}

/// The byte strings of raw bytes, each behind its length, or the refusal.
pub open spec fn strings_of(name: Seq<char>, b: Seq<u8>) -> Result<Seq<Seq<u8>>, ErrorView>
    decreases b.len(),
{
    if b.len() == 0 {
        Ok(Seq::empty())
    } else if b.len() < 4 {
        Err(
            plain(
                Class::BadRequest,
                "input `"@ + name + "`: raw BYTES content ends inside a length prefix"@,
            ),
        )
    } else {
        let n = le_value(b.take(4)) as int;
        if n > b.len() - 4 {
            Err(
                plain(
                    Class::BadRequest,
                    "input `"@ + name + "`: raw BYTES element of "@ + decimal(n as nat)
                        + " bytes runs past the content"@,
                ),
            )
        } else {
            match strings_of(name, b.skip(4 + n)) {
                Err(e) => Err(e),
                Ok(rest) => Ok(seq![b.subrange(4, 4 + n)] + rest),
            }
        }
    }
}

/// The byte strings of raw bytes.
fn read_strings(name: &str, raw: &Vec<u8>) -> (r: Result<Vec<Vec<u8>>, Error>)
    ensures
        match strings_of(name@, raw@) {
            Ok(v) => r is Ok && byte_views(r->Ok_0@) == v,
            Err(e) => r is Err && r->Err_0@ == e,
        },
{
    let mut out: Vec<Vec<u8>> = Vec::new();
    let mut at: usize = 0;
    proof {
        assert(raw@.skip(0) =~= raw@);
        assert(byte_views(out@) =~= Seq::empty());
        if let Ok(v) = strings_of(name@, raw@) {
            assert(byte_views(out@) + v =~= v);
        }
    }
    while at < raw.len()
        invariant
            at <= raw.len(),
            match strings_of(name@, raw@.skip(at as int)) {
                Ok(rest) => strings_of(name@, raw@) == Ok::<Seq<Seq<u8>>, ErrorView>(
                    byte_views(out@) + rest,
                ),
                Err(e) => strings_of(name@, raw@) == Err::<Seq<Seq<u8>>, ErrorView>(e),
            },
        decreases raw.len() - at,
    {
        let ghost tail = raw@.skip(at as int);
        if raw.len() - at < 4 {
            return Err(
                Error::plain(
                    Class::BadRequest,
                    cat3("input `", name, "`: raw BYTES content ends inside a length prefix"),
                ),
            );
        }
        let len = read_le(raw, at, 4);
        proof {
            assert(raw@.subrange(at as int, at + 4) =~= tail.take(4));
        }
        at = at + 4;
        if len > (raw.len() - at) as u64 {
            return Err(
                Error::plain(
                    Class::BadRequest,
                    cat5(
                        "input `",
                        name,
                        "`: raw BYTES element of ",
                        decimal_of(len as u128).as_str(),
                        " bytes runs past the content",
                    ),
                ),
            );
        }
        let n: usize = len as usize;
        let item = crate::stop::copy_bytes(raw, at, at + n);
        let ghost before = byte_views(out@);
        let ghost seen = item@;
        out.push(item);
        proof {
            assert(seen =~= tail.subrange(4, 4 + n));
            assert(byte_views(out@) =~= before.push(seen));
            assert(tail.skip(4 + n as int) =~= raw@.skip(at + n));
            if let Ok(rest) = strings_of(name@, raw@.skip(at + n)) {
                assert(before + (seq![seen] + rest) =~= byte_views(out@) + rest);
            }
        }
        at = at + n;
    }
    proof {
        assert(raw@.skip(at as int) =~= Seq::empty());
        assert(byte_views(out@) + Seq::<Seq<u8>>::empty() =~= byte_views(out@));
    }
    Ok(out)
}

/// Framed byte strings are read as they were.
pub proof fn framed_strings_read_back(name: Seq<char>, v: Seq<Seq<u8>>)
    requires
        forall|i: int| 0 <= i < v.len() ==> (#[trigger] v[i]).len() <= u32::MAX,
    ensures
        strings_of(name, framed(v)) == Ok::<Seq<Seq<u8>>, ErrorView>(v),
    decreases v.len(),
{
    if v.len() > 0 {
        let n = v[0].len();
        reveal_with_fuel(pow256, 5);
        le_round_trip(n, 4);
        let b = framed(v);
        assert(b.take(4) =~= le_bytes(n, 4));
        assert(b.subrange(4, 4 + n as int) =~= v[0]);
        assert(b.skip(4 + n as int) =~= framed(v.skip(1)));
        framed_strings_read_back(name, v.skip(1));
        assert(seq![v[0]] + v.skip(1) =~= v);
    } else {
        assert(v =~= Seq::empty());
    }
}

/// Raw bytes as typed contents of a datatype, or the refusal.
pub open spec fn raw_data(name: Seq<char>, datatype: Seq<char>, raw: Seq<u8>, elements: i64) -> Result<
    DataView,
    ErrorView,
> {
    let four = fixed_fault(name, raw.len(), elements, 4);
    let eight = fixed_fault(name, raw.len(), elements, 8);
    if datatype == "FP32"@ {
        match four {
            Some(e) => Err(e),
            None => Ok(DataView::Fp32(as_words32(unpacked(raw, 4)))),
        }
    } else if datatype == "FP64"@ {
        match eight {
            Some(e) => Err(e),
            None => Ok(DataView::Fp64(unpacked(raw, 8))),
        }
    } else if datatype == "INT32"@ {
        match four {
            Some(e) => Err(e),
            None => Ok(DataView::Int32(as_signed32(unpacked(raw, 4)))),
        }
    } else if datatype == "INT64"@ {
        match eight {
            Some(e) => Err(e),
            None => Ok(DataView::Int64(as_signed64(unpacked(raw, 8)))),
        }
    } else if datatype == "UINT32"@ {
        match four {
            Some(e) => Err(e),
            None => Ok(DataView::Uint32(as_words32(unpacked(raw, 4)))),
        }
    } else if datatype == "UINT64"@ {
        match eight {
            Some(e) => Err(e),
            None => Ok(DataView::Uint64(unpacked(raw, 8))),
        }
    } else if datatype == "BOOL"@ {
        Ok(DataView::Bool(Seq::new(raw.len(), |i: int| raw[i] != 0)))
    } else if datatype == "BYTES"@ {
        match strings_of(name, raw) {
            Err(e) => Err(e),
            Ok(v) => if elements >= 0 && v.len() != elements {
                Err(
                    plain(
                        Class::BadRequest,
                        "input `"@ + name + "`: raw BYTES content holds "@ + decimal(v.len())
                            + " strings but the shape declares "@ + signed_decimal(elements as int),
                    ),
                )
            } else {
                Ok(DataView::Bytes(v))
            },
        }
    } else {
        Err(
            plain(
                Class::BadRequest,
                "input `"@ + name + "`: datatype `"@ + datatype
                    + "` is not carried in raw form by this server"@,
            ),
        )
    }
}

/// Raw little-endian bytes as typed contents; byte strings stand each behind its
/// four-byte length.
pub fn raw_to_data(name: &str, datatype: &str, raw: &Vec<u8>, elements: i64) -> (r: Result<Data, Error>)
    ensures
        match raw_data(name@, datatype@, raw@, elements) {
            Ok(d) => r is Ok && r->Ok_0@ == d,
            Err(e) => r is Err && r->Err_0@ == e,
        },
{
    proof {
        reveal_with_fuel(pow256, 5);
    }
    if same(datatype, "FP32") {
        match check_fixed(name, raw.len(), elements, 4) {
            Err(e) => Err(e),
            Ok(()) => Ok(Data::Fp32(to_words32(&read_all(raw, 4)))),
        }
    } else if same(datatype, "FP64") {
        match check_fixed(name, raw.len(), elements, 8) {
            Err(e) => Err(e),
            Ok(()) => Ok(Data::Fp64(read_all(raw, 8))),
        }
    } else if same(datatype, "INT32") {
        match check_fixed(name, raw.len(), elements, 4) {
            Err(e) => Err(e),
            Ok(()) => Ok(Data::Int32(to_signed32(&read_all(raw, 4)))),
        }
    } else if same(datatype, "INT64") {
        match check_fixed(name, raw.len(), elements, 8) {
            Err(e) => Err(e),
            Ok(()) => Ok(Data::Int64(to_signed64(&read_all(raw, 8)))),
        }
    } else if same(datatype, "UINT32") {
        match check_fixed(name, raw.len(), elements, 4) {
            Err(e) => Err(e),
            Ok(()) => Ok(Data::Uint32(to_words32(&read_all(raw, 4)))),
        }
    } else if same(datatype, "UINT64") {
        match check_fixed(name, raw.len(), elements, 8) {
            Err(e) => Err(e),
            Ok(()) => Ok(Data::Uint64(read_all(raw, 8))),
        }
    } else if same(datatype, "BOOL") {
        Ok(Data::Bool(to_flags(raw)))
    } else if same(datatype, "BYTES") {
        let items = match read_strings(name, raw) {
            Err(e) => return Err(e),
            Ok(v) => v,
        };
        proof {
            assert(byte_views(items@).len() == items.len());
        }
        if elements >= 0 && items.len() as i128 != elements as i128 {
            return Err(
                Error::plain(
                    Class::BadRequest,
                    cat6(
                        "input `",
                        name,
                        "`: raw BYTES content holds ",
                        decimal_of(items.len() as u128).as_str(),
                        " strings but the shape declares ",
                        signed_of(elements).as_str(),
                    ),
                ),
            );
        }
        Ok(Data::Bytes(items))
    } else {
        Err(
            Error::plain(
                Class::BadRequest,
                cat5(
                    "input `",
                    name,
                    "`: datatype `",
                    datatype,
                    "` is not carried in raw form by this server",
                ),
            ),
        )
    }
}

/// Typed contents of a datatype, or the refusal.
pub open spec fn typed_data(name: Seq<char>, datatype: Seq<char>, c: InferTensorContents) -> Result<
    DataView,
    ErrorView,
> {
    if datatype == "BYTES"@ {
        Ok(DataView::Bytes(byte_views(c.bytes_contents@)))
    } else if datatype == "FP32"@ {
        Ok(DataView::Fp32(c.fp32_contents@))
    } else if datatype == "FP64"@ {
        Ok(DataView::Fp64(c.fp64_contents@))
    } else if datatype == "INT32"@ || datatype == "INT16"@ || datatype == "INT8"@ {
        Ok(DataView::Int32(c.int_contents@))
    } else if datatype == "INT64"@ {
        Ok(DataView::Int64(c.int64_contents@))
    } else if datatype == "UINT32"@ || datatype == "UINT16"@ || datatype == "UINT8"@ {
        Ok(DataView::Uint32(c.uint_contents@))
    } else if datatype == "UINT64"@ {
        Ok(DataView::Uint64(c.uint64_contents@))
    } else if datatype == "BOOL"@ {
        Ok(DataView::Bool(c.bool_contents@))
    } else {
        Err(
            plain(
                Class::BadRequest,
                "input `"@ + name + "`: datatype `"@ + datatype + "` is not carried in contents"@,
            ),
        )
    }
}

/// The contents of an input, typed or raw, or the refusal.
pub open spec fn data_of(t: InferInputTensor, raw: Option<Seq<u8>>) -> Result<DataView, ErrorView> {
    match raw {
        Some(b) => if t.contents is Some {
            Err(
                plain(
                    Class::BadRequest,
                    "input `"@ + t.name@
                        + "` has both contents and raw_input_contents; the protocol allows one"@,
                ),
            )
        } else {
            match elements_of(t.shape@, t.shape.len() as int) {
                None => Err(too_many(t.name@, t.shape@)),
                Some(n) => raw_data(t.name@, t.datatype@, b, n),
            }
        },
        None => match t.contents {
            None => Err(plain(Class::BadRequest, "input `"@ + t.name@ + "` has no contents"@)),
            Some(c) => typed_data(t.name@, t.datatype@, c),
        },
    }
}

/// The same elements.
fn copy<T: Copy>(v: &Vec<T>) -> (r: Vec<T>)
    ensures
        r@ == v@,
{
    let mut out: Vec<T> = Vec::new();
    let mut i: usize = 0;
    while i < v.len()
        invariant
            i <= v.len(),
            out@ == v@.take(i as int),
        decreases v.len() - i,
    {
        out.push(v[i]);
        i = i + 1;
        proof {
            assert(out@ =~= v@.take(i as int));
        }
    }
    proof {
        assert(out@ =~= v@);
    }
    out
}

/// The same byte strings.
fn copy_strings(v: &Vec<Vec<u8>>) -> (r: Vec<Vec<u8>>)
    ensures
        byte_views(r@) == byte_views(v@),
{
    let mut out: Vec<Vec<u8>> = Vec::new();
    let mut i: usize = 0;
    while i < v.len()
        invariant
            i <= v.len(),
            out.len() == i,
            forall|j: int| 0 <= j < i ==> (#[trigger] out@[j])@ == v@[j]@,
        decreases v.len() - i,
    {
        out.push(copy(&v[i]));
        i = i + 1;
    }
    proof {
        assert(byte_views(out@) =~= byte_views(v@));
    }
    out
}

/// Typed contents of an input, from its own contents or the raw ones.
pub fn data_from(t: &InferInputTensor, raw: Option<&Vec<u8>>) -> (r: Result<Data, Error>)
    ensures
        match data_of(
            *t,
            match raw {
                Some(b) => Some(b@),
                None => None,
            },
        ) {
            Ok(d) => r is Ok && r->Ok_0@ == d,
            Err(e) => r is Err && r->Err_0@ == e,
        },
{
    let name = t.name.as_str();
    if let Some(b) = raw {
        if t.contents.is_some() {
            return Err(
                Error::plain(
                    Class::BadRequest,
                    cat3(
                        "input `",
                        name,
                        "` has both contents and raw_input_contents; the protocol allows one",
                    ),
                ),
            );
        }
        return match elements(&t.shape) {
            None => Err(too_many_of(name, &t.shape)),
            Some(n) => raw_to_data(name, t.datatype.as_str(), b, n),
        };
    }
    let c = match &t.contents {
        None => return Err(
            Error::plain(Class::BadRequest, cat3("input `", name, "` has no contents")),
        ),
        Some(c) => c,
    };
    let d = t.datatype.as_str();
    if same(d, "BYTES") {
        Ok(Data::Bytes(copy_strings(&c.bytes_contents)))
    } else if same(d, "FP32") {
        Ok(Data::Fp32(copy(&c.fp32_contents)))
    } else if same(d, "FP64") {
        Ok(Data::Fp64(copy(&c.fp64_contents)))
    } else if same(d, "INT32") || same(d, "INT16") || same(d, "INT8") {
        Ok(Data::Int32(copy(&c.int_contents)))
    } else if same(d, "INT64") {
        Ok(Data::Int64(copy(&c.int64_contents)))
    } else if same(d, "UINT32") || same(d, "UINT16") || same(d, "UINT8") {
        Ok(Data::Uint32(copy(&c.uint_contents)))
    } else if same(d, "UINT64") {
        Ok(Data::Uint64(copy(&c.uint64_contents)))
    } else if same(d, "BOOL") {
        Ok(Data::Bool(copy(&c.bool_contents)))
    } else {
        Err(
            Error::plain(
                Class::BadRequest,
                cat5("input `", name, "`: datatype `", d, "` is not carried in contents"),
            ),
        )
    }
}

/// An input as a tensor, or the refusal.
pub open spec fn tensor_of(t: InferInputTensor, raw: Option<Seq<u8>>) -> Result<TensorView, ErrorView> {
    match data_of(t, raw) {
        Err(e) => Err(e),
        Ok(data) => Ok(
            TensorView {
                name: t.name@,
                datatype: t.datatype@,
                shape: t.shape@,
                data,
                parameters: params_of(t.parameters@, t.parameters.len() as int),
            },
        ),
    }
}

/// The raw contents of the input at place `i`.
pub open spec fn raw_at(req: ModelInferRequest, i: int) -> Option<Seq<u8>> {
    if i < req.raw_input_contents.len() {
        Some(req.raw_input_contents@[i]@)
    } else {
        None
    }
}

/// The first `n` inputs as tensors, or the first refusal.
pub open spec fn tensors_of(req: ModelInferRequest, n: int) -> Result<Seq<TensorView>, ErrorView>
    decreases n,
{
    if n <= 0 {
        Ok(Seq::empty())
    } else {
        match tensors_of(req, n - 1) {
            Err(e) => Err(e),
            Ok(out) => match tensor_of(req.inputs@[n - 1], raw_at(req, n - 1)) {
                Err(e) => Err(e),
                Ok(t) => Ok(out.push(t)),
            },
        }
    }
}

/// A refused input decides the whole.
proof fn tensor_refusal_stays(req: ModelInferRequest, i: int, n: int)
    requires
        0 <= i <= n,
    ensures
        tensors_of(req, i) is Err ==> tensors_of(req, n) == tensors_of(req, i),
    decreases n,
{
    if i < n {
        tensor_refusal_stays(req, i, n - 1);
    }
}

/// The names of the outputs that a message asks for.
pub open spec fn output_names(req: ModelInferRequest) -> Seq<Seq<char>> {
    Seq::new(req.outputs@.len(), |i: int| req.outputs@[i].name@)
}

/// The refusal of another number of raw contents than inputs.
pub open spec fn raw_count_fault(req: ModelInferRequest) -> Option<ErrorView> {
    if req.raw_input_contents.len() > 0 && req.raw_input_contents.len() != req.inputs.len() {
        Some(
            plain(
                Class::BadRequest,
                "raw_input_contents has "@ + decimal(req.raw_input_contents.len() as nat)
                    + " entries for "@ + decimal(req.inputs.len() as nat) + " inputs"@,
            ),
        )
    } else {
        None
    }
}

/// A message as the request that both bindings share.
pub fn request_from(req: &ModelInferRequest) -> (r: Result<InferRequest, Error>)
    ensures
        match raw_count_fault(*req) {
            Some(e) => r is Err && r->Err_0@ == e,
            None => match tensors_of(*req, req.inputs.len() as int) {
                Err(e) => r is Err && r->Err_0@ == e,
                Ok(v) => {
                    &&& r is Ok
                    &&& r->Ok_0.id@ == req.id@
                    &&& params_view(r->Ok_0.parameters@) == params_of(
                        req.parameters@,
                        req.parameters.len() as int,
                    )
                    &&& tensor_views(r->Ok_0.inputs@) == v
                    &&& views(r->Ok_0.outputs@) == output_names(*req)
                },
            },
        },
{
    if req.raw_input_contents.len() > 0 && req.raw_input_contents.len() != req.inputs.len() {
        return Err(
            Error::plain(
                Class::BadRequest,
                cat5(
                    "raw_input_contents has ",
                    decimal_of(req.raw_input_contents.len() as u128).as_str(),
                    " entries for ",
                    decimal_of(req.inputs.len() as u128).as_str(),
                    " inputs",
                ),
            ),
        );
    }
    let mut inputs: Vec<Tensor> = Vec::new();
    let mut i: usize = 0;
    proof {
        assert(tensor_views(inputs@) =~= Seq::empty());
    }
    while i < req.inputs.len()
        invariant
            i <= req.inputs.len(),
            raw_count_fault(*req) is None,
            tensors_of(*req, i as int) == Ok::<Seq<TensorView>, ErrorView>(tensor_views(inputs@)),
        decreases req.inputs.len() - i,
    {
        proof {
            tensor_refusal_stays(*req, i + 1, req.inputs.len() as int);
        }
        let t = &req.inputs[i];
        let raw: Option<&Vec<u8>> = if i < req.raw_input_contents.len() {
            Some(&req.raw_input_contents[i])
        } else {
            None
        };
        let data = match data_from(t, raw) {
            Err(e) => return Err(e),
            Ok(d) => d,
        };
        let tensor = Tensor {
            name: t.name.clone(),
            datatype: t.datatype.clone(),
            shape: copy(&t.shape),
            data,
            parameters: params_from(&t.parameters),
        };
        let ghost before = tensor_views(inputs@);
        let ghost seen = tensor@;
        inputs.push(tensor);
        proof {
            assert(tensor_views(inputs@) =~= before.push(seen));
        }
        i = i + 1;
    }
    let mut outputs: Vec<String> = Vec::new();
    let mut k: usize = 0;
    while k < req.outputs.len()
        invariant
            k <= req.outputs.len(),
            outputs.len() == k,
            forall|j: int| 0 <= j < k ==> (#[trigger] outputs@[j])@ == req.outputs@[j].name@,
        decreases req.outputs.len() - k,
    {
        outputs.push(req.outputs[k].name.clone());
        k = k + 1;
    }
    proof {
        assert(views(outputs@) =~= output_names(*req));
    }
    Ok(InferRequest { id: req.id.clone(), parameters: params_from(&req.parameters), inputs, outputs })
}

/// Whether contents are those of the data, with every other field empty.
pub open spec fn contents_hold(c: InferTensorContents, d: DataView) -> bool {
    &&& byte_views(c.bytes_contents@) == (match d {
        DataView::Bytes(v) => v,
        _ => Seq::empty(),
    })
    &&& c.fp32_contents@ == (match d {
        DataView::Fp32(v) => v,
        _ => Seq::empty(),
    })
    &&& c.fp64_contents@ == (match d {
        DataView::Fp64(v) => v,
        _ => Seq::empty(),
    })
    &&& c.int_contents@ == (match d {
        DataView::Int32(v) => v,
        _ => Seq::empty(),
    })
    &&& c.int64_contents@ == (match d {
        DataView::Int64(v) => v,
        _ => Seq::empty(),
    })
    &&& c.uint_contents@ == (match d {
        DataView::Uint32(v) => v,
        _ => Seq::empty(),
    })
    &&& c.uint64_contents@ == (match d {
        DataView::Uint64(v) => v,
        _ => Seq::empty(),
    })
    &&& c.bool_contents@ == (match d {
        DataView::Bool(v) => v,
        _ => Seq::empty(),
    })
}

/// Data as a message's contents.
pub fn contents_of(data: &Data) -> (r: InferTensorContents)
    ensures
        contents_hold(r, data@),
{
    let mut c = InferTensorContents {
        bool_contents: Vec::new(),
        int_contents: Vec::new(),
        int64_contents: Vec::new(),
        uint_contents: Vec::new(),
        uint64_contents: Vec::new(),
        fp32_contents: Vec::new(),
        fp64_contents: Vec::new(),
        bytes_contents: Vec::new(),
    };
    proof {
        assert(c.bool_contents@ =~= Seq::empty());
        assert(c.int_contents@ =~= Seq::empty());
        assert(c.int64_contents@ =~= Seq::empty());
        assert(c.uint_contents@ =~= Seq::empty());
        assert(c.uint64_contents@ =~= Seq::empty());
        assert(c.fp32_contents@ =~= Seq::empty());
        assert(c.fp64_contents@ =~= Seq::empty());
        assert(byte_views(c.bytes_contents@) =~= Seq::empty());
    }
    match data {
        Data::Bytes(v) => {
            c.bytes_contents = copy_strings(v);
        },
        Data::Fp32(v) => {
            c.fp32_contents = copy(v);
        },
        Data::Fp64(v) => {
            c.fp64_contents = copy(v);
        },
        Data::Int32(v) => {
            c.int_contents = copy(v);
        },
        Data::Int64(v) => {
            c.int64_contents = copy(v);
        },
        Data::Uint32(v) => {
            c.uint_contents = copy(v);
        },
        Data::Uint64(v) => {
            c.uint64_contents = copy(v);
        },
        Data::Bool(v) => {
            c.bool_contents = copy(v);
        },
    }
    c
}

/// Data that goes out as contents and comes back under its datatype is the same.
pub proof fn contents_read_back(name: Seq<char>, d: Data, c: InferTensorContents)
    requires
        contents_hold(c, d@),
    ensures
        typed_data(name, crate::oip::data_type(d), c) == Ok::<DataView, ErrorView>(d@),
{
    reveal_strlit("BYTES");
    reveal_strlit("FP32");
    reveal_strlit("FP64");
    reveal_strlit("INT32");
    reveal_strlit("INT16");
    reveal_strlit("INT8");
    reveal_strlit("INT64");
    reveal_strlit("UINT32");
    reveal_strlit("UINT16");
    reveal_strlit("UINT8");
    reveal_strlit("UINT64");
    reveal_strlit("BOOL");
    assert("FP32"@[2] == '3' && "FP64"@[2] == '6' && "BOOL"@[0] == 'B' && "FP32"@[0] == 'F');
    assert("INT32"@[3] == '3' && "INT64"@[3] == '6' && "INT16"@[3] == '1' && "BYTES"@[0] == 'B');
    assert("UINT32"@[4] == '3' && "UINT64"@[4] == '6' && "UINT16"@[4] == '1');
    assert("UINT8"@[0] == 'U' && "INT64"@[0] == 'I' && "FP64"@[0] == 'F' && "INT8"@[0] == 'I');
}

/// Check the version that a call names: none, or the one that the server has.
pub fn check_version(v: &str) -> (r: Result<(), Error>)
    ensures
        if v@.len() == 0 || v@ == MODEL_VERSION@ {
            r is Ok
        } else {
            r is Err && r->Err_0@ == plain(
                Class::NotFound,
                "model version `"@ + v@ + "` does not exist; this server serves version "@
                    + MODEL_VERSION@,
            )
        },
{
    if v.is_empty() || same(v, MODEL_VERSION) {
        return Ok(());
    }
    Err(
        Error::plain(
            Class::NotFound,
            cat4(
                "model version `",
                v,
                "` does not exist; this server serves version ",
                MODEL_VERSION,
            ),
        ),
    )
}

/// The response of one streamed piece: its text, and the counts with the last.
pub fn piece_response(model: &str, id: &str, p: &Piece) -> (r: InferResponse)
    ensures
        r.model_name@ == model@,
        r.model_version@ == MODEL_VERSION@,
        r.id@ == id@,
        params_view(r.parameters@) == (if p.done {
            generation_parameters(
                finish_text(p.finish_reason),
                p.prompt_tokens,
                p.generated_tokens,
            )
        } else {
            Seq::empty()
        }),
        tensor_views(r.outputs@) == seq![text_view(p.text@)],
{
    let parameters: Params = if p.done {
        ended(finish_text_of(p.finish_reason), p.prompt_tokens, p.generated_tokens)
    } else {
        Vec::new()
    };
    let mut outputs: Vec<Tensor> = Vec::new();
    outputs.push(text_tensor(p.text.as_str()));
    proof {
        if !p.done {
            assert(params_view(parameters@) =~= Seq::empty());
        }
        assert(tensor_views(outputs@) =~= seq![text_view(p.text@)]);
    }
    InferResponse {
        model_name: model.to_owned(),
        model_version: MODEL_VERSION.to_owned(),
        id: id.to_owned(),
        parameters,
        outputs,
    }
}

/// An output tensor of a message.
#[derive(Debug)]
pub struct InferOutputTensor {
    pub name: String,
    pub datatype: String,
    pub shape: Vec<i64>,
    pub parameters: Parameters,
    pub contents: InferTensorContents,
}

/// Whether a message's output is that of a tensor.
pub open spec fn output_holds(o: InferOutputTensor, t: TensorView) -> bool {
    &&& o.name@ == t.name
    &&& o.datatype@ == t.datatype
    &&& o.shape@ == t.shape
    &&& message_params(t.parameters, o.parameters@)
    &&& contents_hold(o.contents, t.data)
}

/// A response as a message.
#[derive(Debug)]
pub struct ModelInferResponse {
    pub model_name: String,
    pub model_version: String,
    pub id: String,
    pub parameters: Parameters,
    pub outputs: Vec<InferOutputTensor>,
    pub raw_output_contents: Vec<Vec<u8>>,
}

/// A response's outputs as those of a message.
fn outputs_to(outputs: &Vec<Tensor>) -> (r: Vec<InferOutputTensor>)
    ensures
        r.len() == outputs.len(),
        forall|i: int| 0 <= i < r.len() ==> output_holds(#[trigger] r@[i], outputs@[i]@),
{
    let mut out: Vec<InferOutputTensor> = Vec::new();
    let mut i: usize = 0;
    while i < outputs.len()
        invariant
            i <= outputs.len(),
            out.len() == i,
            forall|j: int| 0 <= j < i ==> output_holds(#[trigger] out@[j], outputs@[j]@),
        decreases outputs.len() - i,
    {
        let t = &outputs[i];
        let o = InferOutputTensor {
            name: t.name.clone(),
            datatype: t.datatype.clone(),
            shape: copy(&t.shape),
            parameters: params_to(&t.parameters),
            contents: contents_of(&t.data),
        };
        out.push(o);
        i = i + 1;
    }
    out
}

/// A response as a message: every element in the contents of its type, none raw.
pub fn response_to_proto(resp: &InferResponse) -> (r: ModelInferResponse)
    ensures
        r.model_name@ == resp.model_name@,
        r.model_version@ == resp.model_version@,
        r.id@ == resp.id@,
        message_params(params_view(resp.parameters@), r.parameters@),
        r.outputs.len() == resp.outputs.len(),
        forall|i: int|
            0 <= i < r.outputs.len() ==> output_holds(#[trigger] r.outputs@[i], resp.outputs@[i]@),
        r.raw_output_contents.len() == 0,
{
    ModelInferResponse {
        model_name: resp.model_name.clone(),
        model_version: resp.model_version.clone(),
        id: resp.id.clone(),
        parameters: params_to(&resp.parameters),
        outputs: outputs_to(&resp.outputs),
        raw_output_contents: Vec::new(),
    }
}

/// A served model, as the repository lists it.
#[derive(Debug)]
pub struct RepositoryModel {
    pub name: String,
    pub bundle: String,
    pub provider: String,
    pub device: String,
    pub kind: ModelKind,
}

/// An entry of the repository's index.
#[derive(Debug)]
pub struct ModelIndex {
    pub name: String,
    pub version: String,
    pub state: String,
    pub reason: String,
    pub bundle: String,
    pub provider: String,
    pub device: String,
    pub kind: String,
}

/// Whether an entry is that of a model.
pub open spec fn indexes(e: ModelIndex, m: RepositoryModel) -> bool {
    &&& e.name@ == m.name@
    &&& e.version@ == MODEL_VERSION@
    &&& e.state@ == "READY"@
    &&& e.reason@ == Seq::<char>::empty()
    &&& e.bundle@ == m.bundle@
    &&& e.provider@ == m.provider@
    &&& e.device@ == m.device@
    &&& e.kind@ == kind_text(m.kind)
}

/// The repository's index: every model that is served is ready.
pub fn repository_index(models: Vec<RepositoryModel>) -> (r: Vec<ModelIndex>)
    ensures
        r.len() == models.len(),
        forall|i: int| 0 <= i < r.len() ==> indexes(#[trigger] r@[i], models@[i]),
{
    let mut out: Vec<ModelIndex> = Vec::new();
    let mut i: usize = 0;
    while i < models.len()
        invariant
            i <= models.len(),
            out.len() == i,
            forall|j: int| 0 <= j < i ==> indexes(#[trigger] out@[j], models@[j]),
        decreases models.len() - i,
    {
        let m = &models[i];
        out.push(
            ModelIndex {
                name: m.name.clone(),
                version: MODEL_VERSION.to_owned(),
                state: "READY".to_owned(),
                reason: String::new(),
                bundle: m.bundle.clone(),
                provider: m.provider.clone(),
                device: m.device.clone(),
                kind: m.kind.text().to_owned(),
            },
        );
        i = i + 1;
    }
    out
}

/// The name that a model is asked to be loaded under; an empty one is none.
pub fn requested_name(name: &str) -> (r: Option<String>)
    ensures
        opt_view(r) == (if name@.len() == 0 {
            None
        } else {
            Some(name@)
        }),
{
    if name.is_empty() {
        None
    } else {
        Some(name.to_owned())
    }
}

/// A parameter that is set has its value, and every other keeps its own.
pub proof fn setting_a_parameter_sets_just_it(
    p: Seq<(Seq<char>, ParamView)>,
    name: Seq<char>,
    v: ParamView,
    i: int,
)
    requires
        0 <= i <= p.len(),
        names_ordered(p),
        forall|k: int| 0 <= k < i ==> (#[trigger] p[k]).0 != name,
    ensures
        with_param(p, name, v, i).contains((name, v)),
        forall|x: (Seq<char>, ParamView)|
            x.0 != name ==> (#[trigger] with_param(p, name, v, i).contains(x) <==> p.contains(x)),
        forall|w: ParamView| w != v ==> !#[trigger] with_param(p, name, v, i).contains((name, w)),
    decreases p.len() - i,
{
    let r = with_param(p, name, v, i);
    if i >= p.len() {
        assert(r[p.len() as int] == (name, v));
        assert forall|x: (Seq<char>, ParamView)| x.0 != name implies (#[trigger] r.contains(x) <==> p.contains(x)) by {
            if p.contains(x) {
                let k = choose|k: int| 0 <= k < p.len() && p[k] == x;
                assert(r[k] == x);
            }
            if r.contains(x) {
                let k = choose|k: int| 0 <= k < r.len() && r[k] == x;
                assert(p[k] == x);
            }
        }
        assert forall|w: ParamView| w != v implies !#[trigger] r.contains((name, w)) by {
            if r.contains((name, w)) {
                let k = choose|k: int| 0 <= k < r.len() && r[k] == (name, w);
                assert(p[k].0 == name);
            }
        }
    } else if p[i].0 == name {
        assert(r[i] == (name, v));
        assert forall|x: (Seq<char>, ParamView)| x.0 != name implies (#[trigger] r.contains(x) <==> p.contains(x)) by {
            if p.contains(x) {
                let k = choose|k: int| 0 <= k < p.len() && p[k] == x;
                assert(r[k] == x);
            }
            if r.contains(x) {
                let k = choose|k: int| 0 <= k < r.len() && r[k] == x;
                assert(p[k] == x);
            }
        }
        assert forall|w: ParamView| w != v implies !#[trigger] r.contains((name, w)) by {
            if r.contains((name, w)) {
                let k = choose|k: int| 0 <= k < r.len() && r[k] == (name, w);
                if k < i {
                    assert(p[k].0 != p[i].0);
                } else if k > i {
                    assert(p[i].0 != p[k].0);
                }
            }
        }
    } else if lex_le(name, p[i].0) {
        assert(r[i] == (name, v));
        assert forall|x: (Seq<char>, ParamView)| x.0 != name implies (#[trigger] r.contains(x) <==> p.contains(x)) by {
            if p.contains(x) {
                let k = choose|k: int| 0 <= k < p.len() && p[k] == x;
                if k < i {
                    assert(r[k] == x);
                } else {
                    assert(r[k + 1] == x);
                }
            }
            if r.contains(x) {
                let k = choose|k: int| 0 <= k < r.len() && r[k] == x;
                if k < i {
                    assert(p[k] == x);
                } else {
                    assert(p[k - 1] == x);
                }
            }
        }
        assert forall|w: ParamView| w != v implies !#[trigger] r.contains((name, w)) by {
            if r.contains((name, w)) {
                let k = choose|k: int| 0 <= k < r.len() && r[k] == (name, w);
                if k < i {
                    assert(p[k].0 == name);
                } else {
                    assert(p[k - 1].0 == name);
                    if k - 1 > i {
                        assert(lex_le(p[i].0, p[k - 1].0) && p[i].0 != p[k - 1].0);
                        crate::order::lex_antisymmetric(p[i].0, name);
                    }
                }
            }
        }
    } else {
        setting_a_parameter_sets_just_it(p, name, v, i + 1);
    }
}

/// Raw contents are read as their datatype says, and hold as many elements as the shape.
pub proof fn raw_contents_are_read_as_their_datatype(
    name: Seq<char>,
    datatype: Seq<char>,
    raw: Seq<u8>,
    elements: i64,
)
    requires
        raw_data(name, datatype, raw, elements) is Ok,
        elements >= 0,
    ensures
        ({
            let d = raw_data(name, datatype, raw, elements)->Ok_0;
            &&& d is Fp32 <==> datatype == "FP32"@
            &&& d is Fp64 <==> datatype == "FP64"@
            &&& d is Int32 <==> datatype == "INT32"@
            &&& d is Int64 <==> datatype == "INT64"@
            &&& d is Uint32 <==> datatype == "UINT32"@
            &&& d is Uint64 <==> datatype == "UINT64"@
            &&& d is Bool <==> datatype == "BOOL"@
            &&& d is Bytes <==> datatype == "BYTES"@
            &&& d is Fp32 || d is Int32 || d is Uint32 ==> raw.len() == 4 * elements
            &&& d is Fp64 || d is Int64 || d is Uint64 ==> raw.len() == 8 * elements
            &&& d matches DataView::Fp32(v) ==> v == as_words32(unpacked(raw, 4))
            &&& d matches DataView::Uint32(v) ==> v == as_words32(unpacked(raw, 4))
            &&& d matches DataView::Int32(v) ==> v == as_signed32(unpacked(raw, 4))
            &&& d matches DataView::Fp64(v) ==> v == unpacked(raw, 8)
            &&& d matches DataView::Uint64(v) ==> v == unpacked(raw, 8)
            &&& d matches DataView::Int64(v) ==> v == as_signed64(unpacked(raw, 8))
            &&& d matches DataView::Bytes(v) ==> v.len() == elements
        }),
{
    datatype_words_differ();
    assert(elements * 4 == 4 * elements && elements * 8 == 8 * elements);
}

/// The names of the datatypes are told apart by their lengths and letters.
proof fn datatype_words_differ()
    ensures
        "FP32"@.len() == 4 && "FP32"@[0] == 'F' && "FP32"@[2] == '3',
        "FP64"@.len() == 4 && "FP64"@[0] == 'F' && "FP64"@[2] == '6',
        "INT32"@.len() == 5 && "INT32"@[0] == 'I' && "INT32"@[3] == '3',
        "INT64"@.len() == 5 && "INT64"@[0] == 'I' && "INT64"@[3] == '6',
        "INT16"@.len() == 5 && "INT16"@[0] == 'I' && "INT16"@[3] == '1',
        "INT8"@.len() == 4 && "INT8"@[0] == 'I',
        "UINT32"@.len() == 6 && "UINT32"@[4] == '3',
        "UINT64"@.len() == 6 && "UINT64"@[4] == '6',
        "UINT16"@.len() == 6 && "UINT16"@[4] == '1',
        "UINT8"@.len() == 5 && "UINT8"@[0] == 'U',
        "BOOL"@.len() == 4 && "BOOL"@[0] == 'B',
        "BYTES"@.len() == 5 && "BYTES"@[0] == 'B',
{
    reveal_strlit("FP32");
    reveal_strlit("FP64");
    reveal_strlit("INT32");
    reveal_strlit("INT64");
    reveal_strlit("INT16");
    reveal_strlit("INT8");
    reveal_strlit("UINT32");
    reveal_strlit("UINT64");
    reveal_strlit("UINT16");
    reveal_strlit("UINT8");
    reveal_strlit("BOOL");
    reveal_strlit("BYTES");
}

/// Typed contents are those of the field of their datatype.
pub proof fn typed_contents_are_those_of_their_field(name: Seq<char>, datatype: Seq<char>, c: InferTensorContents)
    ensures
        ({
            let d = typed_data(name, datatype, c);
            &&& datatype == "BYTES"@ ==> d == Ok::<DataView, ErrorView>(
                DataView::Bytes(byte_views(c.bytes_contents@)),
            )
            &&& datatype == "FP32"@ ==> d == Ok::<DataView, ErrorView>(DataView::Fp32(c.fp32_contents@))
            &&& datatype == "FP64"@ ==> d == Ok::<DataView, ErrorView>(DataView::Fp64(c.fp64_contents@))
            &&& datatype == "INT32"@ || datatype == "INT16"@ || datatype == "INT8"@ ==> d == Ok::<
                DataView,
                ErrorView,
            >(DataView::Int32(c.int_contents@))
            &&& datatype == "INT64"@ ==> d == Ok::<DataView, ErrorView>(DataView::Int64(c.int64_contents@))
            &&& datatype == "UINT32"@ || datatype == "UINT16"@ || datatype == "UINT8"@ ==> d == Ok::<
                DataView,
                ErrorView,
            >(DataView::Uint32(c.uint_contents@))
            &&& datatype == "UINT64"@ ==> d == Ok::<DataView, ErrorView>(DataView::Uint64(c.uint64_contents@))
            &&& datatype == "BOOL"@ ==> d == Ok::<DataView, ErrorView>(DataView::Bool(c.bool_contents@))
        }),
{
    datatype_words_differ();
}

/// The tensors of a request are its inputs in their order, each with its own raw
/// contents where there are any.
pub proof fn tensors_are_the_inputs_in_order(req: ModelInferRequest, n: int)
    requires
        0 <= n <= req.inputs.len(),
        tensors_of(req, n) is Ok,
    ensures
        ({
            let v = tensors_of(req, n)->Ok_0;
            &&& v.len() == n
            &&& forall|i: int|
                0 <= i < n ==> (#[trigger] v[i]).name == req.inputs@[i].name@ && v[i].datatype
                    == req.inputs@[i].datatype@ && v[i].shape == req.inputs@[i].shape@
            &&& forall|i: int|
                0 <= i < n ==> data_of(
                    req.inputs@[i],
                    if i < req.raw_input_contents.len() {
                        Some(req.raw_input_contents@[i]@)
                    } else {
                        None
                    },
                ) == Ok::<DataView, ErrorView>((#[trigger] v[i]).data)
        }),
    decreases n,
{
    if n > 0 {
        tensors_are_the_inputs_in_order(req, n - 1);
        let a = tensors_of(req, n - 1)->Ok_0;
        let v = tensors_of(req, n)->Ok_0;
        assert forall|i: int| 0 <= i < n - 1 implies #[trigger] v[i] == a[i] by {}
        assert(tensor_of(req.inputs@[n - 1], raw_at(req, n - 1)) is Ok);
    }
}

/// An input has contents of one sort: raw or typed, not both and not neither.
pub proof fn an_input_has_contents_of_one_sort(t: InferInputTensor, raw: Option<Seq<u8>>)
    requires
        data_of(t, raw) is Ok,
    ensures
        raw is Some <==> t.contents is None,
{
}

/// Raw contents come with all inputs or with none.
pub proof fn raw_contents_come_with_all_inputs(req: ModelInferRequest)
    ensures
        raw_count_fault(req) is None <==> req.raw_input_contents.len() == 0
            || req.raw_input_contents.len() == req.inputs.len(),
        raw_count_fault(req) matches Some(e) ==> e.class == Class::BadRequest,
{
}

/// The index tells of a model its own names and kind, version 1, and that it is ready
/// for no particular reason.
pub proof fn the_index_tells_of_its_model(e: ModelIndex, m: RepositoryModel)
    requires
        indexes(e, m),
    ensures
        e.name@ == m.name@ && e.bundle@ == m.bundle@ && e.provider@ == m.provider@ && e.device@
            == m.device@,
        e.version@ == "1"@ && e.state@ == "READY"@ && e.reason@.len() == 0,
        e.kind@ == "Embedding"@ <==> m.kind == ModelKind::Embedding,
        e.kind@ == "Reranker"@ <==> m.kind == ModelKind::Reranker,
        e.kind@ == "Classifier"@ <==> m.kind == ModelKind::Classifier,
        e.kind@ == "TokenClassifier"@ <==> m.kind == ModelKind::TokenClassifier,
        e.kind@ == "Generative"@ <==> m.kind == ModelKind::Generative,
        e.kind@ == "Generic"@ <==> m.kind == ModelKind::Generic,
{
    crate::types::values_are_told_by_their_own_names(
        m.kind,
        crate::types::Task::Run,
        crate::types::Placement::Host,
        crate::types::DType::F32,
    );
}

} // verus!

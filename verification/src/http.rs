//! The HTTP surface: the REST binding of the Open Inference Protocol, the
//! OpenAI-shaped routes, and what `/info` tells. JSON is read and written outside;
//! here stand its values.

use vstd::prelude::*;
use vstd::utf8::{
    encode_utf8, encode_utf8_valid_utf8, is_char_boundary, is_char_boundary_iff_not_is_continuation_byte,
    is_char_boundary_start_end_of_seq,
};
use crate::answer::{params_view, tensor_views, ParamView, TensorView};
use crate::convert::bytes_of;
use crate::engine::{
    aggregation_value, normalize_value, parse_aggregation, parse_normalize, parse_prompt_role,
    parse_truncate, prompt_role_value, truncate_value, piece_text, Piece,
};
use crate::error::{agrees_plain, on_field, plain, Class, Error, ErrorView, Field};
use crate::ggml::FinishReason;
use crate::infer::Real;
use crate::oip::{
    byte_views, pooling_text, pooling_text_of, Data, DataView, Generate, GenerateView, InferRequest, Number,
    Param, Params, Tensor, MODEL_VERSION,
};
use crate::text::{
    cat3, cat4, cat5, cat6, copy_all, decimal, decimal_of, opt_view, same, views,
};
use crate::rank::{is_ranking, ranking};
use crate::serve::pair_views;
use crate::types::{
    classify_defaults, embed_defaults, kind_text, rerank_defaults, ClassifyOptions, EmbedOptions, ModelKind,
    Pooling, RerankOptions,
};

verus! {

/// Extensions that the REST binding offers beyond the core protocol.
pub fn rest_extensions() -> (r: Vec<String>)
    ensures
        views(r@) == seq!["turbo_parameters"@, "turbo_stream_infer"@, "turbo_model_repository"@],
{
    let mut v = crate::oip::extensions();
    let ghost first = views(v@);
    v.push("turbo_stream_infer".to_owned());
    v.push("turbo_model_repository".to_owned());
    proof {
        assert(views(v@) =~= first.push("turbo_stream_infer"@).push("turbo_model_repository"@));
        assert(views(v@) =~= seq![
            "turbo_parameters"@,
            "turbo_stream_infer"@,
            "turbo_model_repository"@,
        ]);
    }
    v
}

/// Check the version that a path names.
pub fn check_version(v: &str) -> (r: Result<(), Error>)
    ensures
        if v@ == MODEL_VERSION@ {
            r is Ok
        } else {
            r is Err && r->Err_0@ == plain(
                Class::NotFound,
                "model version `"@ + v@ + "` does not exist; this server serves version "@
                    + MODEL_VERSION@,
            )
        },
{
    if same(v, MODEL_VERSION) {
        return Ok(());
    }
    Err(
        Error::plain(
            Class::NotFound,
            cat4(
                "model version `",
                v,
                "` does not exist; this server serves version ",
                MODEL_VERSION,
            ),
        ),
    )
}

/// A JSON value among parameters.
#[derive(Debug)]
pub enum JsonValue {
    Bool(bool),
    /// A number that an `i64` holds.
    Int(i64),
    /// A number that only a `u64` holds.
    Uint(u64),
    /// Any other number.
    Double(Real),
    Text(String),
    /// Anything else, as it is shown.
    Other(String),
}

/// The first `n` JSON values as parameters, or the first refusal.
pub open spec fn json_params_of(map: Seq<(String, JsonValue)>, n: int) -> Result<
    Seq<(Seq<char>, ParamView)>,
    ErrorView,
>
    decreases n,
{
    if n <= 0 {
        Ok(Seq::empty())
    } else {
        match json_params_of(map, n - 1) {
            Err(e) => Err(e),
            Ok(out) => {
                let k = map[n - 1].0@;
                match map[n - 1].1 {
                    JsonValue::Bool(b) => Ok(out.push((k, ParamView::Bool(b)))),
                    JsonValue::Int(i) => Ok(out.push((k, ParamView::Int(i)))),
                    JsonValue::Uint(u) => Ok(out.push((k, ParamView::Uint(u)))),
                    JsonValue::Double(d) => Ok(out.push((k, ParamView::Double(d@)))),
                    JsonValue::Text(s) => Ok(out.push((k, ParamView::Str(s@)))),
                    JsonValue::Other(shown) => Err(
                        plain(
                            Class::BadRequest,
                            "parameter `"@ + k + "` must be a boolean, number or string, not "@
                                + shown@,
                        ),
                    ),
                }
            },
        }
    }
}

/// A refused value decides the whole.
proof fn json_refusal_stays(map: Seq<(String, JsonValue)>, i: int, n: int)
    requires
        0 <= i <= n,
    ensures
        json_params_of(map, i) is Err ==> json_params_of(map, n) == json_params_of(map, i),
    decreases n,
{
    if i < n {
        json_refusal_stays(map, i, n - 1);
    }
}

/// JSON values as parameters; `map` is in name order, each name once.
pub fn params_from_json(map: &Vec<(String, JsonValue)>) -> (r: Result<Params, Error>)
    ensures
        match json_params_of(map@, map.len() as int) {
            Ok(v) => r is Ok && params_view(r->Ok_0@) == v,
            Err(e) => r is Err && r->Err_0@ == e,
        },
{
    let mut out: Params = Vec::new();
    let mut i: usize = 0;
    proof {
        assert(params_view(out@) =~= Seq::empty());
    }
    while i < map.len()
        invariant
            i <= map.len(),
            json_params_of(map@, i as int) == Ok::<Seq<(Seq<char>, ParamView)>, ErrorView>(
                params_view(out@),
            ),
        decreases map.len() - i,
    {
        proof {
            json_refusal_stays(map@, i + 1, map.len() as int);
        }
        let k = map[i].0.as_str();
        let p = match &map[i].1 {
            JsonValue::Bool(b) => Param::Bool(*b),
            JsonValue::Int(n) => Param::Int(*n),
            JsonValue::Uint(u) => Param::Uint(*u),
            JsonValue::Double(d) => Param::Double(
                Real { bits: d.bits, shown: d.shown.clone(), debug: d.debug.clone() },
            ),
            JsonValue::Text(s) => Param::Str(s.clone()),
            JsonValue::Other(shown) => return Err(
                Error::plain(
                    Class::BadRequest,
                    cat4(
                        "parameter `",
                        k,
                        "` must be a boolean, number or string, not ",
                        shown.as_str(),
                    ),
                ),
            ),
        };
        let ghost before = params_view(out@);
        let ghost seen = p@;
        out.push((k.to_owned(), p));
        proof {
            assert(params_view(out@) =~= before.push((k@, seen)));
        }
        i = i + 1;
    }
    Ok(out)
}

/// What a JSON element reads as: as a text, an `i64`, a `u64`, a flag, and by their
/// bits as a double- and a single-precision number.
#[derive(Debug)]
pub struct JsonElement {
    pub text: Option<String>,
    pub int: Option<i64>,
    pub uint: Option<u64>,
    pub flag: Option<bool>,
    pub double: Option<u64>,
    pub single: Option<u32>,
}

/// The refusal of an element that does not read as its datatype.
pub open spec fn element_fault(name: Seq<char>, i: int, what: Seq<char>) -> ErrorView {
    plain(
        Class::BadRequest,
        "input `"@ + name + "`: data["@ + decimal(i as nat) + "] is not "@ + what,
    )
}

/// The refusal of an element that does not read as its datatype.
fn bad(name: &str, i: usize, what: &str) -> (r: Error)
    ensures
        r@ == element_fault(name@, i as int, what@),
{
    Error::plain(
        Class::BadRequest,
        cat6("input `", name, "`: data[", decimal_of(i as u128).as_str(), "] is not ", what),
    )
}

/// Whether a datatype is a signed one of 32 bits or fewer.
pub open spec fn is_signed(d: Seq<char>) -> bool {
    d == "INT32"@ || d == "INT16"@ || d == "INT8"@
}

/// Whether a datatype is an unsigned one of 32 bits or fewer.
pub open spec fn is_unsigned(d: Seq<char>) -> bool {
    d == "UINT32"@ || d == "UINT16"@ || d == "UINT8"@
}

/// No elements of a datatype, or the refusal of one that is not carried.
pub open spec fn no_data(name: Seq<char>, d: Seq<char>) -> Result<DataView, ErrorView> {
    if d == "BYTES"@ {
        Ok(DataView::Bytes(Seq::empty()))
    } else if d == "FP32"@ {
        Ok(DataView::Fp32(Seq::empty()))
    } else if d == "FP64"@ {
        Ok(DataView::Fp64(Seq::empty()))
    } else if is_signed(d) {
        Ok(DataView::Int32(Seq::empty()))
    } else if d == "INT64"@ {
        Ok(DataView::Int64(Seq::empty()))
    } else if is_unsigned(d) {
        Ok(DataView::Uint32(Seq::empty()))
    } else if d == "UINT64"@ {
        Ok(DataView::Uint64(Seq::empty()))
    } else if d == "BOOL"@ {
        Ok(DataView::Bool(Seq::empty()))
    } else {
        Err(
            plain(
                Class::BadRequest,
                "input `"@ + name + "`: datatype `"@ + d + "` is not carried by the JSON binding"@,
            ),
        )
    }
}

/// The contents with one more element, or its refusal.
pub open spec fn with_element(name: Seq<char>, had: DataView, e: JsonElement, i: int) -> Result<
    DataView,
    ErrorView,
> {
    match had {
        DataView::Bytes(v) => match e.text {
            Some(s) => Ok(DataView::Bytes(v.push(encode_utf8(s@)))),
            None => Err(element_fault(name, i, "a string"@)),
        },
        DataView::Fp32(v) => match e.single {
            Some(b) => Ok(DataView::Fp32(v.push(b))),
            None => Err(element_fault(name, i, "a number"@)),
        },
        DataView::Fp64(v) => match e.double {
            Some(b) => Ok(DataView::Fp64(v.push(b))),
            None => Err(element_fault(name, i, "a number"@)),
        },
        DataView::Int32(v) => match e.int {
            Some(n) => if i32::MIN <= n <= i32::MAX {
                Ok(DataView::Int32(v.push(n as i32)))
            } else {
                Err(element_fault(name, i, "a 32-bit integer"@))
            },
            None => Err(element_fault(name, i, "a 32-bit integer"@)),
        },
        DataView::Int64(v) => match e.int {
            Some(n) => Ok(DataView::Int64(v.push(n))),
            None => Err(element_fault(name, i, "an integer"@)),
        },
        DataView::Uint32(v) => match e.uint {
            Some(n) => if n <= u32::MAX {
                Ok(DataView::Uint32(v.push(n as u32)))
            } else {
                Err(element_fault(name, i, "a 32-bit unsigned integer"@))
            },
            None => Err(element_fault(name, i, "a 32-bit unsigned integer"@)),
        },
        DataView::Uint64(v) => match e.uint {
            Some(n) => Ok(DataView::Uint64(v.push(n))),
            None => Err(element_fault(name, i, "an unsigned integer"@)),
        },
        DataView::Bool(v) => match e.flag {
            Some(b) => Ok(DataView::Bool(v.push(b))),
            None => Err(element_fault(name, i, "a boolean"@)),
        },
    }
}

/// The first `n` elements as contents of a datatype, or the first refusal.
pub open spec fn json_data_of(name: Seq<char>, d: Seq<char>, data: Seq<JsonElement>, n: int) -> Result<
    DataView,
    ErrorView,
>
    decreases n,
{
    if n <= 0 {
        no_data(name, d)
    } else {
        match json_data_of(name, d, data, n - 1) {
            Err(e) => Err(e),
            Ok(had) => with_element(name, had, data[n - 1], n - 1),
        }
    }
}

/// A refused element decides the whole.
proof fn element_refusal_stays(name: Seq<char>, d: Seq<char>, data: Seq<JsonElement>, i: int, n: int)
    requires
        0 <= i <= n,
    ensures
        json_data_of(name, d, data, i) is Err ==> json_data_of(name, d, data, n) == json_data_of(
            name,
            d,
            data,
            i,
        ),
    decreases n,
{
    if i < n {
        element_refusal_stays(name, d, data, i, n - 1);
    }
}

/// No elements of a datatype.
fn empty_data(name: &str, d: &str) -> (r: Result<Data, Error>)
    ensures
        match no_data(name@, d@) {
            Ok(v) => r is Ok && r->Ok_0@ == v,
            Err(e) => r is Err && r->Err_0@ == e,
        },
{
    if same(d, "BYTES") {
        let v: Vec<Vec<u8>> = Vec::new();
        proof {
            assert(byte_views(v@) =~= Seq::empty());
        }
        Ok(Data::Bytes(v))
    } else if same(d, "FP32") {
        let v: Vec<u32> = Vec::new();
        proof {
            assert(v@ =~= Seq::empty());
        }
        Ok(Data::Fp32(v))
    } else if same(d, "FP64") {
        let v: Vec<u64> = Vec::new();
        proof {
            assert(v@ =~= Seq::empty());
        }
        Ok(Data::Fp64(v))
    } else if same(d, "INT32") || same(d, "INT16") || same(d, "INT8") {
        let v: Vec<i32> = Vec::new();
        proof {
            assert(v@ =~= Seq::empty());
        }
        Ok(Data::Int32(v))
    } else if same(d, "INT64") {
        let v: Vec<i64> = Vec::new();
        proof {
            assert(v@ =~= Seq::empty());
        }
        Ok(Data::Int64(v))
    } else if same(d, "UINT32") || same(d, "UINT16") || same(d, "UINT8") {
        let v: Vec<u32> = Vec::new();
        proof {
            assert(v@ =~= Seq::empty());
        }
        Ok(Data::Uint32(v))
    } else if same(d, "UINT64") {
        let v: Vec<u64> = Vec::new();
        proof {
            assert(v@ =~= Seq::empty());
        }
        Ok(Data::Uint64(v))
    } else if same(d, "BOOL") {
        let v: Vec<bool> = Vec::new();
        proof {
            assert(v@ =~= Seq::empty());
        }
        Ok(Data::Bool(v))
    } else {
        Err(
            Error::plain(
                Class::BadRequest,
                cat5(
                    "input `",
                    name,
                    "`: datatype `",
                    d,
                    "` is not carried by the JSON binding",
                ),
            ),
        )
    }
}

/// Add one element to contents.
fn add_element(name: &str, data: Data, e: &JsonElement, i: usize) -> (r: Result<Data, Error>)
    ensures
        match with_element(name@, data@, *e, i as int) {
            Ok(v) => r is Ok && r->Ok_0@ == v,
            Err(e) => r is Err && r->Err_0@ == e,
        },
{
    match data {
        Data::Bytes(v) => match &e.text {
            Some(s) => {
                let ghost before = byte_views(v@);
                let mut v = v;
                v.push(bytes_of(s.as_str()));
                proof {
                    assert(byte_views(v@) =~= before.push(encode_utf8(s@)));
                }
                Ok(Data::Bytes(v))
            },
            None => Err(bad(name, i, "a string")),
        },
        Data::Fp32(v) => match e.single {
            Some(b) => {
                let mut v = v;
                v.push(b);
                Ok(Data::Fp32(v))
            },
            None => Err(bad(name, i, "a number")),
        },
        Data::Fp64(v) => match e.double {
            Some(b) => {
                let mut v = v;
                v.push(b);
                Ok(Data::Fp64(v))
            },
            None => Err(bad(name, i, "a number")),
        },
        Data::Int32(v) => match e.int {
            Some(n) => if n >= -0x8000_0000 && n <= 0x7fff_ffff {
                let mut v = v;
                v.push(n as i32);
                Ok(Data::Int32(v))
            } else {
                Err(bad(name, i, "a 32-bit integer"))
            },
            None => Err(bad(name, i, "a 32-bit integer")),
        },
        Data::Int64(v) => match e.int {
            Some(n) => {
                let mut v = v;
                v.push(n);
                Ok(Data::Int64(v))
            },
            None => Err(bad(name, i, "an integer")),
        },
        Data::Uint32(v) => match e.uint {
            Some(n) => if n <= 0xffff_ffff {
                let mut v = v;
                v.push(n as u32);
                Ok(Data::Uint32(v))
            } else {
                Err(bad(name, i, "a 32-bit unsigned integer"))
            },
            None => Err(bad(name, i, "a 32-bit unsigned integer")),
        },
        Data::Uint64(v) => match e.uint {
            Some(n) => {
                let mut v = v;
                v.push(n);
                Ok(Data::Uint64(v))
            },
            None => Err(bad(name, i, "an unsigned integer")),
        },
        Data::Bool(v) => match e.flag {
            Some(b) => {
                let mut v = v;
                v.push(b);
                Ok(Data::Bool(v))
            },
            None => Err(bad(name, i, "a boolean")),
        },
    }
}

/// JSON `data` as typed contents of the declared datatype. A `BYTES` element is a
/// JSON string.
pub fn data_from_json(name: &str, datatype: &str, data: &Vec<JsonElement>) -> (r: Result<Data, Error>)
    ensures
        match json_data_of(name@, datatype@, data@, data.len() as int) {
            Ok(v) => r is Ok && r->Ok_0@ == v,
            Err(e) => r is Err && r->Err_0@ == e,
        },
{
    proof {
        element_refusal_stays(name@, datatype@, data@, 0, data.len() as int);
    }
    let mut out = match empty_data(name, datatype) {
        Err(e) => return Err(e),
        Ok(d) => d,
    };
    let mut i: usize = 0;
    while i < data.len()
        invariant
            i <= data.len(),
            json_data_of(name@, datatype@, data@, i as int) == Ok::<DataView, ErrorView>(out@),
        decreases data.len() - i,
    {
        proof {
            element_refusal_stays(name@, datatype@, data@, i + 1, data.len() as int);
        }
        out = match add_element(name, out, &data[i], i) {
            Err(e) => return Err(e),
            Ok(d) => d,
        };
        i = i + 1;
    }
    Ok(out)
}

/// The shape of an input: its own, or the number of its elements where it has none.
pub open spec fn shape_or_length(shape: Seq<i64>, elements: nat) -> Seq<i64> {
    if shape.len() == 0 {
        seq![elements as i64]
    } else {
        shape
    }
}

/// The extents of a JSON tensor: those that it gives, or one of its elements where
/// it gives none.
pub fn json_shape(shape: &Vec<i64>, elements: usize) -> (r: Vec<i64>)
    requires
        elements <= i64::MAX,
    ensures
        r@ == shape_or_length(shape@, elements as nat),
{
    let mut out: Vec<i64> = Vec::new();
    if shape.len() == 0 {
        out.push(elements as i64);
        proof {
            assert(out@ =~= seq![elements as i64]);
        }
        return out;
    }
    let mut i: usize = 0;
    while i < shape.len()
        invariant
            i <= shape.len(),
            out@ == shape@.take(i as int),
        decreases shape.len() - i,
    {
        out.push(shape[i]);
        i = i + 1;
        proof {
            assert(out@ =~= shape@.take(i as int));
        }
    }
    proof {
        assert(out@ =~= shape@);
    }
    out
}

/// An input of a JSON request.
#[derive(Debug)]
pub struct JsonTensor {
    pub name: String,
    pub datatype: String,
    pub shape: Vec<i64>,
    pub data: Vec<JsonElement>,
    /// In name order, each name once.
    pub parameters: Vec<(String, JsonValue)>,
}

/// A JSON inference request.
#[derive(Debug)]
pub struct JsonInferRequest {
    pub id: String,
    /// In name order, each name once.
    pub parameters: Vec<(String, JsonValue)>,
    pub inputs: Vec<JsonTensor>,
    /// The names of the outputs that are asked for.
    pub outputs: Vec<String>,
}

/// A JSON input as a tensor: its data is read before its parameters.
pub open spec fn json_tensor_of(t: JsonTensor) -> Result<TensorView, ErrorView> {
    match json_data_of(t.name@, t.datatype@, t.data@, t.data.len() as int) {
        Err(e) => Err(e),
        Ok(data) => match json_params_of(t.parameters@, t.parameters.len() as int) {
            Err(e) => Err(e),
            Ok(parameters) => Ok(
                TensorView {
                    name: t.name@,
                    datatype: t.datatype@,
                    shape: if t.shape.len() == 0 {
                        seq![t.data.len() as i64]
                    } else {
                        t.shape@
                    },
                    data,
                    parameters,
                },
            ),
        },
    }
}

/// The first `n` JSON inputs as tensors, or the first refusal.
pub open spec fn json_tensors_of(v: Seq<JsonTensor>, n: int) -> Result<Seq<TensorView>, ErrorView>
    decreases n,
{
    if n <= 0 {
        Ok(Seq::empty())
    } else {
        match json_tensors_of(v, n - 1) {
            Err(e) => Err(e),
            Ok(out) => match json_tensor_of(v[n - 1]) {
                Err(e) => Err(e),
                Ok(t) => Ok(out.push(t)),
            },
        }
    }
}

/// A refused input decides the whole.
proof fn json_tensor_refusal_stays(v: Seq<JsonTensor>, i: int, n: int)
    requires
        0 <= i <= n,
    ensures
        json_tensors_of(v, i) is Err ==> json_tensors_of(v, n) == json_tensors_of(v, i),
    decreases n,
{
    if i < n {
        json_tensor_refusal_stays(v, i, n - 1);
    }
}

/// A JSON request as the request that both bindings share.
pub fn request_from_json(req: JsonInferRequest) -> (r: Result<InferRequest, Error>)
    requires
        forall|i: int|
            0 <= i < req.inputs.len() ==> (#[trigger] req.inputs@[i]).data.len() <= i64::MAX,
    ensures
        match json_tensors_of(req.inputs@, req.inputs.len() as int) {
            Err(e) => r is Err && r->Err_0@ == e,
            Ok(v) => match json_params_of(req.parameters@, req.parameters.len() as int) {
                Err(e) => r is Err && r->Err_0@ == e,
                Ok(p) => {
                    &&& r is Ok
                    &&& r->Ok_0.id == req.id
                    &&& params_view(r->Ok_0.parameters@) == p
                    &&& tensor_views(r->Ok_0.inputs@) == v
                    &&& r->Ok_0.outputs == req.outputs
                },
            },
        },
{
    let mut inputs: Vec<Tensor> = Vec::new();
    let mut i: usize = 0;
    proof {
        assert(tensor_views(inputs@) =~= Seq::empty());
    }
    while i < req.inputs.len()
        invariant
            i <= req.inputs.len(),
            forall|j: int|
                0 <= j < req.inputs.len() ==> (#[trigger] req.inputs@[j]).data.len() <= i64::MAX,
            json_tensors_of(req.inputs@, i as int) == Ok::<Seq<TensorView>, ErrorView>(
                tensor_views(inputs@),
            ),
        decreases req.inputs.len() - i,
    {
        proof {
            json_tensor_refusal_stays(req.inputs@, i + 1, req.inputs.len() as int);
        }
        let t = &req.inputs[i];
        let shape = json_shape(&t.shape, t.data.len());
        let data = match data_from_json(t.name.as_str(), t.datatype.as_str(), &t.data) {
            Err(e) => return Err(e),
            Ok(d) => d,
        };
        let parameters = match params_from_json(&t.parameters) {
            Err(e) => return Err(e),
            Ok(p) => p,
        };
        let tensor = Tensor {
            name: t.name.clone(),
            datatype: t.datatype.clone(),
            shape,
            data,
            parameters,
        };
        let ghost before = tensor_views(inputs@);
        let ghost seen = tensor@;
        inputs.push(tensor);
        proof {
            assert(tensor_views(inputs@) =~= before.push(seen));
        }
        i = i + 1;
    }
    let parameters = match params_from_json(&req.parameters) {
        Err(e) => return Err(e),
        Ok(p) => p,
    };
    Ok(InferRequest { id: req.id, parameters, inputs, outputs: req.outputs })
}

/// An input: a text or a list of texts.
#[derive(Debug)]
pub enum Input {
    One(String),
    Many(Vec<String>),
}

impl Input {
    /// The texts.
    pub fn into_vec(self) -> (r: Vec<String>)
        ensures
            match self {
                Input::One(s) => views(r@) == seq![s@],
                Input::Many(v) => r == v,
            },
    {
        match self {
            Input::One(s) => {
                let mut v: Vec<String> = Vec::new();
                let ghost text = s@;
                v.push(s);
                proof {
                    assert(views(v@) =~= seq![text]);
                }
                v
            },
            Input::Many(v) => v,
        }
    }
}

/// Check that a model is of the kind that a route needs.
pub fn check_route(name: &str, has: ModelKind, needs: ModelKind) -> (r: Result<(), Error>)
    ensures
        if has == needs {
            r is Ok
        } else {
            r is Err && r->Err_0@ == plain(
                Class::BadRequest,
                "model `"@ + name@ + "` is "@ + kind_text(has) + "; this route needs "@ + kind_text(
                    needs,
                ),
            )
        },
{
    if has == needs {
        return Ok(());
    }
    Err(
        Error::plain(
            Class::BadRequest,
            cat6("model `", name, "` is ", has.text(), "; this route needs ", needs.text()),
        ),
    )
}

/// Which classification a model does for `/v1/classify`: whether of tokens.
pub fn classify_route(name: &str, kind: ModelKind) -> (r: Result<bool, Error>)
    ensures
        match kind {
            ModelKind::Classifier => r == Ok::<bool, Error>(false),
            ModelKind::TokenClassifier => r == Ok::<bool, Error>(true),
            _ => r is Err && r->Err_0@ == plain(
                Class::BadRequest,
                "model `"@ + name@ + "` is "@ + kind_text(kind)
                    + "; /v1/classify needs a classifier or token classifier"@,
            ),
        },
{
    match kind {
        ModelKind::Classifier => Ok(false),
        ModelKind::TokenClassifier => Ok(true),
        _ => Err(
            Error::plain(
                Class::BadRequest,
                cat5(
                    "model `",
                    name,
                    "` is ",
                    kind.text(),
                    "; /v1/classify needs a classifier or token classifier",
                ),
            ),
        ),
    }
}

/// Whether vectors go out in base64, by the format that is asked for.
pub open spec fn base64_wanted(format: Option<Seq<char>>) -> Result<bool, ErrorView> {
    match format {
        None => Ok(false),
        Some(f) => if f == "float"@ {
            Ok(false)
        } else if f == "base64"@ {
            Ok(true)
        } else {
            Err(
                plain(
                    Class::BadRequest,
                    "encoding_format `"@ + f + "` is not float or base64"@,
                ),
            )
        },
    }
}

/// Whether embeddings are asked for in base64.
pub fn wants_base64(format: &Option<String>) -> (r: Result<bool, Error>)
    ensures
        crate::error::agrees_plain(r, base64_wanted(opt_view(*format))),
{
    match format {
        None => Ok(false),
        Some(f) => if same(f.as_str(), "float") {
            Ok(false)
        } else if same(f.as_str(), "base64") {
            Ok(true)
        } else {
            Err(
                Error::plain(
                    Class::BadRequest,
                    cat3("encoding_format `", f.as_str(), "` is not float or base64"),
                ),
            )
        },
    }
}

/// The stop strings of a chat: none, one or several.
#[derive(Debug)]
pub enum Stop {
    One(String),
    Many(Vec<String>),
}

/// What a chat asks for; floating-point numbers are held by their bits.
#[derive(Debug)]
pub struct ChatRequest {
    pub max_tokens: Option<u32>,
    pub max_completion_tokens: Option<u32>,
    pub temperature: Option<u32>,
    pub top_p: Option<u32>,
    pub top_k: Option<u32>,
    pub seed: Option<u64>,
    pub stop: Option<Stop>,
    pub n: Option<u32>,
}

/// The bits of a single-precision number as a setting.
pub open spec fn single(b: Option<u32>) -> Option<Number> {
    match b {
        Some(b) => Some(Number::Single(b)),
        None => None,
    }
}

/// What a chat asks of its generation.
pub open spec fn chat_view(req: ChatRequest) -> GenerateView {
    GenerateView {
        max_new_tokens: match req.max_completion_tokens {
            Some(m) => Some(m),
            None => req.max_tokens,
        },
        min_new_tokens: None,
        temperature: single(req.temperature),
        top_p: single(req.top_p),
        top_k: req.top_k,
        repeat_penalty: None,
        seed: req.seed,
        stop: match req.stop {
            None => Seq::empty(),
            Some(Stop::One(s)) => seq![s@],
            Some(Stop::Many(v)) => views(v@),
        },
    }
}

/// The bits of a single-precision number as a setting.
fn single_of(b: Option<u32>) -> (r: Option<Number>)
    ensures
        r == single(b),
{
    match b {
        Some(b) => Some(Number::Single(b)),
        None => None,
    }
}

/// What a chat asks of its generation; only one choice is served.
pub fn chat_desc(req: &ChatRequest) -> (r: Result<Generate, Error>)
    ensures
        match req.n {
            Some(n) => n != 1 ==> r is Err && r->Err_0@ == on_field(
                Class::BadRequest,
                Field::GenerateSequences,
                "n "@ + decimal(n as nat) + " is not served; one choice per request"@,
            ),
            None => true,
        },
        (req.n is None || req.n == Some(1u32)) ==> r is Ok && r->Ok_0@ == chat_view(*req),
{
    if let Some(n) = req.n {
        if n != 1 {
            return Err(
                Error::on_field(
                    Class::BadRequest,
                    Field::GenerateSequences,
                    cat3(
                        "n ",
                        decimal_of(n as u128).as_str(),
                        " is not served; one choice per request",
                    ),
                ),
            );
        }
    }
    let stop: Vec<String> = match &req.stop {
        None => Vec::new(),
        Some(Stop::One(s)) => {
            let mut v: Vec<String> = Vec::new();
            v.push(s.clone());
            v
        },
        Some(Stop::Many(v)) => copy_all(v),
    };
    proof {
        assert(views(stop@) =~= chat_view(*req).stop);
    }
    Ok(
        Generate {
            max_new_tokens: match req.max_completion_tokens {
                Some(m) => Some(m),
                None => req.max_tokens,
            },
            min_new_tokens: None,
            temperature: single_of(req.temperature),
            top_p: single_of(req.top_p),
            top_k: req.top_k,
            repeat_penalty: None,
            seed: req.seed,
            stop,
        },
    )
}

/// Why a chat stopped, as its clients read it.
pub open spec fn finish_as(f: FinishReason) -> Seq<char> {
    match f {
        FinishReason::Eos => "stop"@,
        FinishReason::Stop => "stop"@,
        FinishReason::Length => "length"@,
        FinishReason::Cancelled => "cancelled"@,
        FinishReason::Running => "none"@,
    }
}

/// Why a chat stopped, as its clients read it.
pub fn finish_name(f: FinishReason) -> (r: &'static str)
    ensures
        r@ == finish_as(f),
{
    match f {
        FinishReason::Eos => "stop",
        FinishReason::Stop => "stop",
        FinishReason::Length => "length",
        FinishReason::Cancelled => "cancelled",
        FinishReason::Running => "none",
    }
}

/// Token counts.
#[derive(Clone, Copy, Debug, PartialEq, Eq, Structural)]
pub struct Usage {
    pub prompt_tokens: u32,
    pub completion_tokens: u32,
    pub total_tokens: u64,
}

/// Token counts with their sum.
pub fn usage(prompt: u32, generated: u32) -> (r: Usage)
    ensures
        r == (Usage {
            prompt_tokens: prompt,
            completion_tokens: generated,
            total_tokens: (prompt + generated) as u64,
        }),
{
    Usage {
        prompt_tokens: prompt,
        completion_tokens: generated,
        total_tokens: prompt as u64 + generated as u64,
    }
}

/// One chunk of a streamed chat.
#[derive(Debug)]
pub struct ChatChunk {
    /// Whether it names the role.
    pub role: bool,
    pub content: Option<String>,
    pub finish_reason: Option<String>,
    pub usage: Option<Usage>,
    /// Whether it is the last.
    pub last: bool,
}

/// Whether a chunk is that of a piece.
pub open spec fn tells_piece(c: ChatChunk, p: Piece, sent_role: bool) -> bool {
    &&& c.role == !sent_role
    &&& opt_view(c.content) == (if p.text@.len() > 0 {
        Some(p.text@)
    } else {
        None
    })
    &&& opt_view(c.finish_reason) == (if p.done {
        Some(finish_as(p.finish_reason))
    } else {
        None
    })
    &&& c.usage == (if p.done {
        Some(
            Usage {
                prompt_tokens: p.prompt_tokens,
                completion_tokens: p.generated_tokens,
                total_tokens: (p.prompt_tokens + p.generated_tokens) as u64,
            },
        )
    } else {
        None
    })
    &&& c.last == p.done
}

/// The chunk of a piece: the first names the role, the last tells why it stopped
/// and the counts; a piece without text has no content.
pub fn chat_chunk(p: &Piece, sent_role: bool) -> (r: ChatChunk)
    ensures
        tells_piece(r, *p, sent_role),
{
    ChatChunk {
        role: !sent_role,
        content: if p.text.as_str().is_empty() {
            None
        } else {
            Some(p.text.clone())
        },
        finish_reason: if p.done {
            Some(finish_name(p.finish_reason).to_owned())
        } else {
            None
        },
        usage: if p.done {
            Some(usage(p.prompt_tokens, p.generated_tokens))
        } else {
            None
        },
        last: p.done,
    }
}

/// The contents of the first `n` chunks, in order.
pub open spec fn streamed_text(c: Seq<ChatChunk>, n: int) -> Seq<char>
    decreases n,
{
    if n <= 0 {
        Seq::empty()
    } else {
        streamed_text(c, n - 1) + (match c[n - 1].content {
            Some(t) => t@,
            None => Seq::empty(),
        })
    }
}

/// A streamed answer says what a collected one says: the contents of the chunks,
/// put together, are the text of the pieces.
pub proof fn streamed_is_collected(c: Seq<ChatChunk>, p: Seq<Piece>, n: int)
    requires
        0 <= n <= p.len(),
        c.len() == p.len(),
        forall|i: int| 0 <= i < p.len() ==> tells_piece(#[trigger] c[i], p[i], i > 0),
    ensures
        streamed_text(c, n) == piece_text(p, n),
    decreases n,
{
    if n > 0 {
        streamed_is_collected(c, p, n - 1);
        let k = n - 1;
        assert(tells_piece(c[k], p[k], k > 0));
        if p[k].text@.len() == 0 {
            assert(p[k].text@ =~= Seq::empty());
        }
    }
}

/// A hexadecimal digit.
pub open spec fn hex_digit(d: nat) -> char {
    if d < 10 {
        ('0' as u8 + d) as u8 as char
    } else {
        ('a' as u8 + (d - 10)) as u8 as char
    }
}

/// A number in hexadecimal.
pub open spec fn hex(n: nat) -> Seq<char>
    decreases n,
{
    if n < 16 {
        seq![hex_digit(n)]
    } else {
        hex(n / 16).push(hex_digit(n % 16))
    }
}

/// A number in hexadecimal.
pub fn hex_of(n: u64) -> (r: String)
    ensures
        r@ == hex(n as nat),
    decreases n,
{
    let d: u8 = (n % 16) as u8;
    let c: char = if d < 10 {
        (48u8 + d) as char
    } else {
        (97u8 + (d - 10)) as char
    };
    let mut s = if n < 16 {
        let e = String::new();
        proof {
            assert(e@ =~= Seq::empty());
        }
        e
    } else {
        hex_of(n / 16)
    };
    let ghost before = s@;
    s.push(c);
    proof {
        assert(s@ =~= before.push(c));
        if n < 16 {
            assert(s@ =~= seq![hex_digit(n as nat)]);
        }
    }
    s
}

/// The identifier of a chat: when it began and its number.
pub fn chat_id(now: u64, number: u64) -> (r: String)
    ensures
        r@ == "chatcmpl-"@ + hex(now as nat) + "-"@ + hex(number as nat),
{
    cat4("chatcmpl-", hex_of(now).as_str(), "-", hex_of(number).as_str())
}

/// The text that a span names: nothing where its bytes do not lie in the text or
/// cut a character.
pub open spec fn is_word(text: Seq<char>, b: int, e: int, word: Seq<char>) -> bool {
    let bytes = encode_utf8(text);
    if b <= e && e <= bytes.len() && is_char_boundary(bytes, b) && is_char_boundary(bytes, e) {
        encode_utf8(word) == bytes.subrange(b, e)
    } else {
        word.len() == 0
    }
}

/// A boundary of a text before another is one of what stands before that.
proof fn boundary_in_prefix(text: Seq<char>, head: Seq<char>, b: int, e: int)
    requires
        0 <= b <= e <= encode_utf8(text).len(),
        encode_utf8(head) == encode_utf8(text).subrange(0, e),
        is_char_boundary(encode_utf8(text), b),
    ensures
        is_char_boundary(encode_utf8(head), b),
{
    let whole = encode_utf8(text);
    let part = encode_utf8(head);
    encode_utf8_valid_utf8(text);
    encode_utf8_valid_utf8(head);
    if b == e {
        is_char_boundary_start_end_of_seq(part);
    } else {
        is_char_boundary_iff_not_is_continuation_byte(whole, b);
        is_char_boundary_iff_not_is_continuation_byte(part, b);
        assert(part[b] == whole[b]);
    }
}

/// The text that a span names.
pub fn span_word(text: &str, b: usize, e: usize) -> (r: String)
    ensures
        is_word(text@, b as int, e as int, r@),
{
    let n = text.as_bytes().len();
    if b <= e && e <= n && text.is_char_boundary(b) && text.is_char_boundary(e) {
        let (head, _) = text.split_at(e);
        proof {
            let bytes = encode_utf8(text@);
            assert(encode_utf8(head@) =~= bytes.subrange(0, e as int));
            boundary_in_prefix(text@, head@, b as int, e as int);
        }
        let (_, word) = head.split_at(b);
        proof {
            let bytes = encode_utf8(text@);
            assert(encode_utf8(word@) =~= bytes.subrange(b as int, e as int));
        }
        return word.to_owned();
    }
    let s = String::new();
    proof {
        assert(s@ =~= Seq::empty());
    }
    s
}

/// The base64 digit of six bits.
pub open spec fn b64_digit(v: int) -> char {
    if v < 26 {
        (65 + v) as u8 as char
    } else if v < 52 {
        (71 + v) as u8 as char
    } else if v < 62 {
        (v - 4) as u8 as char
    } else if v == 62 {
        '+'
    } else {
        '/'
    }
}

/// The base64 digit of six bits.
fn b64_digit_of(v: u32) -> (r: char)
    requires
        v < 64,
    ensures
        r == b64_digit(v as int),
{
    if v < 26 {
        (65 + v) as u8 as char
    } else if v < 52 {
        (71 + v) as u8 as char
    } else if v < 62 {
        (v - 4) as u8 as char
    } else if v == 62 {
        '+'
    } else {
        '/'
    }
}

/// Bytes in base64: four digits for each three bytes, `=` where the last three
/// lack one or two.
pub open spec fn base64(b: Seq<u8>) -> Seq<char>
    decreases b.len(),
{
    if b.len() == 0 {
        Seq::empty()
    } else {
        let b1 = if b.len() > 1 {
            b[1] as int
        } else {
            0
        };
        let b2 = if b.len() > 2 {
            b[2] as int
        } else {
            0
        };
        let n = b[0] * 65536 + b1 * 256 + b2;
        let four = seq![
            b64_digit(n / 262144 % 64),
            b64_digit(n / 4096 % 64),
            if b.len() > 1 {
                b64_digit(n / 64 % 64)
            } else {
                '='
            },
            if b.len() > 2 {
                b64_digit(n % 64)
            } else {
                '='
            },
        ];
        if b.len() <= 3 {
            four
        } else {
            four + base64(b.skip(3))
        }
    }
}

/// Bytes in base64.
pub fn base64_of(bytes: &Vec<u8>) -> (r: String)
    ensures
        r@ == base64(bytes@),
{
    let mut out = String::new();
    let mut at: usize = 0;
    proof {
        assert(bytes@.skip(0) =~= bytes@);
        assert(out@ =~= Seq::empty());
        assert(out@ + base64(bytes@) =~= base64(bytes@));
    }
    while at < bytes.len()
        invariant
            at <= bytes.len(),
            out@ + base64(bytes@.skip(at as int)) == base64(bytes@),
        decreases bytes.len() - at,
    {
        let ghost rest = bytes@.skip(at as int);
        let left = bytes.len() - at;
        let b1: u32 = if left > 1 {
            bytes[at + 1] as u32
        } else {
            0
        };
        let b2: u32 = if left > 2 {
            bytes[at + 2] as u32
        } else {
            0
        };
        let n: u32 = bytes[at] as u32 * 65536 + b1 * 256 + b2;
        let ghost before = out@;
        out.push(b64_digit_of(n / 262144 % 64));
        out.push(b64_digit_of(n / 4096 % 64));
        out.push(
            if left > 1 {
                b64_digit_of(n / 64 % 64)
            } else {
                '='
            },
        );
        out.push(
            if left > 2 {
                b64_digit_of(n % 64)
            } else {
                '='
            },
        );
        let step: usize = if left > 3 {
            3
        } else {
            left
        };
        proof {
            assert(rest[0] == bytes@[at as int]);
            if left > 1 {
                assert(rest[1] == bytes@[at + 1]);
            }
            if left > 2 {
                assert(rest[2] == bytes@[at + 2]);
            }
            let four = out@.skip(before.len() as int);
            assert(out@ =~= before + four);
            assert(four =~= seq![four[0], four[1], four[2], four[3]]);
            if left > 3 {
                assert(rest.skip(3) =~= bytes@.skip(at + 3));
                assert(base64(rest) =~= four + base64(bytes@.skip(at + 3)));
                assert(before + base64(rest) =~= out@ + base64(bytes@.skip(at + 3)));
            } else {
                assert(bytes@.skip(at + step) =~= Seq::empty());
                assert(base64(rest) =~= four);
                assert(before + base64(rest) =~= out@ + base64(bytes@.skip(at + step)));
            }
        }
        at = at + step;
    }
    proof {
        assert(bytes@.skip(at as int) =~= Seq::empty());
        assert(out@ + Seq::<char>::empty() =~= out@);
    }
    out
}

/// The six bits of a base64 digit.
pub open spec fn b64_value(c: char) -> int {
    let u = c as u32 as int;
    if 65 <= u <= 90 {
        u - 65
    } else if 97 <= u <= 122 {
        u - 71
    } else if 48 <= u <= 57 {
        u + 4
    } else if c == '+' {
        62
    } else if c == '/' {
        63
    } else {
        0
    }
}

/// The bytes of base64 digits.
pub open spec fn unbase64(s: Seq<char>) -> Seq<u8>
    decreases s.len(),
{
    if s.len() < 4 {
        Seq::empty()
    } else {
        let n = b64_value(s[0]) * 262144 + b64_value(s[1]) * 4096 + b64_value(s[2]) * 64 + b64_value(
            s[3],
        );
        let three = seq![(n / 65536) as u8, (n / 256 % 256) as u8, (n % 256) as u8];
        let kept = if s[2] == '=' {
            three.take(1)
        } else if s[3] == '=' {
            three.take(2)
        } else {
            three
        };
        kept + unbase64(s.skip(4))
    }
}

/// A digit stands for its bits, and none is the padding.
proof fn b64_digit_reads_back(v: int)
    requires
        0 <= v < 64,
    ensures
        b64_value(b64_digit(v)) == v,
        b64_digit(v) != '=',
{
}

/// Dividing by 64 and then by `m` is dividing by 64 times `m`.
proof fn divides_again(n: int, m: int)
    requires
        0 <= n,
        0 < m,
    ensures
        n / 64 / m == n / (64 * m),
{
    vstd::arithmetic::div_mod::lemma_div_denominator(n, 64, m);
}

/// A number of 24 bits is what its four digits say.
proof fn digits_say(n: int)
    requires
        0 <= n < 0x100_0000,
    ensures
        n / 262144 % 64 * 262144 + n / 4096 % 64 * 4096 + n / 64 % 64 * 64 + n % 64 == n,
{
    divides_again(n, 64);
    divides_again(n, 4096);
    divides_again(n / 64, 64);
    let q1: int = n / 64;
    let q2: int = n / 4096;
    let q3: int = n / 262144;
    assert(q2 == q1 / 64);
    assert(q3 == q2 / 64);
    assert(n == q1 * 64 + n % 64);
    assert(q1 == q2 * 64 + q1 % 64);
    assert(q2 == q3 * 64 + q2 % 64);
    assert(q3 < 64);
    assert(q3 % 64 == q3);
}

/// Three bytes are what their sum says.
proof fn bytes_say(x: int, y: int, z: int)
    requires
        0 <= x < 256,
        0 <= y < 256,
        0 <= z < 256,
    ensures
        (x * 65536 + y * 256 + z) / 65536 == x,
        (x * 65536 + y * 256 + z) / 256 % 256 == y,
        (x * 65536 + y * 256 + z) % 256 == z,
{
    let n: int = x * 65536 + y * 256 + z;
    assert(n / 256 == x * 256 + y);
}

/// Bytes that are not there give digits of zero.
proof fn absent_bytes_say(x: int, y: int)
    requires
        0 <= x < 256,
        0 <= y < 256,
    ensures
        (x * 65536 + y * 256) % 64 == 0,
        (x * 65536) / 64 % 64 == 0,
        (x * 65536) % 64 == 0,
{
    assert(x * 65536 == (x * 1024) * 64);
    assert((x * 65536) / 64 == x * 1024);
    assert(x * 1024 == (x * 16) * 64);
}

/// Base64 gives back the bytes that it was made of.
pub proof fn base64_reads_back(b: Seq<u8>)
    ensures
        unbase64(base64(b)) == b,
    decreases b.len(),
{
    if b.len() > 0 {
        let b1 = if b.len() > 1 {
            b[1] as int
        } else {
            0
        };
        let b2 = if b.len() > 2 {
            b[2] as int
        } else {
            0
        };
        let n = b[0] * 65536 + b1 * 256 + b2;
        b64_digit_reads_back(n / 262144 % 64);
        b64_digit_reads_back(n / 4096 % 64);
        b64_digit_reads_back(n / 64 % 64);
        b64_digit_reads_back(n % 64);
        let s = base64(b);
        assert(b64_value('=') == 0);
        digits_say(n);
        bytes_say(b[0] as int, b1, b2);
        absent_bytes_say(b[0] as int, b1);
        if b.len() <= 3 {
            assert(s.skip(4) =~= Seq::empty());
            assert(unbase64(s.skip(4)) =~= Seq::empty());
            if b.len() == 1 {
                assert(n / 64 % 64 == 0 && n % 64 == 0);
                assert(unbase64(s) =~= b);
            } else if b.len() == 2 {
                assert(n % 64 == 0);
                assert(unbase64(s) =~= b);
            } else {
                assert(unbase64(s) =~= b);
            }
        } else {
            base64_reads_back(b.skip(3));
            assert(s.skip(4) =~= base64(b.skip(3)));
            assert(unbase64(s) =~= b);
        }
    } else {
        assert(b =~= Seq::empty());
        assert(unbase64(base64(b)) =~= b);
    }
}

/// What `/info` needs of a served model.
#[derive(Debug)]
pub struct InfoModel {
    pub name: String,
    pub kind: ModelKind,
    pub model_id: String,
    pub revision: String,
    /// The element type in lower case, where the provider tells it.
    pub dtype: Option<String>,
    pub pooling: Option<Pooling>,
    pub labels: Vec<String>,
    pub provider: String,
    pub device: String,
    pub max_seq: u32,
    pub max_batch: u32,
}

/// Where the first embedding model stands, from place `i` on; the number of models
/// if nowhere.
pub open spec fn embedding_at(models: Seq<InfoModel>, i: int) -> int
    decreases models.len() - i,
{
    if 0 <= i < models.len() && models[i].kind != ModelKind::Embedding {
        embedding_at(models, i + 1)
    } else {
        i
    }
}

/// The model that `/info` is about: the first embedding model, else the first.
pub open spec fn primary_at(models: Seq<InfoModel>) -> int {
    let at = embedding_at(models, 0);
    if at < models.len() {
        at
    } else {
        0
    }
}

/// The model that `/info` is about.
pub fn primary(models: &Vec<InfoModel>) -> (r: usize)
    requires
        models.len() > 0,
    ensures
        r == primary_at(models@),
        r < models.len(),
{
    let mut i: usize = 0;
    while i < models.len() && models[i].kind != ModelKind::Embedding
        invariant
            i <= models.len(),
            embedding_at(models@, i as int) == embedding_at(models@, 0),
        decreases models.len() - i,
    {
        i = i + 1;
    }
    if i < models.len() {
        i
    } else {
        0
    }
}

/// What `/info` calls the type of its model, with what it tells of it.
#[derive(Debug)]
pub enum ModelType {
    /// `embedding`, and its pooling in lower case.
    Embedding(Option<String>),
    /// `reranker`, and its labels by their numbers in decimal.
    Reranker(Vec<(String, String)>),
    /// `classifier`, and its labels by their numbers in decimal.
    Classifier(Vec<(String, String)>),
    /// Any other kind in lower case, of which nothing is told.
    Other(String),
}

/// Labels, each with its number in decimal.
pub open spec fn numbered_labels(labels: Seq<Seq<char>>) -> Seq<(Seq<char>, Seq<char>)> {
    Seq::new(labels.len(), |i: int| (decimal(i as nat), labels[i]))
}

/// Whether a type is that of a model.
pub open spec fn types_model(t: ModelType, m: InfoModel) -> bool {
    match m.kind {
        ModelKind::Embedding => t is Embedding && opt_view(t->Embedding_0) == (match m.pooling {
            Some(p) => Some(pooling_text(p)),
            None => None,
        }),
        ModelKind::Reranker => t is Reranker && pair_views(t->Reranker_0@) == numbered_labels(
            views(m.labels@),
        ),
        ModelKind::Classifier => t is Classifier && pair_views(t->Classifier_0@) == numbered_labels(
            views(m.labels@),
        ),
        ModelKind::TokenClassifier => t is Classifier && pair_views(t->Classifier_0@)
            == numbered_labels(views(m.labels@)),
        ModelKind::Generative => t is Other && t->Other_0@ == "generative"@,
        ModelKind::Generic => t is Other && t->Other_0@ == "generic"@,
    }
}

/// Labels, each with its number in decimal.
fn number_labels(labels: &Vec<String>) -> (r: Vec<(String, String)>)
    ensures
        pair_views(r@) == numbered_labels(views(labels@)),
{
    let mut out: Vec<(String, String)> = Vec::new();
    let mut i: usize = 0;
    while i < labels.len()
        invariant
            i <= labels.len(),
            pair_views(out@) == numbered_labels(views(labels@)).take(i as int),
        decreases labels.len() - i,
    {
        let ghost before = pair_views(out@);
        out.push((decimal_of(i as u128), labels[i].clone()));
        i = i + 1;
        proof {
            assert(pair_views(out@) =~= before.push((decimal((i - 1) as nat), labels@[i - 1]@)));
            assert(pair_views(out@) =~= numbered_labels(views(labels@)).take(i as int));
        }
    }
    proof {
        assert(pair_views(out@) =~= numbered_labels(views(labels@)));
    }
    out
}

/// The type of a model.
fn model_type(m: &InfoModel) -> (r: ModelType)
    ensures
        types_model(r, *m),
{
    match m.kind {
        ModelKind::Embedding => ModelType::Embedding(
            match m.pooling {
                Some(p) => Some(pooling_text_of(p).to_owned()),
                None => None,
            },
        ),
        ModelKind::Reranker => ModelType::Reranker(number_labels(&m.labels)),
        ModelKind::Classifier => ModelType::Classifier(number_labels(&m.labels)),
        ModelKind::TokenClassifier => ModelType::Classifier(number_labels(&m.labels)),
        ModelKind::Generative => ModelType::Other("generative".to_owned()),
        ModelKind::Generic => ModelType::Other("generic".to_owned()),
    }
}

/// What `/info` lists of every served model.
#[derive(Debug)]
pub struct InfoEntry {
    pub name: String,
    pub model_id: String,
    pub kind: String,
    pub provider: String,
    pub device: String,
    pub max_seq: u32,
    pub max_batch: u32,
    pub truncate_default: String,
}

/// Whether an entry is that of a model.
pub open spec fn lists_model(e: InfoEntry, m: InfoModel) -> bool {
    &&& e.name@ == m.name@
    &&& e.model_id@ == m.model_id@
    &&& e.kind@ == kind_text(m.kind)
    &&& e.provider@ == m.provider@
    &&& e.device@ == m.device@
    &&& e.max_seq == m.max_seq
    &&& e.max_batch == m.max_batch
    &&& e.truncate_default@ == "model"@
}

/// What `/info` lists of every served model.
fn info_entries(models: &Vec<InfoModel>) -> (r: Vec<InfoEntry>)
    ensures
        r.len() == models.len(),
        forall|i: int| 0 <= i < r.len() ==> lists_model(#[trigger] r@[i], models@[i]),
{
    let mut out: Vec<InfoEntry> = Vec::new();
    let mut i: usize = 0;
    while i < models.len()
        invariant
            i <= models.len(),
            out.len() == i,
            forall|k: int| 0 <= k < i ==> lists_model(#[trigger] out@[k], models@[k]),
        decreases models.len() - i,
    {
        let m = &models[i];
        out.push(
            InfoEntry {
                name: m.name.clone(),
                model_id: m.model_id.clone(),
                kind: m.kind.text().to_owned(),
                provider: m.provider.clone(),
                device: m.device.clone(),
                max_seq: m.max_seq,
                max_batch: m.max_batch,
                truncate_default: "model".to_owned(),
            },
        );
        i = i + 1;
    }
    out
}

/// What `/info` tells: of its model, and of every model that is served.
#[derive(Debug)]
pub struct Info {
    pub model_id: String,
    pub model_sha: String,
    pub model_dtype: String,
    pub model_type: ModelType,
    pub max_input_length: u32,
    pub max_batch_tokens: u32,
    pub max_batch_requests: u32,
    pub max_client_batch_size: u32,
    pub tokenization_workers: u32,
    pub version: String,
    pub docker_label: Option<String>,
    pub models: Vec<InfoEntry>,
}

/// What `/info` tells of the first embedding model, or the first model, and what it
/// lists of every model.
pub fn info(models: &Vec<InfoModel>) -> (r: Info)
    requires
        models.len() > 0,
        models@[primary_at(models@)].max_seq * models@[primary_at(models@)].max_batch <= u32::MAX,
    ensures
        ({
            let m = models@[primary_at(models@)];
            &&& r.model_id@ == m.model_id@
            &&& r.model_sha@ == m.revision@
            &&& r.model_dtype@ == (match m.dtype {
                Some(d) => d@,
                None => "float32"@,
            })
            &&& types_model(r.model_type, m)
            &&& r.max_input_length == m.max_seq
            &&& r.max_batch_tokens == m.max_seq * m.max_batch
            &&& r.max_batch_requests == m.max_batch
            &&& r.max_client_batch_size == m.max_batch
            &&& r.tokenization_workers == 1
            &&& r.version@ == crate::oip::SERVER_VERSION@
            &&& r.docker_label is None
        }),
        r.models.len() == models.len(),
        forall|i: int| 0 <= i < r.models.len() ==> lists_model(#[trigger] r.models@[i], models@[i]),
{
    let m = &models[primary(models)];
    Info {
        model_id: m.model_id.clone(),
        model_sha: m.revision.clone(),
        model_dtype: match &m.dtype {
            Some(d) => d.clone(),
            None => "float32".to_owned(),
        },
        model_type: model_type(m),
        max_input_length: m.max_seq,
        max_batch_tokens: m.max_seq * m.max_batch,
        max_batch_requests: m.max_batch,
        max_client_batch_size: m.max_batch,
        tokenization_workers: 1,
        version: crate::oip::SERVER_VERSION.to_owned(),
        docker_label: None,
        models: info_entries(models),
    }
}

/// The embedding options of `/v1/embeddings`, or the first refusal.
pub open spec fn embeddings_options_of(
    truncate: Option<Seq<char>>,
    prompt_role: Option<Seq<char>>,
    normalize: Option<Seq<char>>,
    dimensions: Option<u32>,
) -> Result<EmbedOptions, ErrorView> {
    match truncate_value(truncate) {
        Err(e) => Err(e),
        Ok(truncate) => match prompt_role_value(prompt_role) {
            Err(e) => Err(e),
            Ok(prompt_role) => match normalize_value(normalize) {
                Err(e) => Err(e),
                Ok(normalize) => Ok(
                    EmbedOptions {
                        truncate,
                        prompt_role,
                        normalize,
                        output_dim: match dimensions {
                            Some(d) => d,
                            None => 0,
                        },
                        ..embed_defaults()
                    },
                ),
            },
        },
    }
}

/// The embedding options of `/v1/embeddings`.
pub fn embeddings_options(
    truncate: &Option<String>,
    prompt_role: &Option<String>,
    normalize: &Option<String>,
    dimensions: Option<u32>,
) -> (r: Result<EmbedOptions, Error>)
    ensures
        agrees_plain(
            r,
            embeddings_options_of(
                opt_view(*truncate),
                opt_view(*prompt_role),
                opt_view(*normalize),
                dimensions,
            ),
        ),
{
    let truncate = match parse_truncate(truncate) {
        Err(e) => return Err(e),
        Ok(v) => v,
    };
    let prompt_role = match parse_prompt_role(prompt_role) {
        Err(e) => return Err(e),
        Ok(v) => v,
    };
    let normalize = match parse_normalize(normalize) {
        Err(e) => return Err(e),
        Ok(v) => v,
    };
    let d = EmbedOptions::defaults();
    Ok(
        EmbedOptions {
            truncate,
            max_tokens: d.max_tokens,
            prompt_role,
            normalize,
            pooling: d.pooling,
            output_dim: match dimensions {
                Some(d) => d,
                None => 0,
            },
            output_dtype: d.output_dtype,
        },
    )
}

/// The reranking options of `/v1/rerank`.
pub fn rerank_route_options(truncate: &Option<String>, top_n: Option<u32>, raw_scores: bool) -> (r: Result<
    RerankOptions,
    Error,
>)
    ensures
        match truncate_value(opt_view(*truncate)) {
            Err(e) => r is Err && r->Err_0@ == e,
            Ok(truncate) => r == Ok::<RerankOptions, Error>(
                RerankOptions {
                    truncate,
                    max_tokens: rerank_defaults().max_tokens,
                    top_n: match top_n {
                        Some(n) => n,
                        None => 0,
                    },
                    return_sorted: true,
                    raw_scores,
                },
            ),
        },
{
    match parse_truncate(truncate) {
        Err(e) => Err(e),
        Ok(truncate) => Ok(
            RerankOptions {
                truncate,
                max_tokens: RerankOptions::defaults().max_tokens,
                top_n: match top_n {
                    Some(n) => n,
                    None => 0,
                },
                return_sorted: true,
                raw_scores,
            },
        ),
    }
}

/// The classification options of `/v1/classify`, or the first refusal.
pub open spec fn classify_route_of(
    truncate: Option<Seq<char>>,
    aggregation: Option<Seq<char>>,
    raw_scores: bool,
) -> Result<ClassifyOptions, ErrorView> {
    match truncate_value(truncate) {
        Err(e) => Err(e),
        Ok(truncate) => match aggregation_value(aggregation) {
            Err(e) => Err(e),
            Ok(aggregation) => Ok(
                ClassifyOptions {
                    truncate,
                    max_tokens: classify_defaults().max_tokens,
                    aggregation,
                    raw_scores,
                },
            ),
        },
    }
}

/// The classification options of `/v1/classify`.
pub fn classify_route_options(truncate: &Option<String>, aggregation: &Option<String>, raw_scores: bool) -> (r: Result<
    ClassifyOptions,
    Error,
>)
    ensures
        agrees_plain(
            r,
            classify_route_of(opt_view(*truncate), opt_view(*aggregation), raw_scores),
        ),
{
    let truncate = match parse_truncate(truncate) {
        Err(e) => return Err(e),
        Ok(v) => v,
    };
    match parse_aggregation(aggregation) {
        Err(e) => Err(e),
        Ok(aggregation) => Ok(
            ClassifyOptions {
                truncate,
                max_tokens: ClassifyOptions::defaults().max_tokens,
                aggregation,
                raw_scores,
            },
        ),
    }
}

/// A document in a ranking: its place, the bits of its score, and its text where it
/// is asked for.
#[derive(Debug)]
pub struct RankedDocument {
    pub index: i32,
    pub score: u32,
    pub document: Option<String>,
}

/// The documents of a ranking, in its order.
pub fn ranked_documents(sorted: &Vec<i32>, scores: &Vec<u32>, docs: &Vec<String>, with_text: bool) -> (r: Vec<
    RankedDocument,
>)
    requires
        forall|i: int| 0 <= i < sorted.len() ==> 0 <= #[trigger] sorted@[i] < scores.len(),
        with_text ==> scores.len() <= docs.len(),
    ensures
        r.len() == sorted.len(),
        forall|i: int|
            0 <= i < r.len() ==> {
                &&& (#[trigger] r@[i]).index == sorted@[i]
                &&& r@[i].score == scores@[sorted@[i] as int]
                &&& opt_view(r@[i].document) == (if with_text {
                    Some(docs@[sorted@[i] as int]@)
                } else {
                    None
                })
            },
{
    let mut out: Vec<RankedDocument> = Vec::new();
    let mut i: usize = 0;
    while i < sorted.len()
        invariant
            i <= sorted.len(),
            with_text ==> scores.len() <= docs.len(),
            forall|k: int| 0 <= k < sorted.len() ==> 0 <= #[trigger] sorted@[k] < scores.len(),
            out.len() == i,
            forall|k: int|
                0 <= k < i ==> {
                    &&& (#[trigger] out@[k]).index == sorted@[k]
                    &&& out@[k].score == scores@[sorted@[k] as int]
                    &&& opt_view(out@[k].document) == (if with_text {
                        Some(docs@[sorted@[k] as int]@)
                    } else {
                        None
                    })
                },
        decreases sorted.len() - i,
    {
        let n = sorted[i];
        assert(0 <= sorted@[i as int] < scores.len());
        let at: usize = n as usize;
        out.push(
            RankedDocument {
                index: n,
                score: scores[at],
                document: if with_text {
                    Some(docs[at].clone())
                } else {
                    None
                },
            },
        );
        i = i + 1;
    }
    out
}

/// The labels of a row best first, with the bits of their scores.
pub fn labels_best_first(row: &Vec<u32>, labels: &Vec<String>) -> (r: Vec<(String, u32)>)
    requires
        row.len() <= labels.len(),
    ensures
        exists|order: Seq<usize>| #[trigger]
            is_ranking(row@, order) && r.len() == order.len() && forall|i: int|
                0 <= i < order.len() ==> (#[trigger] r@[i]).0@ == labels@[order[i] as int]@ && r@[i].1
                    == row@[order[i] as int],
{
    let order = ranking(row);
    let mut out: Vec<(String, u32)> = Vec::new();
    let mut i: usize = 0;
    while i < order.len()
        invariant
            i <= order.len(),
            row.len() <= labels.len(),
            is_ranking(row@, order@),
            out.len() == i,
            forall|k: int|
                0 <= k < i ==> (#[trigger] out@[k]).0@ == labels@[order@[k] as int]@ && out@[k].1
                    == row@[order@[k] as int],
        decreases order.len() - i,
    {
        assert(order@[i as int] < row.len());
        let at = order[i];
        out.push((labels[at].clone(), row[at]));
        i = i + 1;
    }
    out
}

/// Whether contents are the first `n` elements, read as what the datatype says.
pub open spec fn carries_elements(d: Seq<char>, data: Seq<JsonElement>, n: int, v: DataView) -> bool {
    match v {
        DataView::Bytes(b) => d == "BYTES"@ && b.len() == n && forall|i: int|
            #![trigger b[i]]
            #![trigger data[i]]
            0 <= i < n ==> data[i].text is Some && b[i] == encode_utf8(data[i].text->0@),
        DataView::Fp32(b) => d == "FP32"@ && b.len() == n && forall|i: int|
            0 <= i < n ==> data[i].single == Some(#[trigger] b[i]),
        DataView::Fp64(b) => d == "FP64"@ && b.len() == n && forall|i: int|
            0 <= i < n ==> data[i].double == Some(#[trigger] b[i]),
        DataView::Int32(b) => (d == "INT32"@ || d == "INT16"@ || d == "INT8"@) && b.len() == n && forall|i: int|
            0 <= i < n ==> data[i].int == Some(#[trigger] b[i] as i64),
        DataView::Int64(b) => d == "INT64"@ && b.len() == n && forall|i: int|
            0 <= i < n ==> data[i].int == Some(#[trigger] b[i]),
        DataView::Uint32(b) => (d == "UINT32"@ || d == "UINT16"@ || d == "UINT8"@) && b.len() == n
            && forall|i: int| 0 <= i < n ==> data[i].uint == Some(#[trigger] b[i] as u64),
        DataView::Uint64(b) => d == "UINT64"@ && b.len() == n && forall|i: int|
            0 <= i < n ==> data[i].uint == Some(#[trigger] b[i]),
        DataView::Bool(b) => d == "BOOL"@ && b.len() == n && forall|i: int|
            0 <= i < n ==> data[i].flag == Some(#[trigger] b[i]),
    }
}

/// The elements of a JSON tensor are carried each in its place, read as its datatype
/// says, and none is changed or left out.
pub proof fn json_elements_are_carried_as_they_are(
    name: Seq<char>,
    d: Seq<char>,
    data: Seq<JsonElement>,
    n: int,
)
    requires
        0 <= n <= data.len(),
        json_data_of(name, d, data, n) is Ok,
    ensures
        carries_elements(d, data, n, json_data_of(name, d, data, n)->Ok_0),
    decreases n,
{
    if n > 0 {
        json_elements_are_carried_as_they_are(name, d, data, n - 1);
        let had = json_data_of(name, d, data, n - 1)->Ok_0;
        let now = json_data_of(name, d, data, n)->Ok_0;
        let e = data[n - 1];
        match (had, now) {
            (DataView::Bytes(a), DataView::Bytes(b)) => {
                assert forall|i: int|
                    #![trigger b[i]]
                    #![trigger data[i]]
                    0 <= i < n implies data[i].text is Some && b[i] == encode_utf8(data[i].text->0@) by {
                    if i < n - 1 {
                        assert(b[i] == a[i]);
                    }
                }
            },
            (DataView::Fp32(a), DataView::Fp32(b)) => {
                assert forall|i: int| 0 <= i < n implies data[i].single == Some(#[trigger] b[i]) by {
                    if i < n - 1 {
                        assert(b[i] == a[i]);
                    }
                }
            },
            (DataView::Fp64(a), DataView::Fp64(b)) => {
                assert forall|i: int| 0 <= i < n implies data[i].double == Some(#[trigger] b[i]) by {
                    if i < n - 1 {
                        assert(b[i] == a[i]);
                    }
                }
            },
            (DataView::Int32(a), DataView::Int32(b)) => {
                assert forall|i: int| 0 <= i < n implies data[i].int == Some(#[trigger] b[i] as i64) by {
                    if i < n - 1 {
                        assert(b[i] == a[i]);
                    }
                }
            },
            (DataView::Int64(a), DataView::Int64(b)) => {
                assert forall|i: int| 0 <= i < n implies data[i].int == Some(#[trigger] b[i]) by {
                    if i < n - 1 {
                        assert(b[i] == a[i]);
                    }
                }
            },
            (DataView::Uint32(a), DataView::Uint32(b)) => {
                assert forall|i: int| 0 <= i < n implies data[i].uint == Some(#[trigger] b[i] as u64) by {
                    if i < n - 1 {
                        assert(b[i] == a[i]);
                    }
                }
            },
            (DataView::Uint64(a), DataView::Uint64(b)) => {
                assert forall|i: int| 0 <= i < n implies data[i].uint == Some(#[trigger] b[i]) by {
                    if i < n - 1 {
                        assert(b[i] == a[i]);
                    }
                }
            },
            (DataView::Bool(a), DataView::Bool(b)) => {
                assert forall|i: int| 0 <= i < n implies data[i].flag == Some(#[trigger] b[i]) by {
                    if i < n - 1 {
                        assert(b[i] == a[i]);
                    }
                }
            },
            _ => {},
        }
    }
}

/// A JSON tensor becomes one of the same name, datatype and shape; without a shape it is
/// a list of its elements.
pub proof fn a_json_tensor_keeps_name_and_shape(t: JsonTensor)
    requires
        json_tensor_of(t) is Ok,
    ensures
        ({
            let v = json_tensor_of(t)->Ok_0;
            &&& v.name == t.name@
            &&& v.datatype == t.datatype@
            &&& t.shape.len() > 0 ==> v.shape == t.shape@
            &&& t.shape.len() == 0 ==> v.shape.len() == 1 && v.shape[0] == t.data.len() as i64
            &&& carries_elements(t.datatype@, t.data@, t.data.len() as int, v.data)
        }),
{
    json_elements_are_carried_as_they_are(t.name@, t.datatype@, t.data@, t.data.len() as int);
}

/// The parameters of a JSON request keep their names, their order and their values.
pub proof fn json_parameters_keep_their_values(map: Seq<(String, JsonValue)>, n: int)
    requires
        0 <= n <= map.len(),
        json_params_of(map, n) is Ok,
    ensures
        ({
            let p = json_params_of(map, n)->Ok_0;
            &&& p.len() == n
            &&& forall|i: int| 0 <= i < n ==> (#[trigger] p[i]).0 == map[i].0@
            &&& forall|i: int|
                0 <= i < n ==> match (#[trigger] p[i]).1 {
                    ParamView::Bool(b) => map[i].1 == JsonValue::Bool(b),
                    ParamView::Int(x) => map[i].1 == JsonValue::Int(x),
                    ParamView::Uint(x) => map[i].1 == JsonValue::Uint(x),
                    ParamView::Double(x) => map[i].1 matches JsonValue::Double(y) && y@ == x,
                    ParamView::Str(x) => map[i].1 matches JsonValue::Text(y) && y@ == x,
                }
        }),
    decreases n,
{
    if n > 0 {
        json_parameters_keep_their_values(map, n - 1);
        let old_p = json_params_of(map, n - 1)->Ok_0;
        let p = json_params_of(map, n)->Ok_0;
        assert forall|i: int| 0 <= i < n - 1 implies #[trigger] p[i] == old_p[i] by {}
    }
}

/// A chat request asks for what it says: the newer name of its limit before the older
/// one, and its numbers, its seed and its stop strings as they are.
pub proof fn a_chat_asks_for_what_it_says(req: ChatRequest)
    ensures
        ({
            let g = chat_view(req);
            &&& req.max_completion_tokens is Some ==> g.max_new_tokens == req.max_completion_tokens
            &&& req.max_completion_tokens is None ==> g.max_new_tokens == req.max_tokens
            &&& req.temperature matches Some(t) ==> g.temperature == Some(Number::Single(t))
            &&& req.temperature is None ==> g.temperature is None
            &&& req.top_p matches Some(t) ==> g.top_p == Some(Number::Single(t))
            &&& req.top_p is None ==> g.top_p is None
            &&& g.top_k == req.top_k
            &&& g.seed == req.seed
            &&& g.min_new_tokens is None && g.repeat_penalty is None
            &&& req.stop is None ==> g.stop.len() == 0
            &&& req.stop matches Some(Stop::One(s)) ==> g.stop.len() == 1 && g.stop[0] == s@
            &&& req.stop matches Some(Stop::Many(v)) ==> g.stop == views(v@)
        }),
{
}

/// A chat tells why it ended: at its own end or at a stop string, by its length, or
/// because it was cancelled.
pub proof fn a_chat_tells_why_it_ended(f: FinishReason)
    ensures
        finish_as(f) == "stop"@ <==> f == FinishReason::Eos || f == FinishReason::Stop,
        finish_as(f) == "length"@ <==> f == FinishReason::Length,
        finish_as(f) == "cancelled"@ <==> f == FinishReason::Cancelled,
{
    reveal_strlit("stop");
    reveal_strlit("length");
    reveal_strlit("cancelled");
    reveal_strlit("none");
    assert("stop"@[0] == 's' && "length"@[0] == 'l' && "cancelled"@[0] == 'c' && "none"@[0] == 'n');
}

/// A chunk of a stream has the role only where none was sent yet, the text of its piece,
/// and at the end of the stream alone why it ended and what was used.
pub proof fn a_chunk_tells_its_piece(c: ChatChunk, p: Piece, sent_role: bool)
    requires
        tells_piece(c, p, sent_role),
        p.prompt_tokens + p.generated_tokens <= u64::MAX,
    ensures
        c.role <==> !sent_role,
        c.content matches Some(t) ==> t@ == p.text@,
        c.content is None <==> p.text@.len() == 0,
        c.last <==> p.done,
        c.finish_reason is Some <==> p.done,
        c.usage is Some <==> p.done,
        c.usage matches Some(u) ==> u.prompt_tokens == p.prompt_tokens && u.completion_tokens
            == p.generated_tokens && u.total_tokens == p.prompt_tokens + p.generated_tokens,
{
}

/// A digit of base 64 is the one of its alphabet.
pub proof fn base64_digits_are_of_their_alphabet(v: int)
    requires
        0 <= v < 64,
    ensures
        b64_digit(v) == "ABCDEFGHIJKLMNOPQRSTUVWXYZabcdefghijklmnopqrstuvwxyz0123456789+/"@[v],
{
    reveal_strlit("ABCDEFGHIJKLMNOPQRSTUVWXYZabcdefghijklmnopqrstuvwxyz0123456789+/");
}

/// Four digits hold three bytes, the first bits first; `=` stands for bytes that are not
/// there.
pub proof fn four_digits_hold_three_bytes(b: Seq<u8>)
    requires
        b.len() > 0,
    ensures
        ({
            let s = base64(b);
            &&& s.len() >= 4
            &&& s[0] == b64_digit(b[0] as int / 4)
            &&& b.len() == 1 ==> s[1] == b64_digit(b[0] as int % 4 * 16) && s[2] == '=' && s[3] == '='
            &&& b.len() >= 2 ==> s[1] == b64_digit(b[0] as int % 4 * 16 + b[1] as int / 16)
            &&& b.len() == 2 ==> s[2] == b64_digit(b[1] as int % 16 * 4) && s[3] == '='
            &&& b.len() >= 3 ==> s[2] == b64_digit(b[1] as int % 16 * 4 + b[2] as int / 64) && s[3]
                == b64_digit(b[2] as int % 64) && s.skip(4) == base64(b.skip(3))
        }),
{
    let b1 = if b.len() > 1 {
        b[1] as int
    } else {
        0
    };
    let b2 = if b.len() > 2 {
        b[2] as int
    } else {
        0
    };
    six_bits(b[0] as int, b1, b2);
    if b.len() >= 3 {
        assert(base64(b).skip(4) =~= base64(b.skip(3)));
    }
}

/// The parts of six bits of three bytes.
proof fn six_bits(a: int, b: int, c: int)
    requires
        0 <= a < 256,
        0 <= b < 256,
        0 <= c < 256,
    ensures
        (a * 65536 + b * 256 + c) / 262144 % 64 == a / 4,
        (a * 65536 + b * 256 + c) / 4096 % 64 == a % 4 * 16 + b / 16,
        (a * 65536 + b * 256 + c) / 64 % 64 == b % 16 * 4 + c / 64,
        (a * 65536 + b * 256 + c) % 64 == c % 64,
{
    let n = a * 65536 + b * 256 + c;
    let (ah, al) = (a / 4, a % 4);
    let (bh, bl) = (b / 16, b % 16);
    let (ch, cl) = (c / 64, c % 64);
    assert(a == 4 * ah + al && b == 16 * bh + bl && c == 64 * ch + cl);
    assert(n == 262144 * ah + (65536 * al + 256 * b + c));
    assert(n / 262144 == ah);
    assert(n == 4096 * (64 * ah + 16 * al + bh) + (256 * bl + c));
    assert(n / 4096 == 64 * ah + 16 * al + bh);
    assert((64 * ah + (16 * al + bh)) % 64 == 16 * al + bh);
    assert(n == 64 * (64 * (64 * ah + 16 * al + bh) + (4 * bl + ch)) + cl);
    assert(n / 64 == 64 * (64 * ah + 16 * al + bh) + (4 * bl + ch));
    assert((64 * (64 * ah + 16 * al + bh) + (4 * bl + ch)) % 64 == 4 * bl + ch);
}

/// A number in hexadecimal is its digits to the base 16, in lower case.
pub proof fn hexadecimal_is_to_the_base_sixteen(n: nat, d: nat)
    requires
        d < 16,
    ensures
        hex(d) == seq!["0123456789abcdef"@[d as int]],
        n > 0 ==> hex(16 * n + d) == hex(n).push("0123456789abcdef"@[d as int]),
{
    reveal_strlit("0123456789abcdef");
    assert((16 * n + d) / 16 == n) by (nonlinear_arith)
        requires
            0 <= n,
            0 <= d < 16,
    ;
    assert((16 * n + d) % 16 == d) by (nonlinear_arith)
        requires
            0 <= n,
            0 <= d < 16,
    ;
}

/// The model that `/info` tells of is the first embedding model, and the first of all
/// where there is none.
pub proof fn the_primary_model_is_the_first_that_embeds(models: Seq<InfoModel>, i: int)
    requires
        0 <= i < models.len(),
    ensures
        models[i].kind == ModelKind::Embedding && (forall|k: int|
            0 <= k < i ==> (#[trigger] models[k]).kind != ModelKind::Embedding) ==> primary_at(models) == i,
        (forall|k: int| 0 <= k < models.len() ==> (#[trigger] models[k]).kind != ModelKind::Embedding)
            ==> primary_at(models) == 0,
        0 <= primary_at(models) < models.len(),
{
    first_that_embeds(models, 0);
}

/// The first embedding model from a place on.
proof fn first_that_embeds(models: Seq<InfoModel>, i: int)
    requires
        0 <= i <= models.len(),
    ensures
        i <= embedding_at(models, i) <= models.len(),
        embedding_at(models, i) < models.len() ==> models[embedding_at(models, i)].kind == ModelKind::Embedding,
        forall|k: int| i <= k < embedding_at(models, i) ==> (#[trigger] models[k]).kind != ModelKind::Embedding,
    decreases models.len() - i,
{
    if i < models.len() && models[i].kind != ModelKind::Embedding {
        first_that_embeds(models, i + 1);
    }
}

/// What `/info` calls a model: by its kind, an embedding model with its pooling, those
/// with labels with each label under its number.
pub proof fn info_types_a_model_by_its_kind(t: ModelType, m: InfoModel, i: int)
    requires
        types_model(t, m),
        0 <= i < m.labels.len(),
    ensures
        m.kind == ModelKind::Embedding <==> t is Embedding,
        m.kind == ModelKind::Reranker <==> t is Reranker,
        m.kind == ModelKind::Classifier || m.kind == ModelKind::TokenClassifier <==> t is Classifier,
        t is Reranker ==> t->Reranker_0.len() == m.labels.len() && t->Reranker_0@[i].0@ == decimal(i as nat)
            && t->Reranker_0@[i].1@ == m.labels@[i]@,
        t is Classifier ==> t->Classifier_0.len() == m.labels.len() && t->Classifier_0@[i].0@ == decimal(
            i as nat,
        ) && t->Classifier_0@[i].1@ == m.labels@[i]@,
        t is Embedding && m.pooling == Some(Pooling::Cls) ==> opt_view(t->Embedding_0) == Some("cls"@),
        t is Embedding && m.pooling == Some(Pooling::Mean) ==> opt_view(t->Embedding_0) == Some("mean"@),
        t is Embedding && m.pooling == Some(Pooling::Last) ==> opt_view(t->Embedding_0) == Some("last"@),
{
    let n = numbered_labels(views(m.labels@));
    assert(n[i] == (decimal(i as nat), m.labels@[i]@));
    if t is Reranker {
        assert(pair_views(t->Reranker_0@)[i] == n[i]);
        assert(pair_views(t->Reranker_0@).len() == n.len());
    }
    if t is Classifier {
        assert(pair_views(t->Classifier_0@)[i] == n[i]);
        assert(pair_views(t->Classifier_0@).len() == n.len());
    }
}

/// The options of an embeddings request are those that it names, and the defaults where
/// it names none.
pub proof fn embeddings_are_asked_for_as_named(
    truncate: Option<Seq<char>>,
    role: Option<Seq<char>>,
    normalize: Option<Seq<char>>,
    dimensions: Option<u32>,
)
    ensures
        ({
            let o = embeddings_options_of(truncate, role, normalize, dimensions);
            &&& o is Ok <==> truncate_value(truncate) is Ok && prompt_role_value(role) is Ok
                && normalize_value(normalize) is Ok
            &&& o is Ok ==> {
                &&& o->Ok_0.truncate == truncate_value(truncate)->Ok_0
                &&& o->Ok_0.prompt_role == prompt_role_value(role)->Ok_0
                &&& o->Ok_0.normalize == normalize_value(normalize)->Ok_0
                &&& dimensions matches Some(d) ==> o->Ok_0.output_dim == d
                &&& dimensions is None ==> o->Ok_0.output_dim == 0
                &&& o->Ok_0.max_tokens == 0
                &&& o->Ok_0.pooling == Pooling::Model
            }
        }),
{
}

/// The options of a classification request are those that it names.
pub proof fn classification_is_asked_for_as_named(
    truncate: Option<Seq<char>>,
    aggregation: Option<Seq<char>>,
    raw: bool,
)
    ensures
        ({
            let o = classify_route_of(truncate, aggregation, raw);
            &&& o is Ok <==> truncate_value(truncate) is Ok && aggregation_value(aggregation) is Ok
            &&& o is Ok ==> o->Ok_0.truncate == truncate_value(truncate)->Ok_0 && o->Ok_0.aggregation
                == aggregation_value(aggregation)->Ok_0 && o->Ok_0.raw_scores == raw && o->Ok_0.max_tokens
                == 0
        }),
{
}

/// A span of a text names just the text between its ends: where the text is `x`, `w`
/// and `y`, the span behind the bytes of `x` that is as long as `w` names `w`. A span
/// that reaches over the end names nothing.
pub proof fn a_span_names_the_text_it_covers(x: Seq<char>, w: Seq<char>, y: Seq<char>, word: Seq<char>)
    ensures
        ({
            let b = encode_utf8(x).len() as int;
            let e = b + encode_utf8(w).len();
            &&& is_word(x + w + y, b, e, word) <==> word == w
        }),
        ({
            let all = encode_utf8(x).len() as int;
            is_word(x, 0, all + 1, word) <==> word.len() == 0
        }),
{
    bytes_of_parts(x, w + y);
    bytes_of_parts(w, y);
    bytes_of_parts(x + w, y);
    bytes_of_parts(x, w);
    assert(x + (w + y) =~= x + w + y);
    let bytes = encode_utf8(x + w + y);
    let b = encode_utf8(x).len() as int;
    let e = b + encode_utf8(w).len();
    assert(bytes.subrange(b, e) =~= encode_utf8(w));
    vstd::utf8::encode_utf8_decode_utf8(word);
    vstd::utf8::encode_utf8_decode_utf8(w);
}

/// The bytes of a text are those of its parts, and a character ends between them.
proof fn bytes_of_parts(x: Seq<char>, y: Seq<char>)
    ensures
        encode_utf8(x + y) == encode_utf8(x) + encode_utf8(y),
        is_char_boundary(encode_utf8(x + y), encode_utf8(x).len() as int),
    decreases x.len(),
{
    let b = encode_utf8(x + y);
    vstd::utf8::encode_utf8_valid_utf8(x + y);
    if x.len() == 0 {
        assert(x + y =~= y);
        assert(encode_utf8(x) + encode_utf8(y) =~= encode_utf8(y));
    } else {
        let t = x.drop_first();
        bytes_of_parts(t, y);
        assert((x + y).drop_first() =~= t + y);
        assert((x + y)[0] == x[0]);
        let first = vstd::utf8::encode_scalar(x[0] as u32);
        assert(first + (encode_utf8(t) + encode_utf8(y)) =~= first + encode_utf8(t) + encode_utf8(y));
        vstd::utf8::encode_utf8_first_scalar(x + y);
        assert(vstd::utf8::pop_first_scalar(b) =~= encode_utf8(t + y));
    }
}

/// `/info` tells of a model its own names, kind and limits.
pub proof fn info_tells_of_its_model(e: InfoEntry, m: InfoModel)
    requires
        lists_model(e, m),
    ensures
        e.name@ == m.name@ && e.model_id@ == m.model_id@ && e.provider@ == m.provider@ && e.device@
            == m.device@,
        e.max_seq == m.max_seq && e.max_batch == m.max_batch && e.truncate_default@ == "model"@,
        e.kind@ == "Embedding"@ <==> m.kind == ModelKind::Embedding,
        e.kind@ == "Reranker"@ <==> m.kind == ModelKind::Reranker,
{
    crate::types::values_are_told_by_their_own_names(
        m.kind,
        crate::types::Task::Run,
        crate::types::Placement::Host,
        crate::types::DType::F32,
    );
}

/// Vectors go out in base64 where the format says so, and as numbers where it says
/// `float` or nothing; any other format is refused.
pub proof fn vectors_go_out_as_asked(format: Option<Seq<char>>)
    ensures
        base64_wanted(format) == Ok::<bool, ErrorView>(true) <==> format == Some("base64"@),
        base64_wanted(format) == Ok::<bool, ErrorView>(false) <==> format is None || format == Some(
            "float"@,
        ),
        base64_wanted(format) matches Err(e) ==> e.class == Class::BadRequest,
{
    reveal_strlit("base64");
    reveal_strlit("float");
    assert("base64"@[0] == 'b' && "float"@[0] == 'f');
}

/// An input without a shape is one row of all its elements; a shape that is given
/// stays as it is.
pub proof fn a_given_shape_stays(shape: Seq<i64>, elements: nat)
    requires
        elements <= i64::MAX,
    ensures
        shape.len() > 0 ==> shape_or_length(shape, elements) == shape,
        shape_or_length(Seq::empty(), elements).len() == 1,
        shape_or_length(Seq::empty(), elements)[0] == elements,
{
}

/// A datatype is carried in the contents that hold its numbers: signed numbers of up to
/// 32 bits together, unsigned ones together, and every other by itself.
pub proof fn a_datatype_has_its_own_contents(name: Seq<char>, d: Seq<char>)
    ensures
        d == "BYTES"@ ==> no_data(name, d) is Ok && no_data(name, d)->Ok_0 is Bytes,
        d == "FP32"@ ==> no_data(name, d) is Ok && no_data(name, d)->Ok_0 is Fp32,
        d == "FP64"@ ==> no_data(name, d) is Ok && no_data(name, d)->Ok_0 is Fp64,
        d == "INT32"@ || d == "INT16"@ || d == "INT8"@ ==> no_data(name, d) is Ok && no_data(
            name,
            d,
        )->Ok_0 is Int32,
        d == "INT64"@ ==> no_data(name, d) is Ok && no_data(name, d)->Ok_0 is Int64,
        d == "UINT32"@ || d == "UINT16"@ || d == "UINT8"@ ==> no_data(name, d) is Ok && no_data(
            name,
            d,
        )->Ok_0 is Uint32,
        d == "UINT64"@ ==> no_data(name, d) is Ok && no_data(name, d)->Ok_0 is Uint64,
        d == "BOOL"@ ==> no_data(name, d) is Ok && no_data(name, d)->Ok_0 is Bool,
        no_data(name, d) matches Err(e) ==> e.class == Class::BadRequest,
{
    reveal_strlit("BYTES");
    reveal_strlit("FP32");
    reveal_strlit("FP64");
    reveal_strlit("INT32");
    reveal_strlit("INT16");
    reveal_strlit("INT8");
    reveal_strlit("INT64");
    reveal_strlit("UINT32");
    reveal_strlit("UINT16");
    reveal_strlit("UINT8");
    reveal_strlit("UINT64");
    reveal_strlit("BOOL");
    assert("BYTES"@[0] == 'B' && "BYTES"@[1] == 'Y' && "BOOL"@[0] == 'B' && "BOOL"@[1] == 'O');
    assert("FP32"@[0] == 'F' && "FP32"@[2] == '3' && "FP64"@[0] == 'F' && "FP64"@[2] == '6');
    assert("INT32"@[0] == 'I' && "INT16"@[0] == 'I' && "INT8"@[0] == 'I' && "INT64"@[0] == 'I');
    assert("INT32"@[3] == '3' && "INT16"@[3] == '1' && "INT8"@[3] == '8' && "INT64"@[3] == '6');
    assert("UINT32"@[0] == 'U' && "UINT16"@[0] == 'U' && "UINT8"@[0] == 'U' && "UINT64"@[0] == 'U');
    assert("UINT32"@[4] == '3' && "UINT16"@[4] == '1' && "UINT8"@[4] == '8' && "UINT64"@[4] == '6');
}

} // verus!

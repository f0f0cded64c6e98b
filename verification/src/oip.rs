//! The Open Inference Protocol mapping, shared by the gRPC and the REST binding:
//! how each served model kind is described as tensors and how an inference
//! request's tensors become a call and back.
//!
//! Tensor names per kind:
//!
//! | kind | inputs | outputs |
//! |---|---|---|
//! | embedding | `text` BYTES `[n]` | `embeddings` FP32 `[n, dim]` |
//! | reranker | `query` BYTES `[1]`, `documents` BYTES `[n]` | `scores` FP32 `[n]`, `sorted` INT32 `[k]` |
//! | classifier | `text` BYTES `[n]` | `scores` FP32 `[n, labels]`, `labels` BYTES `[labels]` |
//! | token classifier | `text` BYTES `[n]` | `spans` BYTES `[m]` (JSON per span), `labels` BYTES `[labels]` |
//! | generative | `prompt` BYTES `[1]` or `messages` BYTES `[t]` (JSON per turn) | `text` BYTES `[1]`; finish reason and token counts in the response parameters |
//! | generic | the model's own inputs | the model's own outputs |
//!
//! Floating-point numbers are held by their bits, and beside them as they are shown
//! where a message needs that.

use vstd::prelude::*;
use vstd::utf8::{decode_utf8, valid_utf8};
use crate::bytes::{
    as_u64, le_values, pow256, read_all, write_all, write_all_reads_back, written_all,
};
use crate::convert::{
    parse_u32, parse_u64, signed32, signed32_of, signed64, signed64_of, text_from_utf8, u32_fault,
    u64_fault, unsigned32, unsigned32_of, unsigned64, unsigned64_of, utf8_error,
};
use crate::engine::{
    aggregation_value, normalize_value, parse_aggregation, parse_normalize, parse_pooling,
    parse_prompt_role, parse_truncate, pooling_value, prompt_role_value, truncate_value,
};
use crate::error::{agrees_plain, on_field, plain, Class, Error, ErrorView, Field};
use crate::infer::Real;
use crate::staging::{flag_text, flag_text_of};
use crate::text::{
    bracketed, bracketed_of, cat2, cat3, cat4, cat5, cat6, cat8, decimal, decimal_of, lower_of,
    lowered, opt_view, quote, quoted, same, signed_decimal, signed_of, split_of, split_on,
    unsigned_value, views,
};
use crate::types::{
    dtype_text, kind_text, task_text, ClassifyOptions, DType, EmbedOptions, ModelKind, Normalize,
    OutputDtype, Pooling, RerankOptions, Task,
};

verus! {

/// A parameter value.
#[derive(Clone, Debug)]
pub enum Param {
    Bool(bool),
    Int(i64),
    Str(String),
    Double(Real),
    Uint(u64),
}

/// The value as the text that the option parsers read.
pub open spec fn param_text(p: Param) -> Seq<char> {
    match p {
        Param::Bool(b) => flag_text(b),
        Param::Int(i) => signed_decimal(i as int),
        Param::Str(s) => s@,
        Param::Double(d) => d.shown@,
        Param::Uint(u) => decimal(u as nat),
    }
}

/// The value as messages show it.
pub open spec fn param_debug(p: Param) -> Seq<char> {
    match p {
        Param::Bool(b) => "Bool("@ + flag_text(b) + ")"@,
        Param::Int(i) => "Int("@ + signed_decimal(i as int) + ")"@,
        Param::Str(s) => "Str("@ + quoted(s@) + ")"@,
        Param::Double(d) => "Double("@ + d.debug@ + ")"@,
        Param::Uint(u) => "Uint("@ + decimal(u as nat) + ")"@,
    }
}

impl Param {
    /// The value as the text that the option parsers read.
    pub fn as_str(&self) -> (r: String)
        ensures
            r@ == param_text(*self),
    {
        match self {
            Param::Bool(b) => flag_text_of(*b).to_owned(),
            Param::Int(i) => signed_of(*i),
            Param::Str(s) => s.clone(),
            Param::Double(d) => d.shown.clone(),
            Param::Uint(u) => decimal_of(*u as u128),
        }
    }

    /// The value as messages show it.
    pub fn debug(&self) -> (r: String)
        ensures
            r@ == param_debug(*self),
    {
        match self {
            Param::Bool(b) => cat3("Bool(", flag_text_of(*b), ")"),
            Param::Int(i) => cat3("Int(", signed_of(*i).as_str(), ")"),
            Param::Str(s) => cat3("Str(", quote(s.as_str()).as_str(), ")"),
            Param::Double(d) => cat3("Double(", d.debug.as_str(), ")"),
            Param::Uint(u) => cat3("Uint(", decimal_of(*u as u128).as_str(), ")"),
        }
    }
}

/// Parameters by name, in name order, each name once.
pub type Params = Vec<(String, Param)>;

/// Tensor contents, typed.
#[derive(Debug)]
pub enum Data {
    /// `BYTES`: one byte string per element.
    Bytes(Vec<Vec<u8>>),
    /// `FP32`, by their bits.
    Fp32(Vec<u32>),
    /// `FP64`, by their bits.
    Fp64(Vec<u64>),
    /// `INT32`, and the narrower signed types.
    Int32(Vec<i32>),
    /// `INT64`.
    Int64(Vec<i64>),
    /// `UINT32`, and the narrower unsigned types.
    Uint32(Vec<u32>),
    /// `UINT64`.
    Uint64(Vec<u64>),
    /// `BOOL`.
    Bool(Vec<bool>),
}

/// The datatype of contents.
pub open spec fn data_type(d: Data) -> Seq<char> {
    match d {
        Data::Bytes(_) => "BYTES"@,
        Data::Fp32(_) => "FP32"@,
        Data::Fp64(_) => "FP64"@,
        Data::Int32(_) => "INT32"@,
        Data::Int64(_) => "INT64"@,
        Data::Uint32(_) => "UINT32"@,
        Data::Uint64(_) => "UINT64"@,
        Data::Bool(_) => "BOOL"@,
    }
}

/// Byte strings as sequences.
pub open spec fn byte_views(v: Seq<Vec<u8>>) -> Seq<Seq<u8>> {
    Seq::new(v.len(), |i: int| v[i]@)
}

/// Contents as a sequence.
pub enum DataView {
    Bytes(Seq<Seq<u8>>),
    Fp32(Seq<u32>),
    Fp64(Seq<u64>),
    Int32(Seq<i32>),
    Int64(Seq<i64>),
    Uint32(Seq<u32>),
    Uint64(Seq<u64>),
    Bool(Seq<bool>),
}

impl View for Data {
    type V = DataView;

    open spec fn view(&self) -> DataView {
        match self {
            Data::Bytes(v) => DataView::Bytes(byte_views(v@)),
            Data::Fp32(v) => DataView::Fp32(v@),
            Data::Fp64(v) => DataView::Fp64(v@),
            Data::Int32(v) => DataView::Int32(v@),
            Data::Int64(v) => DataView::Int64(v@),
            Data::Uint32(v) => DataView::Uint32(v@),
            Data::Uint64(v) => DataView::Uint64(v@),
            Data::Bool(v) => DataView::Bool(v@),
        }
    }
}

impl Data {
    /// The datatype of the contents.
    pub fn datatype(&self) -> (r: &'static str)
        ensures
            r@ == data_type(*self),
    {
        match self {
            Data::Bytes(_) => "BYTES",
            Data::Fp32(_) => "FP32",
            Data::Fp64(_) => "FP64",
            Data::Int32(_) => "INT32",
            Data::Int64(_) => "INT64",
            Data::Uint32(_) => "UINT32",
            Data::Uint64(_) => "UINT64",
            Data::Bool(_) => "BOOL",
        }
    }
}

/// An input or output tensor.
#[derive(Debug)]
pub struct Tensor {
    pub name: String,
    /// The datatype, which must match `data`.
    pub datatype: String,
    /// Extents, outermost first.
    pub shape: Vec<i64>,
    pub data: Data,
    pub parameters: Params,
}

/// An inference request, of either binding.
#[derive(Debug)]
pub struct InferRequest {
    /// The client's correlation id, echoed in the response.
    pub id: String,
    pub parameters: Params,
    pub inputs: Vec<Tensor>,
    /// Names that the client wants back; empty means all.
    pub outputs: Vec<String>,
}

/// An inference response, of either binding.
#[derive(Debug)]
pub struct InferResponse {
    pub model_name: String,
    /// The version that ran; the server has one.
    pub model_version: String,
    pub id: String,
    pub parameters: Params,
    pub outputs: Vec<Tensor>,
}

/// Tensor metadata.
#[derive(Debug)]
pub struct TensorMeta {
    pub name: String,
    pub datatype: String,
    /// Extents; `-1` is a dimension that the request decides.
    pub shape: Vec<i64>,
}

/// Tensor metadata with its texts as characters.
pub struct MetaView {
    pub name: Seq<char>,
    pub datatype: Seq<char>,
    pub shape: Seq<i64>,
}

impl View for TensorMeta {
    type V = MetaView;

    open spec fn view(&self) -> MetaView {
        MetaView { name: self.name@, datatype: self.datatype@, shape: self.shape@ }
    }
}

/// The metadata of several tensors.
pub open spec fn meta_views(v: Seq<TensorMeta>) -> Seq<MetaView> {
    Seq::new(v.len(), |i: int| v[i]@)
}

/// Model metadata.
#[derive(Debug)]
pub struct ModelMeta {
    /// The name that clients use.
    pub name: String,
    /// The versions served; the server has one.
    pub versions: Vec<String>,
    /// The provider that the model runs on.
    pub platform: String,
    pub inputs: Vec<TensorMeta>,
    pub outputs: Vec<TensorMeta>,
    /// What the bundle and the device say of the model, in name order.
    pub properties: Vec<(String, String)>,
}

/// The server's name.
pub const SERVER_NAME: &'static str = "turbo-inferstream";

/// The server's version.
pub const SERVER_VERSION: &'static str = "0.1.0";

/// The one model version that the server has.
pub const MODEL_VERSION: &'static str = "1";

/// Extensions that the server implements beyond the core protocol.
pub fn extensions() -> (r: Vec<String>)
    ensures
        views(r@) == seq!["turbo_parameters"@],
{
    let mut v: Vec<String> = Vec::new();
    v.push("turbo_parameters".to_owned());
    proof {
        assert(views(v@) =~= seq!["turbo_parameters"@]);
    }
    v
}

/// The protocol's name of an element type.
pub open spec fn datatype_text(d: DType) -> Seq<char> {
    match d {
        DType::Bool => "BOOL"@,
        DType::U8 => "UINT8"@,
        DType::U16 => "UINT16"@,
        DType::U32 => "UINT32"@,
        DType::U64 => "UINT64"@,
        DType::I8 => "INT8"@,
        DType::I16 => "INT16"@,
        DType::I32 => "INT32"@,
        DType::I64 => "INT64"@,
        DType::F16 => "FP16"@,
        DType::BF16 => "BF16"@,
        DType::F32 => "FP32"@,
        DType::F64 => "FP64"@,
        DType::Bytes => "BYTES"@,
    }
}

/// The protocol's name of an element type.
pub fn datatype_of(d: DType) -> (r: &'static str)
    ensures
        r@ == datatype_text(d),
{
    match d {
        DType::Bool => "BOOL",
        DType::U8 => "UINT8",
        DType::U16 => "UINT16",
        DType::U32 => "UINT32",
        DType::U64 => "UINT64",
        DType::I8 => "INT8",
        DType::I16 => "INT16",
        DType::I32 => "INT32",
        DType::I64 => "INT64",
        DType::F16 => "FP16",
        DType::BF16 => "BF16",
        DType::F32 => "FP32",
        DType::F64 => "FP64",
        DType::Bytes => "BYTES",
    }
}

/// The element type of a datatype, for those that the server carries as typed contents.
pub open spec fn dtype_named(name: Seq<char>) -> Result<DType, ErrorView> {
    if name == "BOOL"@ {
        Ok(DType::Bool)
    } else if name == "UINT32"@ {
        Ok(DType::U32)
    } else if name == "UINT64"@ {
        Ok(DType::U64)
    } else if name == "INT32"@ {
        Ok(DType::I32)
    } else if name == "INT64"@ {
        Ok(DType::I64)
    } else if name == "FP32"@ {
        Ok(DType::F32)
    } else if name == "FP64"@ {
        Ok(DType::F64)
    } else if name == "BYTES"@ {
        Ok(DType::Bytes)
    } else {
        Err(
            plain(
                Class::BadRequest,
                "datatype `"@ + name
                    + "` is not carried by this server (BOOL, UINT32, UINT64, INT32, INT64, FP32, FP64, BYTES)"@,
            ),
        )
    }
}

/// The element type of a datatype.
pub fn dtype_of(name: &str) -> (r: Result<DType, Error>)
    ensures
        agrees_plain(r, dtype_named(name@)),
{
    if same(name, "BOOL") {
        Ok(DType::Bool)
    } else if same(name, "UINT32") {
        Ok(DType::U32)
    } else if same(name, "UINT64") {
        Ok(DType::U64)
    } else if same(name, "INT32") {
        Ok(DType::I32)
    } else if same(name, "INT64") {
        Ok(DType::I64)
    } else if same(name, "FP32") {
        Ok(DType::F32)
    } else if same(name, "FP64") {
        Ok(DType::F64)
    } else if same(name, "BYTES") {
        Ok(DType::Bytes)
    } else {
        Err(
            Error::plain(
                Class::BadRequest,
                cat3(
                    "datatype `",
                    name,
                    "` is not carried by this server (BOOL, UINT32, UINT64, INT32, INT64, FP32, FP64, BYTES)",
                ),
            ),
        )
    }
}

/// What of a served model its metadata tells.
#[derive(Debug)]
pub struct ServedModel {
    pub name: String,
    pub kind: ModelKind,
    pub task: Task,
    pub dim: u32,
    pub labels: Vec<String>,
    /// The inputs of a generic model: name, element type, extents.
    pub inputs: Vec<(String, DType, Vec<i64>)>,
    /// The outputs of a generic model.
    pub outputs: Vec<(String, DType, Vec<i64>)>,
    pub model_id: String,
    pub revision: String,
    pub max_seq: u32,
    pub max_batch: u32,
    pub served_max_seq: u32,
    pub served_max_batch: u32,
    pub device: String,
    pub provider_id: String,
    pub pooling: Option<Pooling>,
    pub normalize: Option<Normalize>,
}

/// Tensor metadata.
pub open spec fn meta_of(name: Seq<char>, datatype: Seq<char>, shape: Seq<i64>) -> MetaView {
    MetaView { name, datatype, shape }
}

/// The metadata of a generic model's own tensors.
pub open spec fn own_meta(v: Seq<(String, DType, Vec<i64>)>) -> Seq<MetaView> {
    Seq::new(v.len(), |i: int| meta_of(v[i].0@, datatype_text(v[i].1), v[i].2@))
}

/// The tensors that a model takes.
pub open spec fn input_meta(s: ServedModel) -> Seq<MetaView> {
    match s.kind {
        ModelKind::Embedding => seq![meta_of("text"@, "BYTES"@, seq![-1i64])],
        ModelKind::Reranker => seq![
            meta_of("query"@, "BYTES"@, seq![1]),
            meta_of("documents"@, "BYTES"@, seq![-1i64]),
        ],
        ModelKind::Classifier => seq![meta_of("text"@, "BYTES"@, seq![-1i64])],
        ModelKind::TokenClassifier => seq![meta_of("text"@, "BYTES"@, seq![-1i64])],
        ModelKind::Generative => seq![
            meta_of("prompt"@, "BYTES"@, seq![1]),
            meta_of("messages"@, "BYTES"@, seq![-1i64]),
        ],
        ModelKind::Generic => own_meta(s.inputs@),
    }
}

/// The tensors that a model gives.
pub open spec fn output_meta(s: ServedModel) -> Seq<MetaView> {
    let labels = s.labels.len() as i64;
    match s.kind {
        ModelKind::Embedding => seq![meta_of("embeddings"@, "FP32"@, seq![-1i64, s.dim as i64])],
        ModelKind::Reranker => seq![
            meta_of("scores"@, "FP32"@, seq![-1i64]),
            meta_of("sorted"@, "INT32"@, seq![-1i64]),
        ],
        ModelKind::Classifier => seq![
            meta_of("scores"@, "FP32"@, seq![-1i64, labels]),
            meta_of("labels"@, "BYTES"@, seq![labels]),
        ],
        ModelKind::TokenClassifier => seq![
            meta_of("spans"@, "BYTES"@, seq![-1i64]),
            meta_of("labels"@, "BYTES"@, seq![labels]),
        ],
        ModelKind::Generative => seq![meta_of("text"@, "BYTES"@, seq![1])],
        ModelKind::Generic => own_meta(s.outputs@),
    }
}

/// A pooling in lower case.
pub open spec fn pooling_text(p: Pooling) -> Seq<char> {
    match p {
        Pooling::Model => "model"@,
        Pooling::Mean => "mean"@,
        Pooling::Cls => "cls"@,
        Pooling::Last => "last"@,
    }
}

/// A pooling in lower case.
pub fn pooling_text_of(p: Pooling) -> (r: &'static str)
    ensures
        r@ == pooling_text(p),
{
    match p {
        Pooling::Model => "model",
        Pooling::Mean => "mean",
        Pooling::Cls => "cls",
        Pooling::Last => "last",
    }
}

/// A normalization in lower case.
pub open spec fn normalize_text(n: Normalize) -> Seq<char> {
    match n {
        Normalize::Model => "model"@,
        Normalize::Off => "none"@,
        Normalize::L2 => "l2"@,
    }
}

/// A normalization in lower case.
pub fn normalize_text_of(n: Normalize) -> (r: &'static str)
    ensures
        r@ == normalize_text(n),
{
    match n {
        Normalize::Model => "model",
        Normalize::Off => "none",
        Normalize::L2 => "l2",
    }
}

/// One entry where there is a value.
pub open spec fn if_some(name: Seq<char>, v: Option<Seq<char>>) -> Seq<(Seq<char>, Seq<char>)> {
    match v {
        Some(t) => seq![(name, t)],
        None => Seq::empty(),
    }
}

/// The properties of a model, in name order.
pub open spec fn properties_meta(s: ServedModel) -> Seq<(Seq<char>, Seq<char>)> {
    seq![
        ("device"@, s.device@),
        ("kind"@, kind_text(s.kind)),
        ("max_batch"@, decimal(s.max_batch as nat)),
        ("max_seq"@, decimal(s.max_seq as nat)),
        ("model_id"@, s.model_id@),
    ] + if_some(
        "normalize"@,
        match s.normalize {
            Some(n) => Some(normalize_text(n)),
            None => None,
        },
    ) + if_some(
        "pooling"@,
        match s.pooling {
            Some(p) => Some(pooling_text(p)),
            None => None,
        },
    ) + seq![
        ("provider"@, s.provider_id@),
        ("revision"@, s.revision@),
        ("served_max_batch"@, decimal(s.served_max_batch as nat)),
        ("served_max_seq"@, decimal(s.served_max_seq as nat)),
        ("task"@, lowered(task_text(s.task))),
    ]
}

/// Tensor metadata of up to two extents.
fn meta(name: &str, datatype: &str, first: i64, second: Option<i64>) -> (r: TensorMeta)
    ensures
        r@ == meta_of(
            name@,
            datatype@,
            match second {
                Some(n) => seq![first, n],
                None => seq![first],
            },
        ),
{
    let mut shape: Vec<i64> = Vec::new();
    shape.push(first);
    if let Some(n) = second {
        shape.push(n);
    }
    proof {
        assert(shape@ =~= (match second {
            Some(n) => seq![first, n],
            None => seq![first],
        }));
    }
    TensorMeta { name: name.to_owned(), datatype: datatype.to_owned(), shape }
}

/// One tensor's metadata.
fn one(a: TensorMeta) -> (r: Vec<TensorMeta>)
    ensures
        meta_views(r@) == seq![a@],
{
    let mut v: Vec<TensorMeta> = Vec::new();
    v.push(a);
    proof {
        assert(meta_views(v@) =~= seq![a@]);
    }
    v
}

/// Two tensors' metadata.
fn two(a: TensorMeta, b: TensorMeta) -> (r: Vec<TensorMeta>)
    ensures
        meta_views(r@) == seq![a@, b@],
{
    let mut v: Vec<TensorMeta> = Vec::new();
    v.push(a);
    v.push(b);
    proof {
        assert(meta_views(v@) =~= seq![a@, b@]);
    }
    v
}

/// The extents.
fn copy_shape(v: &Vec<i64>) -> (r: Vec<i64>)
    ensures
        r@ == v@,
{
    let mut out: Vec<i64> = Vec::new();
    let mut i: usize = 0;
    while i < v.len()
        invariant
            i <= v.len(),
            out@ == v@.take(i as int),
        decreases v.len() - i,
    {
        out.push(v[i]);
        i = i + 1;
        proof {
            assert(out@ =~= v@.take(i as int));
        }
    }
    proof {
        assert(out@ =~= v@);
    }
    out
}

/// The metadata of a generic model's own tensors.
fn own(v: &Vec<(String, DType, Vec<i64>)>) -> (r: Vec<TensorMeta>)
    ensures
        meta_views(r@) == own_meta(v@),
{
    let mut out: Vec<TensorMeta> = Vec::new();
    let mut i: usize = 0;
    while i < v.len()
        invariant
            i <= v.len(),
            out.len() == i,
            forall|j: int|
                0 <= j < i ==> (#[trigger] out@[j])@ == meta_of(
                    v@[j].0@,
                    datatype_text(v@[j].1),
                    v@[j].2@,
                ),
        decreases v.len() - i,
    {
        let t = TensorMeta {
            name: v[i].0.clone(),
            datatype: datatype_of(v[i].1).to_owned(),
            shape: copy_shape(&v[i].2),
        };
        out.push(t);
        i = i + 1;
    }
    proof {
        assert(meta_views(out@) =~= own_meta(v@));
    }
    out
}

/// Add a property.
pub(crate) fn put(p: &mut Vec<(String, String)>, name: &str, v: String)
    ensures
        crate::serve::pair_views(final(p)@) == crate::serve::pair_views(old(p)@).push((name@, v@)),
{
    let ghost before = crate::serve::pair_views(p@);
    let ghost text = v@;
    p.push((name.to_owned(), v));
    proof {
        assert(crate::serve::pair_views(p@) =~= before.push((name@, text)));
    }
}

/// The properties of a model.
fn properties(s: &ServedModel) -> (r: Vec<(String, String)>)
    ensures
        crate::serve::pair_views(r@) == properties_meta(*s),
{
    let mut p: Vec<(String, String)> = Vec::new();
    proof {
        assert(crate::serve::pair_views(p@) =~= Seq::empty());
    }
    put(&mut p, "device", s.device.clone());
    put(&mut p, "kind", s.kind.text().to_owned());
    put(&mut p, "max_batch", decimal_of(s.max_batch as u128));
    put(&mut p, "max_seq", decimal_of(s.max_seq as u128));
    put(&mut p, "model_id", s.model_id.clone());
    if let Some(n) = s.normalize {
        put(&mut p, "normalize", normalize_text_of(n).to_owned());
    }
    if let Some(n) = s.pooling {
        put(&mut p, "pooling", pooling_text_of(n).to_owned());
    }
    put(&mut p, "provider", s.provider_id.clone());
    put(&mut p, "revision", s.revision.clone());
    put(&mut p, "served_max_batch", decimal_of(s.served_max_batch as u128));
    put(&mut p, "served_max_seq", decimal_of(s.served_max_seq as u128));
    put(&mut p, "task", lower_of(s.task.text()));
    proof {
        assert(crate::serve::pair_views(p@) =~= properties_meta(*s));
    }
    p
}

/// Model metadata for a served model.
pub fn model_meta(s: &ServedModel) -> (r: ModelMeta)
    requires
        s.labels.len() <= i64::MAX,
    ensures
        r.name@ == s.name@,
        views(r.versions@) == seq![MODEL_VERSION@],
        r.platform@ == s.provider_id@,
        meta_views(r.inputs@) == input_meta(*s),
        meta_views(r.outputs@) == output_meta(*s),
        crate::serve::pair_views(r.properties@) == properties_meta(*s),
{
    let labels: i64 = s.labels.len() as i64;
    let inputs = match s.kind {
        ModelKind::Embedding => one(meta("text", "BYTES", -1, None)),
        ModelKind::Reranker => two(
            meta("query", "BYTES", 1, None),
            meta("documents", "BYTES", -1, None),
        ),
        ModelKind::Classifier => one(meta("text", "BYTES", -1, None)),
        ModelKind::TokenClassifier => one(meta("text", "BYTES", -1, None)),
        ModelKind::Generative => two(
            meta("prompt", "BYTES", 1, None),
            meta("messages", "BYTES", -1, None),
        ),
        ModelKind::Generic => own(&s.inputs),
    };
    let outputs = match s.kind {
        ModelKind::Embedding => one(meta("embeddings", "FP32", -1, Some(s.dim as i64))),
        ModelKind::Reranker => two(
            meta("scores", "FP32", -1, None),
            meta("sorted", "INT32", -1, None),
        ),
        ModelKind::Classifier => two(
            meta("scores", "FP32", -1, Some(labels)),
            meta("labels", "BYTES", labels, None),
        ),
        ModelKind::TokenClassifier => two(
            meta("spans", "BYTES", -1, None),
            meta("labels", "BYTES", labels, None),
        ),
        ModelKind::Generative => one(meta("text", "BYTES", 1, None)),
        ModelKind::Generic => own(&s.outputs),
    };
    let mut versions: Vec<String> = Vec::new();
    versions.push(MODEL_VERSION.to_owned());
    proof {
        assert(views(versions@) =~= seq![MODEL_VERSION@]);
    }
    ModelMeta {
        name: s.name.clone(),
        versions,
        platform: s.provider_id.clone(),
        inputs,
        outputs,
        properties: properties(s),
    }
}

/// The named element type of every carried datatype is the one of that name.
pub proof fn datatypes_read_back(d: DType)
    requires
        dtype_named(datatype_text(d)) is Ok,
    ensures
        dtype_named(datatype_text(d)) == Ok::<DType, ErrorView>(d),
{
    reveal_strlit("BOOL");
    reveal_strlit("UINT8");
    reveal_strlit("UINT16");
    reveal_strlit("UINT32");
    reveal_strlit("UINT64");
    reveal_strlit("INT8");
    reveal_strlit("INT16");
    reveal_strlit("INT32");
    reveal_strlit("INT64");
    reveal_strlit("FP16");
    reveal_strlit("BF16");
    reveal_strlit("FP32");
    reveal_strlit("FP64");
    reveal_strlit("BYTES");
    assert("UINT8"@[0] == 'U' && "UINT16"@[4] == '1' && "INT8"@[0] == 'I');
    assert("UINT32"@[4] == '3' && "UINT64"@[4] == '6' && "INT32"@[3] == '3' && "INT64"@[3] == '6');
    assert("INT16"@[3] == '1' && "FP16"@[2] == '1' && "FP32"@[2] == '3' && "FP64"@[2] == '6');
    assert("BOOL"@[1] == 'O' && "BF16"@[1] == 'F' && "FP16"@[0] == 'F' && "BYTES"@[0] == 'B');
}

/// Where a parameter of this name first stands, from place `i` on; the length if
/// nowhere.
pub open spec fn param_place(params: Seq<(String, Param)>, name: Seq<char>, i: int) -> int
    decreases params.len() - i,
{
    if 0 <= i < params.len() && params[i].0@ != name {
        param_place(params, name, i + 1)
    } else {
        i
    }
}

/// The parameter of this name.
pub open spec fn param_named(params: Seq<(String, Param)>, name: Seq<char>) -> Option<Param> {
    let at = param_place(params, name, 0);
    if at < params.len() {
        Some(params[at].1)
    } else {
        None
    }
}

/// The parameter of this name.
fn param<'a>(params: &'a Params, name: &str) -> (r: Option<&'a Param>)
    ensures
        match param_named(params@, name@) {
            Some(p) => r is Some && *r->0 == p,
            None => r is None,
        },
{
    let mut i: usize = 0;
    while i < params.len() && !same(params[i].0.as_str(), name)
        invariant
            i <= params.len(),
            param_place(params@, name@, i as int) == param_place(params@, name@, 0),
        decreases params.len() - i,
    {
        i = i + 1;
    }
    if i < params.len() {
        Some(&params[i].1)
    } else {
        None
    }
}

/// The parameter of this name as the text that the option parsers read.
pub open spec fn param_str_named(params: Seq<(String, Param)>, name: Seq<char>) -> Option<Seq<char>> {
    match param_named(params, name) {
        Some(p) => Some(param_text(p)),
        None => None,
    }
}

/// The parameter of this name as text.
fn param_str(params: &Params, name: &str) -> (r: Option<String>)
    ensures
        opt_view(r) == param_str_named(params@, name@),
{
    match param(params, name) {
        Some(p) => Some(p.as_str()),
        None => None,
    }
}

/// The parameter of this name as an unsigned number, or its refusal.
pub open spec fn u32_named(params: Seq<(String, Param)>, name: Seq<char>, field: Field) -> Result<
    Option<u32>,
    ErrorView,
> {
    match param_named(params, name) {
        None => Ok(None),
        Some(p) => match p {
            Param::Str(s) => match unsigned_value(s@, u32::MAX as nat) {
                Some(n) => Ok(Some(n as u32)),
                None => Err(
                    on_field(
                        Class::BadRequest,
                        field,
                        "parameter `"@ + name + "` `"@ + s@ + "`: "@ + u32_fault(s@),
                    ),
                ),
            },
            _ => match whole_number(p) {
                Some(n) => if n <= u32::MAX {
                    Ok(Some(n as u32))
                } else {
                    Err(not_whole(name, field, p))
                },
                None => Err(not_whole(name, field, p)),
            },
        },
    }
}

/// A value that is a number without a sign.
pub open spec fn whole_number(p: Param) -> Option<nat> {
    match p {
        Param::Int(i) => if i >= 0 {
            Some(i as nat)
        } else {
            None
        },
        Param::Uint(u) => Some(u as nat),
        _ => None,
    }
}

/// The refusal of a value that is no unsigned number.
pub open spec fn not_whole(name: Seq<char>, field: Field, p: Param) -> ErrorView {
    on_field(
        Class::BadRequest,
        field,
        "parameter `"@ + name + "` must be a non-negative integer, not "@ + param_debug(p),
    )
}

/// The parameter of this name as an unsigned number.
fn param_u32(params: &Params, name: &str, field: Field) -> (r: Result<Option<u32>, Error>)
    ensures
        agrees_plain(r, u32_named(params@, name@, field)),
{
    let p = match param(params, name) {
        None => return Ok(None),
        Some(p) => p,
    };
    match p {
        Param::Str(s) => return match parse_u32(s.as_str()) {
            Ok(n) => Ok(Some(n)),
            Err(e) => Err(
                Error::on_field(
                    Class::BadRequest,
                    field,
                    cat6("parameter `", name, "` `", s.as_str(), "`: ", e.as_str()),
                ),
            ),
        },
        Param::Int(i) => if *i >= 0 && *i <= 0xffff_ffff {
            return Ok(Some(*i as u32));
        },
        Param::Uint(u) => if *u <= 0xffff_ffff {
            return Ok(Some(*u as u32));
        },
        _ => {},
    }
    Err(
        Error::on_field(
            Class::BadRequest,
            field,
            cat4("parameter `", name, "` must be a non-negative integer, not ", p.debug().as_str()),
        ),
    )
}

/// A number that a setting is read from; the setting is the nearest
/// single-precision number.
#[derive(Clone, Copy, Debug, PartialEq, Eq, Structural)]
pub enum Number {
    /// The bits of a double-precision number.
    Double(u64),
    Int(i64),
    Uint(u64),
    /// The bits of the single-precision number that a text reads as.
    Single(u32),
}

/// A text and the bits of the single-precision number that it reads as, or why it
/// reads as none.
#[derive(Debug)]
pub struct Reading {
    pub text: String,
    pub value: Result<u32, String>,
}

/// What a text reads as: what the first reading of it says; no number where there
/// is none.
pub open spec fn reading_of(readings: Seq<Reading>, s: Seq<char>, i: int) -> Result<u32, Seq<char>>
    decreases readings.len() - i,
{
    if i < 0 || i >= readings.len() {
        Err("invalid float literal"@)
    } else if readings[i].text@ == s {
        match readings[i].value {
            Ok(b) => Ok(b),
            Err(e) => Err(e@),
        }
    } else {
        reading_of(readings, s, i + 1)
    }
}

/// What a text reads as.
fn read_single(readings: &Vec<Reading>, s: &str) -> (r: Result<u32, String>)
    ensures
        match reading_of(readings@, s@, 0) {
            Ok(b) => r == Ok::<u32, String>(b),
            Err(e) => r is Err && r->Err_0@ == e,
        },
{
    let mut i: usize = 0;
    while i < readings.len() && !same(readings[i].text.as_str(), s)
        invariant
            i <= readings.len(),
            reading_of(readings@, s@, i as int) == reading_of(readings@, s@, 0),
        decreases readings.len() - i,
    {
        i = i + 1;
    }
    if i < readings.len() {
        match &readings[i].value {
            Ok(b) => Ok(*b),
            Err(e) => Err(e.clone()),
        }
    } else {
        Err("invalid float literal".to_owned())
    }
}

/// The parameter of this name as a number, or its refusal.
pub open spec fn number_named(
    params: Seq<(String, Param)>,
    readings: Seq<Reading>,
    name: Seq<char>,
    field: Field,
) -> Result<Option<Number>, ErrorView> {
    match param_named(params, name) {
        None => Ok(None),
        Some(p) => match p {
            Param::Double(d) => Ok(Some(Number::Double(d.bits))),
            Param::Int(i) => Ok(Some(Number::Int(i))),
            Param::Uint(u) => Ok(Some(Number::Uint(u))),
            Param::Str(s) => match reading_of(readings, s@, 0) {
                Ok(b) => Ok(Some(Number::Single(b))),
                Err(e) => Err(
                    on_field(
                        Class::BadRequest,
                        field,
                        "parameter `"@ + name + "` `"@ + s@ + "`: "@ + e,
                    ),
                ),
            },
            Param::Bool(_) => Err(
                on_field(
                    Class::BadRequest,
                    field,
                    "parameter `"@ + name + "` must be a number, not "@ + param_debug(p),
                ),
            ),
        },
    }
}

/// The parameter of this name as a number.
fn param_f32(params: &Params, readings: &Vec<Reading>, name: &str, field: Field) -> (r: Result<
    Option<Number>,
    Error,
>)
    ensures
        agrees_plain(r, number_named(params@, readings@, name@, field)),
{
    match param(params, name) {
        None => Ok(None),
        Some(p) => match p {
            Param::Double(d) => Ok(Some(Number::Double(d.bits))),
            Param::Int(i) => Ok(Some(Number::Int(*i))),
            Param::Uint(u) => Ok(Some(Number::Uint(*u))),
            Param::Str(s) => match read_single(readings, s.as_str()) {
                Ok(b) => Ok(Some(Number::Single(b))),
                Err(e) => Err(
                    Error::on_field(
                        Class::BadRequest,
                        field,
                        cat6("parameter `", name, "` `", s.as_str(), "`: ", e.as_str()),
                    ),
                ),
            },
            Param::Bool(_) => Err(
                Error::on_field(
                    Class::BadRequest,
                    field,
                    cat4("parameter `", name, "` must be a number, not ", p.debug().as_str()),
                ),
            ),
        },
    }
}

/// The parameter of this name as a flag, or its refusal.
pub open spec fn bool_named(params: Seq<(String, Param)>, name: Seq<char>, field: Field) -> Result<
    Option<bool>,
    ErrorView,
> {
    match param_named(params, name) {
        None => Ok(None),
        Some(p) => match p {
            Param::Bool(b) => Ok(Some(b)),
            Param::Int(i) => Ok(Some(i != 0)),
            Param::Str(s) => if s@ == "true"@ || s@ == "1"@ {
                Ok(Some(true))
            } else if s@ == "false"@ || s@ == "0"@ {
                Ok(Some(false))
            } else {
                Err(
                    on_field(
                        Class::BadRequest,
                        field,
                        "parameter `"@ + name + "` `"@ + s@ + "` is not true or false"@,
                    ),
                )
            },
            _ => Err(
                on_field(
                    Class::BadRequest,
                    field,
                    "parameter `"@ + name + "` must be a boolean, not "@ + param_debug(p),
                ),
            ),
        },
    }
}

/// The parameter of this name as a flag.
fn param_bool(params: &Params, name: &str, field: Field) -> (r: Result<Option<bool>, Error>)
    ensures
        agrees_plain(r, bool_named(params@, name@, field)),
{
    match param(params, name) {
        None => Ok(None),
        Some(p) => match p {
            Param::Bool(b) => Ok(Some(*b)),
            Param::Int(i) => Ok(Some(*i != 0)),
            Param::Str(s) => if same(s.as_str(), "true") || same(s.as_str(), "1") {
                Ok(Some(true))
            } else if same(s.as_str(), "false") || same(s.as_str(), "0") {
                Ok(Some(false))
            } else {
                Err(
                    Error::on_field(
                        Class::BadRequest,
                        field,
                        cat5("parameter `", name, "` `", s.as_str(), "` is not true or false"),
                    ),
                )
            },
            _ => Err(
                Error::on_field(
                    Class::BadRequest,
                    field,
                    cat4("parameter `", name, "` must be a boolean, not ", p.debug().as_str()),
                ),
            ),
        },
    }
}

/// The value, or another where there is none.
pub open spec fn or_else<T>(v: Option<T>, other: T) -> T {
    match v {
        Some(x) => x,
        None => other,
    }
}

/// The embedding options of parameters, or the first refusal.
pub open spec fn embed_options_of(params: Seq<(String, Param)>) -> Result<EmbedOptions, ErrorView> {
    match truncate_value(param_str_named(params, "truncate"@)) {
        Err(e) => Err(e),
        Ok(truncate) => match u32_named(params, "max_tokens"@, Field::EmbedMaxTokens) {
            Err(e) => Err(e),
            Ok(max_tokens) => match prompt_role_value(param_str_named(params, "prompt_role"@)) {
                Err(e) => Err(e),
                Ok(prompt_role) => match normalize_value(param_str_named(params, "normalize"@)) {
                    Err(e) => Err(e),
                    Ok(normalize) => match pooling_value(param_str_named(params, "pooling"@)) {
                        Err(e) => Err(e),
                        Ok(pooling) => match u32_named(params, "output_dim"@, Field::EmbedOutputDim) {
                            Err(e) => Err(e),
                            Ok(output_dim) => Ok(
                                EmbedOptions {
                                    truncate,
                                    max_tokens: or_else(max_tokens, 0),
                                    prompt_role,
                                    normalize,
                                    pooling,
                                    output_dim: or_else(output_dim, 0),
                                    output_dtype: OutputDtype::Model,
                                },
                            ),
                        },
                    },
                },
            },
        },
    }
}

/// The value, or 0.
fn or_zero(v: Option<u32>) -> (r: u32)
    ensures
        r == or_else(v, 0),
{
    match v {
        Some(n) => n,
        None => 0,
    }
}

/// Embedding options from parameters.
pub fn embed_options(params: &Params) -> (r: Result<EmbedOptions, Error>)
    ensures
        agrees_plain(r, embed_options_of(params@)),
{
    let truncate = match parse_truncate(&param_str(params, "truncate")) {
        Err(e) => return Err(e),
        Ok(v) => v,
    };
    let max_tokens = match param_u32(params, "max_tokens", Field::EmbedMaxTokens) {
        Err(e) => return Err(e),
        Ok(v) => v,
    };
    let prompt_role = match parse_prompt_role(&param_str(params, "prompt_role")) {
        Err(e) => return Err(e),
        Ok(v) => v,
    };
    let normalize = match parse_normalize(&param_str(params, "normalize")) {
        Err(e) => return Err(e),
        Ok(v) => v,
    };
    let pooling = match parse_pooling(&param_str(params, "pooling")) {
        Err(e) => return Err(e),
        Ok(v) => v,
    };
    let output_dim = match param_u32(params, "output_dim", Field::EmbedOutputDim) {
        Err(e) => return Err(e),
        Ok(v) => v,
    };
    Ok(
        EmbedOptions {
            truncate,
            max_tokens: or_zero(max_tokens),
            prompt_role,
            normalize,
            pooling,
            output_dim: or_zero(output_dim),
            output_dtype: OutputDtype::Model,
        },
    )
}

/// The reranking options of parameters, or the first refusal.
pub open spec fn rerank_options_of(params: Seq<(String, Param)>) -> Result<RerankOptions, ErrorView> {
    match truncate_value(param_str_named(params, "truncate"@)) {
        Err(e) => Err(e),
        Ok(truncate) => match u32_named(params, "max_tokens"@, Field::RerankMaxTokens) {
            Err(e) => Err(e),
            Ok(max_tokens) => match u32_named(params, "top_n"@, Field::RerankTopN) {
                Err(e) => Err(e),
                Ok(top_n) => match bool_named(params, "raw_scores"@, Field::RerankRawScores) {
                    Err(e) => Err(e),
                    Ok(raw_scores) => Ok(
                        RerankOptions {
                            truncate,
                            max_tokens: or_else(max_tokens, 0),
                            top_n: or_else(top_n, 0),
                            return_sorted: true,
                            raw_scores: or_else(raw_scores, false),
                        },
                    ),
                },
            },
        },
    }
}

/// The flag, or unset.
fn or_unset(v: Option<bool>) -> (r: bool)
    ensures
        r == or_else(v, false),
{
    match v {
        Some(b) => b,
        None => false,
    }
}

/// Reranking options from parameters.
pub fn rerank_options(params: &Params) -> (r: Result<RerankOptions, Error>)
    ensures
        agrees_plain(r, rerank_options_of(params@)),
{
    let truncate = match parse_truncate(&param_str(params, "truncate")) {
        Err(e) => return Err(e),
        Ok(v) => v,
    };
    let max_tokens = match param_u32(params, "max_tokens", Field::RerankMaxTokens) {
        Err(e) => return Err(e),
        Ok(v) => v,
    };
    let top_n = match param_u32(params, "top_n", Field::RerankTopN) {
        Err(e) => return Err(e),
        Ok(v) => v,
    };
    let raw_scores = match param_bool(params, "raw_scores", Field::RerankRawScores) {
        Err(e) => return Err(e),
        Ok(v) => v,
    };
    Ok(
        RerankOptions {
            truncate,
            max_tokens: or_zero(max_tokens),
            top_n: or_zero(top_n),
            return_sorted: true,
            raw_scores: or_unset(raw_scores),
        },
    )
}

/// The classification options of parameters, or the first refusal.
pub open spec fn classify_options_of(params: Seq<(String, Param)>) -> Result<
    ClassifyOptions,
    ErrorView,
> {
    match truncate_value(param_str_named(params, "truncate"@)) {
        Err(e) => Err(e),
        Ok(truncate) => match u32_named(params, "max_tokens"@, Field::ClassifyMaxTokens) {
            Err(e) => Err(e),
            Ok(max_tokens) => match aggregation_value(param_str_named(params, "aggregation"@)) {
                Err(e) => Err(e),
                Ok(aggregation) => match bool_named(params, "raw_scores"@, Field::ClassifyRawScores) {
                    Err(e) => Err(e),
                    Ok(raw_scores) => Ok(
                        ClassifyOptions {
                            truncate,
                            max_tokens: or_else(max_tokens, 0),
                            aggregation,
                            raw_scores: or_else(raw_scores, false),
                        },
                    ),
                },
            },
        },
    }
}

/// Classification options from parameters.
pub fn classify_options(params: &Params) -> (r: Result<ClassifyOptions, Error>)
    ensures
        agrees_plain(r, classify_options_of(params@)),
{
    let truncate = match parse_truncate(&param_str(params, "truncate")) {
        Err(e) => return Err(e),
        Ok(v) => v,
    };
    let max_tokens = match param_u32(params, "max_tokens", Field::ClassifyMaxTokens) {
        Err(e) => return Err(e),
        Ok(v) => v,
    };
    let aggregation = match parse_aggregation(&param_str(params, "aggregation")) {
        Err(e) => return Err(e),
        Ok(v) => v,
    };
    let raw_scores = match param_bool(params, "raw_scores", Field::ClassifyRawScores) {
        Err(e) => return Err(e),
        Ok(v) => v,
    };
    Ok(
        ClassifyOptions {
            truncate,
            max_tokens: or_zero(max_tokens),
            aggregation,
            raw_scores: or_unset(raw_scores),
        },
    )
}

/// What a request asks of a generation; the rest is the default's.
#[derive(Debug)]
pub struct Generate {
    pub max_new_tokens: Option<u32>,
    pub min_new_tokens: Option<u32>,
    pub temperature: Option<Number>,
    pub top_p: Option<Number>,
    pub top_k: Option<u32>,
    pub repeat_penalty: Option<Number>,
    pub seed: Option<u64>,
    pub stop: Vec<String>,
}

/// What a request asks of a generation, with its texts as characters.
pub struct GenerateView {
    pub max_new_tokens: Option<u32>,
    pub min_new_tokens: Option<u32>,
    pub temperature: Option<Number>,
    pub top_p: Option<Number>,
    pub top_k: Option<u32>,
    pub repeat_penalty: Option<Number>,
    pub seed: Option<u64>,
    pub stop: Seq<Seq<char>>,
}

impl View for Generate {
    type V = GenerateView;

    open spec fn view(&self) -> GenerateView {
        GenerateView {
            max_new_tokens: self.max_new_tokens,
            min_new_tokens: self.min_new_tokens,
            temperature: self.temperature,
            top_p: self.top_p,
            top_k: self.top_k,
            repeat_penalty: self.repeat_penalty,
            seed: self.seed,
            stop: views(self.stop@),
        }
    }
}

/// The seed of a generation, or its refusal.
pub open spec fn seed_of(params: Seq<(String, Param)>) -> Result<Option<u64>, ErrorView> {
    match param_named(params, "seed"@) {
        None => Ok(None),
        Some(p) => match p {
            Param::Str(s) => match unsigned_value(s@, u64::MAX as nat) {
                Some(n) => Ok(Some(n as u64)),
                None => Err(
                    on_field(
                        Class::BadRequest,
                        Field::GenerateSeed,
                        "seed `"@ + s@ + "`: "@ + u64_fault(s@),
                    ),
                ),
            },
            _ => match whole_number(p) {
                Some(n) => Ok(Some(n as u64)),
                None => Err(
                    on_field(
                        Class::BadRequest,
                        Field::GenerateSeed,
                        "seed must be a non-negative integer, not "@ + param_debug(p),
                    ),
                ),
            },
        },
    }
}

/// The seed of a generation.
fn read_seed(params: &Params) -> (r: Result<Option<u64>, Error>)
    ensures
        agrees_plain(r, seed_of(params@)),
{
    let p = match param(params, "seed") {
        None => return Ok(None),
        Some(p) => p,
    };
    match p {
        Param::Int(i) => if *i >= 0 {
            return Ok(Some(*i as u64));
        },
        Param::Uint(u) => return Ok(Some(*u)),
        Param::Str(s) => return match parse_u64(s.as_str()) {
            Ok(n) => Ok(Some(n)),
            Err(e) => Err(
                Error::on_field(
                    Class::BadRequest,
                    Field::GenerateSeed,
                    cat4("seed `", s.as_str(), "`: ", e.as_str()),
                ),
            ),
        },
        _ => {},
    }
    Err(
        Error::on_field(
            Class::BadRequest,
            Field::GenerateSeed,
            cat2("seed must be a non-negative integer, not ", p.debug().as_str()),
        ),
    )
}

/// The first `n` of the parts that are not empty.
pub open spec fn not_empty(parts: Seq<Seq<char>>, n: int) -> Seq<Seq<char>>
    decreases n,
{
    if n <= 0 {
        Seq::empty()
    } else if parts[n - 1].len() > 0 {
        not_empty(parts, n - 1).push(parts[n - 1])
    } else {
        not_empty(parts, n - 1)
    }
}

/// The stop strings of a text: its parts between unit separators that are not
/// empty, or the text itself where all are.
pub open spec fn stop_strings(s: Seq<char>) -> Seq<Seq<char>> {
    let parts = split_on(s, '\u{1f}');
    let kept = not_empty(parts, parts.len() as int);
    if kept.len() == 0 {
        seq![s]
    } else {
        kept
    }
}

/// The stop strings of a text.
fn split_stop(s: &str) -> (r: Vec<String>)
    ensures
        views(r@) == stop_strings(s@),
{
    let parts = split_of(s, '\u{1f}');
    let ghost p = views(parts@);
    let mut out: Vec<String> = Vec::new();
    let mut i: usize = 0;
    proof {
        assert(views(out@) =~= Seq::empty());
    }
    while i < parts.len()
        invariant
            i <= parts.len(),
            p == views(parts@),
            views(out@) == not_empty(p, i as int),
        decreases parts.len() - i,
    {
        proof {
            assert(p[i as int] == parts@[i as int]@);
        }
        if !parts[i].as_str().is_empty() {
            let ghost before = views(out@);
            out.push(parts[i].clone());
            proof {
                assert(views(out@) =~= before.push(p[i as int]));
            }
        }
        i = i + 1;
    }
    if out.len() == 0 {
        proof {
            assert(views(out@).len() == 0);
        }
        let mut whole: Vec<String> = Vec::new();
        whole.push(s.to_owned());
        proof {
            assert(views(whole@) =~= seq![s@]);
        }
        return whole;
    }
    proof {
        assert(views(out@).len() > 0);
    }
    out
}

/// What parameters ask of a generation, or the first refusal.
pub open spec fn generate_of(params: Seq<(String, Param)>, readings: Seq<Reading>) -> Result<
    GenerateView,
    ErrorView,
> {
    match u32_named(params, "max_new_tokens"@, Field::GenerateMaxNewTokens) {
        Err(e) => Err(e),
        Ok(max_new_tokens) => match u32_named(
            params,
            "min_new_tokens"@,
            Field::GenerateMinNewTokens,
        ) {
            Err(e) => Err(e),
            Ok(min_new_tokens) => match number_named(
                params,
                readings,
                "temperature"@,
                Field::GenerateTemperature,
            ) {
                Err(e) => Err(e),
                Ok(temperature) => match number_named(
                    params,
                    readings,
                    "top_p"@,
                    Field::GenerateTopP,
                ) {
                    Err(e) => Err(e),
                    Ok(top_p) => match u32_named(params, "top_k"@, Field::GenerateTopK) {
                        Err(e) => Err(e),
                        Ok(top_k) => match number_named(
                            params,
                            readings,
                            "repeat_penalty"@,
                            Field::GenerateRepeatPenalty,
                        ) {
                            Err(e) => Err(e),
                            Ok(repeat_penalty) => match seed_of(params) {
                                Err(e) => Err(e),
                                Ok(seed) => Ok(
                                    GenerateView {
                                        max_new_tokens,
                                        min_new_tokens,
                                        temperature,
                                        top_p,
                                        top_k,
                                        repeat_penalty,
                                        seed,
                                        stop: match param_str_named(params, "stop"@) {
                                            Some(s) => stop_strings(s),
                                            None => Seq::empty(),
                                        },
                                    },
                                ),
                            },
                        },
                    },
                },
            },
        },
    }
}

/// What parameters ask of a generation; `readings` are what the texts among them
/// read as.
pub fn generate_desc(params: &Params, readings: &Vec<Reading>) -> (r: Result<Generate, Error>)
    ensures
        match generate_of(params@, readings@) {
            Ok(v) => r is Ok && r->Ok_0@ == v,
            Err(e) => r is Err && r->Err_0@ == e,
        },
{
    let max_new_tokens = match param_u32(params, "max_new_tokens", Field::GenerateMaxNewTokens) {
        Err(e) => return Err(e),
        Ok(v) => v,
    };
    let min_new_tokens = match param_u32(params, "min_new_tokens", Field::GenerateMinNewTokens) {
        Err(e) => return Err(e),
        Ok(v) => v,
    };
    let temperature = match param_f32(params, readings, "temperature", Field::GenerateTemperature) {
        Err(e) => return Err(e),
        Ok(v) => v,
    };
    let top_p = match param_f32(params, readings, "top_p", Field::GenerateTopP) {
        Err(e) => return Err(e),
        Ok(v) => v,
    };
    let top_k = match param_u32(params, "top_k", Field::GenerateTopK) {
        Err(e) => return Err(e),
        Ok(v) => v,
    };
    let repeat_penalty = match param_f32(
        params,
        readings,
        "repeat_penalty",
        Field::GenerateRepeatPenalty,
    ) {
        Err(e) => return Err(e),
        Ok(v) => v,
    };
    let seed = match read_seed(params) {
        Err(e) => return Err(e),
        Ok(v) => v,
    };
    let stop: Vec<String> = match param_str(params, "stop") {
        Some(s) => split_stop(s.as_str()),
        None => Vec::new(),
    };
    proof {
        if param_str_named(params@, "stop"@) is None {
            assert(views(stop@) =~= Seq::empty());
        }
    }
    Ok(
        Generate {
            max_new_tokens,
            min_new_tokens,
            temperature,
            top_p,
            top_k,
            repeat_penalty,
            seed,
            stop,
        },
    )
}

/// The product of the first `n` extents; none where 64 bits do not hold it, or that
/// of fewer extents.
pub open spec fn elements_of(shape: Seq<i64>, n: int) -> Option<i64>
    decreases n,
{
    if n <= 0 {
        Some(1)
    } else {
        match elements_of(shape, n - 1) {
            None => None,
            Some(m) => if i64::MIN <= m * shape[n - 1] <= i64::MAX {
                Some((m * shape[n - 1]) as i64)
            } else {
                None
            },
        }
    }
}

/// A product that does not fit is not made to fit by more extents.
proof fn elements_overflow_stays(shape: Seq<i64>, i: int, n: int)
    requires
        0 <= i <= n,
    ensures
        elements_of(shape, i) is None ==> elements_of(shape, n) is None,
    decreases n,
{
    if i < n {
        elements_overflow_stays(shape, i, n - 1);
    }
}

/// The product of the extents, where 64 bits hold it.
pub fn elements(shape: &Vec<i64>) -> (r: Option<i64>)
    ensures
        r == elements_of(shape@, shape.len() as int),
{
    let mut n: i64 = 1;
    let mut i: usize = 0;
    while i < shape.len()
        invariant
            i <= shape.len(),
            elements_of(shape@, i as int) == Some(n),
        decreases shape.len() - i,
    {
        proof {
            elements_overflow_stays(shape@, i + 1, shape.len() as int);
        }
        match n.checked_mul(shape[i]) {
            None => return None,
            Some(m) => {
                n = m;
            },
        }
        i = i + 1;
    }
    Some(n)
}

/// The refusal of a shape with more elements than 64 bits count.
pub open spec fn too_many(name: Seq<char>, shape: Seq<i64>) -> ErrorView {
    plain(
        Class::BadRequest,
        "input `"@ + name + "` declares shape "@ + bracketed(shape)
            + ", which has more elements than can be counted"@,
    )
}

/// The refusal of a shape with more elements than 64 bits count.
pub fn too_many_of(name: &str, shape: &Vec<i64>) -> (r: Error)
    ensures
        r@ == too_many(name@, shape@),
{
    Error::plain(
        Class::BadRequest,
        cat5(
            "input `",
            name,
            "` declares shape ",
            bracketed_of(shape).as_str(),
            ", which has more elements than can be counted",
        ),
    )
}

/// The first `n` of the byte strings as texts, or the first refusal.
pub open spec fn decoded(name: Seq<char>, items: Seq<Seq<u8>>, n: int) -> Result<
    Seq<Seq<char>>,
    ErrorView,
>
    decreases n,
{
    if n <= 0 {
        Ok(Seq::empty())
    } else {
        match decoded(name, items, n - 1) {
            Err(e) => Err(e),
            Ok(v) => if valid_utf8(items[n - 1]) {
                Ok(v.push(decode_utf8(items[n - 1])))
            } else {
                Err(
                    plain(
                        Class::BadRequest,
                        "input `"@ + name + "`["@ + decimal((n - 1) as nat) + "] is not UTF-8: "@
                            + utf8_error(items[n - 1]),
                    ),
                )
            },
        }
    }
}

/// The texts of a tensor, or the refusal.
pub open spec fn texts_of(t: Tensor) -> Result<Seq<Seq<char>>, ErrorView> {
    if t.datatype@ != "BYTES"@ {
        Err(
            plain(
                Class::BadRequest,
                "input `"@ + t.name@ + "` must be datatype BYTES, not "@ + t.datatype@,
            ),
        )
    } else {
        match t.data {
            Data::Bytes(items) => {
                match elements_of(t.shape@, t.shape.len() as int) {
                    None => Err(too_many(t.name@, t.shape@)),
                    Some(declared) => if t.shape.len() > 0 && declared != items.len() {
                        Err(
                            plain(
                                Class::BadRequest,
                                "input `"@ + t.name@ + "` declares shape "@ + bracketed(t.shape@) + " ("@
                                    + signed_decimal(declared as int) + " elements) but carries "@ + (
                                decimal(items.len() as nat) + " strings"@),
                            ),
                        )
                    } else {
                        decoded(t.name@, byte_views(items@), items.len() as int)
                    },
                }
            },
            _ => Err(
                plain(
                    Class::BadRequest,
                    "input `"@ + t.name@ + "` is declared BYTES but carries "@ + data_type(t.data),
                ),
            ),
        }
    }
}

/// A refused element decides the whole.
proof fn decode_refusal_stays(name: Seq<char>, items: Seq<Seq<u8>>, i: int, n: int)
    requires
        0 <= i <= n,
    ensures
        decoded(name, items, i) is Err ==> decoded(name, items, n) == decoded(name, items, i),
    decreases n,
{
    if i < n {
        decode_refusal_stays(name, items, i, n - 1);
    }
}

/// The texts of a `BYTES` tensor.
pub fn texts(t: &Tensor) -> (r: Result<Vec<String>, Error>)
    ensures
        match texts_of(*t) {
            Ok(v) => r is Ok && views(r->Ok_0@) == v,
            Err(e) => r is Err && r->Err_0@ == e,
        },
{
    if !same(t.datatype.as_str(), "BYTES") {
        return Err(
            Error::plain(
                Class::BadRequest,
                cat4(
                    "input `",
                    t.name.as_str(),
                    "` must be datatype BYTES, not ",
                    t.datatype.as_str(),
                ),
            ),
        );
    }
    let items = match &t.data {
        Data::Bytes(items) => items,
        _ => return Err(
            Error::plain(
                Class::BadRequest,
                cat4(
                    "input `",
                    t.name.as_str(),
                    "` is declared BYTES but carries ",
                    t.data.datatype(),
                ),
            ),
        ),
    };
    let declared = match elements(&t.shape) {
        None => return Err(too_many_of(t.name.as_str(), &t.shape)),
        Some(n) => n,
    };
    if t.shape.len() > 0 && declared as i128 != items.len() as i128 {
        return Err(
            Error::plain(
                Class::BadRequest,
                cat8(
                    "input `",
                    t.name.as_str(),
                    "` declares shape ",
                    bracketed_of(&t.shape).as_str(),
                    " (",
                    signed_of(declared).as_str(),
                    " elements) but carries ",
                    cat2(decimal_of(items.len() as u128).as_str(), " strings").as_str(),
                ),
            ),
        );
    }
    let ghost b = byte_views(items@);
    let mut out: Vec<String> = Vec::new();
    let mut i: usize = 0;
    proof {
        assert(views(out@) =~= Seq::empty());
    }
    while i < items.len()
        invariant
            i <= items.len(),
            b == byte_views(items@),
            texts_of(*t) == decoded(t.name@, b, items.len() as int),
            decoded(t.name@, b, i as int) == Ok::<Seq<Seq<char>>, ErrorView>(views(out@)),
        decreases items.len() - i,
    {
        proof {
            decode_refusal_stays(t.name@, b, i + 1, items.len() as int);
            assert(b[i as int] == items@[i as int]@);
        }
        match text_from_utf8(&items[i]) {
            Ok(s) => {
                let ghost before = views(out@);
                let ghost text = s@;
                out.push(s);
                proof {
                    assert(views(out@) =~= before.push(text));
                }
            },
            Err(e) => return Err(
                Error::plain(
                    Class::BadRequest,
                    cat6(
                        "input `",
                        t.name.as_str(),
                        "`[",
                        decimal_of(i as u128).as_str(),
                        "] is not UTF-8: ",
                        e.as_str(),
                    ),
                ),
            ),
        }
        i = i + 1;
    }
    Ok(out)
}

/// Numbers as 64-bit words.
pub open spec fn words_u32(v: Seq<u32>) -> Seq<u64> {
    Seq::new(v.len(), |i: int| v[i] as u64)
}

/// Signed numbers as the words of their bits.
pub open spec fn words_i32(v: Seq<i32>) -> Seq<u64> {
    Seq::new(v.len(), |i: int| unsigned32(v[i]) as u64)
}

/// Signed numbers as the words of their bits.
pub open spec fn words_i64(v: Seq<i64>) -> Seq<u64> {
    Seq::new(v.len(), |i: int| unsigned64(v[i]))
}

/// Flags as words.
pub open spec fn words_bool(v: Seq<bool>) -> Seq<u64> {
    Seq::new(
        v.len(),
        |i: int|
            if v[i] {
                1u64
            } else {
                0u64
            },
    )
}

/// Words as numbers of 32 bits.
pub open spec fn as_words32(v: Seq<u64>) -> Seq<u32> {
    Seq::new(v.len(), |i: int| v[i] as u32)
}

/// Words as signed numbers of 32 bits.
pub open spec fn as_signed32(v: Seq<u64>) -> Seq<i32> {
    Seq::new(v.len(), |i: int| signed32(v[i] as u32))
}

/// Words as signed numbers of 64 bits.
pub open spec fn as_signed64(v: Seq<u64>) -> Seq<i64> {
    Seq::new(v.len(), |i: int| signed64(v[i]))
}

/// Little-endian bytes of words.
pub open spec fn packed(v: Seq<u64>, n: nat) -> Seq<u8> {
    written_all(v, n, v.len() as int)
}

/// The words of little-endian bytes.
pub open spec fn unpacked(b: Seq<u8>, n: nat) -> Seq<u64> {
    as_u64(le_values(b, n as int))
}

/// Typed contents as little-endian bytes of an element type, or the refusal.
pub open spec fn pack_of(d: Data, dtype: DType, name: Seq<char>) -> Result<Seq<u8>, ErrorView> {
    match (d, dtype) {
        (Data::Fp32(v), DType::F32) => Ok(packed(words_u32(v@), 4)),
        (Data::Fp64(v), DType::F64) => Ok(packed(v@, 8)),
        (Data::Int32(v), DType::I32) => Ok(packed(words_i32(v@), 4)),
        (Data::Int64(v), DType::I64) => Ok(packed(words_i64(v@), 8)),
        (Data::Uint32(v), DType::U32) => Ok(packed(words_u32(v@), 4)),
        (Data::Uint64(v), DType::U64) => Ok(packed(v@, 8)),
        (Data::Bool(v), DType::Bool) => Ok(packed(words_bool(v@), 1)),
        (Data::Bytes(_), DType::Bytes) => Err(
            plain(
                Class::BadRequest,
                "input `"@ + name + "`: BYTES inputs are not bound to generic models"@,
            ),
        ),
        _ => Err(
            plain(
                Class::BadRequest,
                "input `"@ + name + "` is declared "@ + datatype_text(dtype) + " but carries "@
                    + data_type(d),
            ),
        ),
    }
}

/// Little-endian bytes of an element type as typed contents, or the refusal.
pub open spec fn unpack_of(b: Seq<u8>, dtype: DType) -> Result<DataView, ErrorView> {
    match dtype {
        DType::F32 => Ok(DataView::Fp32(as_words32(unpacked(b, 4)))),
        DType::F64 => Ok(DataView::Fp64(unpacked(b, 8))),
        DType::I32 => Ok(DataView::Int32(as_signed32(unpacked(b, 4)))),
        DType::I64 => Ok(DataView::Int64(as_signed64(unpacked(b, 8)))),
        DType::U32 => Ok(DataView::Uint32(as_words32(unpacked(b, 4)))),
        DType::U64 => Ok(DataView::Uint64(unpacked(b, 8))),
        DType::Bool => Ok(DataView::Bool(Seq::new(b.len(), |i: int| b[i] != 0))),
        _ => Err(
            plain(
                Class::UnsupportedDtype,
                "output dtype "@ + dtype_text(dtype)
                    + " is not carried as typed contents by this server"@,
            ),
        ),
    }
}

/// Numbers as words.
fn from_u32(v: &Vec<u32>) -> (r: Vec<u64>)
    ensures
        r@ == words_u32(v@),
{
    let mut out: Vec<u64> = Vec::new();
    let mut i: usize = 0;
    while i < v.len()
        invariant
            i <= v.len(),
            out.len() == i,
            forall|j: int| 0 <= j < i ==> (#[trigger] out@[j]) == v@[j],
        decreases v.len() - i,
    {
        out.push(v[i] as u64);
        i = i + 1;
    }
    proof {
        assert(out@ =~= words_u32(v@));
    }
    out
}

/// Signed numbers as words.
fn from_i32(v: &Vec<i32>) -> (r: Vec<u64>)
    ensures
        r@ == words_i32(v@),
{
    let mut out: Vec<u64> = Vec::new();
    let mut i: usize = 0;
    while i < v.len()
        invariant
            i <= v.len(),
            out.len() == i,
            forall|j: int| 0 <= j < i ==> (#[trigger] out@[j]) == unsigned32(v@[j]),
        decreases v.len() - i,
    {
        out.push(unsigned32_of(v[i]) as u64);
        i = i + 1;
    }
    proof {
        assert(out@ =~= words_i32(v@));
    }
    out
}

/// Signed numbers as words.
fn from_i64(v: &Vec<i64>) -> (r: Vec<u64>)
    ensures
        r@ == words_i64(v@),
{
    let mut out: Vec<u64> = Vec::new();
    let mut i: usize = 0;
    while i < v.len()
        invariant
            i <= v.len(),
            out.len() == i,
            forall|j: int| 0 <= j < i ==> (#[trigger] out@[j]) == unsigned64(v@[j]),
        decreases v.len() - i,
    {
        out.push(unsigned64_of(v[i]));
        i = i + 1;
    }
    proof {
        assert(out@ =~= words_i64(v@));
    }
    out
}

/// Flags as words.
fn from_bool(v: &Vec<bool>) -> (r: Vec<u64>)
    ensures
        r@ == words_bool(v@),
{
    let mut out: Vec<u64> = Vec::new();
    let mut i: usize = 0;
    while i < v.len()
        invariant
            i <= v.len(),
            out.len() == i,
            forall|j: int| 0 <= j < i ==> (#[trigger] out@[j]) == words_bool(v@)[j],
        decreases v.len() - i,
    {
        let w: u64 = if v[i] {
            1
        } else {
            0
        };
        out.push(w);
        i = i + 1;
    }
    proof {
        assert(out@ =~= words_bool(v@));
    }
    out
}

/// Words as numbers of 32 bits.
pub fn to_words32(v: &Vec<u64>) -> (r: Vec<u32>)
    requires
        forall|i: int| 0 <= i < v.len() ==> (#[trigger] v@[i]) <= u32::MAX,
    ensures
        r@ == as_words32(v@),
{
    let mut out: Vec<u32> = Vec::new();
    let mut i: usize = 0;
    while i < v.len()
        invariant
            i <= v.len(),
            out.len() == i,
            forall|j: int| 0 <= j < v.len() ==> (#[trigger] v@[j]) <= u32::MAX,
            forall|j: int| 0 <= j < i ==> (#[trigger] out@[j]) == v@[j] as u32,
        decreases v.len() - i,
    {
        out.push(v[i] as u32);
        i = i + 1;
    }
    proof {
        assert(out@ =~= as_words32(v@));
    }
    out
}

/// Words as signed numbers of 32 bits.
pub fn to_signed32(v: &Vec<u64>) -> (r: Vec<i32>)
    requires
        forall|i: int| 0 <= i < v.len() ==> (#[trigger] v@[i]) <= u32::MAX,
    ensures
        r@ == as_signed32(v@),
{
    let mut out: Vec<i32> = Vec::new();
    let mut i: usize = 0;
    while i < v.len()
        invariant
            i <= v.len(),
            out.len() == i,
            forall|j: int| 0 <= j < v.len() ==> (#[trigger] v@[j]) <= u32::MAX,
            forall|j: int| 0 <= j < i ==> (#[trigger] out@[j]) == signed32(v@[j] as u32),
        decreases v.len() - i,
    {
        out.push(signed32_of(v[i] as u32));
        i = i + 1;
    }
    proof {
        assert(out@ =~= as_signed32(v@));
    }
    out
}

/// Words as signed numbers of 64 bits.
pub fn to_signed64(v: &Vec<u64>) -> (r: Vec<i64>)
    ensures
        r@ == as_signed64(v@),
{
    let mut out: Vec<i64> = Vec::new();
    let mut i: usize = 0;
    while i < v.len()
        invariant
            i <= v.len(),
            out.len() == i,
            forall|j: int| 0 <= j < i ==> (#[trigger] out@[j]) == signed64(v@[j]),
        decreases v.len() - i,
    {
        out.push(signed64_of(v[i]));
        i = i + 1;
    }
    proof {
        assert(out@ =~= as_signed64(v@));
    }
    out
}

/// Bytes as flags.
pub fn to_flags(v: &Vec<u8>) -> (r: Vec<bool>)
    ensures
        r@ == Seq::new(v@.len(), |i: int| v@[i] != 0),
{
    let mut out: Vec<bool> = Vec::new();
    let mut i: usize = 0;
    while i < v.len()
        invariant
            i <= v.len(),
            out.len() == i,
            forall|j: int| 0 <= j < i ==> (#[trigger] out@[j]) == (v@[j] != 0),
        decreases v.len() - i,
    {
        out.push(v[i] != 0);
        i = i + 1;
    }
    proof {
        assert(out@ =~= Seq::new(v@.len(), |i: int| v@[i] != 0));
    }
    out
}

/// Typed contents as little-endian bytes of `dtype`.
pub fn pack(data: &Data, dtype: DType, name: &str) -> (r: Result<Vec<u8>, Error>)
    ensures
        match pack_of(*data, dtype, name@) {
            Ok(b) => r is Ok && r->Ok_0@ == b,
            Err(e) => r is Err && r->Err_0@ == e,
        },
{
    match (data, dtype) {
        (Data::Fp32(v), DType::F32) => Ok(write_all(&from_u32(v), 4)),
        (Data::Fp64(v), DType::F64) => Ok(write_all(v, 8)),
        (Data::Int32(v), DType::I32) => Ok(write_all(&from_i32(v), 4)),
        (Data::Int64(v), DType::I64) => Ok(write_all(&from_i64(v), 8)),
        (Data::Uint32(v), DType::U32) => Ok(write_all(&from_u32(v), 4)),
        (Data::Uint64(v), DType::U64) => Ok(write_all(v, 8)),
        (Data::Bool(v), DType::Bool) => Ok(write_all(&from_bool(v), 1)),
        (Data::Bytes(_), DType::Bytes) => Err(
            Error::plain(
                Class::BadRequest,
                cat3("input `", name, "`: BYTES inputs are not bound to generic models"),
            ),
        ),
        _ => Err(
            Error::plain(
                Class::BadRequest,
                cat6(
                    "input `",
                    name,
                    "` is declared ",
                    datatype_of(dtype),
                    " but carries ",
                    data.datatype(),
                ),
            ),
        ),
    }
}

/// Little-endian bytes of `dtype` as typed contents; bytes behind the last whole
/// element are left.
pub fn unpack(bytes: &Vec<u8>, dtype: DType) -> (r: Result<Data, Error>)
    ensures
        match unpack_of(bytes@, dtype) {
            Ok(d) => r is Ok && r->Ok_0@ == d,
            Err(e) => r is Err && r->Err_0@ == e,
        },
{
    proof {
        reveal_with_fuel(pow256, 5);
    }
    match dtype {
        DType::F32 => Ok(Data::Fp32(to_words32(&read_all(bytes, 4)))),
        DType::F64 => Ok(Data::Fp64(read_all(bytes, 8))),
        DType::I32 => Ok(Data::Int32(to_signed32(&read_all(bytes, 4)))),
        DType::I64 => Ok(Data::Int64(to_signed64(&read_all(bytes, 8)))),
        DType::U32 => Ok(Data::Uint32(to_words32(&read_all(bytes, 4)))),
        DType::U64 => Ok(Data::Uint64(read_all(bytes, 8))),
        DType::Bool => Ok(Data::Bool(to_flags(bytes))),
        _ => Err(
            Error::plain(
                Class::UnsupportedDtype,
                cat3(
                    "output dtype ",
                    dtype.text(),
                    " is not carried as typed contents by this server",
                ),
            ),
        ),
    }
}

/// What was packed is unpacked as it was.
pub proof fn packed_contents_read_back(d: Data, dtype: DType, name: Seq<char>)
    requires
        pack_of(d, dtype, name) is Ok,
    ensures
        unpack_of(pack_of(d, dtype, name)->Ok_0, dtype) == Ok::<DataView, ErrorView>(d@),
{
    reveal_with_fuel(pow256, 9);
    match (d, dtype) {
        (Data::Fp32(v), DType::F32) => {
            let w = words_u32(v@);
            write_all_reads_back(w, 4, w.len() as int);
            assert(w.take(w.len() as int) =~= w);
            assert(as_words32(w) =~= v@);
        },
        (Data::Fp64(v), DType::F64) => {
            write_all_reads_back(v@, 8, v.len() as int);
            assert(v@.take(v.len() as int) =~= v@);
        },
        (Data::Int32(v), DType::I32) => {
            let w = words_i32(v@);
            write_all_reads_back(w, 4, w.len() as int);
            assert(w.take(w.len() as int) =~= w);
            assert(as_signed32(w) =~= v@);
        },
        (Data::Int64(v), DType::I64) => {
            let w = words_i64(v@);
            write_all_reads_back(w, 8, w.len() as int);
            assert(w.take(w.len() as int) =~= w);
            assert(as_signed64(w) =~= v@);
        },
        (Data::Uint32(v), DType::U32) => {
            let w = words_u32(v@);
            write_all_reads_back(w, 4, w.len() as int);
            assert(w.take(w.len() as int) =~= w);
            assert(as_words32(w) =~= v@);
        },
        (Data::Uint64(v), DType::U64) => {
            write_all_reads_back(v@, 8, v.len() as int);
            assert(v@.take(v.len() as int) =~= v@);
        },
        (Data::Bool(v), DType::Bool) => {
            let w = words_bool(v@);
            flags_packed(w, w.len() as int);
            let b = packed(w, 1);
            assert(Seq::new(b.len(), |i: int| b[i] != 0) =~= v@);
        },
        _ => {},
    }
}

/// A flag takes one byte.
proof fn flags_packed(w: Seq<u64>, n: int)
    requires
        0 <= n <= w.len(),
        forall|i: int| 0 <= i < w.len() ==> (#[trigger] w[i]) <= 1,
    ensures
        written_all(w, 1, n).len() == n,
        forall|i: int| 0 <= i < n ==> (#[trigger] written_all(w, 1, n)[i]) == w[i],
    decreases n,
{
    if n > 0 {
        flags_packed(w, n - 1);
        reveal_with_fuel(crate::bytes::le_bytes, 2);
        let a = written_all(w, 1, n - 1);
        let last = crate::bytes::le_bytes(w[n - 1] as nat, 1);
        assert(last =~= seq![w[n - 1] as u8]);
        assert forall|i: int| 0 <= i < n implies (#[trigger] written_all(w, 1, n)[i]) == w[i] by {
            if i < n - 1 {
                assert(a[i] == w[i]);
            }
        }
    }
}

/// A parameter is the first that has its name.
pub proof fn a_parameter_is_the_first_of_its_name(params: Seq<(String, Param)>, name: Seq<char>, i: int)
    requires
        0 <= i < params.len(),
    ensures
        params[i].0@ == name && (forall|k: int| 0 <= k < i ==> (#[trigger] params[k]).0@ != name)
            ==> param_named(params, name) == Some(params[i].1),
        (forall|k: int| 0 <= k < params.len() ==> (#[trigger] params[k]).0@ != name) ==> param_named(
            params,
            name,
        ) is None,
{
    place_is_first(params, name, 0);
}

/// The place of a parameter is the first that has its name.
proof fn place_is_first(params: Seq<(String, Param)>, name: Seq<char>, i: int)
    requires
        0 <= i <= params.len(),
    ensures
        i <= param_place(params, name, i) <= params.len(),
        param_place(params, name, i) < params.len() ==> params[param_place(params, name, i)].0@ == name,
        forall|k: int| i <= k < param_place(params, name, i) ==> (#[trigger] params[k]).0@ != name,
    decreases params.len() - i,
{
    if i < params.len() && params[i].0@ != name {
        place_is_first(params, name, i + 1);
    }
}

/// However a whole number is given, as a number of either sign or as its digits, it is
/// the same number; what is negative, too large or no number is refused.
pub proof fn a_number_is_the_same_however_it_is_given(
    params: Seq<(String, Param)>,
    name: Seq<char>,
    field: Field,
    n: u32,
)
    ensures
        ({
            let r = u32_named(params, name, field);
            &&& param_named(params, name) is None ==> r == Ok::<Option<u32>, ErrorView>(None)
            &&& param_named(params, name) == Some(Param::Int(n as i64)) ==> r == Ok::<Option<u32>, ErrorView>(
                Some(n),
            )
            &&& param_named(params, name) == Some(Param::Uint(n as u64)) ==> r == Ok::<
                Option<u32>,
                ErrorView,
            >(Some(n))
            &&& param_named(params, name) matches Some(Param::Str(s)) ==> (s@ == decimal(n as nat) ==> r
                == Ok::<Option<u32>, ErrorView>(Some(n)))
            &&& param_named(params, name) matches Some(Param::Int(i)) ==> (r is Err <==> i < 0 || i
                > 0xffff_ffff)
            &&& param_named(params, name) matches Some(Param::Uint(u)) ==> (r is Err <==> u > 0xffff_ffff)
            &&& param_named(params, name) matches Some(Param::Bool(_)) ==> r is Err
            &&& param_named(params, name) matches Some(Param::Double(_)) ==> r is Err
        }),
{
    crate::text::a_decimal_reads_back(n as nat, u32::MAX as nat);
}

/// A flag is set by `true` or `1` and by any number but 0, and cleared by `false`, `0`
/// and 0.
pub proof fn a_flag_is_set_by_true_or_one(params: Seq<(String, Param)>, name: Seq<char>, field: Field)
    ensures
        ({
            let r = bool_named(params, name, field);
            &&& param_named(params, name) is None ==> r == Ok::<Option<bool>, ErrorView>(None)
            &&& param_named(params, name) matches Some(Param::Bool(b)) ==> r == Ok::<Option<bool>, ErrorView>(
                Some(b),
            )
            &&& param_named(params, name) matches Some(Param::Int(i)) ==> r == Ok::<Option<bool>, ErrorView>(
                Some(i != 0),
            )
            &&& param_named(params, name) matches Some(Param::Str(s)) ==> {
                &&& r == Ok::<Option<bool>, ErrorView>(Some(true)) <==> s@ == "true"@ || s@ == "1"@
                &&& r == Ok::<Option<bool>, ErrorView>(Some(false)) <==> s@ == "false"@ || s@ == "0"@
            }
        }),
{
    reveal_strlit("true");
    reveal_strlit("1");
    reveal_strlit("false");
    reveal_strlit("0");
    assert("true"@[0] == 't' && "1"@[0] == '1' && "false"@[0] == 'f' && "0"@[0] == '0');
}

/// The options of an embedding are read each under its own name.
pub proof fn embedding_options_are_read_by_name(params: Seq<(String, Param)>)
    requires
        embed_options_of(params) is Ok,
    ensures
        ({
            let o = embed_options_of(params)->Ok_0;
            &&& Ok::<crate::types::Truncate, ErrorView>(o.truncate) == truncate_value(param_str_named(params, "truncate"@))
            &&& Ok::<crate::types::PromptRole, ErrorView>(o.prompt_role) == prompt_role_value(
                param_str_named(params, "prompt_role"@),
            )
            &&& Ok::<Normalize, ErrorView>(o.normalize) == normalize_value(
                param_str_named(params, "normalize"@),
            )
            &&& Ok::<Pooling, ErrorView>(o.pooling) == pooling_value(param_str_named(params, "pooling"@))
            &&& param_named(params, "max_tokens"@) is None ==> o.max_tokens == 0
            &&& param_named(params, "output_dim"@) is None ==> o.output_dim == 0
            &&& param_named(params, "max_tokens"@) matches Some(Param::Int(i)) ==> o.max_tokens == i
            &&& param_named(params, "output_dim"@) matches Some(Param::Int(i)) ==> o.output_dim == i
            &&& param_named(params, "max_tokens"@) matches Some(Param::Uint(i)) ==> o.max_tokens == i
            &&& param_named(params, "output_dim"@) matches Some(Param::Uint(i)) ==> o.output_dim == i
        }),
{
}

/// The options of a ranking are read each under its own name; it is always sorted.
pub proof fn ranking_options_are_read_by_name(params: Seq<(String, Param)>)
    requires
        rerank_options_of(params) is Ok,
    ensures
        ({
            let o = rerank_options_of(params)->Ok_0;
            &&& Ok::<crate::types::Truncate, ErrorView>(o.truncate) == truncate_value(param_str_named(params, "truncate"@))
            &&& o.return_sorted
            &&& param_named(params, "max_tokens"@) is None ==> o.max_tokens == 0
            &&& param_named(params, "top_n"@) is None ==> o.top_n == 0
            &&& param_named(params, "raw_scores"@) is None ==> !o.raw_scores
            &&& param_named(params, "max_tokens"@) matches Some(Param::Int(i)) ==> o.max_tokens == i
            &&& param_named(params, "top_n"@) matches Some(Param::Int(i)) ==> o.top_n == i
            &&& param_named(params, "top_n"@) matches Some(Param::Uint(i)) ==> o.top_n == i
            &&& param_named(params, "raw_scores"@) matches Some(Param::Bool(b)) ==> o.raw_scores == b
        }),
{
}

/// The options of a classification are read each under its own name.
pub proof fn classification_options_are_read_by_name(params: Seq<(String, Param)>)
    requires
        classify_options_of(params) is Ok,
    ensures
        ({
            let o = classify_options_of(params)->Ok_0;
            &&& Ok::<crate::types::Truncate, ErrorView>(o.truncate) == truncate_value(param_str_named(params, "truncate"@))
            &&& Ok::<crate::types::Aggregation, ErrorView>(o.aggregation) == aggregation_value(
                param_str_named(params, "aggregation"@),
            )
            &&& param_named(params, "max_tokens"@) is None ==> o.max_tokens == 0
            &&& param_named(params, "raw_scores"@) is None ==> !o.raw_scores
            &&& param_named(params, "max_tokens"@) matches Some(Param::Int(i)) ==> o.max_tokens == i
            &&& param_named(params, "raw_scores"@) matches Some(Param::Bool(b)) ==> o.raw_scores == b
        }),
{
}

/// The settings of a generation are read each under its own name, and what is not named
/// is not set.
pub proof fn generation_settings_are_read_by_name(params: Seq<(String, Param)>, readings: Seq<Reading>)
    requires
        generate_of(params, readings) is Ok,
    ensures
        ({
            let g = generate_of(params, readings)->Ok_0;
            &&& param_named(params, "max_new_tokens"@) is None <==> g.max_new_tokens is None
            &&& param_named(params, "min_new_tokens"@) is None <==> g.min_new_tokens is None
            &&& param_named(params, "temperature"@) is None <==> g.temperature is None
            &&& param_named(params, "top_p"@) is None <==> g.top_p is None
            &&& param_named(params, "top_k"@) is None <==> g.top_k is None
            &&& param_named(params, "repeat_penalty"@) is None <==> g.repeat_penalty is None
            &&& param_named(params, "seed"@) is None <==> g.seed is None
            &&& param_named(params, "stop"@) is None ==> g.stop.len() == 0
            &&& param_named(params, "stop"@) matches Some(Param::Str(s)) ==> g.stop == stop_strings(s@)
            &&& param_named(params, "max_new_tokens"@) matches Some(Param::Int(i)) ==> g.max_new_tokens
                == Some(i as u32)
            &&& param_named(params, "min_new_tokens"@) matches Some(Param::Int(i)) ==> g.min_new_tokens
                == Some(i as u32)
            &&& param_named(params, "top_k"@) matches Some(Param::Int(i)) ==> g.top_k == Some(i as u32)
            &&& param_named(params, "seed"@) matches Some(Param::Int(i)) ==> g.seed == Some(i as u64)
            &&& param_named(params, "seed"@) matches Some(Param::Uint(i)) ==> g.seed == Some(i)
            &&& param_named(params, "temperature"@) matches Some(Param::Double(d)) ==> g.temperature == Some(
                Number::Double(d.bits),
            )
            &&& param_named(params, "top_p"@) matches Some(Param::Double(d)) ==> g.top_p == Some(
                Number::Double(d.bits),
            )
            &&& param_named(params, "repeat_penalty"@) matches Some(Param::Double(d)) ==> g.repeat_penalty
                == Some(Number::Double(d.bits))
        }),
{
}

/// Stop strings are listed with a unit separator between them; empty ones do not count.
pub proof fn stop_strings_are_listed_with_separators(parts: Seq<Seq<char>>)
    requires
        parts.len() > 0,
        forall|i: int|
            0 <= i < parts.len() ==> (#[trigger] parts[i]).len() > 0 && !parts[i].contains('\u{1f}'),
    ensures
        stop_strings(crate::text::joined(parts, seq!['\u{1f}'])) == parts,
{
    crate::text::joined_parts_split_back(parts, '\u{1f}');
    all_are_kept(parts, parts.len() as int);
    assert(parts.take(parts.len() as int) =~= parts);
}

/// Parts that are not empty are all kept.
proof fn all_are_kept(parts: Seq<Seq<char>>, n: int)
    requires
        0 <= n <= parts.len(),
        forall|i: int| 0 <= i < parts.len() ==> (#[trigger] parts[i]).len() > 0,
    ensures
        not_empty(parts, n) == parts.take(n),
    decreases n,
{
    if n > 0 {
        all_are_kept(parts, n - 1);
        assert(parts[n - 1].len() > 0);
        assert(parts.take(n - 1).push(parts[n - 1]) =~= parts.take(n));
    } else {
        assert(parts.take(0) =~= Seq::empty());
    }
}

/// No stop string is empty but where nothing else was given.
pub proof fn empty_stop_strings_do_not_count(parts: Seq<Seq<char>>, n: int)
    requires
        0 <= n <= parts.len(),
    ensures
        forall|i: int| 0 <= i < not_empty(parts, n).len() ==> (#[trigger] not_empty(parts, n)[i]).len() > 0,
        forall|i: int|
            0 <= i < n && (#[trigger] parts[i]).len() > 0 ==> not_empty(parts, n).contains(parts[i]),
    decreases n,
{
    if n > 0 {
        empty_stop_strings_do_not_count(parts, n - 1);
        let a = not_empty(parts, n - 1);
        let b = not_empty(parts, n);
        assert forall|i: int| 0 <= i < n && (#[trigger] parts[i]).len() > 0 implies b.contains(parts[i]) by {
            if i < n - 1 {
                assert(a.contains(parts[i]));
                let k = choose|k: int| 0 <= k < a.len() && a[k] == parts[i];
                assert(b[k] == parts[i]);
            } else {
                assert(b[b.len() - 1] == parts[i]);
            }
        }
    }
}

/// A shape has as many elements as the product of its extents, and one where it has none.
pub proof fn a_shape_has_the_product_of_its_extents(shape: Seq<i64>, n: int)
    requires
        0 <= n < shape.len(),
    ensures
        elements_of(shape, 0) == Some(1i64),
        elements_of(shape, n) matches Some(m) ==> (i64::MIN <= m * shape[n] <= i64::MAX ==> elements_of(
            shape,
            n + 1,
        ) == Some((m * shape[n]) as i64)),
        elements_of(shape, n) matches Some(m) ==> (!(i64::MIN <= m * shape[n] <= i64::MAX) ==> elements_of(
            shape,
            n + 1,
        ) is None),
        n == 1 && elements_of(shape, 2) is Some ==> elements_of(shape, 2)->0 == shape[0] * shape[1],
{
    reveal_with_fuel(elements_of, 3);
    assert(1 * shape[0] == shape[0]);
}

/// The texts of a tensor are its strings, each read as UTF-8 in its place; they are as
/// many as its shape says.
pub proof fn texts_are_the_strings_of_the_tensor(t: Tensor, i: int)
    requires
        texts_of(t) is Ok,
        t.data is Bytes,
        0 <= i < texts_of(t)->Ok_0.len(),
    ensures
        t.datatype@ == "BYTES"@,
        texts_of(t)->Ok_0.len() == t.data->Bytes_0.len(),
        valid_utf8(t.data->Bytes_0@[i]@),
        texts_of(t)->Ok_0[i] == decode_utf8(t.data->Bytes_0@[i]@),
        t.shape.len() == 1 ==> t.shape@[0] == t.data->Bytes_0.len(),
{
    reveal_with_fuel(elements_of, 2);
    let items = byte_views(t.data->Bytes_0@);
    decoded_each_in_place(t.name@, items, items.len() as int);
    assert(items[i] == t.data->Bytes_0@[i]@);
    if t.shape.len() == 1 {
        assert(1 * t.shape@[0] == t.shape@[0]);
    }
}

/// Strings are decoded each in its place.
proof fn decoded_each_in_place(name: Seq<char>, items: Seq<Seq<u8>>, n: int)
    requires
        0 <= n <= items.len(),
        decoded(name, items, n) is Ok,
    ensures
        decoded(name, items, n)->Ok_0.len() == n,
        forall|i: int|
            0 <= i < n ==> valid_utf8(#[trigger] items[i]) && decoded(name, items, n)->Ok_0[i] == decode_utf8(
                items[i],
            ),
    decreases n,
{
    if n > 0 {
        decoded_each_in_place(name, items, n - 1);
    }
}

/// The datatypes that are carried, by their names in the protocol.
pub proof fn datatypes_have_their_names(name: Seq<char>)
    ensures
        dtype_named(name) == Ok::<DType, ErrorView>(DType::Bool) <==> name == "BOOL"@,
        dtype_named(name) == Ok::<DType, ErrorView>(DType::U32) <==> name == "UINT32"@,
        dtype_named(name) == Ok::<DType, ErrorView>(DType::U64) <==> name == "UINT64"@,
        dtype_named(name) == Ok::<DType, ErrorView>(DType::I32) <==> name == "INT32"@,
        dtype_named(name) == Ok::<DType, ErrorView>(DType::I64) <==> name == "INT64"@,
        dtype_named(name) == Ok::<DType, ErrorView>(DType::F32) <==> name == "FP32"@,
        dtype_named(name) == Ok::<DType, ErrorView>(DType::F64) <==> name == "FP64"@,
        dtype_named(name) == Ok::<DType, ErrorView>(DType::Bytes) <==> name == "BYTES"@,
{
    reveal_strlit("BOOL");
    reveal_strlit("UINT32");
    reveal_strlit("UINT64");
    reveal_strlit("INT32");
    reveal_strlit("INT64");
    reveal_strlit("FP32");
    reveal_strlit("FP64");
    reveal_strlit("BYTES");
    assert("BOOL"@.len() == 4 && "BOOL"@[0] == 'B' && "UINT32"@.len() == 6 && "UINT32"@[4] == '3'
        && "UINT64"@[4] == '6' && "UINT64"@.len() == 6 && "INT32"@.len() == 5 && "INT32"@[3] == '3'
        && "INT64"@[3] == '6' && "INT64"@.len() == 5 && "FP32"@.len() == 4 && "FP32"@[0] == 'F' && "FP32"@[2]
        == '3' && "FP64"@[2] == '6' && "FP64"@[0] == 'F' && "FP64"@.len() == 4 && "BYTES"@.len() == 5
        && "BYTES"@[0] == 'B' && "INT32"@[0] == 'I' && "INT64"@[0] == 'I');
}

/// What a model gives back: an embedding model vectors of its width, a reranker scores
/// and their order, a classifier a score for each label, a token classifier spans, a
/// generative model text.
pub proof fn outputs_are_those_of_the_kind(s: ServedModel)
    ensures
        ({
            let o = output_meta(s);
            &&& s.kind == ModelKind::Embedding ==> o.len() == 1 && o[0].name == "embeddings"@ && o[0].datatype
                == "FP32"@ && o[0].shape == seq![-1i64, s.dim as i64]
            &&& s.kind == ModelKind::Reranker ==> o.len() == 2 && o[0].name == "scores"@ && o[0].datatype
                == "FP32"@ && o[1].name == "sorted"@ && o[1].datatype == "INT32"@
            &&& s.kind == ModelKind::Classifier ==> o.len() == 2 && o[0].name == "scores"@ && o[0].datatype
                == "FP32"@ && o[0].shape == seq![-1i64, s.labels.len() as i64] && o[1].name == "labels"@
            &&& s.kind == ModelKind::TokenClassifier ==> o.len() == 2 && o[0].name == "spans"@
                && o[0].datatype == "BYTES"@ && o[1].name == "labels"@
            &&& s.kind == ModelKind::Generative ==> o.len() == 1 && o[0].name == "text"@ && o[0].datatype
                == "BYTES"@
        }),
{
}

/// What a model takes: texts, a query and its documents, or a prompt or messages.
pub proof fn inputs_are_those_of_the_kind(s: ServedModel)
    ensures
        ({
            let i = input_meta(s);
            &&& s.kind == ModelKind::Embedding || s.kind == ModelKind::Classifier || s.kind
                == ModelKind::TokenClassifier ==> i.len() == 1 && i[0].name == "text"@ && i[0].datatype
                == "BYTES"@ && i[0].shape == seq![-1i64]
            &&& s.kind == ModelKind::Reranker ==> i.len() == 2 && i[0].name == "query"@ && i[0].shape
                == seq![1i64] && i[1].name == "documents"@ && i[1].shape == seq![-1i64]
            &&& s.kind == ModelKind::Generative ==> i.len() == 2 && i[0].name == "prompt"@ && i[1].name
                == "messages"@
            &&& s.kind != ModelKind::Generic ==> forall|k: int| 0 <= k < i.len() ==> (#[trigger] i[k]).datatype == "BYTES"@
        }),
{
}

/// Poolings and normalizations are told by the words that ask for them.
pub proof fn choices_are_told_by_the_words_that_ask_for_them(p: Pooling, n: Normalize)
    ensures
        pooling_value(Some(pooling_text(p))) == Ok::<Pooling, ErrorView>(p),
        normalize_value(Some(normalize_text(n))) == Ok::<Normalize, ErrorView>(n),
        p == Pooling::Cls <==> pooling_text(p) == "cls"@,
        p == Pooling::Mean <==> pooling_text(p) == "mean"@,
        p == Pooling::Last <==> pooling_text(p) == "last"@,
        n == Normalize::L2 <==> normalize_text(n) == "l2"@,
        n == Normalize::Off <==> normalize_text(n) == "none"@,
{
    reveal_strlit("model");
    reveal_strlit("mean");
    reveal_strlit("cls");
    reveal_strlit("last");
    reveal_strlit("none");
    reveal_strlit("l2");
    assert(lowered("model"@) =~= "model"@);
    assert(lowered("mean"@) =~= "mean"@);
    assert(lowered("cls"@) =~= "cls"@);
    assert(lowered("last"@) =~= "last"@);
    assert(lowered("none"@) =~= "none"@);
    assert(lowered("l2"@) =~= "l2"@);
    crate::engine::pooling_is_read_by_its_name(pooling_text(p));
    crate::engine::normalization_is_read_by_its_name(normalize_text(n));
    assert("model"@[0] == 'm' && "mean"@[0] == 'm' && "model"@[1] == 'o' && "mean"@[1] == 'e' && "cls"@[0]
        == 'c' && "last"@[0] == 'l' && "none"@[0] == 'n' && "l2"@[0] == 'l');
}

/// What is told of a model: its kind, its task, its limits and where it runs, and its
/// pooling and normalization where it has them.
pub proof fn properties_tell_of_the_model(s: ServedModel)
    ensures
        ({
            let p = properties_meta(s);
            &&& p[0] == ("device"@, s.device@)
            &&& p[1] == ("kind"@, kind_text(s.kind))
            &&& p[2] == ("max_batch"@, decimal(s.max_batch as nat))
            &&& p[3] == ("max_seq"@, decimal(s.max_seq as nat))
            &&& p[4] == ("model_id"@, s.model_id@)
            &&& s.normalize matches Some(n) ==> p[5] == ("normalize"@, normalize_text(n))
            &&& s.normalize is Some && s.pooling is Some ==> p[6] == ("pooling"@, pooling_text(s.pooling->0))
            &&& s.normalize is None && s.pooling is Some ==> p[5] == ("pooling"@, pooling_text(s.pooling->0))
            &&& p[p.len() - 5] == ("provider"@, s.provider_id@)
            &&& p[p.len() - 4] == ("revision"@, s.revision@)
            &&& p[p.len() - 3] == ("served_max_batch"@, decimal(s.served_max_batch as nat))
            &&& p[p.len() - 2] == ("served_max_seq"@, decimal(s.served_max_seq as nat))
            &&& p[p.len() - 1] == ("task"@, lowered(task_text(s.task)))
        }),
{
}

} // verus!

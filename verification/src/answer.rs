//! What an inference request asks of its model, and the response to it.

use vstd::prelude::*;
use vstd::utf8::encode_utf8;
use crate::convert::{bytes_of, signed64};
use crate::engine::Collected;
use crate::error::{plain, Class, Error, ErrorView};
use crate::ggml::FinishReason;
use crate::infer::{Real, RealView};
use crate::oip::{
    as_signed64, byte_views, classify_options, classify_options_of, datatype_of,
    datatype_text, dtype_named, dtype_of, embed_options, embed_options_of, generate_desc,
    generate_of, pack, pack_of, param_text, put, rerank_options, rerank_options_of, texts,
    texts_of, to_signed64, unpack, unpack_of, Data, DataView, Generate, GenerateView, InferRequest,
    InferResponse, MODEL_VERSION, Param, Params, Reading, Tensor,
};
use crate::serve::pair_views;
use crate::text::{
    cat3, cat4, decimal, decimal_of, holds, join_of, joined, same, starts, starts_with_of, views,
};
use crate::types::{
    placement_text, ClassifyOptions, DType, EmbedOptions, ModelKind, Placement, RerankOptions,
};

verus! {

/// The names of tensors.
pub open spec fn tensor_names(v: Seq<Tensor>) -> Seq<Seq<char>> {
    Seq::new(v.len(), |i: int| v[i].name@)
}

/// The names of tensors.
fn names_of(v: &Vec<Tensor>) -> (r: Vec<String>)
    ensures
        views(r@) == tensor_names(v@),
{
    let mut out: Vec<String> = Vec::new();
    let mut i: usize = 0;
    while i < v.len()
        invariant
            i <= v.len(),
            out.len() == i,
            forall|j: int| 0 <= j < i ==> (#[trigger] out@[j])@ == v@[j].name@,
        decreases v.len() - i,
    {
        out.push(v[i].name.clone());
        i = i + 1;
    }
    proof {
        assert(views(out@) =~= tensor_names(v@));
    }
    out
}

/// Where an input of this name first stands, from place `i` on; the number of
/// inputs if nowhere.
pub open spec fn input_place(v: Seq<Tensor>, name: Seq<char>, i: int) -> int
    decreases v.len() - i,
{
    if 0 <= i < v.len() && v[i].name@ != name {
        input_place(v, name, i + 1)
    } else {
        i
    }
}

/// The input of this name, or the refusal of a request without it.
pub open spec fn input_named(v: Seq<Tensor>, name: Seq<char>) -> Result<Tensor, ErrorView> {
    let at = input_place(v, name, 0);
    if at < v.len() {
        Ok(v[at])
    } else {
        Err(
            plain(
                Class::BadRequest,
                "input `"@ + name + "` is missing; inputs given: "@ + joined(tensor_names(v), ", "@),
            ),
        )
    }
}

/// The place of the input of this name.
fn seek(v: &Vec<Tensor>, name: &str) -> (r: usize)
    ensures
        r == input_place(v@, name@, 0),
        r <= v.len(),
{
    let mut i: usize = 0;
    while i < v.len() && !same(v[i].name.as_str(), name)
        invariant
            i <= v.len(),
            input_place(v@, name@, i as int) == input_place(v@, name@, 0),
        decreases v.len() - i,
    {
        i = i + 1;
    }
    i
}

/// The texts of the input of this name, or the refusal.
pub open spec fn texts_named(v: Seq<Tensor>, name: Seq<char>) -> Result<Seq<Seq<char>>, ErrorView> {
    match input_named(v, name) {
        Err(e) => Err(e),
        Ok(t) => texts_of(t),
    }
}

/// The texts of the input of this name.
fn read_texts(v: &Vec<Tensor>, name: &str) -> (r: Result<Vec<String>, Error>)
    ensures
        match texts_named(v@, name@) {
            Ok(t) => r is Ok && views(r->Ok_0@) == t,
            Err(e) => r is Err && r->Err_0@ == e,
        },
{
    let at = seek(v, name);
    if at < v.len() {
        return texts(&v[at]);
    }
    Err(
        Error::plain(
            Class::BadRequest,
            cat4(
                "input `",
                name,
                "` is missing; inputs given: ",
                join_of(&names_of(v), ", ").as_str(),
            ),
        ),
    )
}

/// The one text of the input of this name, or the refusal.
pub open spec fn text_named(v: Seq<Tensor>, name: Seq<char>) -> Result<Seq<char>, ErrorView> {
    match texts_named(v, name) {
        Err(e) => Err(e),
        Ok(t) => if t.len() != 1 {
            Err(
                plain(
                    Class::BadRequest,
                    "input `"@ + name + "` must hold one string, not "@ + decimal(t.len()),
                ),
            )
        } else {
            Ok(t[0])
        },
    }
}

/// The one text of the input of this name.
fn read_text(v: &Vec<Tensor>, name: &str) -> (r: Result<String, Error>)
    ensures
        match text_named(v@, name@) {
            Ok(t) => r is Ok && r->Ok_0@ == t,
            Err(e) => r is Err && r->Err_0@ == e,
        },
{
    let mut t = match read_texts(v, name) {
        Err(e) => return Err(e),
        Ok(t) => t,
    };
    proof {
        assert(views(t@).len() == t.len());
    }
    if t.len() != 1 {
        return Err(
            Error::plain(
                Class::BadRequest,
                cat4(
                    "input `",
                    name,
                    "` must hold one string, not ",
                    decimal_of(t.len() as u128).as_str(),
                ),
            ),
        );
    }
    proof {
        assert(views(t@)[0] == t@[0]@);
    }
    Ok(t.remove(0))
}

/// One input to bind: packed bytes of `dtype` with `shape`.
#[derive(Debug)]
pub struct RunInput {
    pub name: String,
    pub dtype: DType,
    pub shape: Vec<u64>,
    pub bytes: Vec<u8>,
}

/// One input to bind, as sequences.
pub struct RunView {
    pub name: Seq<char>,
    pub dtype: DType,
    pub shape: Seq<u64>,
    pub bytes: Seq<u8>,
}

impl View for RunInput {
    type V = RunView;

    open spec fn view(&self) -> RunView {
        RunView { name: self.name@, dtype: self.dtype, shape: self.shape@, bytes: self.bytes@ }
    }
}

/// Inputs to bind, as sequences.
pub open spec fn run_views(v: Seq<RunInput>) -> Seq<RunView> {
    Seq::new(v.len(), |i: int| v[i]@)
}

/// Whether an extent from place `i` on is negative.
pub open spec fn has_negative(shape: Seq<i64>, i: int) -> bool
    decreases shape.len() - i,
{
    if i < 0 || i >= shape.len() {
        false
    } else {
        shape[i] < 0 || has_negative(shape, i + 1)
    }
}

/// A tensor as an input to bind, or the refusal.
pub open spec fn run_input_of(t: Tensor) -> Result<RunView, ErrorView> {
    match dtype_named(t.datatype@) {
        Err(e) => Err(e),
        Ok(dtype) => if has_negative(t.shape@, 0) {
            Err(plain(Class::BadRequest, "input `"@ + t.name@ + "` has a negative extent"@))
        } else {
            match pack_of(t.data, dtype, t.name@) {
                Err(e) => Err(e),
                Ok(bytes) => Ok(
                    RunView {
                        name: t.name@,
                        dtype,
                        shape: Seq::new(t.shape@.len(), |i: int| t.shape@[i] as u64),
                        bytes,
                    },
                ),
            }
        },
    }
}

/// The first `n` tensors as inputs to bind, or the first refusal.
pub open spec fn run_inputs_of(v: Seq<Tensor>, n: int) -> Result<Seq<RunView>, ErrorView>
    decreases n,
{
    if n <= 0 {
        Ok(Seq::empty())
    } else {
        match run_inputs_of(v, n - 1) {
            Err(e) => Err(e),
            Ok(out) => match run_input_of(v[n - 1]) {
                Err(e) => Err(e),
                Ok(x) => Ok(out.push(x)),
            },
        }
    }
}

/// A refused tensor decides the whole.
proof fn run_refusal_stays(v: Seq<Tensor>, i: int, n: int)
    requires
        0 <= i <= n,
    ensures
        run_inputs_of(v, i) is Err ==> run_inputs_of(v, n) == run_inputs_of(v, i),
    decreases n,
{
    if i < n {
        run_refusal_stays(v, i, n - 1);
    }
}

/// A tensor as an input to bind.
fn run_input(t: &Tensor) -> (r: Result<RunInput, Error>)
    ensures
        match run_input_of(*t) {
            Ok(v) => r is Ok && r->Ok_0@ == v,
            Err(e) => r is Err && r->Err_0@ == e,
        },
{
    let dtype = match dtype_of(t.datatype.as_str()) {
        Err(e) => return Err(e),
        Ok(d) => d,
    };
    let mut shape: Vec<u64> = Vec::new();
    let mut i: usize = 0;
    while i < t.shape.len()
        invariant
            i <= t.shape.len(),
            dtype_named(t.datatype@) is Ok,
            shape.len() == i,
            has_negative(t.shape@, 0) == has_negative(t.shape@, i as int),
            forall|j: int| 0 <= j < i ==> (#[trigger] shape@[j]) == t.shape@[j] as u64,
        decreases t.shape.len() - i,
    {
        if t.shape[i] < 0 {
            return Err(
                Error::plain(
                    Class::BadRequest,
                    cat3("input `", t.name.as_str(), "` has a negative extent"),
                ),
            );
        }
        shape.push(t.shape[i] as u64);
        i = i + 1;
    }
    proof {
        assert(shape@ =~= Seq::new(t.shape@.len(), |i: int| t.shape@[i] as u64));
    }
    match pack(&t.data, dtype, t.name.as_str()) {
        Err(e) => Err(e),
        Ok(bytes) => Ok(RunInput { name: t.name.clone(), dtype, shape, bytes }),
    }
}

/// The tensors as inputs to bind.
fn run_inputs(v: &Vec<Tensor>) -> (r: Result<Vec<RunInput>, Error>)
    ensures
        match run_inputs_of(v@, v.len() as int) {
            Ok(x) => r is Ok && run_views(r->Ok_0@) == x,
            Err(e) => r is Err && r->Err_0@ == e,
        },
{
    let mut out: Vec<RunInput> = Vec::new();
    let mut i: usize = 0;
    proof {
        assert(run_views(out@) =~= Seq::empty());
    }
    while i < v.len()
        invariant
            i <= v.len(),
            run_inputs_of(v@, i as int) == Ok::<Seq<RunView>, ErrorView>(run_views(out@)),
        decreases v.len() - i,
    {
        proof {
            run_refusal_stays(v@, i + 1, v.len() as int);
        }
        match run_input(&v[i]) {
            Err(e) => return Err(e),
            Ok(x) => {
                let ghost before = run_views(out@);
                let ghost seen = x@;
                out.push(x);
                proof {
                    assert(run_views(out@) =~= before.push(seen));
                }
            },
        }
        i = i + 1;
    }
    Ok(out)
}

/// The first `n` parameters that go to a generic model: all but the internal ones,
/// as texts.
pub open spec fn run_params_of(params: Seq<(String, Param)>, n: int) -> Seq<(Seq<char>, Seq<char>)>
    decreases n,
{
    if n <= 0 {
        Seq::empty()
    } else if starts(params[n - 1].0@, "turbo_internal"@) {
        run_params_of(params, n - 1)
    } else {
        run_params_of(params, n - 1).push((params[n - 1].0@, param_text(params[n - 1].1)))
    }
}

/// The parameters that go to a generic model.
fn run_params(params: &Params) -> (r: Vec<(String, String)>)
    ensures
        pair_views(r@) == run_params_of(params@, params.len() as int),
{
    let mut out: Vec<(String, String)> = Vec::new();
    let mut i: usize = 0;
    proof {
        assert(pair_views(out@) =~= Seq::empty());
    }
    while i < params.len()
        invariant
            i <= params.len(),
            pair_views(out@) == run_params_of(params@, i as int),
        decreases params.len() - i,
    {
        if !starts_with_of(params[i].0.as_str(), "turbo_internal") {
            put(&mut out, params[i].0.as_str(), params[i].1.as_str());
        }
        i = i + 1;
    }
    out
}

/// What an inference request asks of its model.
#[derive(Debug)]
pub enum Work {
    Embed(Vec<String>, EmbedOptions),
    /// A query and its documents.
    Rerank(String, Vec<String>, RerankOptions),
    Classify(Vec<String>, ClassifyOptions),
    TokenClassify(Vec<String>, ClassifyOptions),
    /// The turns of a conversation, each a JSON object still to be read.
    Turns(Vec<String>),
    /// A prompt that a user gives.
    Prompt(String, Generate),
    /// A generic model's inputs and parameters.
    Run(Vec<RunInput>, Vec<(String, String)>),
}

/// What an inference request asks of its model, as sequences.
pub enum WorkView {
    Embed(Seq<Seq<char>>, EmbedOptions),
    Rerank(Seq<char>, Seq<Seq<char>>, RerankOptions),
    Classify(Seq<Seq<char>>, ClassifyOptions),
    TokenClassify(Seq<Seq<char>>, ClassifyOptions),
    Turns(Seq<Seq<char>>),
    Prompt(Seq<char>, GenerateView),
    Run(Seq<RunView>, Seq<(Seq<char>, Seq<char>)>),
}

impl View for Work {
    type V = WorkView;

    open spec fn view(&self) -> WorkView {
        match self {
            Work::Embed(t, o) => WorkView::Embed(views(t@), *o),
            Work::Rerank(q, d, o) => WorkView::Rerank(q@, views(d@), *o),
            Work::Classify(t, o) => WorkView::Classify(views(t@), *o),
            Work::TokenClassify(t, o) => WorkView::TokenClassify(views(t@), *o),
            Work::Turns(t) => WorkView::Turns(views(t@)),
            Work::Prompt(p, g) => WorkView::Prompt(p@, g@),
            Work::Run(i, p) => WorkView::Run(run_views(i@), pair_views(p@)),
        }
    }
}

/// What a request asks of a model that classifies, with how it is wrapped.
pub open spec fn classify_work(req: InferRequest, token: bool) -> Result<WorkView, ErrorView> {
    match texts_named(req.inputs@, "text"@) {
        Err(e) => Err(e),
        Ok(t) => match classify_options_of(req.parameters@) {
            Err(e) => Err(e),
            Ok(o) => Ok(
                if token {
                    WorkView::TokenClassify(t, o)
                } else {
                    WorkView::Classify(t, o)
                },
            ),
        },
    }
}

/// What a request asks of a generative model: the turns of `messages` where it has
/// that input, else the prompt.
pub open spec fn generate_work(req: InferRequest, readings: Seq<Reading>) -> Result<
    WorkView,
    ErrorView,
> {
    if input_place(req.inputs@, "messages"@, 0) < req.inputs.len() {
        match texts_named(req.inputs@, "messages"@) {
            Err(e) => Err(e),
            Ok(t) => Ok(WorkView::Turns(t)),
        }
    } else {
        match text_named(req.inputs@, "prompt"@) {
            Err(e) => Err(e),
            Ok(p) => match generate_of(req.parameters@, readings) {
                Err(e) => Err(e),
                Ok(g) => Ok(WorkView::Prompt(p, g)),
            },
        }
    }
}

/// What a request asks of a model of this kind, or the refusal.
pub open spec fn work_of(kind: ModelKind, req: InferRequest, readings: Seq<Reading>) -> Result<
    WorkView,
    ErrorView,
> {
    match kind {
        ModelKind::Embedding => match texts_named(req.inputs@, "text"@) {
            Err(e) => Err(e),
            Ok(t) => match embed_options_of(req.parameters@) {
                Err(e) => Err(e),
                Ok(o) => Ok(WorkView::Embed(t, o)),
            },
        },
        ModelKind::Reranker => match text_named(req.inputs@, "query"@) {
            Err(e) => Err(e),
            Ok(q) => match texts_named(req.inputs@, "documents"@) {
                Err(e) => Err(e),
                Ok(d) => match rerank_options_of(req.parameters@) {
                    Err(e) => Err(e),
                    Ok(o) => Ok(WorkView::Rerank(q, d, o)),
                },
            },
        },
        ModelKind::Classifier => classify_work(req, false),
        ModelKind::TokenClassifier => classify_work(req, true),
        ModelKind::Generative => generate_work(req, readings),
        ModelKind::Generic => match run_inputs_of(req.inputs@, req.inputs.len() as int) {
            Err(e) => Err(e),
            Ok(i) => Ok(
                WorkView::Run(i, run_params_of(req.parameters@, req.parameters.len() as int)),
            ),
        },
    }
}

/// What a request asks of a model that classifies.
fn plan_classify(req: &InferRequest, token: bool) -> (r: Result<Work, Error>)
    ensures
        match classify_work(*req, token) {
            Ok(w) => r is Ok && r->Ok_0@ == w,
            Err(e) => r is Err && r->Err_0@ == e,
        },
{
    let t = match read_texts(&req.inputs, "text") {
        Err(e) => return Err(e),
        Ok(t) => t,
    };
    match classify_options(&req.parameters) {
        Err(e) => Err(e),
        Ok(o) => if token {
            Ok(Work::TokenClassify(t, o))
        } else {
            Ok(Work::Classify(t, o))
        },
    }
}

/// What a request asks of a generative model.
fn plan_generate(req: &InferRequest, readings: &Vec<Reading>) -> (r: Result<Work, Error>)
    ensures
        match generate_work(*req, readings@) {
            Ok(w) => r is Ok && r->Ok_0@ == w,
            Err(e) => r is Err && r->Err_0@ == e,
        },
{
    if seek(&req.inputs, "messages") < req.inputs.len() {
        return match read_texts(&req.inputs, "messages") {
            Err(e) => Err(e),
            Ok(t) => Ok(Work::Turns(t)),
        };
    }
    let p = match read_text(&req.inputs, "prompt") {
        Err(e) => return Err(e),
        Ok(p) => p,
    };
    match generate_desc(&req.parameters, readings) {
        Err(e) => Err(e),
        Ok(g) => Ok(Work::Prompt(p, g)),
    }
}

/// What an inference request asks of a served model of this kind; `readings` are
/// what the texts among its parameters read as.
pub fn infer(kind: ModelKind, req: &InferRequest, readings: &Vec<Reading>) -> (r: Result<Work, Error>)
    ensures
        match work_of(kind, *req, readings@) {
            Ok(w) => r is Ok && r->Ok_0@ == w,
            Err(e) => r is Err && r->Err_0@ == e,
        },
{
    match kind {
        ModelKind::Embedding => {
            let t = match read_texts(&req.inputs, "text") {
                Err(e) => return Err(e),
                Ok(t) => t,
            };
            match embed_options(&req.parameters) {
                Err(e) => Err(e),
                Ok(o) => Ok(Work::Embed(t, o)),
            }
        },
        ModelKind::Reranker => {
            let q = match read_text(&req.inputs, "query") {
                Err(e) => return Err(e),
                Ok(q) => q,
            };
            let d = match read_texts(&req.inputs, "documents") {
                Err(e) => return Err(e),
                Ok(d) => d,
            };
            match rerank_options(&req.parameters) {
                Err(e) => Err(e),
                Ok(o) => Ok(Work::Rerank(q, d, o)),
            }
        },
        ModelKind::Classifier => plan_classify(req, false),
        ModelKind::TokenClassifier => plan_classify(req, true),
        ModelKind::Generative => plan_generate(req, readings),
        ModelKind::Generic => match run_inputs(&req.inputs) {
            Err(e) => Err(e),
            Ok(i) => Ok(Work::Run(i, run_params(&req.parameters))),
        },
    }
}

/// A turn of a conversation, or why its text is none.
pub type Turn = Result<(String, String), String>;

/// The first `n` turns as role and content, or the first refusal.
pub open spec fn turns_of(turns: Seq<Turn>, n: int) -> Result<Seq<(Seq<char>, Seq<char>)>, ErrorView>
    decreases n,
{
    if n <= 0 {
        Ok(Seq::empty())
    } else {
        match turns_of(turns, n - 1) {
            Err(e) => Err(e),
            Ok(out) => match turns[n - 1] {
                Ok(t) => Ok(out.push((t.0@, t.1@))),
                Err(e) => Err(
                    plain(
                        Class::BadRequest,
                        "input `messages`["@ + decimal((n - 1) as nat)
                            + "] is not a {\"role\", \"content\"} object: "@ + e@,
                    ),
                ),
            },
        }
    }
}

/// A refused turn decides the whole.
proof fn turn_refusal_stays(turns: Seq<Turn>, i: int, n: int)
    requires
        0 <= i <= n,
    ensures
        turns_of(turns, i) is Err ==> turns_of(turns, n) == turns_of(turns, i),
    decreases n,
{
    if i < n {
        turn_refusal_stays(turns, i, n - 1);
    }
}

/// The conversation of turns that were read.
fn conversation(turns: &Vec<Turn>) -> (r: Result<Vec<(String, String)>, Error>)
    ensures
        match turns_of(turns@, turns.len() as int) {
            Ok(v) => r is Ok && pair_views(r->Ok_0@) == v,
            Err(e) => r is Err && r->Err_0@ == e,
        },
{
    let mut out: Vec<(String, String)> = Vec::new();
    let mut i: usize = 0;
    proof {
        assert(pair_views(out@) =~= Seq::empty());
    }
    while i < turns.len()
        invariant
            i <= turns.len(),
            turns_of(turns@, i as int) == Ok::<Seq<(Seq<char>, Seq<char>)>, ErrorView>(
                pair_views(out@),
            ),
        decreases turns.len() - i,
    {
        proof {
            turn_refusal_stays(turns@, i + 1, turns.len() as int);
        }
        match &turns[i] {
            Ok(t) => put(&mut out, t.0.as_str(), t.1.clone()),
            Err(e) => return Err(
                Error::plain(
                    Class::BadRequest,
                    cat4(
                        "input `messages`[",
                        decimal_of(i as u128).as_str(),
                        "] is not a {\"role\", \"content\"} object: ",
                        e.as_str(),
                    ),
                ),
            ),
        }
        i = i + 1;
    }
    Ok(out)
}

/// A generation's conversation and settings, from turns that were read: the turns
/// are refused before the settings are.
pub fn generation_inputs(turns: &Vec<Turn>, params: &Params, readings: &Vec<Reading>) -> (r: Result<
    (Vec<(String, String)>, Generate),
    Error,
>)
    ensures
        match turns_of(turns@, turns.len() as int) {
            Err(e) => r is Err && r->Err_0@ == e,
            Ok(v) => match generate_of(params@, readings@) {
                Err(e) => r is Err && r->Err_0@ == e,
                Ok(g) => r is Ok && pair_views(r->Ok_0.0@) == v && r->Ok_0.1@ == g,
            },
        },
{
    let c = match conversation(turns) {
        Err(e) => return Err(e),
        Ok(c) => c,
    };
    match generate_desc(params, readings) {
        Err(e) => Err(e),
        Ok(g) => Ok((c, g)),
    }
}

/// The conversation of a prompt: what a user says.
pub fn prompt_conversation(prompt: &str) -> (r: Vec<(String, String)>)
    ensures
        pair_views(r@) == seq![("user"@, prompt@)],
{
    let mut out: Vec<(String, String)> = Vec::new();
    out.push(("user".to_owned(), prompt.to_owned()));
    proof {
        assert(pair_views(out@) =~= seq![("user"@, prompt@)]);
    }
    out
}

/// A parameter as a value.
pub enum ParamView {
    Bool(bool),
    Int(i64),
    Str(Seq<char>),
    Double(RealView),
    Uint(u64),
}

impl View for Param {
    type V = ParamView;

    open spec fn view(&self) -> ParamView {
        match self {
            Param::Bool(b) => ParamView::Bool(*b),
            Param::Int(i) => ParamView::Int(*i),
            Param::Str(s) => ParamView::Str(s@),
            Param::Double(d) => ParamView::Double(d@),
            Param::Uint(u) => ParamView::Uint(*u),
        }
    }
}

/// Parameters as names and values.
pub open spec fn params_view(p: Seq<(String, Param)>) -> Seq<(Seq<char>, ParamView)> {
    Seq::new(p.len(), |i: int| (p[i].0@, p[i].1@))
}

/// A tensor as sequences.
pub struct TensorView {
    pub name: Seq<char>,
    pub datatype: Seq<char>,
    pub shape: Seq<i64>,
    pub data: DataView,
    pub parameters: Seq<(Seq<char>, ParamView)>,
}

impl View for Tensor {
    type V = TensorView;

    open spec fn view(&self) -> TensorView {
        TensorView {
            name: self.name@,
            datatype: self.datatype@,
            shape: self.shape@,
            data: self.data@,
            parameters: params_view(self.parameters@),
        }
    }
}

/// Tensors as sequences.
pub open spec fn tensor_views(v: Seq<Tensor>) -> Seq<TensorView> {
    Seq::new(v.len(), |i: int| v[i]@)
}

/// A tensor without parameters.
pub open spec fn plain_tensor(name: Seq<char>, datatype: Seq<char>, shape: Seq<i64>, data: DataView) -> TensorView {
    TensorView { name, datatype, shape, data, parameters: Seq::empty() }
}

/// A tensor without parameters.
fn tensor(name: &str, datatype: &str, shape: Vec<i64>, data: Data) -> (r: Tensor)
    ensures
        r@ == plain_tensor(name@, datatype@, shape@, data@),
{
    let t = Tensor {
        name: name.to_owned(),
        datatype: datatype.to_owned(),
        shape,
        data,
        parameters: Vec::new(),
    };
    proof {
        assert(params_view(t.parameters@) =~= Seq::empty());
    }
    t
}

/// One extent.
fn extent(n: usize) -> (r: Vec<i64>)
    requires
        n <= i64::MAX,
    ensures
        r@ == seq![n as i64],
{
    let mut v: Vec<i64> = Vec::new();
    v.push(n as i64);
    proof {
        assert(v@ =~= seq![n as i64]);
    }
    v
}

/// Two extents.
fn extents(n: usize, m: usize) -> (r: Vec<i64>)
    requires
        n <= i64::MAX,
        m <= i64::MAX,
    ensures
        r@ == seq![n as i64, m as i64],
{
    let mut v: Vec<i64> = Vec::new();
    v.push(n as i64);
    v.push(m as i64);
    proof {
        assert(v@ =~= seq![n as i64, m as i64]);
    }
    v
}

/// The first `n` rows one behind the other.
pub open spec fn flat_rows(rows: Seq<Vec<u32>>, n: int) -> Seq<u32>
    decreases n,
{
    if n <= 0 {
        Seq::empty()
    } else {
        flat_rows(rows, n - 1) + rows[n - 1]@
    }
}

/// The rows one behind the other.
fn flatten(rows: &Vec<Vec<u32>>) -> (r: Vec<u32>)
    ensures
        r@ == flat_rows(rows@, rows.len() as int),
{
    let mut out: Vec<u32> = Vec::new();
    let mut i: usize = 0;
    while i < rows.len()
        invariant
            i <= rows.len(),
            out@ == flat_rows(rows@, i as int),
        decreases rows.len() - i,
    {
        let row = &rows[i];
        let ghost before = out@;
        let mut j: usize = 0;
        proof {
            assert(before + row@.take(0) =~= before);
        }
        while j < row.len()
            invariant
                j <= row.len(),
                out@ == before + row@.take(j as int),
            decreases row.len() - j,
        {
            out.push(row[j]);
            j = j + 1;
            proof {
                assert(out@ =~= before + row@.take(j as int));
            }
        }
        proof {
            assert(row@.take(j as int) =~= row@);
        }
        i = i + 1;
    }
    out
}

/// The labels as byte strings.
pub open spec fn label_bytes(labels: Seq<Seq<char>>) -> Seq<Seq<u8>> {
    Seq::new(labels.len(), |i: int| encode_utf8(labels[i]))
}

/// The labels of a model as a tensor.
pub open spec fn labels_view(labels: Seq<Seq<char>>) -> TensorView {
    plain_tensor(
        "labels"@,
        "BYTES"@,
        seq![labels.len() as i64],
        DataView::Bytes(label_bytes(labels)),
    )
}

/// The labels of a model as a tensor.
pub fn labels_tensor(labels: &Vec<String>) -> (r: Tensor)
    requires
        labels.len() <= i64::MAX,
    ensures
        r@ == labels_view(views(labels@)),
{
    let mut v: Vec<Vec<u8>> = Vec::new();
    let mut i: usize = 0;
    while i < labels.len()
        invariant
            i <= labels.len(),
            v.len() == i,
            forall|j: int| 0 <= j < i ==> (#[trigger] v@[j])@ == encode_utf8(labels@[j]@),
        decreases labels.len() - i,
    {
        v.push(bytes_of(labels[i].as_str()));
        i = i + 1;
    }
    proof {
        assert(byte_views(v@) =~= label_bytes(views(labels@)));
        assert(views(labels@).len() == labels.len());
    }
    tensor("labels", "BYTES", extent(labels.len()), Data::Bytes(v))
}

/// A response's parameters and outputs.
#[derive(Debug)]
pub struct Answer {
    pub parameters: Params,
    pub outputs: Vec<Tensor>,
}

impl Answer {
    /// Whether the answer has these parameters and outputs.
    pub open spec fn has(&self, p: Seq<(Seq<char>, ParamView)>, o: Seq<TensorView>) -> bool {
        params_view(self.parameters@) == p && tensor_views(self.outputs@) == o
    }
}

/// Add a parameter.
fn put_param(p: &mut Params, name: &str, v: Param)
    ensures
        params_view(final(p)@) == params_view(old(p)@).push((name@, v@)),
{
    let ghost before = params_view(p@);
    let ghost seen = v@;
    p.push((name.to_owned(), v));
    proof {
        assert(params_view(p@) =~= before.push((name@, seen)));
    }
}

/// Two tensors.
fn pair(a: Tensor, b: Tensor) -> (r: Vec<Tensor>)
    ensures
        tensor_views(r@) == seq![a@, b@],
{
    let mut v: Vec<Tensor> = Vec::new();
    v.push(a);
    v.push(b);
    proof {
        assert(tensor_views(v@) =~= seq![a@, b@]);
    }
    v
}

/// One tensor.
fn single(a: Tensor) -> (r: Vec<Tensor>)
    ensures
        tensor_views(r@) == seq![a@],
{
    let mut v: Vec<Tensor> = Vec::new();
    v.push(a);
    proof {
        assert(tensor_views(v@) =~= seq![a@]);
    }
    v
}

/// The answer of an embedding: a row for each of `n` texts; the count of tokens
/// only where a tokenizer counted them.
pub fn embed_answer(
    n: usize,
    vectors: &Vec<Vec<u32>>,
    dim: usize,
    device_ms: Real,
    placement: Placement,
    tokens: Option<u32>,
) -> (r: Answer)
    requires
        n <= i64::MAX,
        dim <= i64::MAX,
    ensures
        r.has(
            seq![
                ("device_ms"@, ParamView::Double(device_ms@)),
                ("placement"@, ParamView::Str(placement_text(placement))),
            ] + (match tokens {
                Some(t) => seq![("prompt_tokens"@, ParamView::Int(t as i64))],
                None => Seq::empty(),
            }),
            seq![
                plain_tensor(
                    "embeddings"@,
                    "FP32"@,
                    seq![n as i64, dim as i64],
                    DataView::Fp32(flat_rows(vectors@, vectors.len() as int)),
                ),
            ],
        ),
{
    let mut p: Params = Vec::new();
    proof {
        assert(params_view(p@) =~= Seq::empty());
    }
    let ghost ms = device_ms@;
    put_param(&mut p, "device_ms", Param::Double(device_ms));
    put_param(&mut p, "placement", Param::Str(placement.text().to_owned()));
    if let Some(t) = tokens {
        put_param(&mut p, "prompt_tokens", Param::Int(t as i64));
    }
    proof {
        assert(params_view(p@) =~= seq![
            ("device_ms"@, ParamView::Double(ms)),
            ("placement"@, ParamView::Str(placement_text(placement))),
        ] + (match tokens {
            Some(t) => seq![("prompt_tokens"@, ParamView::Int(t as i64))],
            None => Seq::empty(),
        }));
    }
    Answer {
        parameters: p,
        outputs: single(
            tensor("embeddings", "FP32", extents(n, dim), Data::Fp32(flatten(vectors))),
        ),
    }
}

/// The parameters of an answer that tells only how long the device took.
fn timed(device_ms: Real) -> (r: Params)
    ensures
        params_view(r@) == seq![("device_ms"@, ParamView::Double(device_ms@))],
{
    let mut p: Params = Vec::new();
    proof {
        assert(params_view(p@) =~= Seq::empty());
    }
    let ghost ms = device_ms@;
    put_param(&mut p, "device_ms", Param::Double(device_ms));
    proof {
        assert(params_view(p@) =~= seq![("device_ms"@, ParamView::Double(ms))]);
    }
    p
}

/// The answer of a reranking: a score for each document, and the ranking.
pub fn rerank_answer(scores: Vec<u32>, sorted: Vec<i32>, device_ms: Real) -> (r: Answer)
    requires
        scores.len() <= i64::MAX,
        sorted.len() <= i64::MAX,
    ensures
        r.has(
            seq![("device_ms"@, ParamView::Double(device_ms@))],
            seq![
                plain_tensor(
                    "scores"@,
                    "FP32"@,
                    seq![scores.len() as i64],
                    DataView::Fp32(scores@),
                ),
                plain_tensor(
                    "sorted"@,
                    "INT32"@,
                    seq![sorted.len() as i64],
                    DataView::Int32(sorted@),
                ),
            ],
        ),
{
    let n = extent(scores.len());
    let m = extent(sorted.len());
    Answer {
        parameters: timed(device_ms),
        outputs: pair(
            tensor("scores", "FP32", n, Data::Fp32(scores)),
            tensor("sorted", "INT32", m, Data::Int32(sorted)),
        ),
    }
}

/// The answer of a classification: a row of scores for each text, and the labels.
pub fn classify_answer(scores: &Vec<Vec<u32>>, labels: &Vec<String>, device_ms: Real) -> (r: Answer)
    requires
        scores.len() <= i64::MAX,
        labels.len() <= i64::MAX,
    ensures
        r.has(
            seq![("device_ms"@, ParamView::Double(device_ms@))],
            seq![
                plain_tensor(
                    "scores"@,
                    "FP32"@,
                    seq![scores.len() as i64, labels.len() as i64],
                    DataView::Fp32(flat_rows(scores@, scores.len() as int)),
                ),
                labels_view(views(labels@)),
            ],
        ),
{
    Answer {
        parameters: timed(device_ms),
        outputs: pair(
            tensor(
                "scores",
                "FP32",
                extents(scores.len(), labels.len()),
                Data::Fp32(flatten(scores)),
            ),
            labels_tensor(labels),
        ),
    }
}

/// The answer of a tagging: one JSON text for each span, and the labels.
pub fn tag_answer(spans: Vec<Vec<u8>>, labels: &Vec<String>, device_ms: Real) -> (r: Answer)
    requires
        spans.len() <= i64::MAX,
        labels.len() <= i64::MAX,
    ensures
        r.has(
            seq![("device_ms"@, ParamView::Double(device_ms@))],
            seq![
                plain_tensor(
                    "spans"@,
                    "BYTES"@,
                    seq![spans.len() as i64],
                    DataView::Bytes(byte_views(spans@)),
                ),
                labels_view(views(labels@)),
            ],
        ),
{
    let n = extent(spans.len());
    Answer {
        parameters: timed(device_ms),
        outputs: pair(tensor("spans", "BYTES", n, Data::Bytes(spans)), labels_tensor(labels)),
    }
}

/// A label's name, or its number where it has none.
pub open spec fn label_shown(labels: Seq<Seq<char>>, label: u32) -> Seq<char> {
    if label < labels.len() {
        labels[label as int]
    } else {
        decimal(label as nat)
    }
}

/// The label of a span: the model's, or the number where it has none.
pub fn label_of(labels: &Vec<String>, label: u32) -> (r: String)
    ensures
        r@ == label_shown(views(labels@), label),
{
    if (label as u64) < labels.len() as u64 {
        labels[label as usize].clone()
    } else {
        decimal_of(label as u128)
    }
}

/// A finish reason in lower case.
pub open spec fn finish_text(f: FinishReason) -> Seq<char> {
    match f {
        FinishReason::Running => "none"@,
        FinishReason::Stop => "stop"@,
        FinishReason::Length => "length"@,
        FinishReason::Eos => "eos"@,
        FinishReason::Cancelled => "cancelled"@,
    }
}

/// A finish reason in lower case.
pub fn finish_text_of(f: FinishReason) -> (r: &'static str)
    ensures
        r@ == finish_text(f),
{
    match f {
        FinishReason::Running => "none",
        FinishReason::Stop => "stop",
        FinishReason::Length => "length",
        FinishReason::Eos => "eos",
        FinishReason::Cancelled => "cancelled",
    }
}

/// The parameters of a generation that ended, in name order.
pub open spec fn generation_parameters(finish: Seq<char>, prompt: u32, generated: u32) -> Seq<
    (Seq<char>, ParamView),
> {
    seq![
        ("finish_reason"@, ParamView::Str(finish)),
        ("generated_tokens"@, ParamView::Int(generated as i64)),
        ("prompt_tokens"@, ParamView::Int(prompt as i64)),
    ]
}

/// A generated text as a tensor.
pub open spec fn text_view(text: Seq<char>) -> TensorView {
    plain_tensor("text"@, "BYTES"@, seq![1i64], DataView::Bytes(seq![encode_utf8(text)]))
}

/// A generated text as a tensor.
pub fn text_tensor(text: &str) -> (r: Tensor)
    ensures
        r@ == text_view(text@),
{
    let mut v: Vec<Vec<u8>> = Vec::new();
    v.push(bytes_of(text));
    proof {
        assert(byte_views(v@) =~= seq![encode_utf8(text@)]);
    }
    tensor("text", "BYTES", extent(1), Data::Bytes(v))
}

/// The parameters of a generation that ended.
pub fn ended(finish: &str, prompt: u32, generated: u32) -> (r: Params)
    ensures
        params_view(r@) == generation_parameters(finish@, prompt, generated),
{
    let mut p: Params = Vec::new();
    proof {
        assert(params_view(p@) =~= Seq::empty());
    }
    put_param(&mut p, "finish_reason", Param::Str(finish.to_owned()));
    put_param(&mut p, "generated_tokens", Param::Int(generated as i64));
    put_param(&mut p, "prompt_tokens", Param::Int(prompt as i64));
    proof {
        assert(params_view(p@) =~= generation_parameters(finish@, prompt, generated));
    }
    p
}

/// The answer of a generation: its text, why it stopped and its counts.
pub fn generate_answer(c: &Collected) -> (r: Answer)
    ensures
        r.has(
            generation_parameters(
                match c.finish {
                    Some(f) => finish_text(f),
                    None => ""@,
                },
                c.prompt_tokens,
                c.generated_tokens,
            ),
            seq![text_view(c.text@)],
        ),
{
    let finish: &str = match c.finish {
        Some(f) => finish_text_of(f),
        None => "",
    };
    Answer {
        parameters: ended(finish, c.prompt_tokens, c.generated_tokens),
        outputs: single(text_tensor(c.text.as_str())),
    }
}

/// An output of a generic model: packed bytes of `dtype`.
#[derive(Debug)]
pub struct RunOutput {
    pub name: String,
    pub dtype: DType,
    pub shape: Vec<u64>,
    pub bytes: Vec<u8>,
}

/// An output as a tensor, or the refusal.
pub open spec fn run_output_of(o: RunOutput) -> Result<TensorView, ErrorView> {
    match unpack_of(o.bytes@, o.dtype) {
        Err(e) => Err(e),
        Ok(d) => Ok(
            plain_tensor(
                o.name@,
                datatype_text(o.dtype),
                Seq::new(o.shape@.len(), |i: int| signed64(o.shape@[i])),
                d,
            ),
        ),
    }
}

/// The first `n` outputs as tensors, or the first refusal.
pub open spec fn run_outputs_of(v: Seq<RunOutput>, n: int) -> Result<Seq<TensorView>, ErrorView>
    decreases n,
{
    if n <= 0 {
        Ok(Seq::empty())
    } else {
        match run_outputs_of(v, n - 1) {
            Err(e) => Err(e),
            Ok(out) => match run_output_of(v[n - 1]) {
                Err(e) => Err(e),
                Ok(t) => Ok(out.push(t)),
            },
        }
    }
}

/// A refused output decides the whole.
proof fn output_refusal_stays(v: Seq<RunOutput>, i: int, n: int)
    requires
        0 <= i <= n,
    ensures
        run_outputs_of(v, i) is Err ==> run_outputs_of(v, n) == run_outputs_of(v, i),
    decreases n,
{
    if i < n {
        output_refusal_stays(v, i, n - 1);
    }
}

/// The answer of a generic model: every output as a tensor.
pub fn run_answer(outs: &Vec<RunOutput>, device_ms: Real) -> (r: Result<Answer, Error>)
    ensures
        match run_outputs_of(outs@, outs.len() as int) {
            Err(e) => r is Err && r->Err_0@ == e,
            Ok(v) => r is Ok && r->Ok_0.has(
                seq![("device_ms"@, ParamView::Double(device_ms@))],
                v,
            ),
        },
{
    let mut v: Vec<Tensor> = Vec::new();
    let mut i: usize = 0;
    proof {
        assert(tensor_views(v@) =~= Seq::empty());
    }
    while i < outs.len()
        invariant
            i <= outs.len(),
            run_outputs_of(outs@, i as int) == Ok::<Seq<TensorView>, ErrorView>(tensor_views(v@)),
        decreases outs.len() - i,
    {
        proof {
            output_refusal_stays(outs@, i + 1, outs.len() as int);
        }
        let o = &outs[i];
        let data = match unpack(&o.bytes, o.dtype) {
            Err(e) => return Err(e),
            Ok(d) => d,
        };
        let t = tensor(o.name.as_str(), datatype_of(o.dtype), to_signed64(&o.shape), data);
        proof {
            assert(as_signed64(o.shape@) =~= Seq::new(
                o.shape@.len(),
                |i: int| signed64(o.shape@[i]),
            ));
        }
        let ghost before = tensor_views(v@);
        let ghost seen = t@;
        v.push(t);
        proof {
            assert(tensor_views(v@) =~= before.push(seen));
        }
        i = i + 1;
    }
    Ok(Answer { parameters: timed(device_ms), outputs: v })
}

/// The names of tensors.
pub open spec fn view_names(v: Seq<TensorView>) -> Seq<Seq<char>> {
    Seq::new(v.len(), |i: int| v[i].name)
}

/// The refusal of the first wanted output that is not produced, from place `i` on.
pub open spec fn wanted_fault(names: Seq<Seq<char>>, wanted: Seq<Seq<char>>, i: int) -> Option<
    ErrorView,
>
    decreases wanted.len() - i,
{
    if i < 0 || i >= wanted.len() {
        None
    } else if !names.contains(wanted[i]) {
        Some(
            plain(
                Class::BadRequest,
                "requested output `"@ + wanted[i] + "` is not produced; outputs: "@ + joined(
                    names,
                    ", "@,
                ),
            ),
        )
    } else {
        wanted_fault(names, wanted, i + 1)
    }
}

/// The first `n` outputs that are wanted.
pub open spec fn kept(v: Seq<TensorView>, wanted: Seq<Seq<char>>, n: int) -> Seq<TensorView>
    decreases n,
{
    if n <= 0 {
        Seq::empty()
    } else if wanted.contains(v[n - 1].name) {
        kept(v, wanted, n - 1).push(v[n - 1])
    } else {
        kept(v, wanted, n - 1)
    }
}

/// The outputs that a request wants: all where it names none.
pub open spec fn selected(v: Seq<TensorView>, wanted: Seq<Seq<char>>) -> Result<
    Seq<TensorView>,
    ErrorView,
> {
    if wanted.len() == 0 {
        Ok(v)
    } else {
        match wanted_fault(view_names(v), wanted, 0) {
            Some(e) => Err(e),
            None => Ok(kept(v, wanted, v.len() as int)),
        }
    }
}

/// The outputs that a request wants.
pub fn select_outputs(outputs: Vec<Tensor>, wanted: &Vec<String>) -> (r: Result<Vec<Tensor>, Error>)
    ensures
        match selected(tensor_views(outputs@), views(wanted@)) {
            Ok(v) => r is Ok && tensor_views(r->Ok_0@) == v,
            Err(e) => r is Err && r->Err_0@ == e,
        },
{
    let ghost w = views(wanted@);
    let ghost all = tensor_views(outputs@);
    if wanted.len() == 0 {
        return Ok(outputs);
    }
    let names = names_of(&outputs);
    proof {
        assert(tensor_names(outputs@) =~= view_names(all));
    }
    let mut i: usize = 0;
    while i < wanted.len()
        invariant
            i <= wanted.len(),
            w == views(wanted@),
            wanted.len() > 0,
            views(names@) == view_names(all),
            all == tensor_views(outputs@),
            wanted_fault(view_names(all), w, i as int) == wanted_fault(view_names(all), w, 0),
        decreases wanted.len() - i,
    {
        proof {
            assert(w[i as int] == wanted@[i as int]@);
        }
        if !holds(&names, wanted[i].as_str()) {
            return Err(
                Error::plain(
                    Class::BadRequest,
                    cat4(
                        "requested output `",
                        wanted[i].as_str(),
                        "` is not produced; outputs: ",
                        join_of(&names, ", ").as_str(),
                    ),
                ),
            );
        }
        i = i + 1;
    }
    let mut rest = outputs;
    let mut out: Vec<Tensor> = Vec::new();
    let ghost mut done: int = 0;
    proof {
        assert(tensor_views(out@) =~= Seq::empty());
        assert(all.skip(0) =~= all);
    }
    while rest.len() > 0
        invariant
            0 <= done <= all.len(),
            w == views(wanted@),
            tensor_views(rest@) == all.skip(done),
            tensor_views(out@) == kept(all, w, done),
        decreases rest.len(),
    {
        let ghost before_rest = tensor_views(rest@);
        let ghost had = rest@;
        let t = rest.remove(0);
        proof {
            assert(before_rest[0] == t@);
            assert(before_rest.len() == all.len() - done);
            assert(all[done] == t@);
            assert(rest@ =~= had.skip(1));
            assert(tensor_views(rest@) =~= before_rest.skip(1));
            assert(before_rest.skip(1) =~= all.skip(done + 1));
        }
        let ghost before = tensor_views(out@);
        let ghost seen = t@;
        if holds(wanted, t.name.as_str()) {
            out.push(t);
            proof {
                assert(tensor_views(out@) =~= before.push(seen));
            }
        }
        proof {
            done = done + 1;
        }
    }
    proof {
        assert(tensor_views(rest@).len() == 0);
    }
    Ok(out)
}

/// The response to a request: the outputs that it wants, under its id.
pub fn respond(model: &str, req: &InferRequest, answer: Answer) -> (r: Result<InferResponse, Error>)
    ensures
        match selected(tensor_views(answer.outputs@), views(req.outputs@)) {
            Err(e) => r is Err && r->Err_0@ == e,
            Ok(v) => {
                &&& r is Ok
                &&& r->Ok_0.model_name@ == model@
                &&& r->Ok_0.model_version@ == MODEL_VERSION@
                &&& r->Ok_0.id@ == req.id@
                &&& r->Ok_0.parameters == answer.parameters
                &&& tensor_views(r->Ok_0.outputs@) == v
            },
        },
{
    match select_outputs(answer.outputs, &req.outputs) {
        Err(e) => Err(e),
        Ok(outputs) => Ok(
            InferResponse {
                model_name: model.to_owned(),
                model_version: MODEL_VERSION.to_owned(),
                id: req.id.clone(),
                parameters: answer.parameters,
                outputs,
            },
        ),
    }
}

/// Every output of a response was wanted and every wanted output is in it.
pub proof fn response_has_what_was_wanted(v: Seq<TensorView>, wanted: Seq<Seq<char>>, k: int)
    requires
        wanted.len() > 0,
        selected(v, wanted) is Ok,
        0 <= k < wanted.len(),
    ensures
        exists|i: int|
            0 <= i < selected(v, wanted)->Ok_0.len() && (#[trigger] selected(v, wanted)->Ok_0[i]).name
                == wanted[k],
        forall|i: int|
            0 <= i < selected(v, wanted)->Ok_0.len() ==> wanted.contains(
                (#[trigger] selected(v, wanted)->Ok_0[i]).name,
            ),
{
    produced(view_names(v), wanted, 0, k);
    let j = choose|j: int| 0 <= j < view_names(v).len() && view_names(v)[j] == wanted[k];
    kept_is_wanted(v, wanted, v.len() as int);
    wanted_is_kept(v, wanted, v.len() as int, j);
}

/// No wanted output is refused, so each is produced.
proof fn produced(names: Seq<Seq<char>>, wanted: Seq<Seq<char>>, i: int, k: int)
    requires
        wanted_fault(names, wanted, i) is None,
        0 <= i <= k < wanted.len(),
    ensures
        names.contains(wanted[k]),
    decreases k - i,
{
    if i < k {
        produced(names, wanted, i + 1, k);
    }
}

/// What is kept was wanted.
proof fn kept_is_wanted(v: Seq<TensorView>, wanted: Seq<Seq<char>>, n: int)
    requires
        0 <= n <= v.len(),
    ensures
        forall|i: int|
            0 <= i < kept(v, wanted, n).len() ==> wanted.contains((#[trigger] kept(v, wanted, n)[i]).name),
    decreases n,
{
    if n > 0 {
        kept_is_wanted(v, wanted, n - 1);
        let before = kept(v, wanted, n - 1);
        assert forall|i: int| 0 <= i < kept(v, wanted, n).len() implies wanted.contains(
            (#[trigger] kept(v, wanted, n)[i]).name,
        ) by {
            if i < before.len() {
                assert(kept(v, wanted, n)[i] == before[i]);
            }
        }
    }
}

/// What is wanted is kept.
proof fn wanted_is_kept(v: Seq<TensorView>, wanted: Seq<Seq<char>>, n: int, j: int)
    requires
        0 <= j < n <= v.len(),
        wanted.contains(v[j].name),
    ensures
        exists|i: int| 0 <= i < kept(v, wanted, n).len() && (#[trigger] kept(v, wanted, n)[i]) == v[j],
    decreases n,
{
    let after = kept(v, wanted, n);
    let before = kept(v, wanted, n - 1);
    if j == n - 1 {
        assert(after[before.len() as int] == v[j]);
    } else {
        wanted_is_kept(v, wanted, n - 1, j);
        let i = choose|i: int| 0 <= i < before.len() && (#[trigger] before[i]) == v[j];
        assert(after[i] == v[j]);
    }
}

/// An input is the first that has its name, and is missing where none has it.
pub proof fn an_input_is_the_first_of_its_name(v: Seq<Tensor>, name: Seq<char>, i: int)
    requires
        0 <= i < v.len(),
    ensures
        v[i].name@ == name && (forall|k: int| 0 <= k < i ==> (#[trigger] v[k]).name@ != name) ==> input_named(
            v,
            name,
        ) == Ok::<Tensor, ErrorView>(v[i]),
        (forall|k: int| 0 <= k < v.len() ==> (#[trigger] v[k]).name@ != name) ==> input_named(v, name) is Err,
{
    input_place_is_first(v, name, 0);
}

/// The place of an input is the first that has its name.
proof fn input_place_is_first(v: Seq<Tensor>, name: Seq<char>, i: int)
    requires
        0 <= i <= v.len(),
    ensures
        i <= input_place(v, name, i) <= v.len(),
        input_place(v, name, i) < v.len() ==> v[input_place(v, name, i)].name@ == name,
        forall|k: int| i <= k < input_place(v, name, i) ==> (#[trigger] v[k]).name@ != name,
    decreases v.len() - i,
{
    if i < v.len() && v[i].name@ != name {
        input_place_is_first(v, name, i + 1);
    }
}

/// What a request asks of a model is that of the model's kind, on the inputs of the
/// kind's names and with the options that the request's parameters name.
pub proof fn a_request_asks_what_the_kind_does(kind: ModelKind, req: InferRequest, readings: Seq<Reading>)
    requires
        work_of(kind, req, readings) is Ok,
    ensures
        ({
            let w = work_of(kind, req, readings)->Ok_0;
            let i = req.inputs@;
            let p = req.parameters@;
            &&& kind == ModelKind::Embedding ==> w is Embed && texts_named(i, "text"@) == Ok::<
                Seq<Seq<char>>,
                ErrorView,
            >(w->Embed_0) && embed_options_of(p) is Ok && embed_options_of(p)->Ok_0 == w->Embed_1
            &&& kind == ModelKind::Reranker ==> w is Rerank && texts_named(i, "query"@) is Ok && texts_named(
                i,
                "query"@,
            )->Ok_0.len() == 1 && texts_named(i, "query"@)->Ok_0[0] == w->Rerank_0 && texts_named(
                i,
                "documents"@,
            ) == Ok::<Seq<Seq<char>>, ErrorView>(w->Rerank_1) && rerank_options_of(p) is Ok
                && rerank_options_of(p)->Ok_0 == w->Rerank_2
            &&& kind == ModelKind::Classifier ==> w is Classify && texts_named(i, "text"@) == Ok::<
                Seq<Seq<char>>,
                ErrorView,
            >(w->Classify_0) && classify_options_of(p) is Ok && classify_options_of(p)->Ok_0 == w->Classify_1
            &&& kind == ModelKind::TokenClassifier ==> w is TokenClassify && texts_named(i, "text"@) == Ok::<
                Seq<Seq<char>>,
                ErrorView,
            >(w->TokenClassify_0) && classify_options_of(p) is Ok && classify_options_of(p)->Ok_0
                == w->TokenClassify_1
            &&& kind == ModelKind::Generative ==> {
                let given = exists|k: int| 0 <= k < i.len() && (#[trigger] i[k]).name@ == "messages"@;
                &&& given ==> w is Turns && texts_named(i, "messages"@) == Ok::<Seq<Seq<char>>, ErrorView>(
                    w->Turns_0,
                )
                &&& !given ==> w is Prompt && texts_named(i, "prompt"@) is Ok && texts_named(
                    i,
                    "prompt"@,
                )->Ok_0.len() == 1 && texts_named(i, "prompt"@)->Ok_0[0] == w->Prompt_0
            }
            &&& kind == ModelKind::Generic ==> w is Run && w->Run_0.len() == i.len()
        }),
{
    input_place_is_first(req.inputs@, "messages"@, 0);
    if kind == ModelKind::Generic {
        inputs_are_bound_in_order(req.inputs@, req.inputs.len() as int);
    }
    if kind == ModelKind::Generative {
        let at = input_place(req.inputs@, "messages"@, 0);
        if at < req.inputs.len() {
            assert(req.inputs@[at].name@ == "messages"@);
        }
    }
}

/// The inputs of a generic model are bound in their order, each under its name, with its
/// extents and the bytes of its contents.
pub proof fn inputs_are_bound_in_order(v: Seq<Tensor>, n: int)
    requires
        0 <= n <= v.len(),
        run_inputs_of(v, n) is Ok,
    ensures
        ({
            let r = run_inputs_of(v, n)->Ok_0;
            &&& r.len() == n
            &&& forall|i: int| 0 <= i < n ==> (#[trigger] r[i]).name == v[i].name@
            &&& forall|i: int| 0 <= i < n ==> (#[trigger] r[i]).shape.len() == v[i].shape.len()
            &&& forall|i: int|
                0 <= i < n ==> dtype_named(v[i].datatype@) == Ok::<DType, ErrorView>((#[trigger] r[i]).dtype)
                    && pack_of(v[i].data, r[i].dtype, v[i].name@) == Ok::<Seq<u8>, ErrorView>(r[i].bytes)
        }),
    decreases n,
{
    if n > 0 {
        inputs_are_bound_in_order(v, n - 1);
        let a = run_inputs_of(v, n - 1)->Ok_0;
        let r = run_inputs_of(v, n)->Ok_0;
        assert forall|i: int| 0 <= i < n - 1 implies #[trigger] r[i] == a[i] by {}
    }
}

/// The outputs of a generic model are answered in their order, each under its name.
pub proof fn outputs_are_answered_in_order(v: Seq<RunOutput>, n: int)
    requires
        0 <= n <= v.len(),
        run_outputs_of(v, n) is Ok,
    ensures
        ({
            let r = run_outputs_of(v, n)->Ok_0;
            &&& r.len() == n
            &&& forall|i: int|
                0 <= i < n ==> (#[trigger] r[i]).name == v[i].name@ && r[i].datatype == datatype_text(v[i].dtype)
                    && r[i].shape.len() == v[i].shape.len() && unpack_of(v[i].bytes@, v[i].dtype) == Ok::<
                    DataView,
                    ErrorView,
                >(r[i].data)
        }),
    decreases n,
{
    if n > 0 {
        outputs_are_answered_in_order(v, n - 1);
        let a = run_outputs_of(v, n - 1)->Ok_0;
        let r = run_outputs_of(v, n)->Ok_0;
        assert forall|i: int| 0 <= i < n - 1 implies #[trigger] r[i] == a[i] by {}
    }
}

/// The rows of an answer stand one behind the other, each whole and in its place.
pub proof fn rows_stand_one_behind_the_other(rows: Seq<Vec<u32>>, width: int, n: int, r: int, c: int)
    requires
        0 <= r < n <= rows.len(),
        0 <= c < width,
        forall|i: int| 0 <= i < rows.len() ==> (#[trigger] rows[i]).len() == width,
    ensures
        flat_rows(rows, n).len() == n * width,
        0 <= r * width + c < n * width,
        flat_rows(rows, n)[r * width + c] == rows[r]@[c],
    decreases n,
{
    flat_len(rows, width, n);
    flat_len(rows, width, n - 1);
    assert(rows[n - 1].len() == width);
    assert((n - 1) * width + width == n * width) by (nonlinear_arith);
    assert(0 <= r * width) by (nonlinear_arith)
        requires
            0 <= r,
            0 < width,
    ;
    if r < n - 1 {
        rows_stand_one_behind_the_other(rows, width, n - 1, r, c);
    }
}

/// Rows of one width fill their shape.
proof fn flat_len(rows: Seq<Vec<u32>>, width: int, n: int)
    requires
        0 <= n <= rows.len(),
        0 <= width,
        forall|i: int| 0 <= i < rows.len() ==> (#[trigger] rows[i]).len() == width,
    ensures
        flat_rows(rows, n).len() == n * width,
    decreases n,
{
    if n > 0 {
        flat_len(rows, width, n - 1);
        assert(rows[n - 1].len() == width);
        assert((n - 1) * width + width == n * width) by (nonlinear_arith);
    } else {
        assert(n * width == 0) by (nonlinear_arith)
            requires
                n == 0,
        ;
    }
}

/// An answer tells why its generation ended, and how many tokens it read and wrote.
pub proof fn an_answer_tells_why_it_ended(f: FinishReason, finish: Seq<char>, prompt: u32, generated: u32)
    ensures
        finish_text(f) == "stop"@ <==> f == FinishReason::Stop,
        finish_text(f) == "length"@ <==> f == FinishReason::Length,
        finish_text(f) == "eos"@ <==> f == FinishReason::Eos,
        finish_text(f) == "cancelled"@ <==> f == FinishReason::Cancelled,
        generation_parameters(finish, prompt, generated).len() == 3,
        generation_parameters(finish, prompt, generated)[0] == ("finish_reason"@, ParamView::Str(finish)),
        generation_parameters(finish, prompt, generated)[1] == (
            "generated_tokens"@,
            ParamView::Int(generated as i64),
        ),
        generation_parameters(finish, prompt, generated)[2] == ("prompt_tokens"@, ParamView::Int(prompt as i64)),
{
    reveal_strlit("none");
    reveal_strlit("stop");
    reveal_strlit("length");
    reveal_strlit("eos");
    reveal_strlit("cancelled");
    assert("none"@[0] == 'n' && "stop"@[0] == 's' && "length"@[0] == 'l' && "eos"@[0] == 'e'
        && "cancelled"@[0] == 'c');
}

/// The turns of a conversation are taken in their order, and a turn that is none refuses
/// all.
pub proof fn turns_are_taken_in_order(turns: Seq<Turn>, n: int)
    requires
        0 <= n <= turns.len(),
    ensures
        turns_of(turns, n) is Ok <==> forall|i: int| 0 <= i < n ==> (#[trigger] turns[i]) is Ok,
        turns_of(turns, n) matches Ok(v) ==> v.len() == n && forall|i: int|
            0 <= i < n ==> #[trigger] v[i] == (turns[i]->Ok_0.0@, turns[i]->Ok_0.1@),
    decreases n,
{
    if n > 0 {
        turns_are_taken_in_order(turns, n - 1);
        if turns_of(turns, n) is Ok {
            let a = turns_of(turns, n - 1)->Ok_0;
            let v = turns_of(turns, n)->Ok_0;
            assert forall|i: int| 0 <= i < n implies #[trigger] v[i] == (turns[i]->Ok_0.0@, turns[i]->Ok_0.1@) by {
                if i < n - 1 {
                    assert(v[i] == a[i]);
                }
            }
        }
    }
}

/// A response keeps its outputs in their order: all of them where none is named, and
/// else those that are.
pub proof fn a_response_keeps_the_order_of_its_outputs(v: Seq<TensorView>, wanted: Seq<Seq<char>>, n: int)
    requires
        0 <= n <= v.len(),
    ensures
        wanted.len() == 0 ==> selected(v, wanted) == Ok::<Seq<TensorView>, ErrorView>(v),
        kept(v, wanted, n) == v.take(n).filter(|t: TensorView| wanted.contains(t.name)),
    decreases n,
{
    reveal(Seq::filter);
    if n > 0 {
        a_response_keeps_the_order_of_its_outputs(v, wanted, n - 1);
        assert(v.take(n).drop_last() =~= v.take(n - 1));
    }
}

/// The parameters of a run are those of the request but for the server's own.
pub proof fn a_run_gets_the_parameters_of_the_request(params: Seq<(String, Param)>, n: int)
    requires
        0 < n <= params.len(),
    ensures
        starts(params[n - 1].0@, "turbo_internal"@) ==> run_params_of(params, n) == run_params_of(params, n - 1),
        !starts(params[n - 1].0@, "turbo_internal"@) ==> run_params_of(params, n) == run_params_of(
            params,
            n - 1,
        ).push((params[n - 1].0@, param_text(params[n - 1].1))),
        run_params_of(params, 0).len() == 0,
{
}

/// The labels of an answer are told as text, in their order.
pub proof fn labels_are_told_in_order(labels: Seq<Seq<char>>, i: int)
    requires
        0 <= i < labels.len(),
    ensures
        labels_view(labels).name == "labels"@,
        labels_view(labels).data is Bytes,
        labels_view(labels).data->Bytes_0.len() == labels.len(),
        labels_view(labels).data->Bytes_0[i] == encode_utf8(labels[i]),
        text_view(labels[i]).data == DataView::Bytes(seq![encode_utf8(labels[i])]),
        text_view(labels[i]).name == "text"@,
{
}

/// A label is told by its name, and by its number where it has none.
pub proof fn a_label_is_told_by_its_name(labels: Seq<Seq<char>>, label: u32)
    ensures
        label < labels.len() ==> label_shown(labels, label) == labels[label as int],
        label >= labels.len() ==> label_shown(labels, label) == decimal(label as nat),
{
}

/// An input is bound under its own name with its own extents and type, where no extent
/// is negative and its contents are of that type; a negative extent is refused.
pub proof fn an_input_is_bound_as_it_is(t: Tensor, i: int)
    ensures
        run_input_of(t) matches Ok(r) ==> {
            &&& r.name == t.name@
            &&& r.shape.len() == t.shape.len()
            &&& 0 <= i < t.shape.len() ==> t.shape@[i] >= 0 && r.shape[i] == t.shape@[i]
            &&& dtype_named(t.datatype@) == Ok::<crate::types::DType, ErrorView>(r.dtype)
            &&& pack_of(t.data, r.dtype, t.name@) == Ok::<Seq<u8>, ErrorView>(r.bytes)
        },
        dtype_named(t.datatype@) is Ok && 0 <= i < t.shape.len() && t.shape@[i] < 0 ==> run_input_of(t)
            == Err::<RunView, ErrorView>(
            plain(Class::BadRequest, "input `"@ + t.name@ + "` has a negative extent"@),
        ),
        dtype_named(t.datatype@) is Ok && (forall|k: int|
            0 <= k < t.shape.len() ==> #[trigger] t.shape@[k] >= 0) ==> (run_input_of(t) is Ok
            <==> pack_of(t.data, dtype_named(t.datatype@)->Ok_0, t.name@) is Ok),
{
    negative_extents_are_found(t.shape@, 0);
}

/// A negative extent is found where there is one.
proof fn negative_extents_are_found(shape: Seq<i64>, i: int)
    requires
        0 <= i <= shape.len(),
    ensures
        has_negative(shape, i) <==> exists|k: int| i <= k < shape.len() && #[trigger] shape[k] < 0,
    decreases shape.len() - i,
{
    if i < shape.len() {
        negative_extents_are_found(shape, i + 1);
        if shape[i] < 0 {
            assert(shape[i] < 0);
        }
    }
}

} // verus!

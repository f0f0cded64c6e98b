//! The CUDA provider's decisions: what it serves, how a bundle's contract and
//! its graph are checked, and which kernel follows a run.

use vstd::prelude::*;
use crate::error::{Class, Error, ErrorView, agrees, agrees_plain, plain};
use crate::text::{
    cat2, cat3, cat4, cat5, cat7, contains_of, copy_all, decimal, decimal_of, occurs, opt_view,
    same, signed_decimal, signed_of, starts, starts_with_of, views,
};
use crate::types::{
    Aggregation, BundleNames, ModelInfo, ModelKind, Normalize, Placement, Pooling, StagePlacement,
    Stages, Task, kind_text, placement_text, task_text,
};
use crate::wordpiece::Vocab;

verus! {

/// Provider id.
pub const CUDA_PROVIDER_ID: &'static str = "cuda";

/// The number of the vendor of every device.
pub const NVIDIA_VENDOR_ID: u32 = 0x10DE;

/// What the runtime reports of one device.
#[derive(Clone, Debug)]
pub struct DeviceProps {
    /// Device ordinal.
    pub index: i32,
    /// Device name.
    pub name: String,
    /// Total memory in bytes.
    pub total_mem: u64,
    /// Free memory at probe time.
    pub free_mem: u64,
    /// Compute capability major.
    pub major: i32,
    /// Compute capability minor.
    pub minor: i32,
    /// Runtime version.
    pub runtime_version: i32,
    /// Driver version.
    pub driver_version: i32,
    /// Whether the device shares the host's memory.
    pub integrated: bool,
}

/// A quotient that is cut off towards zero.
pub open spec fn cut_div(a: int, b: int) -> int {
    if a >= 0 {
        a / b
    } else {
        -((-a) / b)
    }
}

/// A CUDA version integer as `major.minor`: 13020 is `13.2`.
pub open spec fn version_text(v: int) -> Seq<char> {
    signed_decimal(cut_div(v, 1000)) + "."@ + signed_decimal(cut_div(v - 1000 * cut_div(v, 1000), 10))
}

/// Render a CUDA version integer (for example 13020) as `13.2`.
pub fn version_string(v: i32) -> (r: String)
    ensures
        r@ == version_text(v as int),
{
    let w: i64 = v as i64;
    let (major, minor): (i64, i64) = if w >= 0 {
        (w / 1000, (w % 1000) / 10)
    } else {
        let m: i64 = -w;
        (-(m / 1000), -((m % 1000) / 10))
    };
    cat3(signed_of(major).as_str(), ".", signed_of(minor).as_str())
}

/// The name a device is listed under: `NAME (sm_89)`.
pub fn device_name(p: &DeviceProps) -> (r: String)
    ensures
        r@ == p.name@ + " (sm_"@ + signed_decimal(p.major as int) + signed_decimal(p.minor as int)
            + ")"@,
{
    cat5(
        p.name.as_str(),
        " (sm_",
        signed_of(p.major as i64).as_str(),
        signed_of(p.minor as i64).as_str(),
        ")",
    )
}

/// The index of a device ordinal among `n` devices.
pub fn device_index(n: usize, ordinal: u32) -> (r: Result<usize, Error>)
    ensures
        agrees_plain(
            r,
            if ordinal < n {
                Ok(ordinal as usize)
            } else {
                Err(
                    plain(
                        Class::DeviceNotFound,
                        "cuda provider has "@ + decimal(n as nat) + " device(s); ordinal "@ + decimal(
                            ordinal as nat,
                        ) + " does not exist"@,
                    ),
                )
            },
        ),
{
    if (ordinal as usize) < n {
        Ok(ordinal as usize)
    } else {
        Err(
            Error::plain(
                Class::DeviceNotFound,
                cat5(
                    "cuda provider has ",
                    decimal_of(n as u128).as_str(),
                    " device(s); ordinal ",
                    decimal_of(ordinal as u128).as_str(),
                    " does not exist",
                ),
            ),
        )
    }
}

/// Whether the provider offers a task on text, or on something else.
pub open spec fn offers(task: Task, text: bool) -> bool {
    text && (task == Task::Embed || task == Task::Rerank || task == Task::Classify || task
        == Task::TokenClassify)
}

/// Whether the provider offers a task.
pub fn offers_of(task: Task, text: bool) -> (r: bool)
    ensures
        r == offers(task, text),
{
    text && (task == Task::Embed || task == Task::Rerank || task == Task::Classify || task
        == Task::TokenClassify)
}

/// The kinds of model the provider serves.
#[derive(Clone, Copy, Debug, PartialEq, Eq, Structural)]
pub enum Kind {
    Embedding,
    Reranker,
    Classifier,
    TokenClassifier,
}

/// The name of a kind in messages.
pub open spec fn served_text(k: Kind) -> Seq<char> {
    match k {
        Kind::Embedding => "Embedding"@,
        Kind::Reranker => "Reranker"@,
        Kind::Classifier => "Classifier"@,
        Kind::TokenClassifier => "TokenClassifier"@,
    }
}

/// The kind that serves a bundle of this kind.
pub open spec fn served(kind: ModelKind) -> Result<Kind, ErrorView> {
    match kind {
        ModelKind::Embedding => Ok(Kind::Embedding),
        ModelKind::Reranker => Ok(Kind::Reranker),
        ModelKind::Classifier => Ok(Kind::Classifier),
        ModelKind::TokenClassifier => Ok(Kind::TokenClassifier),
        _ => Err(
            plain(
                Class::UnsupportedTask,
                "cuda provider does not serve "@ + kind_text(kind)
                    + " bundles (embedding, reranker, classifier, token_classifier)"@,
            ),
        ),
    }
}

impl Kind {
    /// The kind that serves a bundle of this kind.
    pub fn of(kind: ModelKind) -> (r: Result<Kind, Error>)
        ensures
            agrees_plain(r, served(kind)),
    {
        match kind {
            ModelKind::Embedding => Ok(Kind::Embedding),
            ModelKind::Reranker => Ok(Kind::Reranker),
            ModelKind::Classifier => Ok(Kind::Classifier),
            ModelKind::TokenClassifier => Ok(Kind::TokenClassifier),
            _ => Err(
                Error::plain(
                    Class::UnsupportedTask,
                    cat3(
                        "cuda provider does not serve ",
                        kind.text(),
                        " bundles (embedding, reranker, classifier, token_classifier)",
                    ),
                ),
            ),
        }
    }

    /// The name of the kind in messages.
    pub fn text(self) -> (r: &'static str)
        ensures
            r@ == served_text(self),
    {
        match self {
            Kind::Embedding => "Embedding",
            Kind::Reranker => "Reranker",
            Kind::Classifier => "Classifier",
            Kind::TokenClassifier => "TokenClassifier",
        }
    }
}

/// Whether the provider can run a task on a bundle, and if not, why.
pub open spec fn run_verdict(
    task: Task,
    text: bool,
    modality: Seq<char>,
    has_onnx: bool,
    model_id: Seq<char>,
    tokenizer_kind: Seq<char>,
    kind: ModelKind,
) -> Result<(), ErrorView> {
    if !offers(task, text) {
        Err(
            plain(
                Class::UnsupportedTask,
                "cuda provider offers EMBED, RERANK, CLASSIFY, and TOKEN_CLASSIFY on TEXT, not "@
                    + task_text(task) + " x "@ + modality,
            ),
        )
    } else if !has_onnx {
        Err(plain(Class::BundleNoArtifact, "bundle `"@ + model_id + "` has no `onnx` artifact"@))
    } else if tokenizer_kind != "wordpiece"@ {
        Err(unsupported_tokenizer(tokenizer_kind))
    } else {
        match served(kind) {
            Ok(_) => Ok(()),
            Err(e) => Err(e),
        }
    }
}

/// The refusal of a tokenizer other than WordPiece.
pub open spec fn unsupported_tokenizer(kind: Seq<char>) -> ErrorView {
    plain(
        Class::Unsupported,
        "cuda provider tokenizes BERT WordPiece natively; tokenizer kind `"@ + kind
            + "` is not supported here"@,
    )
}

/// The refusal of a tokenizer other than WordPiece.
fn refuse_tokenizer(kind: &str) -> (r: Error)
    ensures
        r@ == unsupported_tokenizer(kind@),
{
    Error::plain(
        Class::Unsupported,
        cat3(
            "cuda provider tokenizes BERT WordPiece natively; tokenizer kind `",
            kind,
            "` is not supported here",
        ),
    )
}

/// Whether the provider can run a task on a bundle. `modality` is the modality's
/// name and `text` whether it is text; a bundle without a tokenizer has the
/// tokenizer kind "".
pub fn can_run(
    task: Task,
    text: bool,
    modality: &str,
    has_onnx: bool,
    model_id: &str,
    tokenizer_kind: &str,
    kind: ModelKind,
) -> (r: Result<(), Error>)
    ensures
        agrees_plain(
            r,
            run_verdict(task, text, modality@, has_onnx, model_id@, tokenizer_kind@, kind),
        ),
{
    if !offers_of(task, text) {
        return Err(
            Error::plain(
                Class::UnsupportedTask,
                cat4(
                    "cuda provider offers EMBED, RERANK, CLASSIFY, and TOKEN_CLASSIFY on TEXT, not ",
                    task.text(),
                    " x ",
                    modality,
                ),
            ),
        );
    }
    if !has_onnx {
        return Err(
            Error::plain(
                Class::BundleNoArtifact,
                cat3("bundle `", model_id, "` has no `onnx` artifact"),
            ),
        );
    }
    if !same(tokenizer_kind, "wordpiece") {
        return Err(refuse_tokenizer(tokenizer_kind));
    }
    match Kind::of(kind) {
        Ok(_) => Ok(()),
        Err(e) => Err(e),
    }
}

/// How the scores of a model leave it.
#[derive(Clone, Copy, Debug, PartialEq, Eq, Structural)]
pub enum Activation {
    Softmax,
    Sigmoid,
    /// As they are.
    Raw,
}

/// The activation a contract names; `default` where it names none.
pub open spec fn activation_named(name: Option<Seq<char>>, default: Activation) -> Result<
    Activation,
    ErrorView,
> {
    match name {
        None => Ok(default),
        Some(n) => if n == "softmax"@ {
            Ok(Activation::Softmax)
        } else if n == "sigmoid"@ {
            Ok(Activation::Sigmoid)
        } else if n == "none"@ {
            Ok(Activation::Raw)
        } else {
            Err(
                plain(
                    Class::BundleInvalid,
                    "contract.activation `"@ + n + "` must be softmax, sigmoid, or none"@,
                ),
            )
        },
    }
}

impl Activation {
    /// The activation a contract names; `default` where it names none.
    pub fn parse(name: &Option<String>, default: Activation) -> (r: Result<Activation, Error>)
        ensures
            agrees_plain(r, activation_named(opt_view(*name), default)),
    {
        match name {
            None => Ok(default),
            Some(n) => {
                if same(n.as_str(), "softmax") {
                    Ok(Activation::Softmax)
                } else if same(n.as_str(), "sigmoid") {
                    Ok(Activation::Sigmoid)
                } else if same(n.as_str(), "none") {
                    Ok(Activation::Raw)
                } else {
                    Err(
                        Error::plain(
                            Class::BundleInvalid,
                            cat3(
                                "contract.activation `",
                                n.as_str(),
                                "` must be softmax, sigmoid, or none",
                            ),
                        ),
                    )
                }
            },
        }
    }
}

/// The activation of a contract that names one is the one it names, whatever the
/// default, and that of one that names none is the default.
pub proof fn an_activation_is_the_one_named(name: Option<Seq<char>>, default: Activation)
    ensures
        name is None ==> activation_named(name, default) == Ok::<Activation, ErrorView>(default),
        name == Some("softmax"@) ==> activation_named(name, default) == Ok::<Activation, ErrorView>(
            Activation::Softmax,
        ),
        name == Some("sigmoid"@) ==> activation_named(name, default) == Ok::<Activation, ErrorView>(
            Activation::Sigmoid,
        ),
        name == Some("none"@) ==> activation_named(name, default) == Ok::<Activation, ErrorView>(
            Activation::Raw,
        ),
        activation_named(name, default) is Err <==> (name matches Some(n) && n != "softmax"@ && n
            != "sigmoid"@ && n != "none"@),
{
    reveal_strlit("softmax");
    reveal_strlit("sigmoid");
    reveal_strlit("none");
    assert("softmax"@[1] == 'o' && "sigmoid"@[1] == 'i' && "none"@[0] == 'n');
    assert("softmax"@[0] == 's' && "sigmoid"@[0] == 's');
}

/// The width of an input element.
#[derive(Clone, Copy, Debug, PartialEq, Eq, Structural)]
pub enum Elem {
    I32,
    I64,
}

/// The width of an input element in bytes.
pub open spec fn elem_width(e: Elem) -> nat {
    match e {
        Elem::I32 => 4,
        Elem::I64 => 8,
    }
}

impl Elem {
    /// The width in bytes.
    pub fn width(self) -> (r: usize)
        ensures
            r == elem_width(self),
    {
        match self {
            Elem::I32 => 4,
            Elem::I64 => 8,
        }
    }
}

/// What a bundle's contract says, as it was read. A field that names an
/// enumeration holds what reading it gave.
pub struct Contract {
    pub text: bool,
    pub kind: ModelKind,
    pub dim: u32,
    pub pooling: Result<Option<Pooling>, Error>,
    pub normalize: Result<Option<Normalize>, Error>,
    pub activation: Option<String>,
    pub labels: Vec<String>,
    pub aggregation: Result<Option<Aggregation>, Error>,
}

/// How a model is run, as its contract fixes it.
#[derive(Clone, Copy, Debug, PartialEq, Eq, Structural)]
pub struct Plan {
    pub kind: Kind,
    pub pool: Pooling,
    pub normalize: bool,
    pub activation: Activation,
    /// Output width: embedding dimension or label count.
    pub width: u32,
    pub aggregation: Aggregation,
}

/// The plan of an embedding contract, its aggregation aside.
pub open spec fn embedding_plan(c: Contract) -> Result<Plan, ErrorView> {
    if c.dim == 0 {
        Err(plain(Class::BundleInvalid, "embedding bundle must declare contract.dim"@))
    } else {
        match c.pooling {
            Err(e) => Err(e@),
            Ok(None) => Err(
                plain(Class::BundleInvalid, "embedding bundle must declare contract.pooling"@),
            ),
            Ok(Some(pool)) => match c.normalize {
                Err(e) => Err(e@),
                Ok(None) => Err(
                    plain(
                        Class::BundleInvalid,
                        "embedding bundle must declare contract.normalize (l2 or none)"@,
                    ),
                ),
                Ok(Some(n)) => Ok(
                    Plan {
                        kind: Kind::Embedding,
                        pool,
                        normalize: n == Normalize::L2,
                        activation: Activation::Raw,
                        width: c.dim,
                        aggregation: Aggregation::Simple,
                    },
                ),
            },
        }
    }
}

/// The plan of a contract that gives scores, its aggregation aside.
pub open spec fn scoring_plan(c: Contract, kind: Kind, default: Activation, width: u32) -> Result<
    Plan,
    ErrorView,
> {
    match activation_named(opt_view(c.activation), default) {
        Err(e) => Err(e),
        Ok(activation) => Ok(
            Plan {
                kind,
                pool: Pooling::Cls,
                normalize: false,
                activation,
                width,
                aggregation: Aggregation::Simple,
            },
        ),
    }
}

/// The plan of a contract, its aggregation aside.
pub open spec fn head_plan(c: Contract, kind: Kind) -> Result<Plan, ErrorView> {
    match kind {
        Kind::Embedding => embedding_plan(c),
        Kind::Reranker => scoring_plan(c, kind, Activation::Sigmoid, 1),
        Kind::Classifier => if c.labels.len() == 0 {
            Err(plain(Class::BundleInvalid, "classifier bundle must declare contract.labels"@))
        } else {
            scoring_plan(c, kind, Activation::Softmax, c.labels.len() as u32)
        },
        Kind::TokenClassifier => if c.labels.len() == 0 {
            Err(plain(Class::BundleInvalid, "token classifier bundle must declare contract.labels"@))
        } else {
            scoring_plan(c, kind, Activation::Softmax, c.labels.len() as u32)
        },
    }
}

/// The plan a contract fixes, or the first thing that is wrong with it.
pub open spec fn contract_plan(c: Contract) -> Result<Plan, ErrorView> {
    if !c.text {
        Err(plain(Class::UnsupportedModality, "cuda provider serves text bundles only"@))
    } else {
        match served(c.kind) {
            Err(e) => Err(e),
            Ok(kind) => match head_plan(c, kind) {
                Err(e) => Err(e),
                Ok(p) => match c.aggregation {
                    Err(e) => Err(e@),
                    Ok(None) => Ok(p),
                    Ok(Some(a)) => if a == Aggregation::Model {
                        Err(
                            plain(
                                Class::BundleInvalid,
                                "contract.aggregation must name a strategy, not `model`"@,
                            ),
                        )
                    } else {
                        Ok(Plan { aggregation: a, ..p })
                    },
                },
            },
        }
    }
}

/// The plan of an embedding contract.
fn embedding_plan_of(
    dim: u32,
    pooling: Result<Option<Pooling>, Error>,
    normalize: Result<Option<Normalize>, Error>,
    Ghost(c): Ghost<Contract>,
) -> (r: Result<Plan, Error>)
    requires
        dim == c.dim,
        pooling == c.pooling,
        normalize == c.normalize,
    ensures
        agrees_plain(r, embedding_plan(c)),
{
    if dim == 0 {
        return Err(Error::say(Class::BundleInvalid, "embedding bundle must declare contract.dim"));
    }
    let pool = match pooling {
        Err(e) => return Err(e),
        Ok(None) => return Err(
            Error::say(Class::BundleInvalid, "embedding bundle must declare contract.pooling"),
        ),
        Ok(Some(p)) => p,
    };
    let n = match normalize {
        Err(e) => return Err(e),
        Ok(None) => return Err(
            Error::say(
                Class::BundleInvalid,
                "embedding bundle must declare contract.normalize (l2 or none)",
            ),
        ),
        Ok(Some(n)) => n,
    };
    Ok(
        Plan {
            kind: Kind::Embedding,
            pool,
            normalize: n == Normalize::L2,
            activation: Activation::Raw,
            width: dim,
            aggregation: Aggregation::Simple,
        },
    )
}

/// The plan a contract fixes.
pub fn plan_of(c: Contract) -> (r: Result<Plan, Error>)
    requires
        c.labels.len() <= u32::MAX,
    ensures
        agrees_plain(r, contract_plan(c)),
{
    let ghost whole = c;
    if !c.text {
        return Err(
            Error::say(Class::UnsupportedModality, "cuda provider serves text bundles only"),
        );
    }
    let kind = match Kind::of(c.kind) {
        Ok(k) => k,
        Err(e) => return Err(e),
    };
    let head = match kind {
        Kind::Embedding => embedding_plan_of(c.dim, c.pooling, c.normalize, Ghost(whole)),
        _ => {
            let default = if kind == Kind::Reranker {
                Activation::Sigmoid
            } else {
                Activation::Softmax
            };
            let width: u32 = if kind == Kind::Reranker {
                1
            } else {
                c.labels.len() as u32
            };
            if kind == Kind::Classifier && c.labels.len() == 0 {
                return Err(
                    Error::say(Class::BundleInvalid, "classifier bundle must declare contract.labels"),
                );
            }
            if kind == Kind::TokenClassifier && c.labels.len() == 0 {
                return Err(
                    Error::say(
                        Class::BundleInvalid,
                        "token classifier bundle must declare contract.labels",
                    ),
                );
            }
            match Activation::parse(&c.activation, default) {
                Err(e) => Err(e),
                Ok(activation) => Ok(
                    Plan {
                        kind,
                        pool: Pooling::Cls,
                        normalize: false,
                        activation,
                        width,
                        aggregation: Aggregation::Simple,
                    },
                ),
            }
        },
    };
    let p = match head {
        Ok(p) => p,
        Err(e) => return Err(e),
    };
    match c.aggregation {
        Err(e) => Err(e),
        Ok(None) => Ok(p),
        Ok(Some(a)) => if a == Aggregation::Model {
            Err(
                Error::say(
                    Class::BundleInvalid,
                    "contract.aggregation must name a strategy, not `model`",
                ),
            )
        } else {
            Ok(
                Plan {
                    kind: p.kind,
                    pool: p.pool,
                    normalize: p.normalize,
                    activation: p.activation,
                    width: p.width,
                    aggregation: a,
                },
            )
        },
    }
}

/// A bundle's tokenizer section: its kind, and the path of `tokenizer.json` where it lists one.
#[derive(Debug)]
pub struct TokenizerSection {
    pub kind: String,
    pub path: Option<String>,
}

/// Where the tokenizer file of a bundle is, or why it cannot be used.
pub open spec fn tokenizer_path(t: Option<TokenizerSection>) -> Result<Seq<char>, ErrorView> {
    match t {
        None => Err(
            plain(
                Class::BundleInvalid,
                "bundle has no tokenizer section; the cuda provider tokenizes natively"@,
            ),
        ),
        Some(s) => match s.path {
            None => Err(
                plain(
                    Class::BundleInvalid,
                    "bundle has no tokenizer.json; the cuda provider tokenizes natively"@,
                ),
            ),
            Some(p) => if s.kind@ != "wordpiece"@ {
                Err(unsupported_tokenizer(s.kind@))
            } else {
                Ok(p@)
            },
        },
    }
}

/// Where the tokenizer file of a bundle is.
pub fn tokenizer_path_of(t: Option<TokenizerSection>) -> (r: Result<String, Error>)
    ensures
        agrees(r, tokenizer_path(t)),
{
    match t {
        None => Err(
            Error::say(
                Class::BundleInvalid,
                "bundle has no tokenizer section; the cuda provider tokenizes natively",
            ),
        ),
        Some(s) => match s.path {
            None => Err(
                Error::say(
                    Class::BundleInvalid,
                    "bundle has no tokenizer.json; the cuda provider tokenizes natively",
                ),
            ),
            Some(p) => if !same(s.kind.as_str(), "wordpiece") {
                Err(refuse_tokenizer(s.kind.as_str()))
            } else {
                Ok(p)
            },
        },
    }
}

/// The element type of a graph's tensor.
#[derive(Clone, Copy, Debug, PartialEq, Eq, Structural)]
pub enum ElementType {
    Int64,
    Int32,
    Float32,
    Other,
}

/// A tensor of a graph: its element type, that type's name, and its dimensions
/// (negative where they are open).
#[derive(Debug)]
pub struct TensorFacts {
    pub ty: ElementType,
    pub shown: String,
    pub dims: Vec<i64>,
}

/// An input or output of a graph; no tensor where it is something else.
#[derive(Debug)]
pub struct Port {
    pub name: String,
    pub tensor: Option<TensorFacts>,
}

/// What the inputs of a graph are.
#[derive(Clone, Copy, Debug, PartialEq, Eq, Structural)]
pub struct Inputs {
    pub ids: bool,
    pub mask: bool,
    pub types: bool,
    pub elem: Option<Elem>,
}

/// The element width of an input type.
pub open spec fn input_elem(ty: ElementType) -> Option<Elem> {
    match ty {
        ElementType::Int64 => Some(Elem::I64),
        ElementType::Int32 => Some(Elem::I32),
        _ => None,
    }
}

/// What one more input adds to the inputs seen, or why it is refused.
pub open spec fn input_step(seen: Inputs, p: Port) -> Result<Inputs, ErrorView> {
    match p.tensor {
        None => Err(
            plain(Class::Unsupported, "model input `"@ + p.name@ + "` is not a tensor"@),
        ),
        Some(t) => if t.dims.len() != 2 {
            Err(
                plain(
                    Class::Unsupported,
                    "model input `"@ + p.name@ + "` must be rank 2 [batch, seq]; it is rank "@
                        + decimal(t.dims.len() as nat),
                ),
            )
        } else {
            match input_elem(t.ty) {
                None => Err(
                    plain(
                        Class::UnsupportedDtype,
                        "model input `"@ + p.name@ + "` is "@ + t.shown@
                            + "; int64 or int32 expected"@,
                    ),
                ),
                Some(e) => if seen.elem is Some && seen.elem != Some(e) {
                    Err(
                        plain(
                            Class::Unsupported,
                            "model inputs mix int32 and int64 element types"@,
                        ),
                    )
                } else if p.name@ == "input_ids"@ {
                    Ok(Inputs { ids: true, elem: Some(e), ..seen })
                } else if p.name@ == "attention_mask"@ {
                    Ok(Inputs { mask: true, elem: Some(e), ..seen })
                } else if p.name@ == "token_type_ids"@ {
                    Ok(Inputs { types: true, elem: Some(e), ..seen })
                } else {
                    Err(
                        plain(
                            Class::Unsupported,
                            "model input `"@ + p.name@
                                + "` is not one of input_ids, attention_mask, token_type_ids"@,
                        ),
                    )
                },
            }
        },
    }
}

/// What the first `n` inputs are, or why the first refused one is refused.
pub open spec fn inputs_seen(ports: Seq<Port>, n: int) -> Result<Inputs, ErrorView>
    decreases n,
{
    if n <= 0 {
        Ok(Inputs { ids: false, mask: false, types: false, elem: None })
    } else {
        match inputs_seen(ports, n - 1) {
            Err(e) => Err(e),
            Ok(seen) => input_step(seen, ports[n - 1]),
        }
    }
}

/// A refused input stays refused.
proof fn refusal_stays(ports: Seq<Port>, i: int, n: int)
    requires
        0 <= i <= n,
        inputs_seen(ports, i) is Err,
    ensures
        inputs_seen(ports, n) == inputs_seen(ports, i),
    decreases n,
{
    if i < n {
        refusal_stays(ports, i, n - 1);
    }
}

/// What the inputs of a graph are: it must have the ids and the mask.
pub open spec fn graph_inputs(ports: Seq<Port>) -> Result<Inputs, ErrorView> {
    match inputs_seen(ports, ports.len() as int) {
        Err(e) => Err(e),
        Ok(seen) => if seen.ids && seen.mask && seen.elem is Some {
            Ok(seen)
        } else {
            Err(
                plain(
                    Class::Unsupported,
                    "model must have input_ids and attention_mask inputs"@,
                ),
            )
        },
    }
}

/// What one more input adds to the inputs seen.
fn input_step_of(seen: Inputs, p: &Port) -> (r: Result<Inputs, Error>)
    ensures
        agrees_plain(r, input_step(seen, *p)),
{
    let name = p.name.as_str();
    let t = match &p.tensor {
        None => return Err(
            Error::plain(Class::Unsupported, cat3("model input `", name, "` is not a tensor")),
        ),
        Some(t) => t,
    };
    if t.dims.len() != 2 {
        return Err(
            Error::plain(
                Class::Unsupported,
                cat4(
                    "model input `",
                    name,
                    "` must be rank 2 [batch, seq]; it is rank ",
                    decimal_of(t.dims.len() as u128).as_str(),
                ),
            ),
        );
    }
    let e = match t.ty {
        ElementType::Int64 => Elem::I64,
        ElementType::Int32 => Elem::I32,
        _ => return Err(
            Error::plain(
                Class::UnsupportedDtype,
                cat5(
                    "model input `",
                    name,
                    "` is ",
                    t.shown.as_str(),
                    "; int64 or int32 expected",
                ),
            ),
        ),
    };
    if let Some(prev) = seen.elem {
        if prev != e {
            return Err(
                Error::say(Class::Unsupported, "model inputs mix int32 and int64 element types"),
            );
        }
    }
    if same(name, "input_ids") {
        Ok(Inputs { ids: true, mask: seen.mask, types: seen.types, elem: Some(e) })
    } else if same(name, "attention_mask") {
        Ok(Inputs { ids: seen.ids, mask: true, types: seen.types, elem: Some(e) })
    } else if same(name, "token_type_ids") {
        Ok(Inputs { ids: seen.ids, mask: seen.mask, types: true, elem: Some(e) })
    } else {
        Err(
            Error::plain(
                Class::Unsupported,
                cat3(
                    "model input `",
                    name,
                    "` is not one of input_ids, attention_mask, token_type_ids",
                ),
            ),
        )
    }
}

/// What the inputs of a graph are.
pub fn graph_inputs_of(ports: &Vec<Port>) -> (r: Result<Inputs, Error>)
    ensures
        agrees_plain(r, graph_inputs(ports@)),
{
    let mut seen = Inputs { ids: false, mask: false, types: false, elem: None };
    let mut i: usize = 0;
    while i < ports.len()
        invariant
            i <= ports.len(),
            inputs_seen(ports@, i as int) == Ok::<Inputs, ErrorView>(seen),
        decreases ports.len() - i,
    {
        match input_step_of(seen, &ports[i]) {
            Ok(s) => {
                seen = s;
            },
            Err(e) => {
                proof {
                    refusal_stays(ports@, i + 1, ports.len() as int);
                }
                return Err(e);
            },
        }
        i = i + 1;
    }
    if seen.ids && seen.mask && seen.elem.is_some() {
        Ok(seen)
    } else {
        Err(
            Error::say(Class::Unsupported, "model must have input_ids and attention_mask inputs"),
        )
    }
}

/// The rank a model's output has.
pub open spec fn output_rank(kind: Kind) -> nat {
    match kind {
        Kind::Embedding => 3,
        Kind::TokenClassifier => 3,
        _ => 2,
    }
}

/// Whether the one output of a graph fits the plan, and if not, why. Of its width the
/// lower 32 bits count.
pub open spec fn output_verdict(p: Port, kind: Kind, width: u32) -> Result<(), ErrorView> {
    match p.tensor {
        None => Err(plain(Class::Unsupported, "model output is not a tensor"@)),
        Some(t) => if t.ty != ElementType::Float32 {
            Err(
                plain(
                    Class::UnsupportedDtype,
                    "model output is "@ + t.shown@ + "; float32 expected"@,
                ),
            )
        } else if t.dims.len() != output_rank(kind) {
            Err(
                plain(
                    Class::Unsupported,
                    served_text(kind) + " model output must be rank "@ + decimal(output_rank(kind))
                        + "; `"@ + p.name@ + "` is rank "@ + decimal(t.dims.len() as nat),
                ),
            )
        } else if t.dims@.last() >= 0 && t.dims@.last() % 0x1_0000_0000 != width {
            Err(
                plain(
                    Class::BundleInvalid,
                    "model output width "@ + signed_decimal(t.dims@.last() as int)
                        + " does not match the contract ("@ + decimal(width as nat) + ")"@,
                ),
            )
        } else {
            Ok(())
        },
    }
}

/// The name of the one output of a graph, or why the outputs do not fit the plan.
pub open spec fn graph_output(ports: Seq<Port>, model_id: Seq<char>, kind: Kind, width: u32) -> Result<
    Seq<char>,
    ErrorView,
> {
    if ports.len() != 1 {
        Err(
            plain(
                Class::Unsupported,
                "model must have exactly one output; `"@ + model_id + "` has "@ + decimal(ports.len()),
            ),
        )
    } else {
        match output_verdict(ports[0], kind, width) {
            Ok(_) => Ok(ports[0].name@),
            Err(e) => Err(e),
        }
    }
}

/// Whether the one output of a graph fits the plan.
fn output_verdict_of(p: &Port, kind: Kind, width: u32) -> (r: Result<(), Error>)
    ensures
        agrees_plain(r, output_verdict(*p, kind, width)),
{
    let t = match &p.tensor {
        None => return Err(Error::say(Class::Unsupported, "model output is not a tensor")),
        Some(t) => t,
    };
    if t.ty != ElementType::Float32 {
        return Err(
            Error::plain(
                Class::UnsupportedDtype,
                cat3("model output is ", t.shown.as_str(), "; float32 expected"),
            ),
        );
    }
    let rank: usize = match kind {
        Kind::Embedding => 3,
        Kind::TokenClassifier => 3,
        _ => 2,
    };
    let n = t.dims.len();
    if n != rank {
        return Err(
            Error::plain(
                Class::Unsupported,
                cat7(
                    kind.text(),
                    " model output must be rank ",
                    decimal_of(rank as u128).as_str(),
                    "; `",
                    p.name.as_str(),
                    "` is rank ",
                    decimal_of(n as u128).as_str(),
                ),
            ),
        );
    }
    let last: i64 = t.dims[n - 1];
    if last >= 0 && (last % 0x1_0000_0000) as u32 != width {
        return Err(
            Error::plain(
                Class::BundleInvalid,
                cat5(
                    "model output width ",
                    signed_of(last).as_str(),
                    " does not match the contract (",
                    decimal_of(width as u128).as_str(),
                    ")",
                ),
            ),
        );
    }
    Ok(())
}

/// The name of the one output of a graph.
pub fn graph_output_of(ports: &Vec<Port>, model_id: &str, kind: Kind, width: u32) -> (r: Result<
    String,
    Error,
>)
    ensures
        agrees(r, graph_output(ports@, model_id@, kind, width)),
{
    if ports.len() != 1 {
        return Err(
            Error::plain(
                Class::Unsupported,
                cat4(
                    "model must have exactly one output; `",
                    model_id,
                    "` has ",
                    decimal_of(ports.len() as u128).as_str(),
                ),
            ),
        );
    }
    match output_verdict_of(&ports[0], kind, width) {
        Ok(_) => Ok(ports[0].name.clone()),
        Err(e) => Err(e),
    }
}

/// Where the stages of a model of this kind are done.
pub open spec fn stages_of_kind(kind: Kind, normalize: bool) -> Stages {
    Stages {
        tokenize: StagePlacement::Host,
        encode: StagePlacement::Device,
        pool: if kind == Kind::Embedding {
            StagePlacement::Device
        } else {
            StagePlacement::Unused
        },
        normalize: if kind == Kind::Embedding && normalize {
            StagePlacement::Device
        } else {
            StagePlacement::Unused
        },
        postprocess: match kind {
            Kind::Embedding => StagePlacement::Unused,
            Kind::TokenClassifier => StagePlacement::Host,
            _ => StagePlacement::Device,
        },
    }
}

/// The task a model of this kind does.
pub open spec fn task_of_kind(kind: Kind) -> Task {
    match kind {
        Kind::Embedding => Task::Embed,
        Kind::Reranker => Task::Rerank,
        Kind::Classifier => Task::Classify,
        Kind::TokenClassifier => Task::TokenClassify,
    }
}

/// The kind of bundle that a kind serves.
pub open spec fn bundle_kind(kind: Kind) -> ModelKind {
    match kind {
        Kind::Embedding => ModelKind::Embedding,
        Kind::Reranker => ModelKind::Reranker,
        Kind::Classifier => ModelKind::Classifier,
        Kind::TokenClassifier => ModelKind::TokenClassifier,
    }
}

/// Whether information is that of a planned model.
pub open spec fn tells_model(
    r: ModelInfo,
    plan: Plan,
    labels: Seq<Seq<char>>,
    max_seq: u32,
    max_batch: u32,
    vocab_size: u32,
    names: BundleNames,
) -> bool {
    &&& r.task == task_of_kind(plan.kind)
    &&& r.kind == bundle_kind(plan.kind)
    &&& r.dim == (if plan.kind == Kind::Embedding {
        plan.width
    } else {
        0
    })
    &&& views(r.labels@) == labels
    &&& r.pooling == (if plan.kind == Kind::Embedding {
        Some(plan.pool)
    } else {
        None
    })
    &&& r.normalize == (if plan.kind == Kind::Embedding {
        Some(
            if plan.normalize {
                Normalize::L2
            } else {
                Normalize::Off
            },
        )
    } else {
        None
    })
    &&& r.aggregation == (if plan.kind == Kind::TokenClassifier {
        Some(plan.aggregation)
    } else {
        None
    })
    &&& r.max_seq == (if max_seq == 0 {
        512
    } else {
        max_seq
    })
    &&& r.max_batch == (if max_batch == 0 {
        32
    } else {
        max_batch
    })
    &&& r.f32_vectors
    &&& r.stages == stages_of_kind(plan.kind, plan.normalize)
    &&& r.vocab_size == vocab_size
    &&& r.names_bundle(names, CUDA_PROVIDER_ID@)
}

/// What the provider tells of a model it loaded. A limit of zero is replaced
/// by the provider's own: 512 tokens, 32 rows.
pub fn model_info(
    plan: &Plan,
    labels: &Vec<String>,
    max_seq: u32,
    max_batch: u32,
    vocab_size: u32,
    names: BundleNames,
) -> (r: ModelInfo)
    ensures
        tells_model(r, *plan, views(labels@), max_seq, max_batch, vocab_size, names),
{
    let embedding = plan.kind == Kind::Embedding;
    let device = StagePlacement::Device;
    let stages = Stages {
        tokenize: StagePlacement::Host,
        encode: device,
        pool: if embedding {
            device
        } else {
            StagePlacement::Unused
        },
        normalize: if embedding && plan.normalize {
            device
        } else {
            StagePlacement::Unused
        },
        postprocess: match plan.kind {
            Kind::Embedding => StagePlacement::Unused,
            Kind::TokenClassifier => StagePlacement::Host,
            _ => device,
        },
    };
    ModelInfo {
        task: match plan.kind {
            Kind::Embedding => Task::Embed,
            Kind::Reranker => Task::Rerank,
            Kind::Classifier => Task::Classify,
            Kind::TokenClassifier => Task::TokenClassify,
        },
        kind: match plan.kind {
            Kind::Embedding => ModelKind::Embedding,
            Kind::Reranker => ModelKind::Reranker,
            Kind::Classifier => ModelKind::Classifier,
            Kind::TokenClassifier => ModelKind::TokenClassifier,
        },
        dim: if embedding {
            plan.width
        } else {
            0
        },
        labels: copy_all(labels),
        pooling: if embedding {
            Some(plan.pool)
        } else {
            None
        },
        normalize: if embedding {
            Some(
                if plan.normalize {
                    Normalize::L2
                } else {
                    Normalize::Off
                },
            )
        } else {
            None
        },
        aggregation: if plan.kind == Kind::TokenClassifier {
            Some(plan.aggregation)
        } else {
            None
        },
        max_seq: if max_seq == 0 {
            512
        } else {
            max_seq
        },
        max_batch: if max_batch == 0 {
            32
        } else {
            max_batch
        },
        f32_vectors: true,
        stages,
        vocab_size,
        model_id: names.model_id,
        revision: names.revision,
        tokenizer_sha256: names.tokenizer_sha256,
        provider_id: CUDA_PROVIDER_ID.to_owned(),
        prefix_query: names.prefix_query,
        prefix_document: names.prefix_document,
    }
}

/// A buffer's handle.
#[derive(Clone, Copy, Debug, PartialEq, Eq, Structural)]
pub enum HandleKind {
    HostPtr,
    CudaPtr,
    Other,
}

/// What an imported handle becomes.
#[derive(Clone, Copy, Debug, PartialEq, Eq, Structural)]
pub enum Imported {
    Host,
    Device,
}

/// What a handle is imported as, or why it is not.
pub open spec fn import_verdict(
    kind: HandleKind,
    kind_shown: Seq<char>,
    placement: Placement,
    handle: u64,
    aux: u64,
    offset: u64,
    device: u32,
) -> Result<Imported, ErrorView> {
    if offset != 0 {
        Err(plain(Class::Unsupported, "cuda provider imports handles with offset 0 only"@))
    } else if kind == HandleKind::HostPtr && (placement == Placement::Host || placement
        == Placement::Pinned) {
        if handle == 0 {
            Err(plain(Class::InvalidArgument, "imported host pointer is NULL"@))
        } else {
            Ok(Imported::Host)
        }
    } else if kind == HandleKind::CudaPtr && placement == Placement::Device {
        if aux != 0 && aux != device {
            Err(
                plain(
                    Class::InvalidArgument,
                    "imported CUDA pointer belongs to device "@ + decimal(aux as nat)
                        + " but this context is device "@ + decimal(device as nat),
                ),
            )
        } else if handle == 0 {
            Err(plain(Class::InvalidArgument, "imported CUDA pointer is NULL"@))
        } else {
            Ok(Imported::Device)
        }
    } else {
        Err(
            plain(
                Class::Unsupported,
                "cuda provider imports HOST_PTR as HOST/PINNED and CUDA_PTR as DEVICE, not "@
                    + kind_shown + " as "@ + placement_text(placement),
            ),
        )
    }
}

/// What a handle is imported as. `kind_shown` is the handle kind's name.
pub fn import(
    kind: HandleKind,
    kind_shown: &str,
    placement: Placement,
    handle: u64,
    aux: u64,
    offset: u64,
    device: u32,
) -> (r: Result<Imported, Error>)
    ensures
        agrees_plain(
            r,
            import_verdict(kind, kind_shown@, placement, handle, aux, offset, device),
        ),
{
    if offset != 0 {
        return Err(
            Error::say(Class::Unsupported, "cuda provider imports handles with offset 0 only"),
        );
    }
    if kind == HandleKind::HostPtr && (placement == Placement::Host || placement
        == Placement::Pinned) {
        if handle == 0 {
            return Err(Error::say(Class::InvalidArgument, "imported host pointer is NULL"));
        }
        return Ok(Imported::Host);
    }
    if kind == HandleKind::CudaPtr && placement == Placement::Device {
        if aux != 0 && aux != device as u64 {
            return Err(
                Error::plain(
                    Class::InvalidArgument,
                    cat4(
                        "imported CUDA pointer belongs to device ",
                        decimal_of(aux as u128).as_str(),
                        " but this context is device ",
                        decimal_of(device as u128).as_str(),
                    ),
                ),
            );
        }
        if handle == 0 {
            return Err(Error::say(Class::InvalidArgument, "imported CUDA pointer is NULL"));
        }
        return Ok(Imported::Device);
    }
    Err(
        Error::plain(
            Class::Unsupported,
            cat4(
                "cuda provider imports HOST_PTR as HOST/PINNED and CUDA_PTR as DEVICE, not ",
                kind_shown,
                " as ",
                placement.text(),
            ),
        ),
    )
}

/// Whether a buffer is exported as the kind of pointer asked for.
pub open spec fn export_verdict(on_device: bool, kind: HandleKind, kind_shown: Seq<char>) -> Result<
    (),
    ErrorView,
> {
    if on_device && kind == HandleKind::CudaPtr || !on_device && kind == HandleKind::HostPtr {
        Ok(())
    } else if on_device {
        Err(
            plain(
                Class::Unsupported,
                "cuda device buffers export TURBO_HANDLE_CUDA_PTR only, not "@ + kind_shown,
            ),
        )
    } else {
        Err(
            plain(
                Class::Unsupported,
                "cuda host buffers export TURBO_HANDLE_HOST_PTR only, not "@ + kind_shown,
            ),
        )
    }
}

/// Whether a buffer of the device, or of the host, exports a handle of this kind.
pub fn export(on_device: bool, kind: HandleKind, kind_shown: &str) -> (r: Result<(), Error>)
    ensures
        agrees_plain(
            r,
            export_verdict(on_device, kind, kind_shown@),
        ),
{
    if (on_device && kind == HandleKind::CudaPtr) || (!on_device && kind == HandleKind::HostPtr) {
        Ok(())
    } else if on_device {
        Err(
            Error::plain(
                Class::Unsupported,
                cat2("cuda device buffers export TURBO_HANDLE_CUDA_PTR only, not ", kind_shown),
            ),
        )
    } else {
        Err(
            Error::plain(
                Class::Unsupported,
                cat2("cuda host buffers export TURBO_HANDLE_HOST_PTR only, not ", kind_shown),
            ),
        )
    }
}

/// Whether a destination is as long as the buffer it reads.
pub fn check_destination(room: u64, bytes: u64) -> (r: Result<(), Error>)
    ensures
        agrees_plain(
            r,
            if room == bytes {
                Ok(())
            } else {
                Err(
                    plain(
                        Class::Capacity,
                        "destination is "@ + decimal(room as nat) + " bytes but the buffer holds "@
                            + decimal(bytes as nat),
                    ),
                )
            },
        ),
{
    if room == bytes {
        return Ok(());
    }
    Err(
        Error::plain(
            Class::Capacity,
            cat4(
                "destination is ",
                decimal_of(room as u128).as_str(),
                " bytes but the buffer holds ",
                decimal_of(bytes as u128).as_str(),
            ),
        ),
    )
}

/// Whether a copy fits the device buffer it goes to.
pub fn check_copy(bytes: u64, room: u64) -> (r: Result<(), Error>)
    ensures
        agrees_plain(
            r,
            if bytes <= room {
                Ok(())
            } else {
                Err(
                    plain(
                        Class::Capacity,
                        "H2D copy of "@ + decimal(bytes as nat) + " bytes exceeds the "@ + decimal(
                            room as nat,
                        ) + " byte device buffer"@,
                    ),
                )
            },
        ),
{
    if bytes <= room {
        return Ok(());
    }
    Err(
        Error::plain(
            Class::Capacity,
            cat5(
                "H2D copy of ",
                decimal_of(bytes as u128).as_str(),
                " bytes exceeds the ",
                decimal_of(room as u128).as_str(),
                " byte device buffer",
            ),
        ),
    )
}

/// Where an allocation goes, or that the provider does not offer it.
pub fn alloc_place(placement: Placement) -> (r: Result<Placement, Error>)
    ensures
        agrees_plain(
            r,
            if placement == Placement::Shared {
                Err(
                    plain(
                        Class::UnsupportedPlacement,
                        "cuda provider allocates HOST, PINNED, and DEVICE; SHARED (managed memory) is not offered"@,
                    ),
                )
            } else {
                Ok(placement)
            },
        ),
{
    if placement == Placement::Shared {
        return Err(
            Error::say(
                Class::UnsupportedPlacement,
                "cuda provider allocates HOST, PINNED, and DEVICE; SHARED (managed memory) is not offered",
            ),
        );
    }
    Ok(placement)
}

/// Whether a file of the library directory is preloaded: named `lib*` with `.so` in the name.
pub fn is_library(name: &str) -> (r: bool)
    ensures
        r == (starts(name@, "lib"@) && occurs(name@, ".so"@)),
{
    starts_with_of(name, "lib") && contains_of(name, ".so")
}

/// What a bundle gives beside its contract.
#[derive(Debug)]
pub struct Sections {
    /// The longest row; 0 where the bundle does not say.
    pub max_seq: u32,
    /// The largest batch; 0 where the bundle does not say.
    pub max_batch: u32,
    pub vocab_size: u32,
    pub tokenizer: Option<TokenizerSection>,
    pub names: BundleNames,
}

/// A graph as the runtime loaded it.
#[derive(Debug)]
pub struct Graph {
    pub inputs: Vec<Port>,
    pub outputs: Vec<Port>,
}

/// A loaded model.
#[derive(Debug)]
pub struct CudaModel {
    pub plan: Plan,
    pub vocab: Vocab,
    pub inputs: Inputs,
    pub output: String,
    pub info: ModelInfo,
}

/// The refusal of a load, if there is one: of the contract, then of the artifact,
/// the tokenizer, its vocabulary, the graph, its inputs and its output.
pub open spec fn load_fault(
    c: Contract,
    s: Sections,
    artifact: Result<(), Error>,
    vocab: Result<Vocab, Error>,
    graph: Result<Graph, Error>,
) -> Option<ErrorView> {
    match contract_plan(c) {
        Err(e) => Some(e),
        Ok(plan) => match (artifact, tokenizer_path(s.tokenizer), vocab, graph) {
            (Err(e), _, _, _) => Some(e@),
            (Ok(_), Err(e), _, _) => Some(e),
            (Ok(_), Ok(_), Err(e), _) => Some(e@),
            (Ok(_), Ok(_), Ok(_), Err(e)) => Some(e@),
            (Ok(_), Ok(_), Ok(_), Ok(g)) => match graph_inputs(g.inputs@) {
                Err(e) => Some(e),
                Ok(_) => match graph_output(
                    g.outputs@,
                    s.names.model_id@,
                    plan.kind,
                    plan.width,
                ) {
                    Err(e) => Some(e),
                    Ok(_) => None,
                },
            },
        },
    }
}

/// Load a model. `artifact` says whether the bundle has the graph's file, `vocab`
/// is what its tokenizer file gives, and `graph` what the runtime made of the file.
pub fn load_model(
    c: Contract,
    s: Sections,
    artifact: Result<(), Error>,
    vocab: Result<Vocab, Error>,
    graph: Result<Graph, Error>,
) -> (r: Result<CudaModel, Error>)
    requires
        c.labels.len() <= u32::MAX,
    ensures
        match load_fault(c, s, artifact, vocab, graph) {
            Some(e) => r is Err && r->Err_0@ == e,
            None => {
                let plan = contract_plan(c)->Ok_0;
                &&& r is Ok
                &&& r->Ok_0.plan == plan
                &&& r->Ok_0.vocab == vocab->Ok_0
                &&& r->Ok_0.inputs == graph_inputs(graph->Ok_0.inputs@)->Ok_0
                &&& r->Ok_0.output@ == graph_output(
                    graph->Ok_0.outputs@,
                    s.names.model_id@,
                    plan.kind,
                    plan.width,
                )->Ok_0
                &&& tells_model(
                    r->Ok_0.info,
                    plan,
                    views(c.labels@),
                    s.max_seq,
                    s.max_batch,
                    s.vocab_size,
                    s.names,
                )
            },
        },
{
    let labels = copy_all(&c.labels);
    let plan = match plan_of(c) {
        Err(e) => return Err(e),
        Ok(p) => p,
    };
    match artifact {
        Err(e) => return Err(e),
        Ok(()) => {},
    }
    match tokenizer_path_of(s.tokenizer) {
        Err(e) => return Err(e),
        Ok(_) => {},
    }
    let vocab = match vocab {
        Err(e) => return Err(e),
        Ok(v) => v,
    };
    let g = match graph {
        Err(e) => return Err(e),
        Ok(g) => g,
    };
    let inputs = match graph_inputs_of(&g.inputs) {
        Err(e) => return Err(e),
        Ok(i) => i,
    };
    let output = match graph_output_of(
        &g.outputs,
        s.names.model_id.as_str(),
        plan.kind,
        plan.width,
    ) {
        Err(e) => return Err(e),
        Ok(o) => o,
    };
    let info = model_info(&plan, &labels, s.max_seq, s.max_batch, s.vocab_size, s.names);
    Ok(CudaModel { plan, vocab, inputs, output, info })
}

/// What a call of the CUDA runtime gave: its code, and the runtime's text for it.
#[derive(Debug)]
pub struct CudaStatus {
    pub code: i32,
    pub text: String,
}

/// The refusal of a call that failed, naming the operation.
pub open spec fn status_fault(s: CudaStatus, what: Seq<char>) -> Option<ErrorView> {
    if s.code == 0 {
        None
    } else {
        Some(
            plain(
                Class::Runtime,
                "CUDA "@ + what + ": "@ + s.text@ + " (code "@ + signed_decimal(s.code as int) + ")"@,
            ),
        )
    }
}

/// A status as an error that names the operation.
pub fn check(s: &CudaStatus, what: &str) -> (r: Result<(), Error>)
    ensures
        match status_fault(*s, what@) {
            Some(e) => r is Err && r->Err_0@ == e,
            None => r is Ok,
        },
{
    if s.code == 0 {
        return Ok(());
    }
    Err(
        Error::plain(
            Class::Runtime,
            cat7(
                "CUDA ",
                what,
                ": ",
                s.text.as_str(),
                " (code ",
                signed_of(s.code as i64).as_str(),
                ")",
            ),
        ),
    )
}

/// Device memory: where it lies and how long it is.
#[derive(Debug)]
pub struct DeviceMem {
    ptr: u64,
    bytes: usize,
}

impl DeviceMem {
    /// The address of the first byte.
    pub closed spec fn address(&self) -> u64 {
        self.ptr
    }

    /// How many bytes there are.
    pub closed spec fn size(&self) -> usize {
        self.bytes
    }

    /// The memory that an allocation of `bytes` bytes gave, or its refusal: of
    /// nothing asked for, of a device or a call that failed, or of nothing given.
    pub fn new(bytes: usize, device: &CudaStatus, status: &CudaStatus, given: u64) -> (r: Result<
        DeviceMem,
        Error,
    >)
        ensures
            if bytes == 0 {
                r is Err && r->Err_0@ == plain(
                    Class::InvalidShape,
                    "zero-byte device allocation"@,
                )
            } else {
                match (
                    status_fault(*device, "cudaSetDevice"@),
                    status_fault(*status, "cudaMalloc("@ + decimal(bytes as nat) + " bytes)"@),
                ) {
                    (Some(e), _) => r is Err && r->Err_0@ == e,
                    (None, Some(e)) => r is Err && r->Err_0@ == e,
                    (None, None) => if given == 0 {
                        r is Err && r->Err_0@ == plain(
                            Class::OutOfMemory,
                            "cudaMalloc returned NULL"@,
                        )
                    } else {
                        r is Ok && r->Ok_0.address() == given && r->Ok_0.size() == bytes
                    },
                }
            },
    {
        if bytes == 0 {
            return Err(Error::say(Class::InvalidShape, "zero-byte device allocation"));
        }
        match check(device, "cudaSetDevice") {
            Err(e) => return Err(e),
            Ok(()) => {},
        }
        let what = cat3("cudaMalloc(", decimal_of(bytes as u128).as_str(), " bytes)");
        match check(status, what.as_str()) {
            Err(e) => return Err(e),
            Ok(()) => {},
        }
        if given == 0 {
            return Err(Error::say(Class::OutOfMemory, "cudaMalloc returned NULL"));
        }
        Ok(DeviceMem { ptr: given, bytes })
    }

    /// Where the memory lies.
    pub fn ptr(&self) -> (r: u64)
        ensures
            r == self.address(),
    {
        self.ptr
    }

    /// Size in bytes.
    pub fn bytes(&self) -> (r: usize)
        ensures
            r == self.size(),
    {
        self.bytes
    }
}

/// Page-locked host memory: where it lies and how long it is.
#[derive(Debug)]
pub struct PinnedMem {
    ptr: u64,
    bytes: usize,
}

impl PinnedMem {
    /// The address of the first byte.
    pub closed spec fn address(&self) -> u64 {
        self.ptr
    }

    /// How many bytes there are.
    pub closed spec fn size(&self) -> usize {
        self.bytes
    }

    /// Memory is somewhere and not empty.
    pub open spec fn wf(&self) -> bool {
        self.address() != 0 && self.size() > 0
    }

    /// The memory that an allocation of `bytes` bytes gave, or its refusal: of
    /// nothing asked for, of a call that failed, or of nothing given.
    pub fn new(bytes: usize, status: &CudaStatus, given: u64) -> (r: Result<PinnedMem, Error>)
        ensures
            if bytes == 0 {
                r is Err && r->Err_0@ == plain(
                    Class::InvalidShape,
                    "zero-byte pinned allocation"@,
                )
            } else {
                match status_fault(*status, "cudaHostAlloc("@ + decimal(bytes as nat) + " bytes)"@) {
                    Some(e) => r is Err && r->Err_0@ == e,
                    None => if given == 0 {
                        r is Err && r->Err_0@ == plain(
                            Class::OutOfMemory,
                            "cudaHostAlloc returned NULL"@,
                        )
                    } else {
                        r is Ok && r->Ok_0.wf() && r->Ok_0.address() == given && r->Ok_0.size()
                            == bytes
                    },
                }
            },
    {
        if bytes == 0 {
            return Err(Error::say(Class::InvalidShape, "zero-byte pinned allocation"));
        }
        let what = cat3("cudaHostAlloc(", decimal_of(bytes as u128).as_str(), " bytes)");
        match check(status, what.as_str()) {
            Err(e) => return Err(e),
            Ok(()) => {},
        }
        if given == 0 {
            return Err(Error::say(Class::OutOfMemory, "cudaHostAlloc returned NULL"));
        }
        Ok(PinnedMem { ptr: given, bytes })
    }

    /// Where the memory lies.
    pub fn ptr(&self) -> (r: u64)
        ensures
            r == self.address(),
    {
        self.ptr
    }

    /// Size in bytes.
    pub fn bytes(&self) -> (r: usize)
        ensures
            r == self.size(),
    {
        self.bytes
    }
}

/// The plan of a contract says what the contract says. An embedding model pools and
/// normalizes as declared, into as many numbers as declared; a reranker gives one score
/// and a classifier one for each label; each scores by the activation that is named,
/// and without one a reranker by the logistic function and a classifier by the softmax.
/// Spans are found as declared, and else by the simple strategy.
pub proof fn a_plan_is_what_its_contract_says(c: Contract)
    requires
        contract_plan(c) is Ok,
    ensures
        ({
            let p = contract_plan(c)->Ok_0;
            let scores = c.kind == ModelKind::Reranker || c.kind == ModelKind::Classifier || c.kind
                == ModelKind::TokenClassifier;
            &&& c.text
            &&& p.kind == Kind::Embedding <==> c.kind == ModelKind::Embedding
            &&& p.kind == Kind::Reranker <==> c.kind == ModelKind::Reranker
            &&& p.kind == Kind::Classifier <==> c.kind == ModelKind::Classifier
            &&& p.kind == Kind::TokenClassifier <==> c.kind == ModelKind::TokenClassifier
            &&& c.kind == ModelKind::Embedding ==> p.width == c.dim && c.dim > 0 && c.pooling
                == Ok::<Option<Pooling>, Error>(Some(p.pool)) && p.activation == Activation::Raw
            &&& c.kind == ModelKind::Embedding ==> c.normalize is Ok && c.normalize->Ok_0 is Some && (
            p.normalize <==> c.normalize == Ok::<Option<Normalize>, Error>(Some(Normalize::L2)))
            &&& c.kind == ModelKind::Reranker ==> p.width == 1
            &&& c.kind == ModelKind::Classifier || c.kind == ModelKind::TokenClassifier ==> c.labels.len()
                > 0 && p.width == c.labels.len() as u32
            &&& scores ==> !p.normalize
            &&& scores && c.activation is None ==> p.activation == if c.kind == ModelKind::Reranker {
                Activation::Sigmoid
            } else {
                Activation::Softmax
            }
            &&& scores && opt_view(c.activation) == Some("softmax"@) ==> p.activation
                == Activation::Softmax
            &&& scores && opt_view(c.activation) == Some("sigmoid"@) ==> p.activation
                == Activation::Sigmoid
            &&& scores && opt_view(c.activation) == Some("none"@) ==> p.activation == Activation::Raw
            &&& c.aggregation == Ok::<Option<Aggregation>, Error>(None) ==> p.aggregation
                == Aggregation::Simple
            &&& c.aggregation matches Ok(Some(a)) ==> p.aggregation == a && a != Aggregation::Model
        }),
{
    an_activation_is_the_one_named(opt_view(c.activation), Activation::Sigmoid);
    an_activation_is_the_one_named(opt_view(c.activation), Activation::Softmax);
}

/// A contract has a plan where it is of text, its kind is served, it declares what its
/// kind needs, and names its activation and its aggregation by names that are known.
pub proof fn a_contract_has_a_plan_where_it_is_complete(c: Contract)
    ensures
        contract_plan(c) is Ok <==> {
            &&& c.text
            &&& c.kind == ModelKind::Embedding || c.kind == ModelKind::Reranker || c.kind
                == ModelKind::Classifier || c.kind == ModelKind::TokenClassifier
            &&& c.kind == ModelKind::Embedding ==> c.dim > 0 && (c.pooling matches Ok(Some(_))) && (
            c.normalize matches Ok(Some(_)))
            &&& c.kind != ModelKind::Embedding ==> c.activation is None || opt_view(c.activation)
                == Some("softmax"@) || opt_view(c.activation) == Some("sigmoid"@) || opt_view(
                c.activation,
            ) == Some("none"@)
            &&& c.kind == ModelKind::Classifier || c.kind == ModelKind::TokenClassifier ==> c.labels.len()
                > 0
            &&& c.aggregation is Ok
            &&& c.aggregation != Ok::<Option<Aggregation>, Error>(Some(Aggregation::Model))
        },
{
    an_activation_is_the_one_named(opt_view(c.activation), Activation::Sigmoid);
    an_activation_is_the_one_named(opt_view(c.activation), Activation::Softmax);
}

/// To name a kind's default activation is to name none.
pub proof fn naming_the_default_activation_changes_nothing(c: Contract, d: Contract)
    requires
        d == (Contract { activation: d.activation, ..c }),
        d.activation is None,
        c.kind == ModelKind::Reranker ==> opt_view(c.activation) == Some("sigmoid"@),
        c.kind != ModelKind::Reranker ==> opt_view(c.activation) == Some("softmax"@),
    ensures
        contract_plan(c) == contract_plan(d),
{
    an_activation_is_the_one_named(opt_view(c.activation), Activation::Sigmoid);
    an_activation_is_the_one_named(opt_view(c.activation), Activation::Softmax);
}

/// A served kind keeps its name, and its task is one that the provider offers: vectors
/// of an embedding model, rankings of a reranker, labels of a classifier, spans of a
/// token classifier.
pub proof fn a_kind_keeps_its_name_and_task(kind: ModelKind)
    ensures
        served(kind) is Ok ==> bundle_kind(served(kind)->Ok_0) == kind && offers(
            task_of_kind(served(kind)->Ok_0),
            true,
        ),
        served(kind) is Err <==> kind == ModelKind::Generative || kind == ModelKind::Generic,
        kind == ModelKind::Embedding ==> task_of_kind(served(kind)->Ok_0) == Task::Embed,
        kind == ModelKind::Reranker ==> task_of_kind(served(kind)->Ok_0) == Task::Rerank,
        kind == ModelKind::Classifier ==> task_of_kind(served(kind)->Ok_0) == Task::Classify,
        kind == ModelKind::TokenClassifier ==> task_of_kind(served(kind)->Ok_0) == Task::TokenClassify,
        !offers(Task::Generate, true) && !offers(Task::Run, true),
        forall|t: Task| !offers(t, false),
{
}

/// Whether a port is an input of a graph that is served.
pub open spec fn serves_input(p: Port, e: Elem) -> bool {
    &&& p.name@ == "input_ids"@ || p.name@ == "attention_mask"@ || p.name@ == "token_type_ids"@
    &&& p.tensor matches Some(t)
    &&& t.dims.len() == 2
    &&& t.ty == ElementType::Int64 && e == Elem::I64 || t.ty == ElementType::Int32 && e == Elem::I32
}

/// A graph's inputs are taken where all are known by name, of two dimensions and of one
/// integer type, and ids and mask are among them. Token types are fed where the graph
/// has an input for them.
pub proof fn inputs_are_known_and_of_one_type(ports: Seq<Port>)
    ensures
        graph_inputs(ports) is Ok ==> {
            let seen = graph_inputs(ports)->Ok_0;
            &&& seen.elem is Some
            &&& forall|i: int| 0 <= i < ports.len() ==> serves_input(#[trigger] ports[i], seen.elem->0)
            &&& exists|i: int| 0 <= i < ports.len() && (#[trigger] ports[i]).name@ == "input_ids"@
            &&& exists|i: int| 0 <= i < ports.len() && (#[trigger] ports[i]).name@ == "attention_mask"@
            &&& seen.types <==> exists|i: int|
                0 <= i < ports.len() && (#[trigger] ports[i]).name@ == "token_type_ids"@
        },
{
    seen_are_the_ports(ports, ports.len() as int);
}

/// A graph whose inputs are all known, of one type, with ids and mask among them, is taken.
pub proof fn known_inputs_are_taken(ports: Seq<Port>, e: Elem)
    requires
        forall|i: int| 0 <= i < ports.len() ==> #[trigger] serves_input(ports[i], e),
        exists|i: int| 0 <= i < ports.len() && (#[trigger] ports[i]).name@ == "input_ids"@,
        exists|i: int| 0 <= i < ports.len() && (#[trigger] ports[i]).name@ == "attention_mask"@,
    ensures
        graph_inputs(ports) is Ok,
        (graph_inputs(ports)->Ok_0).elem == Some(e),
{
    served_ports_are_seen(ports, e, ports.len() as int);
}

/// What is seen of the first `n` ports is what they are.
proof fn seen_are_the_ports(ports: Seq<Port>, n: int)
    requires
        0 <= n <= ports.len(),
    ensures
        inputs_seen(ports, n) is Ok ==> {
            let seen = inputs_seen(ports, n)->Ok_0;
            &&& seen.elem is None <==> n == 0
            &&& forall|i: int| 0 <= i < n ==> serves_input(#[trigger] ports[i], seen.elem->0)
            &&& seen.ids <==> exists|i: int| 0 <= i < n && (#[trigger] ports[i]).name@ == "input_ids"@
            &&& seen.mask <==> exists|i: int|
                0 <= i < n && (#[trigger] ports[i]).name@ == "attention_mask"@
            &&& seen.types <==> exists|i: int|
                0 <= i < n && (#[trigger] ports[i]).name@ == "token_type_ids"@
        },
    decreases n,
{
    reveal_strlit("input_ids");
    reveal_strlit("attention_mask");
    reveal_strlit("token_type_ids");
    assert("input_ids"@[0] == 'i' && "attention_mask"@[0] == 'a' && "token_type_ids"@[0] == 't');
    if n > 0 {
        seen_are_the_ports(ports, n - 1);
        let p = ports[n - 1];
        assert(p.name@ == "input_ids"@ || p.name@ == "attention_mask"@ || p.name@ == "token_type_ids"@
            || p.name@ == p.name@);
    }
}

/// Ports that are served are seen.
proof fn served_ports_are_seen(ports: Seq<Port>, e: Elem, n: int)
    requires
        0 <= n <= ports.len(),
        forall|i: int| 0 <= i < ports.len() ==> #[trigger] serves_input(ports[i], e),
    ensures
        inputs_seen(ports, n) is Ok,
        n > 0 ==> (inputs_seen(ports, n)->Ok_0).elem == Some(e),
        forall|i: int|
            0 <= i < n ==> {
                let seen = inputs_seen(ports, n)->Ok_0;
                let name = (#[trigger] ports[i]).name@;
                &&& name == "input_ids"@ ==> seen.ids
                &&& name == "attention_mask"@ ==> seen.mask
            },
    decreases n,
{
    reveal_strlit("input_ids");
    reveal_strlit("attention_mask");
    reveal_strlit("token_type_ids");
    assert("input_ids"@[0] == 'i' && "attention_mask"@[0] == 'a' && "token_type_ids"@[0] == 't');
    if n > 0 {
        served_ports_are_seen(ports, e, n - 1);
        assert(serves_input(ports[n - 1], e));
        seen_are_the_ports(ports, n - 1);
        seen_are_the_ports(ports, n);
    }
}

/// A graph's output is taken where it is the only one, of single-precision numbers, with
/// a vector for each token of an embedding model or token classifier and one for each
/// row of the others, and its width, where it is fixed, is the contract's in its lower
/// 32 bits. Its name is what is asked of a run.
pub proof fn an_output_fits_its_kind(ports: Seq<Port>, model_id: Seq<char>, kind: Kind, width: u32)
    ensures
        graph_output(ports, model_id, kind, width) is Ok <==> {
            &&& ports.len() == 1
            &&& ports[0].tensor matches Some(t)
            &&& t.ty == ElementType::Float32
            &&& t.dims.len() == (if kind == Kind::Embedding || kind == Kind::TokenClassifier {
                3
            } else {
                2int
            })
            &&& t.dims@[t.dims.len() - 1] < 0 || t.dims@[t.dims.len() - 1] % 0x1_0000_0000 == width
        },
        graph_output(ports, model_id, kind, width) is Ok ==> graph_output(ports, model_id, kind, width)
            == Ok::<Seq<char>, ErrorView>(ports[0].name@),
{
}

/// A driver version of thousands and tens is shown as major and minor.
pub proof fn a_version_shows_major_and_minor(major: nat, minor: nat, rest: nat)
    requires
        minor < 100,
        rest < 10,
    ensures
        version_text((1000 * major + 10 * minor + rest) as int) == decimal(major) + "."@ + decimal(minor),
{
    let v = 1000 * major + 10 * minor + rest;
    assert(v / 1000 == major) by (nonlinear_arith)
        requires
            v == 1000 * major + 10 * minor + rest,
            0 <= minor < 100,
            0 <= rest < 10,
    ;
    assert((10 * minor + rest) / 10 == minor) by (nonlinear_arith)
        requires
            0 <= minor,
            0 <= rest < 10,
    ;
}

/// Memory is imported by the address of its own kind only: host addresses as host or
/// pinned memory, device addresses as device memory of this device, both from their
/// beginning and neither null.
pub proof fn imports_are_of_their_own_memory(
    kind: HandleKind,
    shown: Seq<char>,
    placement: Placement,
    handle: u64,
    aux: u64,
    offset: u64,
    device: u32,
)
    ensures
        ({
            let v = import_verdict(kind, shown, placement, handle, aux, offset, device);
            &&& v == Ok::<Imported, ErrorView>(Imported::Host) <==> offset == 0 && handle != 0 && kind
                == HandleKind::HostPtr && (placement == Placement::Host || placement
                == Placement::Pinned)
            &&& v == Ok::<Imported, ErrorView>(Imported::Device) <==> offset == 0 && handle != 0 && kind
                == HandleKind::CudaPtr && placement == Placement::Device && (aux == 0 || aux == device)
        }),
{
}

/// The stages of a run: tokens are made on the host and the graph runs on the device;
/// only an embedding model pools, and normalizes where it is declared; only scores are
/// worked on behind it, spans on the host.
pub proof fn stages_follow_the_kind(kind: Kind, normalize: bool)
    ensures
        ({
            let s = stages_of_kind(kind, normalize);
            &&& s.tokenize == StagePlacement::Host
            &&& s.encode == StagePlacement::Device
            &&& s.pool != StagePlacement::Unused <==> kind == Kind::Embedding
            &&& s.normalize != StagePlacement::Unused <==> kind == Kind::Embedding && normalize
            &&& s.postprocess == StagePlacement::Unused <==> kind == Kind::Embedding
            &&& s.postprocess == StagePlacement::Host <==> kind == Kind::TokenClassifier
            &&& s.pool != StagePlacement::Host && s.normalize != StagePlacement::Host
        }),
{
}

/// A call of the runtime failed where its code is not 0, and only there; the message
/// tells what was called, the runtime's text and the code.
pub proof fn a_call_failed_where_its_code_says_so(s: CudaStatus, what: Seq<char>)
    ensures
        status_fault(s, what) is None <==> s.code == 0,
        status_fault(s, what) matches Some(e) ==> e.class == Class::Runtime && e.message == "CUDA "@
            + what + ": "@ + s.text@ + " (code "@ + signed_decimal(s.code as int) + ")"@,
{
}

/// A buffer is exported as the pointer that it is: one on the device as a CUDA
/// pointer, one on the host as a host pointer, and neither as anything else.
pub proof fn a_buffer_is_exported_as_what_it_is(on_device: bool, kind: HandleKind, kind_shown: Seq<char>)
    ensures
        export_verdict(on_device, kind, kind_shown) is Ok ==> (kind == HandleKind::CudaPtr
            <==> on_device),
        export_verdict(true, kind, kind_shown) is Ok <==> kind == HandleKind::CudaPtr,
        export_verdict(false, kind, kind_shown) is Ok <==> kind == HandleKind::HostPtr,
        export_verdict(on_device, kind, kind_shown) matches Err(e) ==> e.class == Class::Unsupported,
{
}

/// A served kind is told by its own name, which is that of the bundle's kind.
pub proof fn a_served_kind_keeps_its_name(kind: ModelKind, k: Kind)
    ensures
        served(kind) matches Ok(s) ==> served_text(s) == kind_text(kind),
        k == Kind::Embedding <==> served_text(k) == "Embedding"@,
        k == Kind::Reranker <==> served_text(k) == "Reranker"@,
        k == Kind::Classifier <==> served_text(k) == "Classifier"@,
        k == Kind::TokenClassifier <==> served_text(k) == "TokenClassifier"@,
{
    reveal_strlit("Embedding");
    reveal_strlit("Reranker");
    reveal_strlit("Classifier");
    reveal_strlit("TokenClassifier");
    assert("Embedding"@[0] == 'E' && "Reranker"@[0] == 'R' && "Classifier"@[0] == 'C'
        && "TokenClassifier"@[0] == 'T');
}

/// An input element takes the bytes of its bits: a model's 64-bit input is handed
/// eight bytes for each token and its 32-bit input four, and no other is an input.
pub proof fn an_element_takes_the_bytes_of_its_bits(ty: ElementType)
    ensures
        ty == ElementType::Int64 ==> input_elem(ty) is Some && 8 * elem_width(input_elem(ty)->0) == 64,
        ty == ElementType::Int32 ==> input_elem(ty) is Some && 8 * elem_width(input_elem(ty)->0) == 32,
        ty != ElementType::Int64 && ty != ElementType::Int32 ==> input_elem(ty) is None,
{
}

/// A tokenizer is read from the file that its section names, where it is a WordPiece
/// one; a bundle without a section, without the file or of another kind has none.
pub proof fn only_a_wordpiece_tokenizer_is_read(t: Option<TokenizerSection>)
    ensures
        tokenizer_path(t) is Ok <==> t is Some && t->0.path is Some && t->0.kind@ == "wordpiece"@,
        tokenizer_path(t) matches Ok(p) ==> p == t->0.path->0@,
        t is None || t->0.path is None ==> tokenizer_path(t)->Err_0.class == Class::BundleInvalid,
{
}

} // verus!

//! The ggml provider's decisions: which bundles it serves, what a generation is
//! planned as, how it steps, and how embedding rows are cut and grouped.
//!
//! Fractional parameters are carried as the bits of single-precision numbers.

use vstd::prelude::*;
use crate::convert::{signed32, signed32_of};
use crate::error::{
    Class, Error, ErrorView, Field, agrees, agrees_plain, on_field, plain,
};
use crate::rank::{equal, equal_of, greater, greater_of};
use crate::stop::{
    append_bytes, beginning_is_stop_free, begins_char, copy_bytes, drain_decodable, drained, drained_is_text,
    first_stop, first_stop_is_unique, plain_stops, released, replacement, replacement_completes_no_stop,
    settled, stop_at, stop_free, Held, Pushed,
};
use crate::text::{
    cat2, cat3, cat4, cat5, cat6, cat7, decimal, decimal_of, signed_decimal, signed_of,
};
use crate::types::{
    BundleNames, DeviceKind, EmbedOptions, ModelInfo, ModelKind, Normalize, OutputDtype, Placement,
    Pooling, StagePlacement, Stages, Task, TokenBatch, Truncate, embed_defaults, kind_text,
    normalizes, normalizes_of, placement_text, task_text,
};
use crate::cuda_session::{
    batch_verdict, budget, budget_of, check_batch, check_count, count_verdict, refuse_width, too_wide,
};

verus! {

/// Provider id.
pub const GGML_PROVIDER_ID: &'static str = "ggml";

/// Artifact format the provider loads.
pub const GGUF_ARTIFACT: &'static str = "gguf";

/// Default `max_new_tokens` when the request leaves it at 0.
pub const DEFAULT_MAX_NEW_TOKENS: u32 = 512;

/// Most tokens one embedding decode carries, unless one sequence is longer.
pub const EMBED_UBATCH_CAP: u32 = 4096;

/// Most tokens one prompt decode carries.
pub const PROMPT_BATCH_CAP: u32 = 2048;

/// The version of the binding.
pub fn llama_cpp_2_version() -> (r: &'static str)
    ensures
        r@ == "0.1.156"@,
{
    "0.1.156"
}

/// The index of a device ordinal among `n` devices.
pub fn device_index(n: usize, ordinal: u32) -> (r: Result<usize, Error>)
    ensures
        agrees_plain(
            r,
            if ordinal < n {
                Ok(ordinal as usize)
            } else {
                Err(
                    plain(
                        Class::DeviceNotFound,
                        "ggml has "@ + decimal(n as nat) + " device(s); ordinal "@ + decimal(
                            ordinal as nat,
                        ) + " does not exist"@,
                    ),
                )
            },
        ),
{
    if (ordinal as usize) < n {
        return Ok(ordinal as usize);
    }
    Err(
        Error::plain(
            Class::DeviceNotFound,
            cat5(
                "ggml has ",
                decimal_of(n as u128).as_str(),
                " device(s); ordinal ",
                decimal_of(ordinal as u128).as_str(),
                " does not exist",
            ),
        ),
    )
}

/// Whether the provider offers a task on text, or on something else.
pub open spec fn offers(task: Task, text: bool) -> bool {
    text && (task == Task::Generate || task == Task::Embed)
}

/// Whether repeated runs of a task on a device give the same bits.
pub fn deterministic(device: DeviceKind, task: Task) -> (r: bool)
    ensures
        r == (device == DeviceKind::Cpu && task == Task::Embed),
{
    device == DeviceKind::Cpu && task == Task::Embed
}

/// The kind of bundle that the provider refuses.
pub open spec fn refused_kind(kind: ModelKind) -> ErrorView {
    plain(
        Class::UnsupportedTask,
        "ggml provider serves generative and embedding bundles, not "@ + kind_text(kind),
    )
}

/// The refusal of a kind of bundle.
fn refuse_kind(kind: ModelKind) -> (r: Error)
    ensures
        r@ == refused_kind(kind),
{
    Error::plain(
        Class::UnsupportedTask,
        cat2("ggml provider serves generative and embedding bundles, not ", kind.text()),
    )
}

/// Whether the provider can run a task on a bundle, and if not, why.
pub open spec fn run_verdict(
    task: Task,
    text: bool,
    modality: Seq<char>,
    has_gguf: bool,
    model_id: Seq<char>,
    kind: ModelKind,
) -> Result<(), ErrorView> {
    if !offers(task, text) {
        Err(
            plain(
                Class::UnsupportedTask,
                "ggml provider offers GENERATE and EMBED on TEXT, not "@ + task_text(task) + " x "@
                    + modality,
            ),
        )
    } else if !has_gguf {
        Err(plain(Class::BundleNoArtifact, "bundle `"@ + model_id + "` has no `gguf` artifact"@))
    } else if kind != ModelKind::Generative && kind != ModelKind::Embedding {
        Err(refused_kind(kind))
    } else {
        Ok(())
    }
}

/// Whether the provider can run a task on a bundle. `modality` is the
/// modality's name and `text` whether it is text.
pub fn can_run(
    task: Task,
    text: bool,
    modality: &str,
    has_gguf: bool,
    model_id: &str,
    kind: ModelKind,
) -> (r: Result<(), Error>)
    ensures
        agrees_plain(r, run_verdict(task, text, modality@, has_gguf, model_id@, kind)),
{
    if !(text && (task == Task::Generate || task == Task::Embed)) {
        return Err(
            Error::plain(
                Class::UnsupportedTask,
                cat4(
                    "ggml provider offers GENERATE and EMBED on TEXT, not ",
                    task.text(),
                    " x ",
                    modality,
                ),
            ),
        );
    }
    if !has_gguf {
        return Err(
            Error::plain(
                Class::BundleNoArtifact,
                cat3("bundle `", model_id, "` has no `gguf` artifact"),
            ),
        );
    }
    if kind != ModelKind::Generative && kind != ModelKind::Embedding {
        return Err(refuse_kind(kind));
    }
    Ok(())
}

/// Whether an allocation is offered: only in host memory.
pub fn alloc_place(placement: Placement) -> (r: Result<(), Error>)
    ensures
        agrees_plain(
            r,
            if placement == Placement::Host {
                Ok(())
            } else {
                Err(
                    plain(
                        Class::UnsupportedPlacement,
                        "ggml provider allocates TURBO_PLACE_HOST only, not "@ + placement_text(
                            placement,
                        ),
                    ),
                )
            },
        ),
{
    if placement == Placement::Host {
        return Ok(());
    }
    Err(
        Error::plain(
            Class::UnsupportedPlacement,
            cat2("ggml provider allocates TURBO_PLACE_HOST only, not ", placement.text()),
        ),
    )
}

/// What a bundle's contract says for embeddings, as it was read.
pub struct Contract {
    pub kind: ModelKind,
    pub max_seq: u32,
    pub max_batch: u32,
    pub dim: u32,
    pub pooling: Result<Option<Pooling>, Error>,
    pub normalize: Result<Option<Normalize>, Error>,
}

/// What a loaded file tells of the model.
#[derive(Clone, Copy, Debug, PartialEq, Eq, Structural)]
pub struct Gguf {
    pub n_ctx_train: u32,
    pub n_embd: i32,
    pub n_vocab: i32,
}

/// The embedding contract of an embedding bundle.
#[derive(Clone, Copy, Debug, PartialEq, Eq, Structural)]
pub struct EmbedContract {
    pub pool: Pooling,
    pub normalize: bool,
    pub dim: u32,
}

/// How a model is run: its context length, and its embedding contract where it
/// has one.
#[derive(Clone, Copy, Debug, PartialEq, Eq, Structural)]
pub struct ModelPlan {
    pub max_seq: u32,
    pub embed: Option<EmbedContract>,
}

/// The context length of a model: what the contract says, or the one it was trained with.
pub open spec fn context_length(c: Contract, g: Gguf) -> u32 {
    if c.max_seq == 0 {
        g.n_ctx_train
    } else {
        c.max_seq
    }
}

/// The embedding contract, or what is wrong with it.
pub open spec fn embed_contract(c: Contract, g: Gguf) -> Result<EmbedContract, ErrorView> {
    match c.pooling {
        Err(e) => Err(e@),
        Ok(None) => Err(
            plain(Class::BundleInvalid, "embedding bundle must declare contract.pooling"@),
        ),
        Ok(Some(pool)) => match c.normalize {
            Err(e) => Err(e@),
            Ok(None) => Err(
                plain(Class::BundleInvalid, "embedding bundle must declare contract.normalize"@),
            ),
            Ok(Some(n)) => if c.dim == 0 {
                Err(plain(Class::BundleInvalid, "embedding bundle must declare contract.dim"@))
            } else if g.n_embd != signed32(c.dim) {
                Err(
                    plain(
                        Class::BundleInvalid,
                        "GGUF embedding width "@ + signed_decimal(g.n_embd as int)
                            + " does not match contract.dim "@ + decimal(c.dim as nat),
                    ),
                )
            } else {
                Ok(EmbedContract { pool, normalize: n == Normalize::L2, dim: c.dim })
            },
        },
    }
}

/// The kind of bundle is served: a check before the file is read.
pub fn check_kind(kind: ModelKind) -> (r: Result<(), Error>)
    ensures
        agrees_plain(
            r,
            if kind != ModelKind::Generative && kind != ModelKind::Embedding {
                Err(refused_kind(kind))
            } else {
                Ok(())
            },
        ),
{
    if kind != ModelKind::Generative && kind != ModelKind::Embedding {
        return Err(refuse_kind(kind));
    }
    Ok(())
}

/// The plan of a model whose file was read, or what is wrong with its contract;
/// `template` says whether a generative model has a chat template.
pub open spec fn model_plan(c: Contract, g: Gguf, template: Result<(), Error>) -> Result<
    ModelPlan,
    ErrorView,
> {
    let max_seq = context_length(c, g);
    if max_seq > g.n_ctx_train {
        Err(
            plain(
                Class::BundleInvalid,
                "contract.max_seq "@ + decimal(max_seq as nat)
                    + " exceeds the model's training context "@ + decimal(g.n_ctx_train as nat),
            ),
        )
    } else if c.kind == ModelKind::Generative {
        match template {
            Err(e) => Err(e@),
            Ok(_) => Ok(ModelPlan { max_seq, embed: None }),
        }
    } else {
        match embed_contract(c, g) {
            Err(e) => Err(e),
            Ok(e) => Ok(ModelPlan { max_seq, embed: Some(e) }),
        }
    }
}

/// The plan of a model whose file was read.
pub fn model_plan_of(c: Contract, g: &Gguf, template: Result<(), Error>) -> (r: Result<ModelPlan, Error>)
    ensures
        agrees_plain(r, model_plan(c, *g, template)),
{
    let max_seq = if c.max_seq == 0 {
        g.n_ctx_train
    } else {
        c.max_seq
    };
    if max_seq > g.n_ctx_train {
        return Err(
            Error::plain(
                Class::BundleInvalid,
                cat4(
                    "contract.max_seq ",
                    decimal_of(max_seq as u128).as_str(),
                    " exceeds the model's training context ",
                    decimal_of(g.n_ctx_train as u128).as_str(),
                ),
            ),
        );
    }
    if c.kind == ModelKind::Generative {
        return match template {
            Err(e) => Err(e),
            Ok(()) => Ok(ModelPlan { max_seq, embed: None }),
        };
    }
    let pool = match c.pooling {
        Err(e) => return Err(e),
        Ok(None) => return Err(
            Error::say(Class::BundleInvalid, "embedding bundle must declare contract.pooling"),
        ),
        Ok(Some(p)) => p,
    };
    let n = match c.normalize {
        Err(e) => return Err(e),
        Ok(None) => return Err(
            Error::say(Class::BundleInvalid, "embedding bundle must declare contract.normalize"),
        ),
        Ok(Some(n)) => n,
    };
    if c.dim == 0 {
        return Err(Error::say(Class::BundleInvalid, "embedding bundle must declare contract.dim"));
    }
    if g.n_embd != signed32_of(c.dim) {
        return Err(
            Error::plain(
                Class::BundleInvalid,
                cat4(
                    "GGUF embedding width ",
                    signed_of(g.n_embd as i64).as_str(),
                    " does not match contract.dim ",
                    decimal_of(c.dim as u128).as_str(),
                ),
            ),
        );
    }
    Ok(
        ModelPlan {
            max_seq,
            embed: Some(EmbedContract { pool, normalize: n == Normalize::L2, dim: c.dim }),
        },
    )
}

/// Where the stages of a model are done, for the device's own placement.
pub open spec fn stages_on(placement: StagePlacement, generative: bool) -> Stages {
    Stages {
        tokenize: StagePlacement::Host,
        encode: placement,
        pool: if generative {
            StagePlacement::Unused
        } else {
            placement
        },
        normalize: if generative {
            StagePlacement::Unused
        } else {
            StagePlacement::Host
        },
        postprocess: if generative {
            StagePlacement::Host
        } else {
            StagePlacement::Unused
        },
    }
}

/// Whether information is that of a loaded model.
pub open spec fn tells_model(
    r: ModelInfo,
    kind: ModelKind,
    plan: ModelPlan,
    device: DeviceKind,
    max_batch: u32,
    g: Gguf,
    names: BundleNames,
) -> bool {
    &&& r.task == (if kind == ModelKind::Generative {
        Task::Generate
    } else {
        Task::Embed
    })
    &&& r.kind == kind
    &&& r.dim == (match plan.embed {
        Some(e) => e.dim,
        None => 0,
    })
    &&& r.labels.len() == 0
    &&& r.pooling == (match plan.embed {
        Some(e) => Some(e.pool),
        None => None,
    })
    &&& r.normalize == (match plan.embed {
        Some(e) => Some(
            if e.normalize {
                Normalize::L2
            } else {
                Normalize::Off
            },
        ),
        None => None,
    })
    &&& r.aggregation is None
    &&& r.max_seq == plan.max_seq
    &&& r.max_batch == (if kind == ModelKind::Generative {
        1
    } else if max_batch == 0 {
        32
    } else {
        max_batch
    })
    &&& r.f32_vectors == (kind == ModelKind::Embedding)
    &&& r.stages == stages_on(
        if device == DeviceKind::Cpu {
            StagePlacement::Host
        } else {
            StagePlacement::Device
        },
        kind == ModelKind::Generative,
    )
    &&& r.vocab_size == (if g.n_vocab < 0 {
        0
    } else {
        g.n_vocab as int
    })
    &&& r.names_bundle(names, GGML_PROVIDER_ID@)
}

/// What the provider tells of a model it loaded. A batch limit of zero is
/// replaced by 32; a generative model takes one sequence at a time.
pub fn model_info(
    kind: ModelKind,
    plan: &ModelPlan,
    device: DeviceKind,
    max_batch: u32,
    g: &Gguf,
    names: BundleNames,
) -> (r: ModelInfo)
    ensures
        tells_model(r, kind, *plan, device, max_batch, *g, names),
{
    let generative = kind == ModelKind::Generative;
    let placement = if device == DeviceKind::Cpu {
        StagePlacement::Host
    } else {
        StagePlacement::Device
    };
    let unused = StagePlacement::Unused;
    let stages = Stages {
        tokenize: StagePlacement::Host,
        encode: placement,
        pool: if generative {
            unused
        } else {
            placement
        },
        normalize: if generative {
            unused
        } else {
            StagePlacement::Host
        },
        postprocess: if generative {
            StagePlacement::Host
        } else {
            unused
        },
    };
    ModelInfo {
        task: if generative {
            Task::Generate
        } else {
            Task::Embed
        },
        kind,
        dim: match plan.embed {
            Some(e) => e.dim,
            None => 0,
        },
        labels: Vec::new(),
        pooling: match plan.embed {
            Some(e) => Some(e.pool),
            None => None,
        },
        normalize: match plan.embed {
            Some(e) => Some(
                if e.normalize {
                    Normalize::L2
                } else {
                    Normalize::Off
                },
            ),
            None => None,
        },
        aggregation: None,
        max_seq: plan.max_seq,
        max_batch: if generative {
            1
        } else if max_batch == 0 {
            32
        } else {
            max_batch
        },
        f32_vectors: kind == ModelKind::Embedding,
        stages,
        vocab_size: if g.n_vocab < 0 {
            0
        } else {
            g.n_vocab as u32
        },
        model_id: names.model_id,
        revision: names.revision,
        tokenizer_sha256: names.tokenizer_sha256,
        provider_id: GGML_PROVIDER_ID.to_owned(),
        prefix_query: names.prefix_query,
        prefix_document: names.prefix_document,
    }
}

/// A loaded model.
#[derive(Debug)]
pub struct GgmlModel {
    pub plan: ModelPlan,
    pub info: ModelInfo,
}

/// The refusal of a load, if there is one: of the kind, then of the artifact, of
/// the file that llama.cpp reads, and of the contract on what the file tells.
pub open spec fn load_fault(
    c: Contract,
    artifact: Result<(), Error>,
    file: Result<Gguf, Error>,
    template: Result<(), Error>,
) -> Option<ErrorView> {
    if c.kind != ModelKind::Generative && c.kind != ModelKind::Embedding {
        Some(refused_kind(c.kind))
    } else {
        match (artifact, file) {
            (Err(e), _) => Some(e@),
            (Ok(_), Err(e)) => Some(e@),
            (Ok(_), Ok(g)) => match model_plan(c, g, template) {
                Err(e) => Some(e),
                Ok(_) => None,
            },
        }
    }
}

/// Load a model. `artifact` says whether the bundle has the file, `file` what
/// llama.cpp tells of it, and `template` whether there is a chat template.
pub fn load_model(
    c: Contract,
    artifact: Result<(), Error>,
    file: Result<Gguf, Error>,
    template: Result<(), Error>,
    device: DeviceKind,
    names: BundleNames,
) -> (r: Result<GgmlModel, Error>)
    ensures
        match load_fault(c, artifact, file, template) {
            Some(e) => r is Err && r->Err_0@ == e,
            None => {
                let g = file->Ok_0;
                let plan = model_plan(c, g, template)->Ok_0;
                &&& r is Ok
                &&& r->Ok_0.plan == plan
                &&& tells_model(r->Ok_0.info, c.kind, plan, device, c.max_batch, g, names)
            },
        },
{
    match check_kind(c.kind) {
        Err(e) => return Err(e),
        Ok(()) => {},
    }
    match artifact {
        Err(e) => return Err(e),
        Ok(()) => {},
    }
    let g = match file {
        Err(e) => return Err(e),
        Ok(g) => g,
    };
    let kind = c.kind;
    let max_batch = c.max_batch;
    let plan = match model_plan_of(c, &g, template) {
        Err(e) => return Err(e),
        Ok(p) => p,
    };
    let info = model_info(kind, &plan, device, max_batch, &g, names);
    Ok(GgmlModel { plan, info })
}

/// What the output of a generation must look like.
#[derive(Clone, Copy, Debug, PartialEq, Eq, Structural)]
pub enum StructuredKind {
    Free,
    Grammar,
    JsonSchema,
}

/// What a generation is asked for.
pub struct GenerateDesc {
    pub n_sequences: u32,
    pub n_tools: usize,
    pub structured_kind: StructuredKind,
    pub structured: String,
    pub max_new_tokens: u32,
    pub min_new_tokens: u32,
    pub stop: Vec<Vec<u8>>,
    pub stop_tokens: Vec<i32>,
    pub logprobs: u32,
    pub echo: bool,
    pub seed: Option<u64>,
    pub temperature: u32,
    pub top_k: u32,
    pub top_p: u32,
    pub min_p: u32,
    pub repeat_penalty: u32,
    pub presence_penalty: u32,
    pub frequency_penalty: u32,
    pub logit_bias: Vec<(i32, u32)>,
}

/// Sampling parameters and limits of one generation.
pub struct Plan {
    pub max_new: u32,
    pub min_new: u32,
    pub stop: Vec<Vec<u8>>,
    pub stop_tokens: Vec<i32>,
    pub logprobs: u32,
    pub echo: bool,
    pub seed: u32,
    pub temperature: u32,
    pub top_k: u32,
    pub top_p: u32,
    pub min_p: u32,
    pub repeat_penalty: u32,
    pub presence_penalty: u32,
    pub frequency_penalty: u32,
    pub logit_bias: Vec<(i32, u32)>,
    pub grammar: Option<String>,
}

/// A seed from drawn bits; never the value that asks for a new draw.
pub open spec fn drawn_seed(bits: u64) -> int {
    let s = bits as int % 0x1_0000_0000;
    if s == 0xffff_ffff {
        0xffff_fffe
    } else {
        s
    }
}

/// A seed from drawn bits for a generation that names none; never the value
/// 0xFFFFFFFF, which would draw anew at every prefill.
pub fn fresh_seed(bits: u64) -> (r: u32)
    ensures
        r == drawn_seed(bits),
        r != u32::MAX,
{
    let s: u32 = (bits % 0x1_0000_0000) as u32;
    if s == 0xffff_ffff {
        0xffff_fffe
    } else {
        s
    }
}

/// The first of the ids from `i` on that the vocabulary does not hold.
pub open spec fn first_foreign(ids: Seq<i32>, vocab: i32, i: int) -> Option<i32>
    decreases ids.len() - i,
{
    if i < 0 || i >= ids.len() {
        None
    } else if ids[i] < 0 || ids[i] >= vocab {
        Some(ids[i])
    } else {
        first_foreign(ids, vocab, i + 1)
    }
}

/// The first of the ids that the vocabulary does not hold.
pub fn first_foreign_of(ids: &Vec<i32>, vocab: i32) -> (r: Option<i32>)
    ensures
        r == first_foreign(ids@, vocab, 0),
{
    let mut i: usize = 0;
    while i < ids.len()
        invariant
            i <= ids.len(),
            first_foreign(ids@, vocab, i as int) == first_foreign(ids@, vocab, 0),
        decreases ids.len() - i,
    {
        if ids[i] < 0 || ids[i] >= vocab {
            return Some(ids[i]);
        }
        i = i + 1;
    }
    None
}

/// Check the token ids of a prompt.
pub fn check_prompt_tokens(ids: &Vec<i32>, vocab: i32) -> (r: Result<(), Error>)
    ensures
        match first_foreign(ids@, vocab, 0) {
            Some(id) => r is Err && r->Err_0@ == plain(
                Class::InvalidArgument,
                "prompt token "@ + signed_decimal(id as int) + " is outside the vocabulary of "@
                    + signed_decimal(vocab as int),
            ),
            None => r is Ok,
        },
{
    match first_foreign_of(ids, vocab) {
        Some(id) => Err(
            Error::plain(
                Class::InvalidArgument,
                cat4(
                    "prompt token ",
                    signed_of(id as i64).as_str(),
                    " is outside the vocabulary of ",
                    signed_of(vocab as i64).as_str(),
                ),
            ),
        ),
        None => Ok(()),
    }
}

/// The refusal of a session: of a generative model, or of a shape without rows.
pub open spec fn session_fault(model_id: Seq<char>, embeds: bool, max_batch: u32, max_seq: u32) -> Option<
    ErrorView,
> {
    if !embeds {
        Some(
            plain(
                Class::UnsupportedTask,
                "model `"@ + model_id + "` is generative; create a generation, not a session"@,
            ),
        )
    } else if max_batch < 1 || max_seq < 2 {
        Some(plain(Class::InvalidArgument, "session needs max_batch >= 1 and max_seq >= 2"@))
    } else {
        None
    }
}

/// Check a session that is asked for.
pub fn check_session(model_id: &str, embeds: bool, max_batch: u32, max_seq: u32) -> (r: Result<
    (),
    Error,
>)
    ensures
        match session_fault(model_id@, embeds, max_batch, max_seq) {
            Some(e) => r is Err && r->Err_0@ == e,
            None => r is Ok,
        },
{
    if !embeds {
        return Err(
            Error::plain(
                Class::UnsupportedTask,
                cat3(
                    "model `",
                    model_id,
                    "` is generative; create a generation, not a session",
                ),
            ),
        );
    }
    if max_batch < 1 || max_seq < 2 {
        return Err(
            Error::say(Class::InvalidArgument, "session needs max_batch >= 1 and max_seq >= 2"),
        );
    }
    Ok(())
}

/// Check a generation that is asked for.
pub fn check_generation(model_id: &str, generates: bool) -> (r: Result<(), Error>)
    ensures
        if generates {
            r is Ok
        } else {
            r is Err && r->Err_0@ == plain(
                Class::UnsupportedTask,
                "model `"@ + model_id@
                    + "` is an embedding model; create a session, not a generation"@,
            )
        },
{
    if generates {
        return Ok(());
    }
    Err(
        Error::plain(
            Class::UnsupportedTask,
            cat3(
                "model `",
                model_id,
                "` is an embedding model; create a session, not a generation",
            ),
        ),
    )
}

/// The token ids of a logit bias.
pub open spec fn bias_ids(bias: Seq<(i32, u32)>) -> Seq<i32> {
    Seq::new(bias.len(), |i: int| bias[i].0)
}

/// The token ids of a logit bias.
fn bias_ids_of(bias: &Vec<(i32, u32)>) -> (r: Vec<i32>)
    ensures
        r@ == bias_ids(bias@),
{
    let mut out: Vec<i32> = Vec::new();
    let mut i: usize = 0;
    while i < bias.len()
        invariant
            i <= bias.len(),
            out@ == bias_ids(bias@).take(i as int),
        decreases bias.len() - i,
    {
        out.push(bias[i].0);
        i = i + 1;
        proof {
            assert(out@ =~= bias_ids(bias@).take(i as int));
        }
    }
    proof {
        assert(out@ =~= bias_ids(bias@));
    }
    out
}

/// The most new tokens of a generation.
pub open spec fn max_new_of(d: GenerateDesc) -> u32 {
    if d.max_new_tokens == 0 {
        DEFAULT_MAX_NEW_TOKENS
    } else {
        d.max_new_tokens
    }
}

/// The seed of a generation, or why the one it names is refused.
pub open spec fn seed_of(seed: Option<u64>, drawn: u64) -> Result<int, ErrorView> {
    match seed {
        None => Ok(drawn_seed(drawn)),
        Some(s) => if s > u32::MAX {
            Err(
                on_field(
                    Class::InvalidArgument,
                    Field::GenerateSeed,
                    "seed "@ + decimal(s as nat) + " does not fit llama.cpp's 32-bit seed"@,
                ),
            )
        } else if s == u32::MAX {
            Err(
                on_field(
                    Class::InvalidArgument,
                    Field::GenerateSeed,
                    "seed 0xFFFFFFFF is llama.cpp's random-seed sentinel and cannot be honored as a fixed seed"@,
                ),
            )
        } else {
            Ok(s as int)
        },
    }
}

/// A count that exceeds the vocabulary.
pub open spec fn over_vocabulary(what: Seq<char>, n: u32, vocab: i32, field: Field) -> ErrorView {
    on_field(
        Class::InvalidArgument,
        field,
        what + decimal(n as nat) + " exceeds the vocabulary of "@ + decimal(vocab as nat),
    )
}

/// A token that the vocabulary does not hold.
pub open spec fn foreign_token(what: Seq<char>, id: i32, vocab: i32, field: Field) -> ErrorView {
    on_field(
        Class::InvalidArgument,
        field,
        what + signed_decimal(id as int) + " is outside the vocabulary of "@ + decimal(vocab as nat),
    )
}

/// The refusal of a request before its parameters are looked at.
pub open spec fn offer_verdict(d: GenerateDesc) -> Result<(), ErrorView> {
    if d.n_sequences > 1 {
        Err(on_field(Class::UnsupportedOption, Field::GenerateSequences, "n_sequences"@))
    } else if d.n_tools > 0 {
        Err(on_field(Class::UnsupportedOption, Field::GenerateTools, "tools"@))
    } else if d.structured_kind == StructuredKind::JsonSchema {
        Err(
            on_field(
                Class::UnsupportedOption,
                Field::GenerateStructuredKind,
                "structured_kind=JSON_SCHEMA (the ggml provider takes GBNF grammars only)"@,
            ),
        )
    } else {
        Ok(())
    }
}

/// The seed of a generation that the request's parameters allow, or the first refusal.
pub open spec fn parameter_verdict(d: GenerateDesc, vocab: i32, drawn: u64) -> Result<int, ErrorView> {
    let max_new = max_new_of(d);
    if d.min_new_tokens > max_new {
        Err(
            on_field(
                Class::InvalidArgument,
                Field::Number(3),
                "min_new_tokens "@ + decimal(d.min_new_tokens as nat) + " exceeds max_new_tokens "@
                    + decimal(max_new as nat),
            ),
        )
    } else {
        match first_foreign(bias_ids(d.logit_bias@), vocab, 0) {
            Some(id) => Err(
                foreign_token("logit_bias token "@, id, vocab, Field::GenerateLogitBias),
            ),
            None => match first_foreign(d.stop_tokens@, vocab, 0) {
                Some(id) => Err(foreign_token("stop token "@, id, vocab, Field::Number(15))),
                None => if d.top_k != 0 && d.top_k > vocab {
                    Err(over_vocabulary("top_k "@, d.top_k, vocab, Field::Number(6)))
                } else if d.logprobs > vocab {
                    Err(over_vocabulary("logprobs "@, d.logprobs, vocab, Field::GenerateLogprobs))
                } else {
                    seed_of(d.seed, drawn)
                },
            },
        }
    }
}

/// The seed of a generation, or the first refusal.
pub open spec fn desc_verdict(d: GenerateDesc, vocab: i32, drawn: u64) -> Result<int, ErrorView> {
    match offer_verdict(d) {
        Err(e) => Err(e),
        Ok(_) => parameter_verdict(d, vocab, drawn),
    }
}

/// The refusal of a token that the vocabulary does not hold.
fn refuse_token(what: &str, id: i32, vocab: i32, field: Field) -> (r: Error)
    requires
        vocab >= 0,
    ensures
        r@ == foreign_token(what@, id, vocab, field),
{
    Error::on_field(
        Class::InvalidArgument,
        field,
        cat4(
            what,
            signed_of(id as i64).as_str(),
            " is outside the vocabulary of ",
            decimal_of(vocab as u128).as_str(),
        ),
    )
}

/// The refusal of a count that exceeds the vocabulary.
fn refuse_count(what: &str, n: u32, vocab: i32, field: Field) -> (r: Error)
    requires
        vocab >= 0,
    ensures
        r@ == over_vocabulary(what@, n, vocab, field),
{
    Error::on_field(
        Class::InvalidArgument,
        field,
        cat4(
            what,
            decimal_of(n as u128).as_str(),
            " exceeds the vocabulary of ",
            decimal_of(vocab as u128).as_str(),
        ),
    )
}

impl Plan {
    /// Whether the plan carries the request's own parameters on.
    pub open spec fn follows(&self, d: GenerateDesc) -> bool {
        &&& self.max_new == max_new_of(d)
        &&& self.min_new == d.min_new_tokens
        &&& self.stop@ == d.stop@
        &&& self.stop_tokens@ == d.stop_tokens@
        &&& self.logprobs == d.logprobs
        &&& self.echo == d.echo
        &&& self.temperature == d.temperature
        &&& self.top_k == d.top_k
        &&& self.top_p == d.top_p
        &&& self.min_p == d.min_p
        &&& self.repeat_penalty == d.repeat_penalty
        &&& self.presence_penalty == d.presence_penalty
        &&& self.frequency_penalty == d.frequency_penalty
        &&& self.logit_bias@ == d.logit_bias@
        &&& self.grammar is Some <==> d.structured_kind == StructuredKind::Grammar
        &&& self.grammar matches Some(g) ==> g@ == d.structured@
    }

    /// The plan of a generation on a model of `vocab` tokens. `drawn` is a fresh
    /// draw, used where the request names no seed. Neither a 64-bit seed nor the
    /// sentinel is silently mapped.
    pub fn from_desc(desc: GenerateDesc, vocab: i32, drawn: u64) -> (r: Result<Plan, Error>)
        requires
            vocab >= 0,
        ensures
            match desc_verdict(desc, vocab, drawn) {
                Err(e) => r is Err && r->Err_0@ == e,
                Ok(seed) => r is Ok && r->Ok_0.follows(desc) && r->Ok_0.seed == seed,
            },
    {
        if desc.n_sequences > 1 {
            return Err(
                Error::on_field(
                    Class::UnsupportedOption,
                    Field::GenerateSequences,
                    "n_sequences".to_owned(),
                ),
            );
        }
        if desc.n_tools > 0 {
            return Err(
                Error::on_field(Class::UnsupportedOption, Field::GenerateTools, "tools".to_owned()),
            );
        }
        if desc.structured_kind == StructuredKind::JsonSchema {
            return Err(
                Error::on_field(
                    Class::UnsupportedOption,
                    Field::GenerateStructuredKind,
                    "structured_kind=JSON_SCHEMA (the ggml provider takes GBNF grammars only)".to_owned(),
                ),
            );
        }
        let max_new = if desc.max_new_tokens == 0 {
            DEFAULT_MAX_NEW_TOKENS
        } else {
            desc.max_new_tokens
        };
        if desc.min_new_tokens > max_new {
            return Err(
                Error::on_field(
                    Class::InvalidArgument,
                    Field::Number(3),
                    cat4(
                        "min_new_tokens ",
                        decimal_of(desc.min_new_tokens as u128).as_str(),
                        " exceeds max_new_tokens ",
                        decimal_of(max_new as u128).as_str(),
                    ),
                ),
            );
        }
        if let Some(id) = first_foreign_of(&bias_ids_of(&desc.logit_bias), vocab) {
            return Err(refuse_token("logit_bias token ", id, vocab, Field::GenerateLogitBias));
        }
        if let Some(id) = first_foreign_of(&desc.stop_tokens, vocab) {
            return Err(refuse_token("stop token ", id, vocab, Field::Number(15)));
        }
        if desc.top_k != 0 && desc.top_k > vocab as u32 {
            return Err(refuse_count("top_k ", desc.top_k, vocab, Field::Number(6)));
        }
        if desc.logprobs > vocab as u32 {
            return Err(refuse_count("logprobs ", desc.logprobs, vocab, Field::GenerateLogprobs));
        }
        let seed: u32 = match desc.seed {
            None => fresh_seed(drawn),
            Some(s) => {
                if s > 0xffff_ffff {
                    return Err(
                        Error::on_field(
                            Class::InvalidArgument,
                            Field::GenerateSeed,
                            cat3(
                                "seed ",
                                decimal_of(s as u128).as_str(),
                                " does not fit llama.cpp's 32-bit seed",
                            ),
                        ),
                    );
                }
                if s == 0xffff_ffff {
                    return Err(
                        Error::on_field(
                            Class::InvalidArgument,
                            Field::GenerateSeed,
                            "seed 0xFFFFFFFF is llama.cpp's random-seed sentinel and cannot be honored as a fixed seed".to_owned(),
                        ),
                    );
                }
                s as u32
            },
        };
        Ok(
            Plan {
                max_new,
                min_new: desc.min_new_tokens,
                stop: desc.stop,
                stop_tokens: desc.stop_tokens,
                logprobs: desc.logprobs,
                echo: desc.echo,
                seed,
                temperature: desc.temperature,
                top_k: desc.top_k,
                top_p: desc.top_p,
                min_p: desc.min_p,
                repeat_penalty: desc.repeat_penalty,
                presence_penalty: desc.presence_penalty,
                frequency_penalty: desc.frequency_penalty,
                logit_bias: desc.logit_bias,
                grammar: if desc.structured_kind == StructuredKind::Grammar {
                    Some(desc.structured)
                } else {
                    None
                },
            },
        )
    }
}

/// One stage of a sampler chain.
#[derive(Clone, Copy, Debug, PartialEq, Eq, Structural)]
pub enum Sampler {
    /// The plan's grammar.
    Grammar,
    /// The plan's biases, and minus infinity for tokens that end the generation
    /// where they are suppressed.
    LogitBias,
    /// Penalties with this repetition penalty over the last tokens.
    Penalties { repeat: u32 },
    TopK { k: u32 },
    TopP { p: u32 },
    MinP { p: u32 },
    Temperature { t: u32 },
    /// A draw with this seed.
    Draw { seed: u32 },
    /// The most likely token.
    Greedy,
}

/// 1.0 as bits.
pub const ONE: u32 = 0x3f80_0000;

/// The repetition penalty in effect: none where it is zero.
pub open spec fn repeat_penalty(p: Plan) -> u32 {
    if equal(p.repeat_penalty, 0) {
        ONE
    } else {
        p.repeat_penalty
    }
}

/// One stage, or none.
pub open spec fn stage_if(on: bool, stage: Sampler) -> Seq<Sampler> {
    if on {
        seq![stage]
    } else {
        Seq::empty()
    }
}

/// Whether penalties take part.
pub open spec fn penalized(p: Plan) -> bool {
    !equal(repeat_penalty(p), ONE) || !equal(p.presence_penalty, 0) || !equal(p.frequency_penalty, 0)
}

/// The stages that shape the scores.
pub open spec fn shaping(p: Plan, biased: bool) -> Seq<Sampler> {
    stage_if(p.grammar is Some, Sampler::Grammar) + stage_if(biased, Sampler::LogitBias) + stage_if(
        penalized(p),
        Sampler::Penalties { repeat: repeat_penalty(p) },
    )
}

/// The stages that pick a token.
pub open spec fn picking(p: Plan) -> Seq<Sampler> {
    if greater(p.temperature, 0) {
        stage_if(p.top_k != 0, Sampler::TopK { k: p.top_k }) + stage_if(
            greater(p.top_p, 0) && greater(ONE, p.top_p),
            Sampler::TopP { p: p.top_p },
        ) + stage_if(greater(p.min_p, 0), Sampler::MinP { p: p.min_p }) + seq![
            Sampler::Temperature { t: p.temperature },
        ] + seq![Sampler::Draw { seed: p.seed }]
    } else {
        seq![Sampler::Greedy]
    }
}

/// The sampler chain where `suppressed` tokens that end the generation are kept back.
pub open spec fn sampler_chain(p: Plan, suppressed: nat) -> Seq<Sampler> {
    shaping(p, p.logit_bias.len() > 0 || suppressed > 0) + picking(p)
}

/// The place of a stage in any chain.
pub open spec fn stage_place(s: Sampler) -> int {
    match s {
        Sampler::Grammar => 0,
        Sampler::LogitBias => 1,
        Sampler::Penalties { .. } => 2,
        Sampler::TopK { .. } => 3,
        Sampler::TopP { .. } => 4,
        Sampler::MinP { .. } => 5,
        Sampler::Temperature { .. } => 6,
        Sampler::Draw { .. } => 7,
        Sampler::Greedy => 8,
    }
}

/// A number is above 0 where its bits are 1 to those of infinity, below 1 where they
/// are below those of 1, and 0 where all but its sign are 0.
proof fn bits_tell_the_number(x: u32)
    ensures
        greater(x, 0) <==> 0 < x <= 0x7f80_0000,
        x < 0x8000_0000 ==> (greater(ONE, x) <==> x < 0x3f80_0000),
        equal(x, 0) <==> x == 0 || x == 0x8000_0000,
        equal(x, ONE) <==> x == 0x3f80_0000,
        x % 0x8000_0000 == 0 <==> x == 0 || x == 0x8000_0000,
{
}

/// Whether a plan has a stage.
spec fn asked_for(p: Plan, biased: bool, s: Sampler) -> bool {
    let draws = greater(p.temperature, 0);
    match s {
        Sampler::Grammar => p.grammar is Some,
        Sampler::LogitBias => biased,
        Sampler::Penalties { repeat } => penalized(p) && repeat == repeat_penalty(p),
        Sampler::TopK { k } => draws && k == p.top_k && k != 0,
        Sampler::TopP { p: x } => draws && x == p.top_p && greater(x, 0) && greater(ONE, x),
        Sampler::MinP { p: x } => draws && x == p.min_p && greater(x, 0),
        Sampler::Temperature { t } => draws && t == p.temperature,
        Sampler::Draw { seed } => draws && seed == p.seed,
        Sampler::Greedy => !draws,
    }
}

/// What one optional stage contains.
proof fn stage_if_has(on: bool, stage: Sampler, s: Sampler)
    ensures
        stage_if(on, stage).contains(s) <==> on && s == stage,
{
    if on && s == stage {
        assert(stage_if(on, stage)[0] == s);
    }
}

/// What two joined chains contain.
proof fn joined_has(a: Seq<Sampler>, b: Seq<Sampler>, s: Sampler)
    ensures
        (a + b).contains(s) <==> a.contains(s) || b.contains(s),
{
    if a.contains(s) {
        let i = choose|i: int| 0 <= i < a.len() && a[i] == s;
        assert((a + b)[i] == s);
    }
    if b.contains(s) {
        let i = choose|i: int| 0 <= i < b.len() && b[i] == s;
        assert((a + b)[a.len() + i] == s);
    }
    if (a + b).contains(s) {
        let i = choose|i: int| 0 <= i < (a + b).len() && (a + b)[i] == s;
        if i < a.len() {
            assert(a[i] == s);
        } else {
            assert(b[i - a.len()] == s);
        }
    }
}

/// A chain has the stages that its plan has.
proof fn stage_is_asked_for(p: Plan, suppressed: nat, s: Sampler)
    ensures
        sampler_chain(p, suppressed).contains(s) <==> asked_for(
            p,
            p.logit_bias.len() > 0 || suppressed > 0,
            s,
        ),
{
    let on_p = greater(p.top_p, 0) && greater(ONE, p.top_p);
    let on_m = greater(p.min_p, 0);
    let biased = p.logit_bias.len() > 0 || suppressed > 0;
    let k = stage_if(p.top_k != 0, Sampler::TopK { k: p.top_k });
    let tp = stage_if(on_p, Sampler::TopP { p: p.top_p });
    let mp = stage_if(on_m, Sampler::MinP { p: p.min_p });
    let t = stage_if(true, Sampler::Temperature { t: p.temperature });
    let d = stage_if(true, Sampler::Draw { seed: p.seed });
    let g = stage_if(p.grammar is Some, Sampler::Grammar);
    let b = stage_if(biased, Sampler::LogitBias);
    let pen = stage_if(penalized(p), Sampler::Penalties { repeat: repeat_penalty(p) });
    stage_if_has(p.top_k != 0, Sampler::TopK { k: p.top_k }, s);
    stage_if_has(on_p, Sampler::TopP { p: p.top_p }, s);
    stage_if_has(on_m, Sampler::MinP { p: p.min_p }, s);
    stage_if_has(true, Sampler::Temperature { t: p.temperature }, s);
    stage_if_has(true, Sampler::Draw { seed: p.seed }, s);
    stage_if_has(true, Sampler::Greedy, s);
    stage_if_has(p.grammar is Some, Sampler::Grammar, s);
    stage_if_has(biased, Sampler::LogitBias, s);
    stage_if_has(penalized(p), Sampler::Penalties { repeat: repeat_penalty(p) }, s);
    joined_has(k, tp, s);
    joined_has(k + tp, mp, s);
    joined_has(k + tp + mp, t, s);
    joined_has(k + tp + mp + t, d, s);
    joined_has(g, b, s);
    joined_has(g + b, pen, s);
    joined_has(g + b + pen, picking(p), s);
}

/// Whether the stages of a chain stand in order, from place `from` on and before `to`.
spec fn in_places(c: Seq<Sampler>, from: int, to: int) -> bool {
    &&& forall|i: int| 0 <= i < c.len() ==> from <= stage_place(#[trigger] c[i]) < to
    &&& forall|i: int, j: int|
        0 <= i < j < c.len() ==> stage_place(#[trigger] c[i]) < stage_place(#[trigger] c[j])
}

/// Chains in order, joined in order.
proof fn joined_in_places(a: Seq<Sampler>, b: Seq<Sampler>, from: int, mid: int, to: int)
    requires
        in_places(a, from, mid),
        in_places(b, mid, to),
        from <= mid <= to,
    ensures
        in_places(a + b, from, to),
{
    let c = a + b;
    assert forall|i: int| 0 <= i < c.len() implies from <= stage_place(#[trigger] c[i]) < to by {
        if i < a.len() {
            assert(c[i] == a[i]);
        } else {
            assert(c[i] == b[i - a.len()]);
        }
    }
    assert forall|i: int, j: int| 0 <= i < j < c.len() implies stage_place(#[trigger] c[i]) < stage_place(
        #[trigger] c[j],
    ) by {
        if j < a.len() {
            assert(c[i] == a[i] && c[j] == a[j]);
        } else if i < a.len() {
            assert(c[i] == a[i] && c[j] == b[j - a.len()]);
        } else {
            assert(c[i] == b[i - a.len()] && c[j] == b[j - a.len()]);
        }
    }
}

/// What every chain contains, by the bits of the plan's numbers: a number is above 0
/// where its bits are 1 to those of infinity, and below 1 where they are below those
/// of 1.
pub proof fn a_plan_takes_the_stages_it_asks_for(p: Plan, suppressed: nat)
    ensures
        ({
            let chain = sampler_chain(p, suppressed);
            let draws = 0 < p.temperature <= 0x7f80_0000;
            &&& chain.contains(Sampler::Greedy) <==> !draws
            &&& forall|t: u32| #[trigger]
                chain.contains(Sampler::Temperature { t }) <==> draws && t == p.temperature
            &&& forall|seed: u32| #[trigger]
                chain.contains(Sampler::Draw { seed }) <==> draws && seed == p.seed
            &&& forall|k: u32| #[trigger]
                chain.contains(Sampler::TopK { k }) <==> draws && k == p.top_k && k != 0
            &&& forall|x: u32| #[trigger]
                chain.contains(Sampler::TopP { p: x }) <==> draws && x == p.top_p && 0 < x < 0x3f80_0000
            &&& forall|x: u32| #[trigger]
                chain.contains(Sampler::MinP { p: x }) <==> draws && x == p.min_p && 0 < x <= 0x7f80_0000
            &&& chain.contains(Sampler::Grammar) <==> p.grammar is Some
            &&& chain.contains(Sampler::LogitBias) <==> p.logit_bias.len() > 0 || suppressed > 0
        }),
{
    bits_tell_the_number(p.temperature);
    bits_tell_the_number(p.top_p);
    bits_tell_the_number(p.min_p);
    let chain = sampler_chain(p, suppressed);
    let biased = p.logit_bias.len() > 0 || suppressed > 0;
    stage_is_asked_for(p, suppressed, Sampler::Greedy);
    stage_is_asked_for(p, suppressed, Sampler::Grammar);
    stage_is_asked_for(p, suppressed, Sampler::LogitBias);
    assert forall|t: u32| #[trigger]
        chain.contains(Sampler::Temperature { t }) <==> asked_for(p, biased, Sampler::Temperature { t }) by {
        stage_is_asked_for(p, suppressed, Sampler::Temperature { t });
    }
    assert forall|seed: u32| #[trigger]
        chain.contains(Sampler::Draw { seed }) <==> asked_for(p, biased, Sampler::Draw { seed }) by {
        stage_is_asked_for(p, suppressed, Sampler::Draw { seed });
    }
    assert forall|k: u32| #[trigger]
        chain.contains(Sampler::TopK { k }) <==> asked_for(p, biased, Sampler::TopK { k }) by {
        stage_is_asked_for(p, suppressed, Sampler::TopK { k });
    }
    assert forall|x: u32| #[trigger]
        chain.contains(Sampler::TopP { p: x }) <==> asked_for(p, biased, Sampler::TopP { p: x }) by {
        stage_is_asked_for(p, suppressed, Sampler::TopP { p: x });
    }
    assert forall|x: u32| #[trigger]
        chain.contains(Sampler::MinP { p: x }) <==> asked_for(p, biased, Sampler::MinP { p: x }) by {
        stage_is_asked_for(p, suppressed, Sampler::MinP { p: x });
    }
}

/// One stage is in its place.
proof fn stage_in_place(on: bool, stage: Sampler)
    ensures
        in_places(stage_if(on, stage), stage_place(stage), stage_place(stage) + 1),
{
}

/// The stages that shape the scores are in order.
proof fn shaping_in_places(p: Plan, biased: bool)
    ensures
        in_places(shaping(p, biased), 0, 3),
{
    let g = stage_if(p.grammar is Some, Sampler::Grammar);
    let b = stage_if(biased, Sampler::LogitBias);
    let pen = stage_if(penalized(p), Sampler::Penalties { repeat: repeat_penalty(p) });
    stage_in_place(p.grammar is Some, Sampler::Grammar);
    stage_in_place(biased, Sampler::LogitBias);
    stage_in_place(penalized(p), Sampler::Penalties { repeat: repeat_penalty(p) });
    joined_in_places(g, b, 0, 1, 2);
    joined_in_places(g + b, pen, 0, 2, 3);
}

/// The stages that pick a token are in order, the choice last.
proof fn picking_in_places(p: Plan)
    ensures
        in_places(picking(p), 3, 9),
        picking(p).len() >= 1,
        greater(p.temperature, 0) ==> picking(p).len() >= 2 && picking(p)[picking(p).len() - 2]
            == (Sampler::Temperature { t: p.temperature }) && picking(p).last() == (Sampler::Draw {
            seed: p.seed,
        }),
        !greater(p.temperature, 0) ==> picking(p).last() == Sampler::Greedy,
{
    let on_p = greater(p.top_p, 0) && greater(ONE, p.top_p);
    let on_m = greater(p.min_p, 0);
    let k = stage_if(p.top_k != 0, Sampler::TopK { k: p.top_k });
    let tp = stage_if(on_p, Sampler::TopP { p: p.top_p });
    let mp = stage_if(on_m, Sampler::MinP { p: p.min_p });
    let t = stage_if(true, Sampler::Temperature { t: p.temperature });
    let d = stage_if(true, Sampler::Draw { seed: p.seed });
    stage_in_place(p.top_k != 0, Sampler::TopK { k: p.top_k });
    stage_in_place(on_p, Sampler::TopP { p: p.top_p });
    stage_in_place(on_m, Sampler::MinP { p: p.min_p });
    stage_in_place(true, Sampler::Temperature { t: p.temperature });
    stage_in_place(true, Sampler::Draw { seed: p.seed });
    joined_in_places(k, tp, 3, 4, 5);
    joined_in_places(k + tp, mp, 3, 5, 6);
    joined_in_places(k + tp + mp, t, 3, 6, 7);
    joined_in_places(k + tp + mp + t, d, 3, 7, 8);
}

/// The stages stand in their one order, so filters come before the temperature and
/// the choice of a token comes last: a draw with the plan's seed at the plan's
/// temperature where that is above 0, and else the most likely token.
pub proof fn a_chain_ends_in_its_choice(p: Plan, suppressed: nat)
    ensures
        ({
            let chain = sampler_chain(p, suppressed);
            let n = chain.len() as int;
            &&& forall|i: int, j: int|
                0 <= i < j < n ==> stage_place(#[trigger] chain[i]) < stage_place(#[trigger] chain[j])
            &&& if 0 < p.temperature <= 0x7f80_0000 {
                &&& n >= 2
                &&& chain[n - 2] == Sampler::Temperature { t: p.temperature }
                &&& chain[n - 1] == Sampler::Draw { seed: p.seed }
            } else {
                &&& n >= 1
                &&& chain[n - 1] == Sampler::Greedy
            }
        }),
{
    bits_tell_the_number(p.temperature);
    let biased = p.logit_bias.len() > 0 || suppressed > 0;
    shaping_in_places(p, biased);
    picking_in_places(p);
    joined_in_places(shaping(p, biased), picking(p), 0, 3, 9);
    let a = shaping(p, biased);
    let b = picking(p);
    assert((a + b)[a.len() + b.len() - 1] == b[b.len() - 1]);
    if b.len() >= 2 {
        assert((a + b)[a.len() + b.len() - 2] == b[b.len() - 2]);
    }
}

/// Penalties take part unless each is without effect: a repetition penalty of 0 or 1,
/// and the two others of 0. A repetition penalty of 0 stands for 1.
pub proof fn penalties_without_effect_are_left_out(p: Plan, suppressed: nat)
    requires
        p.repeat_penalty % 0x8000_0000 <= 0x7f80_0000,
        p.presence_penalty % 0x8000_0000 <= 0x7f80_0000,
        p.frequency_penalty % 0x8000_0000 <= 0x7f80_0000,
    ensures
        ({
            let chain = sampler_chain(p, suppressed);
            let off = (p.repeat_penalty == 0x3f80_0000 || p.repeat_penalty % 0x8000_0000 == 0)
                && p.presence_penalty % 0x8000_0000 == 0 && p.frequency_penalty % 0x8000_0000 == 0;
            forall|x: u32| #[trigger]
                chain.contains(Sampler::Penalties { repeat: x }) <==> !off && x == (
                if p.repeat_penalty % 0x8000_0000 == 0 {
                    0x3f80_0000u32
                } else {
                    p.repeat_penalty
                })
        }),
{
    bits_tell_the_number(p.repeat_penalty);
    bits_tell_the_number(p.presence_penalty);
    bits_tell_the_number(p.frequency_penalty);
    bits_tell_the_number(ONE);
    let chain = sampler_chain(p, suppressed);
    let biased = p.logit_bias.len() > 0 || suppressed > 0;
    assert forall|x: u32| #[trigger]
        chain.contains(Sampler::Penalties { repeat: x }) <==> asked_for(p, biased, Sampler::Penalties { repeat: x }) by {
        stage_is_asked_for(p, suppressed, Sampler::Penalties { repeat: x });
    }
}

/// Append a stage where it takes part.
fn add_stage(chain: &mut Vec<Sampler>, on: bool, stage: Sampler)
    ensures
        final(chain)@ == old(chain)@ + stage_if(on, stage),
{
    let ghost before = chain@;
    if on {
        chain.push(stage);
    }
    proof {
        assert(chain@ =~= before + stage_if(on, stage));
    }
}

impl Plan {
    /// The stages that shape the scores.
    fn shaping_of(&self, biased: bool) -> (r: Vec<Sampler>)
        ensures
            r@ == shaping(*self, biased),
    {
        let mut chain: Vec<Sampler> = Vec::new();
        add_stage(&mut chain, self.grammar.is_some(), Sampler::Grammar);
        add_stage(&mut chain, biased, Sampler::LogitBias);
        let repeat = if equal_of(self.repeat_penalty, 0) {
            ONE
        } else {
            self.repeat_penalty
        };
        let on = !equal_of(repeat, ONE) || !equal_of(self.presence_penalty, 0) || !equal_of(
            self.frequency_penalty,
            0,
        );
        add_stage(&mut chain, on, Sampler::Penalties { repeat });
        proof {
            let grammar = stage_if(self.grammar is Some, Sampler::Grammar);
            assert(Seq::<Sampler>::empty() + grammar =~= grammar);
        }
        chain
    }

    /// The stages that pick a token.
    fn picking_of(&self) -> (r: Vec<Sampler>)
        ensures
            r@ == picking(*self),
    {
        let mut chain: Vec<Sampler> = Vec::new();
        if !greater_of(self.temperature, 0) {
            chain.push(Sampler::Greedy);
            proof {
                assert(chain@ =~= seq![Sampler::Greedy]);
            }
            return chain;
        }
        add_stage(&mut chain, self.top_k != 0, Sampler::TopK { k: self.top_k });
        let in_range = greater_of(self.top_p, 0) && greater_of(ONE, self.top_p);
        add_stage(&mut chain, in_range, Sampler::TopP { p: self.top_p });
        add_stage(&mut chain, greater_of(self.min_p, 0), Sampler::MinP { p: self.min_p });
        add_stage(&mut chain, true, Sampler::Temperature { t: self.temperature });
        add_stage(&mut chain, true, Sampler::Draw { seed: self.seed });
        proof {
            let k = stage_if(self.top_k != 0, Sampler::TopK { k: self.top_k });
            assert(Seq::<Sampler>::empty() + k =~= k);
        }
        chain
    }

    /// The sampler chain. `suppressed` says how many tokens that end the
    /// generation get a bias of minus infinity.
    pub fn sampler(&self, suppressed: usize) -> (r: Vec<Sampler>)
        ensures
            r@ == sampler_chain(*self, suppressed as nat),
    {
        let mut chain = self.shaping_of(self.logit_bias.len() > 0 || suppressed > 0);
        let mut pick = self.picking_of();
        chain.append(&mut pick);
        chain
    }
}

/// How a generation ended.
#[derive(Clone, Copy, Debug, PartialEq, Eq, Structural)]
pub enum FinishReason {
    Running,
    Stop,
    Length,
    Eos,
    Cancelled,
}

/// What one step of a generation hands out.
pub struct Chunk {
    pub text: Vec<u8>,
    pub tokens: Vec<i32>,
    pub prompt_tokens: u32,
    pub generated_tokens: u32,
    pub done: bool,
    pub finish_reason: FinishReason,
}

/// What a generation needs next.
#[derive(Clone, Copy, Debug, PartialEq, Eq, Structural)]
pub enum Next {
    /// Nothing: the chunk ends it.
    Finished,
    /// A token; end tokens suppressed where `no_eog` is set.
    Sample { no_eog: bool, logprobs: u32 },
    /// The bytes of the token that was taken.
    Piece,
    /// A decode of the token at this position.
    Decode { position: u32 },
}

/// A generation between its outside calls.
pub struct Generation {
    max_new: u32,
    min_new: u32,
    max_seq: u32,
    logprobs: u32,
    echo: bool,
    stop_tokens: Vec<i32>,
    prompt_text: Vec<u8>,
    prompt_len: u32,
    n_past: u32,
    generated: u32,
    held: Held,
    pending: Vec<u8>,
    prompted: bool,
    cancelled: bool,
    done: bool,
}

/// A generation as contracts see it.
pub struct GenerationView {
    pub max_new: u32,
    pub min_new: u32,
    pub max_seq: u32,
    pub logprobs: u32,
    pub echo: bool,
    pub stop_tokens: Seq<i32>,
    pub prompt_text: Seq<u8>,
    pub prompt_len: u32,
    pub n_past: u32,
    pub generated: u32,
    /// The stop strings.
    pub stops: Seq<Vec<u8>>,
    /// All text that went out, but for an echo of the prompt.
    pub sent: Seq<u8>,
    /// The text held back.
    pub held: Seq<u8>,
    /// The bytes that wait for the rest of their character.
    pub pending: Seq<u8>,
    pub prompted: bool,
    pub cancelled: bool,
    pub done: bool,
}

impl View for Generation {
    type V = GenerationView;

    closed spec fn view(&self) -> GenerationView {
        GenerationView {
            max_new: self.max_new,
            min_new: self.min_new,
            max_seq: self.max_seq,
            logprobs: self.logprobs,
            echo: self.echo,
            stop_tokens: self.stop_tokens@,
            prompt_text: self.prompt_text@,
            prompt_len: self.prompt_len,
            n_past: self.n_past,
            generated: self.generated,
            stops: self.held.stops(),
            sent: self.held.sent(),
            held: self.held.held(),
            pending: self.pending@,
            prompted: self.prompted,
            cancelled: self.cancelled,
            done: self.done,
        }
    }
}

/// The text that a generation ends with: what is held back, and what the
/// pending bytes still give.
pub open spec fn tail(g: GenerationView) -> Seq<u8> {
    g.held + drained(g.pending, true).0
}

/// A generation that has ended, its last text handed out.
pub open spec fn ended(g: GenerationView) -> GenerationView {
    GenerationView {
        sent: g.sent + tail(g),
        held: Seq::empty(),
        pending: Seq::empty(),
        done: true,
        ..g
    }
}

/// The prompt, where it is echoed before the first token.
pub open spec fn echoed(g: GenerationView) -> Seq<u8> {
    if g.generated == 0 && g.echo {
        g.prompt_text
    } else {
        Seq::empty()
    }
}

/// A generation that has taken one more token.
pub open spec fn counted(g: GenerationView) -> GenerationView {
    GenerationView { generated: (g.generated + 1) as u32, ..g }
}

/// The text that the bytes of a token give, and the bytes that wait behind it; a
/// control token has no text.
pub open spec fn piece_text(g: GenerationView, bytes: Seq<u8>, control: bool) -> (Seq<u8>, Seq<u8>) {
    if control {
        (Seq::empty(), g.pending)
    } else {
        drained(g.pending + bytes, false)
    }
}

/// What the bytes of a token do: the generation behind them, the text that goes out,
/// and whether a stop string ended the stream. Without one, all goes out but what
/// could still begin one; with one, what stands before the first, and never more.
pub open spec fn piece_taken(g: GenerationView, bytes: Seq<u8>, control: bool) -> (
    GenerationView,
    Seq<u8>,
    bool,
) {
    let d = piece_text(g, bytes, control);
    let whole = g.held + d.0;
    let all = g.sent + whole;
    if stop_free(all, g.stops) {
        let n = released(whole, g.stops);
        (
            GenerationView {
                sent: g.sent + whole.take(n),
                held: whole.skip(n),
                pending: d.1,
                n_past: (g.n_past + 1) as u32,
                ..g
            },
            whole.take(n),
            false,
        )
    } else {
        let at = choose|i: int| first_stop(all, g.stops, i);
        (
            GenerationView {
                sent: all.take(at),
                held: Seq::empty(),
                pending: Seq::empty(),
                done: true,
                ..g
            },
            all.take(at).skip(g.sent.len() as int),
            true,
        )
    }
}

/// Whether the limits leave room for another token.
pub open spec fn has_room(g: GenerationView) -> bool {
    g.generated < g.max_new && g.n_past < g.max_seq
}

/// Why a generation ends before a token is taken.
pub open spec fn reason_without_token(g: GenerationView) -> FinishReason {
    if g.cancelled {
        FinishReason::Cancelled
    } else {
        FinishReason::Length
    }
}

/// Why a generation ends with a token that is not written out.
pub open spec fn reason_of_token(is_eog: bool) -> FinishReason {
    if is_eog {
        FinishReason::Eos
    } else {
        FinishReason::Stop
    }
}

/// What a generation with room asks for.
pub open spec fn asked_next(g: GenerationView) -> Next {
    Next::Sample { no_eog: g.generated < g.min_new, logprobs: g.logprobs }
}

/// A token that ends a generation is kept back while fewer tokens than the least number
/// were generated, and may come from then on; where no least number was asked for it may
/// come at once.
pub proof fn ends_are_kept_back_until_the_least_number(g: GenerationView)
    ensures
        asked_next(g) is Sample,
        g.generated < g.min_new <==> asked_next(g)->no_eog,
        g.min_new == 0 ==> !asked_next(g)->no_eog,
        asked_next(g)->logprobs == g.logprobs,
{
}

/// A generation tells why it ended: a cancelled one that it was, one without room that
/// it was its length, one whose token ends it that it came to its end, and one with a
/// stop token that it was stopped.
pub proof fn a_generation_tells_why_it_ended(g: GenerationView, is_eog: bool)
    ensures
        g.cancelled <==> reason_without_token(g) == FinishReason::Cancelled,
        !g.cancelled <==> reason_without_token(g) == FinishReason::Length,
        is_eog <==> reason_of_token(is_eog) == FinishReason::Eos,
        !is_eog <==> reason_of_token(is_eog) == FinishReason::Stop,
{
}

/// A prompt of `n` tokens fits a context of `n_ctx`, or why not.
pub open spec fn prefill_verdict(n: nat, n_ctx: u32) -> Result<(), ErrorView> {
    if n == 0 {
        Err(plain(Class::InvalidArgument, "the prompt tokenizes to nothing"@))
    } else if n + 1 > n_ctx {
        Err(
            plain(
                Class::Capacity,
                "prompt is "@ + decimal(n) + " tokens but the context holds "@ + decimal(n_ctx as nat),
            ),
        )
    } else {
        Ok(())
    }
}

/// The most tokens of one prompt decode.
pub open spec fn prompt_batch(n_ctx: u32) -> u32 {
    if n_ctx < PROMPT_BATCH_CAP {
        n_ctx
    } else {
        PROMPT_BATCH_CAP
    }
}

/// The chunks that a prompt of `n` tokens is decoded in, from `start` on.
pub open spec fn prompt_chunks(n: int, size: int, start: int) -> Seq<(usize, usize)>
    decreases n - start,
{
    if size <= 0 || start >= n {
        Seq::empty()
    } else {
        let end = if start + size < n {
            start + size
        } else {
            n
        };
        seq![(start as usize, end as usize)] + prompt_chunks(n, size, end)
    }
}

/// The chunks that a prompt is decoded in: `[start, end)` of its tokens, the
/// logits of the last token of the last chunk asked for.
pub fn prefill_chunks(n: usize, n_ctx: u32) -> (r: Result<Vec<(usize, usize)>, Error>)
    ensures
        match prefill_verdict(n as nat, n_ctx) {
            Err(e) => r is Err && r->Err_0@ == e,
            Ok(_) => r is Ok && r->Ok_0@ == prompt_chunks(n as int, prompt_batch(n_ctx) as int, 0),
        },
{
    if n == 0 {
        return Err(Error::say(Class::InvalidArgument, "the prompt tokenizes to nothing"));
    }
    if n >= n_ctx as usize {
        return Err(
            Error::plain(
                Class::Capacity,
                cat4(
                    "prompt is ",
                    decimal_of(n as u128).as_str(),
                    " tokens but the context holds ",
                    decimal_of(n_ctx as u128).as_str(),
                ),
            ),
        );
    }
    let size: usize = if n_ctx < PROMPT_BATCH_CAP {
        n_ctx as usize
    } else {
        PROMPT_BATCH_CAP as usize
    };
    let mut out: Vec<(usize, usize)> = Vec::new();
    let mut start: usize = 0;
    let ghost all = prompt_chunks(n as int, size as int, 0);
    proof {
        assert(out@ + all =~= all);
    }
    while start < n
        invariant
            start <= n,
            size > 0,
            out@ + prompt_chunks(n as int, size as int, start as int) == all,
        decreases n - start,
    {
        let end = if size < n - start {
            start + size
        } else {
            n
        };
        let ghost before = out@;
        out.push((start, end));
        proof {
            let rest = prompt_chunks(n as int, size as int, end as int);
            assert(out@ + rest =~= before + (seq![(start, end)] + rest));
        }
        start = end;
    }
    proof {
        assert(out@ + prompt_chunks(n as int, size as int, start as int) =~= out@);
    }
    Ok(out)
}

/// The chunks of a prompt lie one behind the other, none empty and none too
/// long, from its first token to its last.
pub proof fn prompt_chunks_cover(n: int, size: int, start: int)
    requires
        0 <= start <= n <= usize::MAX,
        0 < size,
    ensures
        ({
            let c = prompt_chunks(n, size, start);
            &&& start < n ==> c.len() > 0 && c[0].0 == start && c.last().1 == n
            &&& start == n ==> c.len() == 0
            &&& forall|i: int| 0 <= i < c.len() ==> (#[trigger] c[i]).0 < c[i].1 && c[i].1 - c[i].0 <= size
            &&& forall|i: int| 0 < i < c.len() ==> (#[trigger] c[i]).0 == c[i - 1].1
        }),
    decreases n - start,
{
    if start < n {
        let end = if start + size < n {
            start + size
        } else {
            n
        };
        prompt_chunks_cover(n, size, end);
        let c = prompt_chunks(n, size, start);
        let rest = prompt_chunks(n, size, end);
        assert forall|i: int| 0 <= i < c.len() implies (#[trigger] c[i]).0 < c[i].1 && c[i].1 - c[i].0
            <= size by {
            if i > 0 {
                assert(c[i] == rest[i - 1]);
            }
        }
        assert forall|i: int| 0 < i < c.len() implies (#[trigger] c[i]).0 == c[i - 1].1 by {
            assert(c[i] == rest[i - 1]);
            if i > 1 {
                assert(c[i - 1] == rest[i - 2]);
            }
        }
        if rest.len() > 0 {
            assert(c.last() == rest.last());
        }
    }
}

impl Generation {
    /// Whether the limit on what is held back is that of the stop strings.
    pub closed spec fn sized(&self) -> bool {
        self.held.sized()
    }

    /// Whether the text so far can be handed on.
    pub open spec fn wf(&self) -> bool {
        self.sized() && settled(self@.stops, self@.sent, self@.held)
    }

    /// A generation that has no prompt yet.
    pub fn new(plan: &Plan, max_seq: u32) -> (r: Generation)
        ensures
            r.wf(),
            r@.max_new == plan.max_new,
            r@.min_new == plan.min_new,
            r@.max_seq == max_seq,
            r@.logprobs == plan.logprobs,
            r@.echo == plan.echo,
            r@.stop_tokens == plan.stop_tokens@,
            r@.stops.len() == plan.stop.len(),
            forall|i: int| 0 <= i < plan.stop.len() ==> (#[trigger] r@.stops[i])@ == plan.stop@[i]@,
            r@.sent == Seq::<u8>::empty(),
            r@.held == Seq::<u8>::empty(),
            r@.pending == Seq::<u8>::empty(),
            r@.prompt_text == Seq::<u8>::empty(),
            r@.prompt_len == 0,
            r@.n_past == 0,
            !r@.prompted,
            !r@.cancelled,
            !r@.done,
            r@.generated == 0,
    {
        let mut stops: Vec<Vec<u8>> = Vec::new();
        let mut i: usize = 0;
        while i < plan.stop.len()
            invariant
                i <= plan.stop.len(),
                stops.len() == i,
                forall|j: int| 0 <= j < i ==> (#[trigger] stops@[j])@ == plan.stop@[j]@,
            decreases plan.stop.len() - i,
        {
            let copy = copy_bytes(&plan.stop[i], 0, plan.stop[i].len());
            proof {
                assert(copy@ =~= plan.stop@[i as int]@);
            }
            stops.push(copy);
            i = i + 1;
        }
        let mut ids: Vec<i32> = Vec::new();
        let mut k: usize = 0;
        while k < plan.stop_tokens.len()
            invariant
                k <= plan.stop_tokens.len(),
                ids@ == plan.stop_tokens@.take(k as int),
            decreases plan.stop_tokens.len() - k,
        {
            ids.push(plan.stop_tokens[k]);
            k = k + 1;
            proof {
                assert(ids@ =~= plan.stop_tokens@.take(k as int));
            }
        }
        proof {
            assert(ids@ =~= plan.stop_tokens@);
        }
        Generation {
            max_new: plan.max_new,
            min_new: plan.min_new,
            max_seq,
            logprobs: plan.logprobs,
            echo: plan.echo,
            stop_tokens: ids,
            prompt_text: Vec::new(),
            prompt_len: 0,
            n_past: 0,
            generated: 0,
            held: Held::new(stops),
            pending: Vec::new(),
            prompted: false,
            cancelled: false,
            done: false,
        }
    }

    /// Note that a prompt of `n` tokens with this text was decoded: the
    /// generation begins anew.
    pub fn prefilled(&mut self, text: Vec<u8>, n: u32)
        ensures
            final(self).wf(),
            final(self)@ == (GenerationView {
                prompt_text: text@,
                prompt_len: n,
                n_past: n,
                generated: 0,
                sent: Seq::empty(),
                held: Seq::empty(),
                pending: Seq::empty(),
                prompted: true,
                done: false,
                ..old(self)@
            }),
    {
        self.prompt_text = text;
        self.prompt_len = n;
        self.n_past = n;
        self.generated = 0;
        self.held.clear();
        self.pending = Vec::new();
        self.prompted = true;
        self.done = false;
    }

    /// Ask the generation to end at its next step.
    pub fn cancel(&mut self)
        ensures
            final(self)@ == (GenerationView { cancelled: true, ..old(self)@ }),
            old(self).sized() ==> final(self).sized(),
    {
        self.cancelled = true;
    }

    /// End the stream: what was held back is text the model produced, and goes out.
    fn finish(&mut self, out: &mut Chunk, reason: FinishReason)
        ensures
            final(out).text@ == old(out).text@ + tail(old(self)@),
            final(out).tokens == old(out).tokens,
            final(out).prompt_tokens == old(out).prompt_tokens,
            final(out).generated_tokens == old(out).generated_tokens,
            final(out).done,
            final(out).finish_reason == reason,
            final(self)@ == ended(old(self)@),
            old(self).sized() ==> final(self).sized(),
    {
        let end = drain_decodable(&mut self.pending, true);
        let last = self.held.flush(&end);
        append_bytes(&mut out.text, &last, 0, last.len());
        proof {
            drained_is_text(old(self)@.pending, true);
            assert(last@.subrange(0, last@.len() as int) =~= last@);
            assert(self.pending@ =~= Seq::<u8>::empty());
        }
        out.done = true;
        out.finish_reason = reason;
        self.done = true;
    }

    /// Begin a step: say what the generation needs, or end it.
    pub fn begin_step(&mut self, out: &mut Chunk) -> (r: Result<Next, Error>)
        ensures
            final(out).prompt_tokens == old(self)@.prompt_len,
            final(out).generated_tokens == old(self)@.generated,
            final(out).tokens == old(out).tokens,
            ({
                let g = old(self)@;
                let end = g.cancelled || !has_room(g);
                if !g.prompted {
                    &&& r is Err
                    &&& r->Err_0@ == plain(Class::InvalidState, "no prompt has been given"@)
                } else if g.done {
                    &&& r is Err
                    &&& r->Err_0@ == plain(Class::InvalidState, "generation already finished"@)
                } else if end {
                    &&& r == Ok::<Next, Error>(Next::Finished)
                    &&& final(out).text@ == old(out).text@ + tail(g)
                    &&& final(out).done
                    &&& final(out).finish_reason == reason_without_token(g)
                    &&& final(self)@ == ended(g)
                } else {
                    &&& r == Ok::<Next, Error>(asked_next(g))
                }
            }),
            old(self).sized() ==> final(self).sized(),
            !(r matches Ok(Next::Finished)) ==> *final(self) == *old(self) && final(out).text == old(
                out,
            ).text && final(out).done == old(out).done && final(out).finish_reason == old(
                out,
            ).finish_reason,
    {
        out.prompt_tokens = self.prompt_len;
        out.generated_tokens = self.generated;
        if !self.prompted {
            return Err(Error::say(Class::InvalidState, "no prompt has been given"));
        }
        if self.done {
            return Err(Error::say(Class::InvalidState, "generation already finished"));
        }
        if self.cancelled {
            self.finish(out, FinishReason::Cancelled);
            return Ok(Next::Finished);
        }
        if self.generated >= self.max_new || self.n_past >= self.max_seq {
            self.finish(out, FinishReason::Length);
            return Ok(Next::Finished);
        }
        Ok(Next::Sample { no_eog: self.generated < self.min_new, logprobs: self.logprobs })
    }

    /// Take the sampled token. A token that ends the generation, or a stop
    /// token, ends the stream and its own text is withheld.
    pub fn take_token(&mut self, token: i32, is_eog: bool, out: &mut Chunk) -> (r: Next)
        requires
            old(self)@.generated < old(self)@.max_new,
        ensures
            ({
                let g = old(self)@;
                let stops = g.stop_tokens.contains(token);
                &&& final(out).tokens@ == old(out).tokens@.push(token)
                &&& final(out).generated_tokens == g.generated + 1
                &&& final(out).prompt_tokens == old(out).prompt_tokens
                &&& if is_eog || stops {
                    &&& r == Next::Finished
                    &&& final(out).text@ == old(out).text@ + echoed(g) + tail(g)
                    &&& final(out).done
                    &&& final(out).finish_reason == reason_of_token(is_eog)
                    &&& final(self)@ == ended(counted(g))
                } else {
                    &&& r == Next::Piece
                    &&& final(out).text@ == old(out).text@ + echoed(g)
                    &&& final(out).done == old(out).done
                    &&& final(out).finish_reason == old(out).finish_reason
                    &&& final(self)@ == counted(g)
                }
            }),
            old(self).sized() ==> final(self).sized(),
    {
        let ghost g = self@;
        self.generated = self.generated + 1;
        out.generated_tokens = self.generated;
        out.tokens.push(token);
        if self.generated == 1 && self.echo {
            append_bytes(&mut out.text, &self.prompt_text, 0, self.prompt_text.len());
            proof {
                assert(g.prompt_text.subrange(0, g.prompt_text.len() as int) =~= g.prompt_text);
            }
        } else {
            proof {
                assert(out.text@ + Seq::<u8>::empty() =~= out.text@);
            }
        }
        if is_eog {
            self.finish(out, FinishReason::Eos);
            return Next::Finished;
        }
        let mut found = false;
        let mut i: usize = 0;
        while i < self.stop_tokens.len() && !found
            invariant
                i <= self.stop_tokens.len(),
                found ==> self.stop_tokens@.contains(token),
                !found ==> forall|j: int| 0 <= j < i ==> self.stop_tokens@[j] != token,
            decreases self.stop_tokens.len() - i,
        {
            if self.stop_tokens[i] == token {
                found = true;
            }
            i = i + 1;
        }
        if found {
            self.finish(out, FinishReason::Stop);
            return Next::Finished;
        }
        Next::Piece
    }

    /// Take the bytes of the token; none for a control token. Text goes out
    /// once it can no longer begin a stop string; the first stop string ends
    /// the stream, everything before it handed out and nothing behind it.
    pub fn take_piece(&mut self, bytes: &Vec<u8>, control: bool, out: &mut Chunk) -> (r: Next)
        requires
            old(self).wf(),
            old(self)@.n_past < old(self)@.max_seq,
        ensures
            final(out).tokens == old(out).tokens,
            final(out).prompt_tokens == old(out).prompt_tokens,
            final(out).generated_tokens == old(out).generated_tokens,
            final(self).sized(),
            ({
                let g = old(self)@;
                let p = piece_taken(g, bytes@, control);
                &&& final(self)@ == p.0
                &&& final(out).text@ == old(out).text@ + p.1
                &&& if p.2 {
                    &&& r == Next::Finished
                    &&& first_stop(
                        g.sent + g.held + piece_text(g, bytes@, control).0,
                        g.stops,
                        p.0.sent.len() as int,
                    )
                    &&& final(out).done
                    &&& final(out).finish_reason == FinishReason::Stop
                } else {
                    &&& r == Next::Decode { position: g.n_past }
                    &&& final(self).wf()
                    &&& final(out).done == old(out).done
                    &&& final(out).finish_reason == old(out).finish_reason
                }
            }),
    {
        let ghost g = self@;
        let piece = if control {
            Vec::new()
        } else {
            append_bytes(&mut self.pending, bytes, 0, bytes.len());
            proof {
                assert(bytes@.subrange(0, bytes@.len() as int) =~= bytes@);
            }
            drain_decodable(&mut self.pending, false)
        };
        let ghost whole = g.held + piece@;
        let ghost all = g.sent + whole;
        proof {
            if control {
                assert(piece@ =~= Seq::<u8>::empty());
            }
            assert(self.held.all() + piece@ =~= all);
            assert(g.sent + g.held + piece@ =~= all);
        }
        match self.held.push(&piece) {
            Pushed::Stopped(t) => {
                append_bytes(&mut out.text, &t, 0, t.len());
                proof {
                    let at = (g.sent + t@).len() as int;
                    assert(t@.subrange(0, t@.len() as int) =~= t@);
                    assert(stop_at(all, g.stops, at));
                    let first = choose|i: int| first_stop(all, g.stops, i);
                    first_stop_is_unique(all, g.stops, at, first);
                    assert(all.take(at).skip(g.sent.len() as int) =~= t@);
                }
                self.pending = Vec::new();
                out.done = true;
                out.finish_reason = FinishReason::Stop;
                self.done = true;
                Next::Finished
            },
            Pushed::Text(t) => {
                append_bytes(&mut out.text, &t, 0, t.len());
                proof {
                    assert(t@.subrange(0, t@.len() as int) =~= t@);
                }
                let position = self.n_past;
                self.n_past = self.n_past + 1;
                Next::Decode { position }
            },
        }
    }

    /// Note that the token was decoded; end the stream at its limit.
    pub fn decoded(&mut self, out: &mut Chunk) -> (r: bool)
        ensures
            r == (old(self)@.generated >= old(self)@.max_new),
            r ==> {
                &&& final(out).text@ == old(out).text@ + tail(old(self)@)
                &&& final(out).done
                &&& final(out).finish_reason == FinishReason::Length
                &&& final(self)@ == ended(old(self)@)
                &&& final(out).tokens == old(out).tokens
                &&& final(out).prompt_tokens == old(out).prompt_tokens
                &&& final(out).generated_tokens == old(out).generated_tokens
            },
            old(self).sized() ==> final(self).sized(),
            !r ==> *final(out) == *old(out) && *final(self) == *old(self),
    {
        if self.generated >= self.max_new {
            self.finish(out, FinishReason::Length);
            return true;
        }
        false
    }
}

/// A sampled token: its id, whether it ends a generation, and its bytes, which a
/// control token has none of.
pub struct Sampled {
    pub token: i32,
    pub is_eog: bool,
    pub control: bool,
    pub bytes: Seq<u8>,
}

/// What a step does when this token is sampled: the generation behind it and the
/// text that it hands out; nothing where there is no prompt or the generation has
/// ended. The parts are those of `begin_step`, `take_token`, `take_piece` and
/// `decoded`, in this order.
pub open spec fn stepped(g: GenerationView, s: Sampled) -> Option<(GenerationView, Seq<u8>)> {
    if !g.prompted || g.done {
        None
    } else if g.cancelled || !has_room(g) {
        Some((ended(g), tail(g)))
    } else if s.is_eog || g.stop_tokens.contains(s.token) {
        Some((ended(counted(g)), echoed(g) + tail(g)))
    } else {
        let p = piece_taken(counted(g), s.bytes, s.control);
        if !p.2 && p.0.generated >= p.0.max_new {
            Some((ended(p.0), echoed(g) + p.1 + tail(p.0)))
        } else {
            Some((p.0, echoed(g) + p.1))
        }
    }
}

/// A generation after its first `n` steps, and all text that they handed out; a
/// refused step changes nothing.
pub open spec fn ran(g: GenerationView, s: Seq<Sampled>, n: int) -> (GenerationView, Seq<u8>)
    decreases n,
{
    if n <= 0 {
        (g, Seq::empty())
    } else {
        let before = ran(g, s, n - 1);
        match stepped(before.0, s[n - 1]) {
            None => before,
            Some(after) => (after.0, before.1 + after.1),
        }
    }
}

/// Whether a generation with this text handed out can still go on, or has ended
/// without a stop string.
spec fn clean(g: GenerationView, text: Seq<u8>) -> bool {
    &&& text == g.sent
    &&& g.generated <= g.max_new
    &&& stop_free(text, g.stops)
    &&& !g.done ==> {
        &&& settled(g.stops, g.sent, g.held)
        &&& g.pending.len() == 0 || begins_char(g.pending)
    }
}

/// The end of a generation holds no stop string.
proof fn end_is_clean(g: GenerationView)
    requires
        settled(g.stops, g.sent, g.held),
        g.pending.len() == 0 || begins_char(g.pending),
        g.pending.len() == 0 || !vstd::utf8::valid_first_scalar(g.pending),
        plain_stops(g.stops),
    ensures
        stop_free(g.sent + tail(g), g.stops),
{
    let all = g.sent + g.held;
    let end = drained(g.pending, true).0;
    assert(g.sent + tail(g) =~= all + end);
    if g.pending.len() == 0 {
        assert(all + end =~= all);
    } else {
        assert(end == replacement());
        replacement_completes_no_stop(all, g.stops);
    }
}

/// The bytes of a token leave a clean generation clean where no stop string ends it.
#[verifier::spinoff_prover]
proof fn piece_stays_clean(c: GenerationView, bytes: Seq<u8>, control: bool)
    requires
        clean(c, c.sent),
        !c.done,
        c.pending.len() == 0 || !vstd::utf8::valid_first_scalar(c.pending),
    ensures
        ({
            let p = piece_taken(c, bytes, control);
            &&& c.sent + p.1 == p.0.sent
            &&& clean(p.0, p.0.sent)
            &&& p.0.pending.len() == 0 || !vstd::utf8::valid_first_scalar(p.0.pending)
            &&& p.0.done == p.2
        }),
{
    let d = piece_text(c, bytes, control);
    let whole = c.held + d.0;
    let all = c.sent + whole;
    let p = piece_taken(c, bytes, control);
    drained_is_text(c.pending + bytes, false);
    if stop_free(all, c.stops) {
        let n = released(whole, c.stops);
        crate::stop::released_bounds(whole, c.stops);
        assert(p.0.sent =~= all.take(c.sent.len() + n));
        beginning_is_stop_free(all, c.stops, c.sent.len() + n, all.len() as int);
        crate::stop::release_settles(c.stops, c.sent, c.held, d.0);
    } else {
        crate::stop::some_stop_is_first(all, c.stops);
        let at = choose|i: int| first_stop(all, c.stops, i);
        assert(c.sent + c.held + d.0 =~= all);
        crate::stop::stop_stands_behind(c.stops, c.sent, c.held, d.0, at);
        beginning_is_stop_free(all, c.stops, at, at);
        assert(c.sent =~= all.take(c.sent.len() as int));
        assert(c.sent + p.1 =~= all.take(at));
    }
}

/// The end of a clean generation is clean.
proof fn end_stays_clean(g: GenerationView)
    requires
        clean(g, g.sent),
        !g.done,
        g.pending.len() == 0 || !vstd::utf8::valid_first_scalar(g.pending),
        plain_stops(g.stops),
    ensures
        clean(ended(g), g.sent + tail(g)),
{
    end_is_clean(g);
}

/// A step of a clean generation leaves it clean.
#[verifier::spinoff_prover]
proof fn step_stays_clean(g: GenerationView, text: Seq<u8>, s: Sampled)
    requires
        clean(g, text),
        g.pending.len() == 0 || !vstd::utf8::valid_first_scalar(g.pending),
        !g.echo,
        plain_stops(g.stops),
        stepped(g, s) is Some,
    ensures
        ({
            let after = stepped(g, s)->Some_0;
            &&& clean(after.0, text + after.1)
            &&& after.0.pending.len() == 0 || !vstd::utf8::valid_first_scalar(after.0.pending)
            &&& after.0.stops == g.stops
            &&& after.0.max_new == g.max_new
            &&& after.0.echo == g.echo
            &&& after.0.prompted
            &&& g.generated <= after.0.generated <= g.generated + 1
        }),
{
    let c = counted(g);
    if g.cancelled || !has_room(g) {
        end_stays_clean(g);
    } else if s.is_eog || g.stop_tokens.contains(s.token) {
        end_stays_clean(c);
        assert(echoed(g) + tail(g) =~= tail(g));
    } else {
        let p = piece_taken(c, s.bytes, s.control);
        piece_stays_clean(c, s.bytes, s.control);
        assert(echoed(g) + p.1 =~= p.1);
        if !p.2 && p.0.generated >= p.0.max_new {
            end_stays_clean(p.0);
            assert(text + (p.1 + tail(p.0)) =~= p.0.sent + tail(p.0));
        }
    }
}

/// However tokens are sampled, the text that a generation without echo hands out
/// holds no stop string, not even one that spans chunks, as long as no stop string
/// holds U+FFFD. A step generates at most one token, never more than were asked for,
/// and a step behind the end is refused.
pub proof fn no_stop_string_leaks(g: GenerationView, s: Seq<Sampled>, n: int)
    requires
        g.prompted,
        !g.done,
        !g.echo,
        g.generated == 0,
        g.sent == Seq::<u8>::empty(),
        g.held == Seq::<u8>::empty(),
        g.pending == Seq::<u8>::empty(),
        plain_stops(g.stops),
        0 <= n <= s.len(),
    ensures
        stop_free(ran(g, s, n).1, g.stops),
        ran(g, s, n).1 == ran(g, s, n).0.sent,
        ran(g, s, n).0.generated <= g.max_new,
        n > 0 ==> ran(g, s, n - 1).0.generated <= ran(g, s, n).0.generated <= ran(
            g,
            s,
            n - 1,
        ).0.generated + 1,
        ran(g, s, n).0.done ==> forall|x: Sampled| #[trigger] stepped(ran(g, s, n).0, x) is None,
{
    stays_clean(g, s, n);
    if n > 0 {
        stays_clean(g, s, n - 1);
        let before = ran(g, s, n - 1);
        if stepped(before.0, s[n - 1]) is Some {
            step_stays_clean(before.0, before.1, s[n - 1]);
        }
    }
}

/// A generation stays clean.
proof fn stays_clean(g: GenerationView, s: Seq<Sampled>, n: int)
    requires
        g.prompted,
        !g.done,
        !g.echo,
        g.generated == 0,
        g.sent == Seq::<u8>::empty(),
        g.held == Seq::<u8>::empty(),
        g.pending == Seq::<u8>::empty(),
        plain_stops(g.stops),
        0 <= n <= s.len(),
    ensures
        ({
            let r = ran(g, s, n);
            &&& clean(r.0, r.1)
            &&& r.0.pending.len() == 0 || !vstd::utf8::valid_first_scalar(r.0.pending)
            &&& r.0.stops == g.stops
            &&& r.0.max_new == g.max_new
            &&& r.0.echo == g.echo
            &&& r.0.prompted
        }),
    decreases n,
{
    if n <= 0 {
        assert(g.sent + g.held =~= Seq::<u8>::empty());
        crate::stop::nothing_is_stop_free(g.stops);
    } else {
        stays_clean(g, s, n - 1);
        let before = ran(g, s, n - 1);
        if stepped(before.0, s[n - 1]) is Some {
            step_stays_clean(before.0, before.1, s[n - 1]);
        }
    }
}

/// Why a budget below two is refused.
pub const NEED_TWO: &'static str = "token budget must be at least 2 for the special tokens";

/// The tokens an embedding context holds, and the most that one decode carries:
/// every row at full length, cut at the cap but never below one sequence.
pub open spec fn embed_shape(max_batch: u32, max_seq: u32) -> Result<(int, int), ErrorView> {
    let n = max_batch * max_seq;
    if n > u32::MAX {
        Err(plain(Class::InvalidShape, "max_batch * max_seq overflows"@))
    } else {
        let capped = if n < EMBED_UBATCH_CAP {
            n
        } else {
            EMBED_UBATCH_CAP as int
        };
        Ok((n, if capped < max_seq { max_seq as int } else { capped }))
    }
}

/// The tokens an embedding context holds, and the most that one decode carries.
pub fn embed_shape_of(max_batch: u32, max_seq: u32) -> (r: Result<(u32, u32), Error>)
    ensures
        match embed_shape(max_batch, max_seq) {
            Err(e) => r is Err && r->Err_0@ == e,
            Ok(v) => r is Ok && r->Ok_0.0 == v.0 && r->Ok_0.1 == v.1,
        },
{
    proof {
        assert(0 <= max_batch * max_seq <= 0xffff_ffff * 0xffff_ffff) by (nonlinear_arith)
            requires
                0 <= max_batch <= 0xffff_ffff,
                0 <= max_seq <= 0xffff_ffff,
        ;
    }
    let n: u64 = max_batch as u64 * max_seq as u64;
    if n > 0xffff_ffff {
        return Err(Error::say(Class::InvalidShape, "max_batch * max_seq overflows"));
    }
    let capped: u32 = if n < EMBED_UBATCH_CAP as u64 {
        n as u32
    } else {
        EMBED_UBATCH_CAP
    };
    Ok(
        (
            n as u32,
            if capped < max_seq {
                max_seq
            } else {
                capped
            },
        ),
    )
}

/// Whether the context that was made holds every row.
pub fn check_context(n_ctx: u32, n_tokens: u32, max_batch: u32, max_seq: u32) -> (r: Result<
    (),
    Error,
>)
    ensures
        agrees_plain(
            r,
            if n_ctx < n_tokens {
                Err(
                    plain(
                        Class::Runtime,
                        "llama.cpp created an embedding context of "@ + decimal(n_ctx as nat)
                            + " tokens; "@ + decimal(n_tokens as nat) + " ("@ + decimal(
                            max_batch as nat,
                        ) + " rows of "@ + decimal(max_seq as nat) + ") are needed"@,
                    ),
                )
            } else {
                Ok(())
            },
        ),
{
    if n_ctx >= n_tokens {
        return Ok(());
    }
    Err(
        Error::plain(
            Class::Runtime,
            crate::text::cat9(
                "llama.cpp created an embedding context of ",
                decimal_of(n_ctx as u128).as_str(),
                " tokens; ",
                decimal_of(n_tokens as u128).as_str(),
                " (",
                decimal_of(max_batch as u128).as_str(),
                " rows of ",
                decimal_of(max_seq as u128).as_str(),
                ") are needed",
            ),
        ),
    )
}

/// The checks of a text write that precede tokenization: the budget, or the refusal.
pub open spec fn text_checks(
    count: nat,
    max_batch: u32,
    max_seq: u32,
    pooling: Pooling,
    dim: u32,
    opts: EmbedOptions,
) -> Result<u32, ErrorView> {
    match count_verdict(count, max_batch) {
        Err(e) => Err(e),
        Ok(_) => if opts.output_dtype == OutputDtype::Other {
            Err(on_field(Class::UnsupportedOption, Field::EmbedOutputDtype, "output_dtype"@))
        } else if opts.pooling != Pooling::Model && opts.pooling != pooling {
            Err(on_field(Class::UnsupportedOption, Field::EmbedPooling, "pooling"@))
        } else if opts.output_dim > dim {
            Err(too_wide(opts.output_dim, dim))
        } else {
            budget(opts.max_tokens, max_seq, NEED_TWO@)
        },
    }
}

/// The tokens of one text and whether its last is a special one.
pub struct Tokens {
    pub ids: Vec<i32>,
    pub last_is_special: bool,
}

/// A row cut to the budget, or why it is not. The leading special token stays,
/// and the trailing one where the vocabulary added one; the content between
/// them is cut. Left truncation would cut the prompt prefix away and is refused
/// where there is one.
pub open spec fn cut_row(
    r: nat,
    ids: Seq<i32>,
    last_is_special: bool,
    prefix: Seq<char>,
    truncate: Truncate,
    budget: u32,
) -> Result<Seq<i32>, ErrorView> {
    if ids.len() <= budget {
        Ok(ids)
    } else if truncate == Truncate::Left && prefix.len() > 0 {
        Err(
            on_field(
                Class::InvalidArgument,
                Field::EmbedTruncate,
                "input row "@ + decimal(r)
                    + " needs truncation and truncate LEFT would remove the prompt prefix `"@ + prefix
                    + "`; use RIGHT or a shorter input"@,
            ),
        )
    } else {
        let end = if last_is_special {
            ids.len() - 1
        } else {
            ids.len() as int
        };
        let special = if last_is_special {
            seq![ids.last()]
        } else {
            Seq::empty()
        };
        let keep = budget - 1 - special.len();
        match truncate {
            Truncate::Off => Err(
                plain(
                    Class::Capacity,
                    "input row "@ + decimal(r) + " tokenizes to "@ + decimal(ids.len())
                        + " tokens but the budget is "@ + decimal(budget as nat)
                        + " and truncation is NONE"@,
                ),
            ),
            Truncate::Left => Ok(seq![ids[0]] + ids.subrange(end - keep, end) + special),
            _ => Ok(seq![ids[0]] + ids.subrange(1, 1 + keep) + special),
        }
    }
}

/// Append `ids[from..to]`.
fn append_ids(out: &mut Vec<i32>, ids: &Vec<i32>, from: usize, to: usize)
    requires
        from <= to <= ids.len(),
    ensures
        final(out)@ == old(out)@ + ids@.subrange(from as int, to as int),
{
    let ghost before = out@;
    let mut i: usize = from;
    proof {
        assert(out@ =~= before + ids@.subrange(from as int, from as int));
    }
    while i < to
        invariant
            from <= i <= to <= ids.len(),
            out@ == before + ids@.subrange(from as int, i as int),
        decreases to - i,
    {
        out.push(ids[i]);
        i = i + 1;
        proof {
            assert(out@ =~= before + ids@.subrange(from as int, i as int));
        }
    }
}

/// A row cut to the budget.
pub fn cut_row_of(r: usize, t: &Tokens, prefix: &str, truncate: Truncate, budget: u32) -> (res: Result<
    Vec<i32>,
    Error,
>)
    requires
        budget >= 2,
    ensures
        agrees(res, cut_row(r as nat, t.ids@, t.last_is_special, prefix@, truncate, budget)),
{
    let n = t.ids.len();
    let mut out: Vec<i32> = Vec::new();
    if n <= budget as usize {
        append_ids(&mut out, &t.ids, 0, n);
        proof {
            assert(out@ =~= t.ids@);
        }
        return Ok(out);
    }
    if truncate == Truncate::Left && !prefix.is_empty() {
        return Err(
            Error::on_field(
                Class::InvalidArgument,
                Field::EmbedTruncate,
                cat5(
                    "input row ",
                    decimal_of(r as u128).as_str(),
                    " needs truncation and truncate LEFT would remove the prompt prefix `",
                    prefix,
                    "`; use RIGHT or a shorter input",
                ),
            ),
        );
    }
    let special: usize = if t.last_is_special {
        1
    } else {
        0
    };
    let end: usize = n - special;
    let keep: usize = budget as usize - 1 - special;
    out.push(t.ids[0]);
    match truncate {
        Truncate::Off => {
            return Err(
                Error::plain(
                    Class::Capacity,
                    cat7(
                        "input row ",
                        decimal_of(r as u128).as_str(),
                        " tokenizes to ",
                        decimal_of(n as u128).as_str(),
                        " tokens but the budget is ",
                        decimal_of(budget as u128).as_str(),
                        " and truncation is NONE",
                    ),
                ),
            );
        },
        Truncate::Left => {
            append_ids(&mut out, &t.ids, end - keep, end);
        },
        _ => {
            append_ids(&mut out, &t.ids, 1, 1 + keep);
        },
    }
    let ghost before = out@;
    if t.last_is_special {
        out.push(t.ids[n - 1]);
    }
    proof {
        let tail = if t.last_is_special {
            seq![t.ids@.last()]
        } else {
            Seq::empty()
        };
        assert(out@ =~= before + tail);
    }
    Ok(out)
}

/// A row that is cut fills its budget exactly, and keeps its first token and
/// its trailing special one.
pub proof fn cut_row_fills_the_budget(
    r: nat,
    ids: Seq<i32>,
    last_is_special: bool,
    prefix: Seq<char>,
    truncate: Truncate,
    budget: u32,
)
    requires
        budget >= 2,
        ids.len() > budget,
        cut_row(r, ids, last_is_special, prefix, truncate, budget) is Ok,
    ensures
        ({
            let row = cut_row(r, ids, last_is_special, prefix, truncate, budget)->Ok_0;
            &&& row.len() == budget
            &&& row[0] == ids[0]
            &&& last_is_special ==> row.last() == ids.last()
        }),
{
}

/// Right truncation, which is also the model's own, keeps the beginning of the text:
/// up to a trailing special token the row is the first tokens, each in its place. Left
/// truncation keeps the end: behind its first token the row is the last tokens. A row
/// within its budget is not touched, whatever the truncation.
pub proof fn truncation_keeps_the_side_it_names(
    r: nat,
    ids: Seq<i32>,
    last_is_special: bool,
    prefix: Seq<char>,
    truncate: Truncate,
    budget: u32,
)
    requires
        budget >= 2,
    ensures
        ({
            let cut = cut_row(r, ids, last_is_special, prefix, truncate, budget);
            let c = if last_is_special {
                budget - 1
            } else {
                budget as int
            };
            &&& cut is Ok <==> ids.len() <= budget || truncate == Truncate::Right || truncate
                == Truncate::Model || (truncate == Truncate::Left && prefix.len() == 0)
            &&& ids.len() <= budget ==> cut->Ok_0 == ids
            &&& ids.len() > budget && (truncate == Truncate::Right || truncate == Truncate::Model) ==> {
                &&& cut->Ok_0.len() == budget
                &&& forall|i: int| 0 <= i < c ==> #[trigger] cut->Ok_0[i] == ids[i]
                &&& last_is_special ==> cut->Ok_0[c] == ids[ids.len() - 1]
            }
            &&& ids.len() > budget && truncate == Truncate::Left && prefix.len() == 0 ==> {
                &&& cut->Ok_0.len() == budget
                &&& cut->Ok_0[0] == ids[0]
                &&& forall|i: int|
                    1 <= i < budget ==> #[trigger] cut->Ok_0[i] == ids[ids.len() - budget + i]
            }
        }),
{
}

/// How many columns of a mask are live: those before its first zero.
pub open spec fn live_columns(mask: Seq<i32>, i: int) -> int
    decreases mask.len() - i,
{
    if 0 <= i < mask.len() && mask[i] != 0 {
        live_columns(mask, i + 1)
    } else {
        i
    }
}

/// The first column at or after `i` that is not zero; the length if none.
pub open spec fn next_live(mask: Seq<i32>, i: int) -> int
    decreases mask.len() - i,
{
    if 0 <= i < mask.len() && mask[i] == 0 {
        next_live(mask, i + 1)
    } else {
        i
    }
}

/// Whether one of the first `n` token types is not zero.
pub open spec fn is_typed(t: Seq<i32>, n: int) -> bool {
    exists|c: int| 0 <= c < n && t[c] != 0
}

/// The live tokens of a prepared row, or why it is refused: the mask is taken
/// as trailing padding only, and token types as zero.
pub open spec fn live_row(
    r: nat,
    ids: Seq<i32>,
    mask: Seq<i32>,
    types: Option<Seq<i32>>,
) -> Result<Seq<i32>, ErrorView> {
    let live = live_columns(mask, 0);
    let next = next_live(mask, live);
    if next < mask.len() {
        Err(
            plain(
                Class::InvalidArgument,
                "token batch row "@ + decimal(r) + " has a masked position at column "@ + decimal(
                    live as nat,
                ) + " followed by a live token at column "@ + decimal(next as nat)
                    + "; the ggml provider takes the mask as trailing padding only"@,
            ),
        )
    } else if live == 0 {
        Err(
            plain(
                Class::InvalidArgument,
                "token batch row "@ + decimal(r) + " has no live tokens"@,
            ),
        )
    } else if types matches Some(t) && is_typed(t, live) {
        Err(
            plain(
                Class::Unsupported,
                "token batch row "@ + decimal(r)
                    + " carries token_type_ids other than 0; GGUF encoders take no token types"@,
            ),
        )
    } else {
        Ok(ids.take(live))
    }
}

/// The view of optional token types.
pub open spec fn types_view(t: Option<Vec<i32>>) -> Option<Seq<i32>> {
    match t {
        Some(v) => Some(v@),
        None => None,
    }
}

/// Whether one of the first `n` token types is not zero.
fn is_typed_of(t: &Vec<i32>, n: usize) -> (r: bool)
    requires
        n <= t.len(),
    ensures
        r == is_typed(t@, n as int),
{
    let mut c: usize = 0;
    while c < n
        invariant
            c <= n <= t.len(),
            forall|j: int| 0 <= j < c ==> t@[j] == 0,
        decreases n - c,
    {
        if t[c] != 0 {
            return true;
        }
        c = c + 1;
    }
    false
}

/// The live tokens of a prepared row.
pub fn live_row_of(r: u32, ids: &Vec<i32>, mask: &Vec<i32>, types: &Option<Vec<i32>>) -> (res: Result<
    Vec<i32>,
    Error,
>)
    requires
        ids.len() == mask.len(),
        types matches Some(t) ==> t.len() == mask.len(),
    ensures
        agrees(res, live_row(r as nat, ids@, mask@, types_view(*types))),
{
    let mut live: usize = 0;
    while live < mask.len() && mask[live] != 0
        invariant
            live <= mask.len(),
            live_columns(mask@, live as int) == live_columns(mask@, 0),
        decreases mask.len() - live,
    {
        live = live + 1;
    }
    let mut next: usize = live;
    while next < mask.len() && mask[next] == 0
        invariant
            live <= next <= mask.len(),
            next_live(mask@, next as int) == next_live(mask@, live as int),
        decreases mask.len() - next,
    {
        next = next + 1;
    }
    if next < mask.len() {
        return Err(
            Error::plain(
                Class::InvalidArgument,
                cat7(
                    "token batch row ",
                    decimal_of(r as u128).as_str(),
                    " has a masked position at column ",
                    decimal_of(live as u128).as_str(),
                    " followed by a live token at column ",
                    decimal_of(next as u128).as_str(),
                    "; the ggml provider takes the mask as trailing padding only",
                ),
            ),
        );
    }
    if live == 0 {
        return Err(
            Error::plain(
                Class::InvalidArgument,
                cat3("token batch row ", decimal_of(r as u128).as_str(), " has no live tokens"),
            ),
        );
    }
    if let Some(t) = types {
        if is_typed_of(t, live) {
            return Err(
                Error::plain(
                    Class::Unsupported,
                    cat3(
                        "token batch row ",
                        decimal_of(r as u128).as_str(),
                        " carries token_type_ids other than 0; GGUF encoders take no token types",
                    ),
                ),
            );
        }
    }
    let mut out: Vec<i32> = Vec::new();
    append_ids(&mut out, ids, 0, live);
    proof {
        assert(out@ =~= ids@.take(live as int));
    }
    Ok(out)
}

/// An embedding session: its rows and its counters.
pub struct EmbedSession {
    pub contract: EmbedContract,
    pub max_batch: u32,
    pub max_seq: u32,
    /// Tokens one decode call may carry.
    pub ubatch: u32,
    pub rows: Vec<Vec<i32>>,
    pub opts: EmbedOptions,
    pub n_rows: u32,
    pub runs: u64,
    pub d2h: u64,
}

/// What cutting the first `n` texts gives: the refusal of the first that is refused.
pub open spec fn cut_verdict(
    texts: Seq<Tokens>,
    prefix: Seq<char>,
    truncate: Truncate,
    budget: u32,
    n: int,
) -> Result<(), ErrorView>
    decreases n,
{
    if n <= 0 {
        Ok(())
    } else {
        match cut_verdict(texts, prefix, truncate, budget, n - 1) {
            Err(e) => Err(e),
            Ok(_) => match cut_row(
                (n - 1) as nat,
                texts[n - 1].ids@,
                texts[n - 1].last_is_special,
                prefix,
                truncate,
                budget,
            ) {
                Err(e) => Err(e),
                Ok(_) => Ok(()),
            },
        }
    }
}

/// What reading the first `n` prepared rows gives.
pub open spec fn tokens_verdict(b: TokenBatch, n: int) -> Result<(), ErrorView>
    decreases n,
{
    if n <= 0 {
        Ok(())
    } else {
        match tokens_verdict(b, n - 1) {
            Err(e) => Err(e),
            Ok(_) => match prepared_row(b, n - 1) {
                Err(e) => Err(e),
                Ok(_) => Ok(()),
            },
        }
    }
}

/// The live tokens of prepared row `r`.
pub open spec fn prepared_row(b: TokenBatch, r: int) -> Result<Seq<i32>, ErrorView> {
    live_row(
        r as nat,
        b.row(b.ids@, r),
        b.row(b.mask@, r),
        match b.types {
            Some(t) => Some(b.row(t@, r)),
            None => None,
        },
    )
}

/// A refused row decides the whole.
proof fn cut_refusal_stays(
    texts: Seq<Tokens>,
    prefix: Seq<char>,
    truncate: Truncate,
    budget: u32,
    i: int,
    n: int,
)
    requires
        0 <= i <= n,
    ensures
        cut_verdict(texts, prefix, truncate, budget, i) is Err ==> cut_verdict(
            texts,
            prefix,
            truncate,
            budget,
            n,
        ) == cut_verdict(texts, prefix, truncate, budget, i),
    decreases n,
{
    if i < n {
        cut_refusal_stays(texts, prefix, truncate, budget, i, n - 1);
    }
}

/// A refused row decides the whole.
proof fn tokens_refusal_stays(b: TokenBatch, i: int, n: int)
    requires
        0 <= i <= n,
    ensures
        tokens_verdict(b, i) is Err ==> tokens_verdict(b, n) == tokens_verdict(b, i),
    decreases n,
{
    if i < n {
        tokens_refusal_stays(b, i, n - 1);
    }
}

impl EmbedSession {
    /// Whether the session has its rows.
    pub open spec fn wf(&self) -> bool {
        self.rows.len() == self.max_batch && self.n_rows <= self.max_batch
    }

    /// Whether everything but the rows is as in `o`.
    pub open spec fn same_but_rows(&self, o: &EmbedSession) -> bool {
        &&& self.contract == o.contract
        &&& self.max_batch == o.max_batch
        &&& self.max_seq == o.max_seq
        &&& self.ubatch == o.ubatch
        &&& self.opts == o.opts
        &&& self.n_rows == o.n_rows
        &&& self.runs == o.runs
        &&& self.d2h == o.d2h
    }

    /// Whether the rows from `n` on are those of `o`.
    pub open spec fn behind_stays(&self, o: &EmbedSession, n: int) -> bool {
        &&& self.rows@.len() == o.rows@.len()
        &&& forall|i: int| n <= i < self.rows@.len() ==> #[trigger] self.rows@[i] == o.rows@[i]
    }

    /// Whether the first `n` rows are those of the texts, cut to the budget.
    pub open spec fn holds_cut(
        &self,
        texts: Seq<Tokens>,
        prefix: Seq<char>,
        truncate: Truncate,
        budget: u32,
        n: int,
    ) -> bool {
        forall|i: int|
            0 <= i < n ==> (#[trigger] self.rows@[i])@ == cut_row(
                i as nat,
                texts[i].ids@,
                texts[i].last_is_special,
                prefix,
                truncate,
                budget,
            )->Ok_0
    }

    /// Whether the first `n` rows are those of the batch.
    pub open spec fn holds_batch(&self, batch: TokenBatch, n: int) -> bool {
        forall|i: int|
            0 <= i < n ==> (#[trigger] self.rows@[i])@ == prepared_row(batch, i)->Ok_0
    }

    /// Whether a write of texts over `o` got as far as row `k`, which was refused and
    /// is left empty.
    pub open spec fn stopped_at_text(
        &self,
        o: &EmbedSession,
        texts: Seq<Tokens>,
        prefix: Seq<char>,
        truncate: Truncate,
        budget: u32,
        k: int,
    ) -> bool {
        &&& 0 <= k < texts.len()
        &&& cut_verdict(texts, prefix, truncate, budget, k) is Ok
        &&& cut_verdict(texts, prefix, truncate, budget, k + 1) is Err
        &&& self.holds_cut(texts, prefix, truncate, budget, k)
        &&& self.rows@[k]@ == Seq::<i32>::empty()
        &&& self.behind_stays(o, k + 1)
    }

    /// Whether a write of token rows over `o` got as far as row `k`, which was refused.
    pub open spec fn stopped_at_tokens(&self, o: &EmbedSession, batch: TokenBatch, k: int) -> bool {
        &&& 0 <= k < batch.batch
        &&& tokens_verdict(batch, k) is Ok
        &&& tokens_verdict(batch, k + 1) is Err
        &&& self.holds_batch(batch, k)
        &&& self.behind_stays(o, k)
    }

    /// A session with nothing written.
    pub fn new(contract: EmbedContract, max_batch: u32, max_seq: u32) -> (r: Result<
        EmbedSession,
        Error,
    >)
        ensures
            match embed_shape(max_batch, max_seq) {
                Err(e) => r is Err && r->Err_0@ == e,
                Ok(v) => {
                    &&& r is Ok
                    &&& r->Ok_0.wf()
                    &&& r->Ok_0.contract == contract
                    &&& r->Ok_0.max_batch == max_batch
                    &&& r->Ok_0.max_seq == max_seq
                    &&& r->Ok_0.ubatch == v.1
                    &&& r->Ok_0.opts == embed_defaults()
                    &&& r->Ok_0.n_rows == 0
                    &&& r->Ok_0.runs == 0
                    &&& r->Ok_0.d2h == 0
                    &&& forall|i: int|
                        0 <= i < max_batch ==> (#[trigger] r->Ok_0.rows@[i])@ == Seq::<i32>::empty()
                },
            },
    {
        let (_, ubatch) = match embed_shape_of(max_batch, max_seq) {
            Err(e) => return Err(e),
            Ok(v) => v,
        };
        let mut rows: Vec<Vec<i32>> = Vec::new();
        while rows.len() < max_batch as usize
            invariant
                rows.len() <= max_batch,
                forall|i: int| 0 <= i < rows.len() ==> (#[trigger] rows@[i])@ == Seq::<i32>::empty(),
            decreases max_batch - rows.len(),
        {
            rows.push(Vec::new());
        }
        Ok(
            EmbedSession {
                contract,
                max_batch,
                max_seq,
                ubatch,
                rows,
                opts: EmbedOptions::defaults(),
                n_rows: 0,
                runs: 0,
                d2h: 0,
            },
        )
    }

    /// Check a text write and give its token budget.
    pub fn check_text(&self, count: usize, opts: &EmbedOptions) -> (r: Result<u32, Error>)
        ensures
            agrees_plain(
                r,
                text_checks(
                    count as nat,
                    self.max_batch,
                    self.max_seq,
                    self.contract.pool,
                    self.contract.dim,
                    *opts,
                ),
            ),
    {
        match check_count(count, self.max_batch) {
            Err(e) => return Err(e),
            Ok(_) => {},
        }
        if opts.output_dtype == OutputDtype::Other {
            return Err(
                Error::on_field(
                    Class::UnsupportedOption,
                    Field::EmbedOutputDtype,
                    "output_dtype".to_owned(),
                ),
            );
        }
        if opts.pooling != Pooling::Model && opts.pooling != self.contract.pool {
            return Err(
                Error::on_field(Class::UnsupportedOption, Field::EmbedPooling, "pooling".to_owned()),
            );
        }
        if opts.output_dim > self.contract.dim {
            return Err(refuse_width(opts.output_dim, self.contract.dim));
        }
        budget_of(opts.max_tokens, self.max_seq, NEED_TWO)
    }

    /// Write texts to embed. `texts` holds the tokens of each text behind its
    /// prompt prefix.
    pub fn write_text(&mut self, texts: &Vec<Tokens>, prefix: &str, opts: &EmbedOptions) -> (r: Result<
        (),
        Error,
    >)
        requires
            old(self).wf(),
        ensures
            final(self).wf(),
            match text_checks(
                texts@.len(),
                old(self).max_batch,
                old(self).max_seq,
                old(self).contract.pool,
                old(self).contract.dim,
                *opts,
            ) {
                Err(e) => r is Err && r->Err_0@ == e && *final(self) == *old(self),
                Ok(b) => match cut_verdict(texts@, prefix@, opts.truncate, b, texts.len() as int) {
                    Err(e) => r is Err && r->Err_0@ == e && final(self).same_but_rows(old(self))
                        && exists|k: int| #[trigger]
                        final(self).stopped_at_text(
                            old(self),
                            texts@,
                            prefix@,
                            opts.truncate,
                            b,
                            k,
                        ),
                    Ok(_) => {
                        &&& r is Ok
                        &&& final(self).holds_cut(
                            texts@,
                            prefix@,
                            opts.truncate,
                            b,
                            texts.len() as int,
                        )
                        &&& final(self).behind_stays(old(self), texts.len() as int)
                        &&& final(self).opts == *opts
                        &&& final(self).n_rows == texts.len()
                        &&& final(self).runs == old(self).runs
                        &&& final(self).d2h == old(self).d2h
                        &&& final(self).contract == old(self).contract
                        &&& final(self).ubatch == old(self).ubatch
                        &&& final(self).max_seq == old(self).max_seq
                        &&& final(self).max_batch == old(self).max_batch
                    },
                },
            },
    {
        let b = match self.check_text(texts.len(), opts) {
            Err(e) => return Err(e),
            Ok(b) => b,
        };
        let mut i: usize = 0;
        while i < texts.len()
            invariant
                i <= texts.len() <= self.max_batch,
                self.wf(),
                self.same_but_rows(old(self)),
                b >= 2,
                text_checks(
                    texts@.len(),
                    self.max_batch,
                    self.max_seq,
                    self.contract.pool,
                    self.contract.dim,
                    *opts,
                ) == Ok::<u32, ErrorView>(b),
                cut_verdict(texts@, prefix@, opts.truncate, b, i as int) is Ok,
                self.holds_cut(texts@, prefix@, opts.truncate, b, i as int),
                self.behind_stays(old(self), i as int),
            decreases texts.len() - i,
        {
            proof {
                cut_refusal_stays(texts@, prefix@, opts.truncate, b, i + 1, texts.len() as int);
            }
            match cut_row_of(i, &texts[i], prefix, opts.truncate, b) {
                Err(e) => {
                    let ghost before = *self;
                    self.rows.set(i, Vec::new());
                    proof {
                        assert(forall|j: int| 0 <= j < self.rows@.len() && j != i ==> #[trigger] self.rows@[j]
                            == before.rows@[j]);
                        assert(self.stopped_at_text(
                            old(self),
                            texts@,
                            prefix@,
                            opts.truncate,
                            b,
                            i as int,
                        ));
                    }
                    return Err(e);
                },
                Ok(row) => {
                    self.rows.set(i, row);
                },
            }
            i = i + 1;
        }
        self.opts = *opts;
        self.n_rows = texts.len() as u32;
        Ok(())
    }

    /// Write token rows that the caller prepared.
    pub fn write_tokens(&mut self, batch: &TokenBatch) -> (r: Result<(), Error>)
        requires
            old(self).wf(),
            batch.wf(),
        ensures
            final(self).wf(),
            match batch_verdict(batch.batch, batch.seq, old(self).max_batch, old(self).max_seq) {
                Err(e) => r is Err && r->Err_0@ == e && *final(self) == *old(self),
                Ok(_) => match tokens_verdict(*batch, batch.batch as int) {
                    Err(e) => r is Err && r->Err_0@ == e && final(self).same_but_rows(old(self))
                        && exists|k: int| #[trigger]
                        final(self).stopped_at_tokens(old(self), *batch, k),
                    Ok(_) => {
                        &&& r is Ok
                        &&& final(self).holds_batch(*batch, batch.batch as int)
                        &&& final(self).behind_stays(old(self), batch.batch as int)
                        &&& final(self).opts == embed_defaults()
                        &&& final(self).n_rows == batch.batch
                        &&& final(self).runs == old(self).runs
                        &&& final(self).d2h == old(self).d2h
                        &&& final(self).contract == old(self).contract
                        &&& final(self).ubatch == old(self).ubatch
                        &&& final(self).max_seq == old(self).max_seq
                        &&& final(self).max_batch == old(self).max_batch
                    },
                },
            },
    {
        match check_batch(batch.batch, batch.seq, self.max_batch, self.max_seq) {
            Err(e) => return Err(e),
            Ok(_) => {},
        }
        let mut i: u32 = 0;
        while i < batch.batch
            invariant
                i <= batch.batch <= self.max_batch,
                batch.seq <= self.max_seq,
                batch.wf(),
                self.wf(),
                self.same_but_rows(old(self)),
                tokens_verdict(*batch, i as int) is Ok,
                self.holds_batch(*batch, i as int),
                self.behind_stays(old(self), i as int),
            decreases batch.batch - i,
        {
            proof {
                tokens_refusal_stays(*batch, i + 1, batch.batch as int);
            }
            let ids = batch.row_of(&batch.ids, i);
            let mask = batch.row_of(&batch.mask, i);
            let types = match &batch.types {
                Some(t) => Some(batch.row_of(t, i)),
                None => None,
            };
            match live_row_of(i, &ids, &mask, &types) {
                Err(e) => {
                    proof {
                        assert(self.stopped_at_tokens(old(self), *batch, i as int));
                    }
                    return Err(e);
                },
                Ok(row) => {
                    self.rows.set(i as usize, row);
                },
            }
            i = i + 1;
        }
        self.opts = EmbedOptions::defaults();
        self.n_rows = batch.batch;
        Ok(())
    }

    /// Whether a run can begin: something was written.
    pub fn check_run(&self) -> (r: Result<(), Error>)
        ensures
            agrees_plain(
                r,
                if self.n_rows == 0 {
                    Err(plain(Class::InvalidState, "no inputs written"@))
                } else {
                    Ok(())
                },
            ),
    {
        if self.n_rows == 0 {
            return Err(Error::say(Class::InvalidState, "no inputs written"));
        }
        Ok(())
    }

    /// The columns of the result: as asked, or all.
    pub fn output_dim(&self) -> (r: u32)
        ensures
            r == (if self.opts.output_dim == 0 { self.contract.dim } else { self.opts.output_dim }),
    {
        if self.opts.output_dim == 0 {
            self.contract.dim
        } else {
            self.opts.output_dim
        }
    }

    /// The columns of the result that are kept of the vector of row `r`, whose numbers
    /// are given by their bits.
    pub fn take_row(&self, r: usize, v: &Vec<u32>) -> (res: Result<Vec<u32>, Error>)
        requires
            self.opts.output_dim <= self.contract.dim,
        ensures
            if v.len() != self.contract.dim {
                res is Err && res->Err_0@ == plain(
                    Class::Internal,
                    "llama.cpp returned "@ + decimal(v@.len()) + " values for row "@ + decimal(
                        r as nat,
                    ) + ", expected "@ + decimal(self.contract.dim as nat),
                )
            } else {
                res is Ok && res->Ok_0@ == v@.take(
                    if self.opts.output_dim == 0 {
                        self.contract.dim as int
                    } else {
                        self.opts.output_dim as int
                    },
                )
            },
    {
        if v.len() != self.contract.dim as usize {
            return Err(
                Error::plain(
                    Class::Internal,
                    cat6(
                        "llama.cpp returned ",
                        decimal_of(v.len() as u128).as_str(),
                        " values for row ",
                        decimal_of(r as u128).as_str(),
                        ", expected ",
                        decimal_of(self.contract.dim as u128).as_str(),
                    ),
                ),
            );
        }
        let n = self.output_dim() as usize;
        let mut out: Vec<u32> = Vec::new();
        let mut i: usize = 0;
        while i < n
            invariant
                i <= n <= v.len(),
                out@ == v@.take(i as int),
            decreases n - i,
        {
            out.push(v[i]);
            i = i + 1;
            proof {
                assert(out@ =~= v@.take(i as int));
            }
        }
        Ok(out)
    }

    /// Check that row `r` can be normalized where the run normalizes; `zero` says
    /// whether its vector has no length.
    pub fn check_norm(&self, r: usize, zero: bool) -> (res: Result<(), Error>)
        ensures
            if normalizes(self.opts.normalize, self.contract.normalize) && zero {
                res is Err && res->Err_0@ == plain(
                    Class::Runtime,
                    "row "@ + decimal(r as nat)
                        + " pooled to a zero vector, which cannot be L2-normalized as the contract promises"@,
                )
            } else {
                res is Ok
            },
    {
        if self.normalizes() && zero {
            return Err(
                Error::plain(
                    Class::Runtime,
                    cat3(
                        "row ",
                        decimal_of(r as u128).as_str(),
                        " pooled to a zero vector, which cannot be L2-normalized as the contract promises",
                    ),
                ),
            );
        }
        Ok(())
    }

    /// Whether the run normalizes.
    pub fn normalizes(&self) -> (r: bool)
        ensures
            r == normalizes(self.opts.normalize, self.contract.normalize),
    {
        normalizes_of(self.opts.normalize, self.contract.normalize)
    }

    /// Count a finished run. On any device but the CPU the full vectors crossed
    /// the bus, whatever was cut off them afterwards.
    pub fn count_run(&mut self, device: DeviceKind)
        requires
            old(self).runs < u64::MAX,
            old(self).d2h + old(self).n_rows * old(self).contract.dim * 4 <= u64::MAX,
        ensures
            *final(self) == (EmbedSession {
                runs: (old(self).runs + 1) as u64,
                d2h: if device == DeviceKind::Cpu {
                    old(self).d2h
                } else {
                    (old(self).d2h + old(self).n_rows * old(self).contract.dim * 4) as u64
                },
                ..*old(self)
            }),
    {
        if device != DeviceKind::Cpu {
            proof {
                let a = self.n_rows as int;
                let b = self.contract.dim as int;
                assert(0 <= a * b <= 0xffff_ffff * 0xffff_ffff) by (nonlinear_arith)
                    requires
                        0 <= a <= 0xffff_ffff,
                        0 <= b <= 0xffff_ffff,
                ;
            }
            let bytes: u128 = self.n_rows as u128 * self.contract.dim as u128 * 4;
            self.d2h = self.d2h + bytes as u64;
        }
        self.runs = self.runs + 1;
    }
}

/// How many tokens the rows `a..b` have together.
pub open spec fn tokens_in(rows: Seq<Vec<i32>>, a: int, b: int) -> int
    decreases b - a,
{
    if b <= a {
        0
    } else {
        tokens_in(rows, a, b - 1) + rows[b - 1]@.len()
    }
}

/// Where the group of rows that begins at `start` and reaches `end` ends: it
/// takes rows as long as they fit one decode, and at least one.
pub open spec fn group_end(rows: Seq<Vec<i32>>, n: int, ubatch: int, start: int, end: int) -> int
    decreases n - end,
{
    if end < n && (end == start || tokens_in(rows, start, end) + rows[end]@.len() <= ubatch) {
        group_end(rows, n, ubatch, start, end + 1)
    } else {
        end
    }
}

/// A group lies inside the rows, takes at least one, and fits one decode
/// wherever its first row does.
pub proof fn group_fits(rows: Seq<Vec<i32>>, n: int, ubatch: int, start: int, end: int)
    requires
        0 <= start <= end <= n <= rows.len(),
        start < n,
        rows[start]@.len() <= ubatch,
        start < end ==> tokens_in(rows, start, end) <= ubatch,
    ensures
        start < group_end(rows, n, ubatch, start, end) <= n,
        tokens_in(rows, start, group_end(rows, n, ubatch, start, end)) <= ubatch,
    decreases n - end,
{
    if end < n && (end == start || tokens_in(rows, start, end) + rows[end]@.len() <= ubatch) {
        assert(tokens_in(rows, start, start) == 0);
        group_fits(rows, n, ubatch, start, end + 1);
    }
}

impl EmbedSession {
    /// The end of the group of rows that begins at `start`, or the refusal of a
    /// row that no decode can carry.
    pub fn next_group(&self, start: usize) -> (r: Result<usize, Error>)
        requires
            self.wf(),
            start < self.n_rows,
        ensures
            ({
                let end = group_end(
                    self.rows@,
                    self.n_rows as int,
                    self.ubatch as int,
                    start as int,
                    start as int,
                );
                let total = tokens_in(self.rows@, start as int, end);
                if total > self.ubatch {
                    &&& r is Err
                    &&& r->Err_0@ == plain(
                        Class::Internal,
                        "row "@ + decimal(start as nat) + " holds "@ + decimal(total as nat)
                            + " tokens but the micro-batch holds "@ + decimal(self.ubatch as nat),
                    )
                } else {
                    &&& r is Ok
                    &&& r->Ok_0 == end
                    &&& start < end <= self.n_rows
                }
            }),
    {
        let n = self.n_rows as usize;
        let mut end: usize = start;
        let mut total: u128 = 0;
        while end < n && (end == start || total + self.rows[end].len() as u128 <= self.ubatch as u128)
            invariant
                start <= end <= n,
                n == self.n_rows,
                self.wf(),
                total == tokens_in(self.rows@, start as int, end as int),
                total <= usize::MAX + u32::MAX,
                end > start + 1 ==> total <= self.ubatch,
                end == start + 1 ==> total == self.rows@[start as int]@.len(),
                group_end(
                    self.rows@,
                    n as int,
                    self.ubatch as int,
                    start as int,
                    end as int,
                ) == group_end(self.rows@, n as int, self.ubatch as int, start as int, start as int),
            decreases n - end,
        {
            total = total + self.rows[end].len() as u128;
            end = end + 1;
        }
        if total > self.ubatch as u128 {
            return Err(
                Error::plain(
                    Class::Internal,
                    cat6(
                        "row ",
                        decimal_of(start as u128).as_str(),
                        " holds ",
                        decimal_of(total).as_str(),
                        " tokens but the micro-batch holds ",
                        decimal_of(self.ubatch as u128).as_str(),
                    ),
                ),
            );
        }
        Ok(end)
    }
}

/// A description is planned where each thing it asks for can be had: one sequence, no
/// tools, no schema; no more tokens at least than at most; biases, stop tokens, `top_k`
/// and log probabilities within the vocabulary; and a seed that llama.cpp keeps. The
/// plan then has just that seed.
pub proof fn a_description_is_planned_where_it_can_be_met(d: GenerateDesc, vocab: i32, drawn: u64)
    requires
        vocab >= 0,
    ensures
        desc_verdict(d, vocab, drawn) is Ok <==> {
            &&& d.n_sequences <= 1
            &&& d.n_tools == 0
            &&& d.structured_kind != StructuredKind::JsonSchema
            &&& d.min_new_tokens <= (if d.max_new_tokens == 0 {
                512
            } else {
                d.max_new_tokens
            })
            &&& forall|i: int| 0 <= i < d.logit_bias.len() ==> 0 <= (#[trigger] d.logit_bias@[i]).0 < vocab
            &&& forall|i: int| 0 <= i < d.stop_tokens.len() ==> 0 <= #[trigger] d.stop_tokens@[i] < vocab
            &&& d.top_k <= vocab
            &&& d.logprobs <= vocab
            &&& d.seed is None || d.seed->0 < 0xffff_ffff
        },
        desc_verdict(d, vocab, drawn) is Ok && d.seed is Some ==> desc_verdict(d, vocab, drawn)->Ok_0
            == d.seed->0,
        desc_verdict(d, vocab, drawn) is Ok ==> 0 <= desc_verdict(d, vocab, drawn)->Ok_0 < 0xffff_ffff,
{
    let b = bias_ids(d.logit_bias@);
    foreign_is_outside(b, vocab, 0);
    foreign_is_outside(d.stop_tokens@, vocab, 0);
    if first_foreign(b, vocab, 0) is None {
        assert forall|i: int| 0 <= i < d.logit_bias.len() implies 0 <= (#[trigger] d.logit_bias@[i]).0
            < vocab by {
            assert(0 <= b[i] < vocab);
        }
    } else {
        let i = choose|i: int| 0 <= i < b.len() && !(0 <= #[trigger] b[i] < vocab);
        assert(!(0 <= d.logit_bias@[i].0 < vocab));
    }
}

/// A first foreign token is found where there is one.
proof fn foreign_is_outside(ids: Seq<i32>, vocab: i32, i: int)
    requires
        0 <= i <= ids.len(),
    ensures
        first_foreign(ids, vocab, i) is None <==> forall|k: int|
            i <= k < ids.len() ==> 0 <= #[trigger] ids[k] < vocab,
    decreases ids.len() - i,
{
    if i < ids.len() && !(ids[i] < 0 || ids[i] >= vocab) {
        foreign_is_outside(ids, vocab, i + 1);
    } else if i < ids.len() {
        assert(!(0 <= ids[i] < vocab));
    }
}

/// The numbers that a description asks for are those of the chain that samples for it.
pub proof fn a_request_is_sampled_as_it_asks(d: GenerateDesc, p: Plan, suppressed: nat)
    requires
        p.follows(d),
    ensures
        ({
            let chain = sampler_chain(p, suppressed);
            let draws = 0 < d.temperature <= 0x7f80_0000;
            &&& chain.contains(Sampler::Greedy) <==> !draws
            &&& draws ==> chain.contains(Sampler::Temperature { t: d.temperature })
            &&& chain.contains(Sampler::TopK { k: d.top_k }) <==> draws && d.top_k != 0
            &&& chain.contains(Sampler::TopP { p: d.top_p }) <==> draws && 0 < d.top_p < 0x3f80_0000
            &&& chain.contains(Sampler::MinP { p: d.min_p }) <==> draws && 0 < d.min_p <= 0x7f80_0000
            &&& chain.contains(Sampler::Grammar) <==> d.structured_kind == StructuredKind::Grammar
            &&& chain.contains(Sampler::LogitBias) <==> d.logit_bias.len() > 0 || suppressed > 0
            &&& d.presence_penalty % 0x8000_0000 == 0 && d.frequency_penalty % 0x8000_0000 == 0
                && d.repeat_penalty % 0x8000_0000 == 0 ==> forall|x: u32|
                !#[trigger] chain.contains(Sampler::Penalties { repeat: x })
        }),
{
    a_plan_takes_the_stages_it_asks_for(p, suppressed);
    if d.presence_penalty % 0x8000_0000 == 0 && d.frequency_penalty % 0x8000_0000 == 0
        && d.repeat_penalty % 0x8000_0000 == 0 {
        penalties_without_effect_are_left_out(p, suppressed);
    }
}

/// What a plan keeps of its description: limits, stops and what is told of each token.
/// Where no limit is asked for it is the default.
pub proof fn a_plan_keeps_its_limits(d: GenerateDesc, p: Plan)
    requires
        p.follows(d),
    ensures
        d.max_new_tokens != 0 ==> p.max_new == d.max_new_tokens,
        d.max_new_tokens == 0 ==> p.max_new == 512,
        p.min_new == d.min_new_tokens,
        p.stop@ == d.stop@,
        p.stop_tokens@ == d.stop_tokens@,
        p.logprobs == d.logprobs,
        p.echo == d.echo,
        d.structured_kind == StructuredKind::Grammar ==> p.grammar is Some && p.grammar->0@
            == d.structured@,
{
}

/// A step ends a generation where it was cancelled or had no room for a token, where the
/// token ends it, where a stop string stands in the text, and where no more tokens were
/// asked for; and nowhere else. It counts one token unless it ends before one is taken.
pub proof fn a_step_ends_where_it_has_to(g: GenerationView, s: Sampled)
    requires
        g.prompted,
        !g.done,
        g.generated < u32::MAX,
        g.n_past < u32::MAX,
    ensures
        stepped(g, s) is Some,
        ({
            let after = stepped(g, s).unwrap().0;
            let over = g.cancelled || g.generated >= g.max_new || g.n_past >= g.max_seq;
            let ends = s.is_eog || g.stop_tokens.contains(s.token);
            let text = g.sent + g.held + (if s.control {
                Seq::<u8>::empty()
            } else {
                drained(g.pending + s.bytes, false).0
            });
            &&& after.done <==> over || ends || !stop_free(text, g.stops) || g.generated + 1 >= g.max_new
            &&& after.generated == g.generated + (if over {
                0int
            } else {
                1int
            })
            &&& !after.done ==> after.n_past == g.n_past + 1
        }),
{
    let t = piece_text(g, s.bytes, s.control).0;
    assert(g.sent + (g.held + t) =~= g.sent + g.held + t);
}

/// What a step hands out. Where it ends a generation without a new piece, all text that
/// was held back goes out. A new piece goes out but for what a stop string could still
/// need, up to the first stop string where there is one, and whole where it is the last.
/// The prompt stands before the first token's text where an echo was asked for.
pub proof fn a_step_hands_out_its_text(
    g: GenerationView,
    s: Sampled,
    now: (Seq<u8>, Seq<u8>),
    echo: Seq<u8>,
)
    requires
        g.prompted,
        !g.done,
        g.generated < u32::MAX,
        g.n_past < u32::MAX,
        s.control ==> now == (Seq::<u8>::empty(), g.pending),
        !s.control ==> now == drained(g.pending + s.bytes, false),
        g.echo && g.generated == 0 && !(g.cancelled || g.generated >= g.max_new || g.n_past >= g.max_seq)
            ==> echo == g.prompt_text,
        !(g.echo && g.generated == 0) || g.cancelled || g.generated >= g.max_new || g.n_past >= g.max_seq
            ==> echo == Seq::<u8>::empty(),
    ensures
        ({
            let after = stepped(g, s).unwrap().0;
            let out = stepped(g, s).unwrap().1;
            let over = g.cancelled || g.generated >= g.max_new || g.n_past >= g.max_seq;
            let ends = s.is_eog || g.stop_tokens.contains(s.token);
            let text = g.sent + g.held + now.0;
            let last = g.generated + 1 >= g.max_new;
            &&& over || ends ==> after.sent == g.sent + g.held + drained(g.pending, true).0 && out == echo
                + g.held + drained(g.pending, true).0
            &&& !over && !ends && stop_free(text, g.stops) && !last ==> after.sent + after.held == text
                && after.pending == now.1 && g.sent + out.skip(echo.len() as int) == after.sent
            &&& !over && !ends && stop_free(text, g.stops) && last ==> after.sent == text + drained(
                now.1,
                true,
            ).0 && g.sent + out.skip(echo.len() as int) == after.sent
            &&& !over && !ends && !stop_free(text, g.stops) ==> exists|i: int| #[trigger]
                first_stop(text, g.stops, i) && after.sent == text.take(i)
            &&& out.len() >= echo.len() && out.take(echo.len() as int) == echo
        }),
{
    let whole = g.held + now.0;
    let all = g.sent + whole;
    assert(now == piece_text(g, s.bytes, s.control));
    assert(all =~= g.sent + g.held + now.0);
    let over = g.cancelled || g.generated >= g.max_new || g.n_past >= g.max_seq;
    let ends = s.is_eog || g.stop_tokens.contains(s.token);
    assert(g.sent + tail(g) =~= g.sent + g.held + drained(g.pending, true).0);
    assert(echo + tail(g) =~= echo + g.held + drained(g.pending, true).0);
    if over {
        let none = Seq::<u8>::empty();
        assert(tail(g) =~= none + g.held + drained(g.pending, true).0);
        assert(tail(g).take(0) =~= none);
    } else if ends {
        assert((echo + tail(g)).take(echo.len() as int) =~= echo);
    } else {
        let c = counted(g);
        let p = piece_taken(c, s.bytes, s.control);
        if stop_free(all, g.stops) {
            let n = released(whole, g.stops);
            crate::stop::released_bounds(whole, g.stops);
            assert(p.0.sent + p.0.held =~= all);
            assert((echo + p.1).skip(echo.len() as int) =~= p.1);
            assert((echo + p.1).take(echo.len() as int) =~= echo);
            let t = tail(p.0);
            assert((echo + p.1 + t).skip(echo.len() as int) =~= p.1 + t);
            assert((echo + p.1 + t).take(echo.len() as int) =~= echo);
            assert(g.sent + (p.1 + t) =~= p.0.sent + t);
            assert(p.0.sent + t =~= all + drained(now.1, true).0);
        } else {
            crate::stop::some_stop_is_first(all, g.stops);
            let at = choose|i: int| first_stop(all, g.stops, i);
            assert(p.0.sent == all.take(at));
            assert((echo + p.1).take(echo.len() as int) =~= echo);
        }
    }
}

/// The bytes of the first `n` tokens, one behind the other.
pub open spec fn token_bytes(s: Seq<Sampled>, n: int) -> Seq<u8>
    decreases n,
{
    if n <= 0 {
        Seq::empty()
    } else {
        token_bytes(s, n - 1) + s[n - 1].bytes
    }
}

/// A generation that nothing stops early hands out the text of all its tokens, none
/// twice and none left out, and ends with the last token that was asked for.
pub proof fn a_generation_hands_out_all_its_text(g: GenerationView, s: Seq<Sampled>, n: int)
    requires
        g.prompted,
        !g.done,
        !g.cancelled,
        !g.echo,
        g.generated == 0,
        g.sent == Seq::<u8>::empty(),
        g.held == Seq::<u8>::empty(),
        g.pending == Seq::<u8>::empty(),
        g.stops.len() == 0,
        0 < g.max_new,
        0 <= n <= s.len(),
        n <= g.max_new,
        g.n_past + n <= g.max_seq,
        forall|i: int|
            0 <= i < n ==> !(#[trigger] s[i]).is_eog && !s[i].control && !g.stop_tokens.contains(s[i].token),
    ensures
        ({
            let r = ran(g, s, n);
            &&& r.0.generated == n
            &&& r.0.done <==> n == g.max_new
            &&& r.1 + (if r.0.done {
                Seq::<u8>::empty()
            } else {
                tail(r.0)
            }) == drained(token_bytes(s, n), true).0
        }),
{
    text_so_far(g, s, n);
    let r = ran(g, s, n);
    let b = token_bytes(s, n);
    if r.0.done {
        assert(r.1 + Seq::<u8>::empty() =~= r.1);
    } else {
        crate::stop::draining_early_changes_nothing(b, Seq::empty(), true);
        assert(b + Seq::<u8>::empty() =~= b);
        assert(drained(b, false).1 + Seq::<u8>::empty() =~= drained(b, false).1);
        assert(r.1 + tail(r.0) =~= r.0.sent + r.0.held + drained(r.0.pending, true).0);
    }
}

/// The text of a generation that nothing stops early, so far.
proof fn text_so_far(g: GenerationView, s: Seq<Sampled>, n: int)
    requires
        g.prompted,
        !g.done,
        !g.cancelled,
        !g.echo,
        g.generated == 0,
        g.sent == Seq::<u8>::empty(),
        g.held == Seq::<u8>::empty(),
        g.pending == Seq::<u8>::empty(),
        g.stops.len() == 0,
        0 < g.max_new,
        0 <= n <= s.len(),
        n <= g.max_new,
        g.n_past + n <= g.max_seq,
        forall|i: int|
            0 <= i < n ==> !(#[trigger] s[i]).is_eog && !s[i].control && !g.stop_tokens.contains(s[i].token),
    ensures
        ({
            let r = ran(g, s, n);
            &&& r.0.prompted
            &&& !r.0.cancelled
            &&& !r.0.echo
            &&& r.0.stops == g.stops
            &&& r.0.stop_tokens == g.stop_tokens
            &&& r.0.max_new == g.max_new
            &&& r.0.max_seq == g.max_seq
            &&& r.0.generated == n
            &&& r.0.done <==> n == g.max_new
            &&& r.1 == r.0.sent
            &&& !r.0.done ==> r.0.n_past == g.n_past + n && r.0.sent + r.0.held == drained(
                token_bytes(s, n),
                false,
            ).0 && r.0.pending == drained(token_bytes(s, n), false).1
            &&& r.0.done ==> r.0.sent == drained(token_bytes(s, n), true).0
        }),
    decreases n,
{
    if n == 0 {
        assert(g.sent + g.held =~= Seq::<u8>::empty());
    } else {
        text_so_far(g, s, n - 1);
        let before = ran(g, s, n - 1);
        let x = s[n - 1];
        let h = before.0;
        let b = token_bytes(s, n - 1);
        let w = token_bytes(s, n);
        a_step_ends_where_it_has_to(h, x);
        let now = drained(h.pending + x.bytes, false);
        a_step_hands_out_its_text(h, x, now, Seq::empty());
        let text = h.sent + h.held + now.0;
        assert(stop_free(text, h.stops));
        crate::stop::draining_early_changes_nothing(b, x.bytes, false);
        assert(text == drained(w, false).0);
        let out = stepped(h, x).unwrap().1;
        assert(out.skip(0) =~= out);
        crate::stop::draining_early_changes_nothing(w, Seq::empty(), true);
        assert(w + Seq::<u8>::empty() =~= w);
        assert(drained(w, false).1 + Seq::<u8>::empty() =~= drained(w, false).1);
    }
}

/// The live tokens of a row are those before its first masked one. A row is refused
/// where a live token stands behind a masked one, where it has none, and where a live
/// token has a type.
pub proof fn a_row_is_its_live_tokens(r: nat, ids: Seq<i32>, mask: Seq<i32>, types: Option<Seq<i32>>, n: int)
    requires
        ids.len() == mask.len(),
        0 <= n <= mask.len(),
        forall|i: int| 0 <= i < n ==> #[trigger] mask[i] != 0,
        n < mask.len() ==> mask[n] == 0,
    ensures
        live_row(r, ids, mask, types) is Ok <==> {
            &&& n > 0
            &&& forall|i: int| n <= i < mask.len() ==> #[trigger] mask[i] == 0
            &&& types matches Some(t) ==> forall|i: int| 0 <= i < n ==> #[trigger] t[i] == 0
        },
        live_row(r, ids, mask, types) is Ok ==> live_row(r, ids, mask, types)->Ok_0 == ids.take(n),
{
    live_up_to(mask, 0, n);
    masked_up_to(mask, n);
}

/// The live columns end at the first masked one.
proof fn live_up_to(mask: Seq<i32>, i: int, n: int)
    requires
        0 <= i <= n <= mask.len(),
        forall|k: int| i <= k < n ==> #[trigger] mask[k] != 0,
        n < mask.len() ==> mask[n] == 0,
    ensures
        live_columns(mask, i) == n,
    decreases n - i,
{
    if i < n {
        live_up_to(mask, i + 1, n);
    }
}

/// The next live column is the first that is not masked.
proof fn masked_up_to(mask: Seq<i32>, i: int)
    requires
        0 <= i <= mask.len(),
    ensures
        i <= next_live(mask, i) <= mask.len(),
        next_live(mask, i) < mask.len() ==> mask[next_live(mask, i)] != 0,
        forall|k: int| i <= k < next_live(mask, i) ==> #[trigger] mask[k] == 0,
    decreases mask.len() - i,
{
    if i < mask.len() && mask[i] == 0 {
        masked_up_to(mask, i + 1);
    }
}

/// A group of rows is as large as it can be: the next row would not fit beside it.
pub proof fn a_group_takes_every_row_that_fits(
    rows: Seq<Vec<i32>>,
    n: int,
    ubatch: int,
    start: int,
    end: int,
)
    requires
        0 <= start <= end <= n <= rows.len(),
    ensures
        ({
            let e = group_end(rows, n, ubatch, start, end);
            &&& end <= e <= n
            &&& e < n ==> e > start && tokens_in(rows, start, e + 1) > ubatch
        }),
    decreases n - end,
{
    if end < n && (end == start || tokens_in(rows, start, end) + rows[end]@.len() <= ubatch) {
        a_group_takes_every_row_that_fits(rows, n, ubatch, start, end + 1);
    }
}

/// The context of an embedding session holds every row at its full length, and one
/// decode carries at least one row and no more than the cap beyond that.
pub proof fn an_embedding_context_holds_every_row(max_batch: u32, max_seq: u32)
    ensures
        embed_shape(max_batch, max_seq) is Ok <==> max_batch * max_seq <= 0xffff_ffff,
        embed_shape(max_batch, max_seq) matches Ok(s) ==> {
            &&& s.0 == max_batch * max_seq
            &&& s.1 >= max_seq
            &&& s.1 == max_seq || s.1 == 4096 || s.1 == max_batch * max_seq
            &&& max_seq <= 4096 ==> s.1 <= 4096
        },
{
    assert(0 <= max_batch * max_seq) by (nonlinear_arith)
        requires
            0 <= max_batch,
            0 <= max_seq,
    ;
    assert(max_batch >= 1 ==> max_batch * max_seq >= max_seq) by (nonlinear_arith)
        requires
            0 <= max_batch,
            0 <= max_seq,
    ;
}

/// A model is planned within its training context. An embedding model pools, normalizes
/// and has the width that its contract declares, which is the file's; a generative one
/// needs its chat template.
pub proof fn a_model_is_planned_as_declared(c: Contract, g: Gguf, template: Result<(), Error>)
    requires
        model_plan(c, g, template) is Ok,
    ensures
        ({
            let p = model_plan(c, g, template)->Ok_0;
            &&& p.max_seq <= g.n_ctx_train
            &&& c.max_seq != 0 ==> p.max_seq == c.max_seq
            &&& c.max_seq == 0 ==> p.max_seq == g.n_ctx_train
            &&& c.kind == ModelKind::Generative <==> p.embed is None
            &&& c.kind == ModelKind::Generative ==> template is Ok
            &&& p.embed matches Some(e) ==> {
                &&& c.pooling == Ok::<Option<Pooling>, Error>(Some(e.pool))
                &&& e.normalize <==> c.normalize == Ok::<Option<Normalize>, Error>(Some(Normalize::L2))
                &&& e.dim == c.dim && c.dim > 0
                &&& c.dim <= i32::MAX ==> g.n_embd == c.dim
            }
        }),
{
}

/// Only text is served: generated or embedded.
pub proof fn text_is_generated_or_embedded(task: Task, text: bool)
    ensures
        offers(task, text) <==> text && (task == Task::Generate || task == Task::Embed),
        stages_on(StagePlacement::Device, false).normalize == StagePlacement::Host,
        stages_on(StagePlacement::Device, true).pool == StagePlacement::Unused,
        forall|p: StagePlacement, gen: bool| (#[trigger] stages_on(p, gen)).encode == p,
        forall|p: StagePlacement, gen: bool| (#[trigger] stages_on(p, gen)).tokenize == StagePlacement::Host,
        forall|p: StagePlacement| (#[trigger] stages_on(p, false)).pool == p,
{
}

/// A session is made for an embedding model with a row of at least two tokens, and a
/// generative model is refused before its shape is looked at.
pub proof fn a_session_is_made_where_rows_fit(
    model_id: Seq<char>,
    embeds: bool,
    max_batch: u32,
    max_seq: u32,
)
    ensures
        session_fault(model_id, embeds, max_batch, max_seq) is None <==> embeds && max_batch > 0
            && max_seq > 1,
        !embeds ==> session_fault(model_id, embeds, max_batch, max_seq)->0.class
            == Class::UnsupportedTask,
        embeds ==> (session_fault(model_id, embeds, max_batch, max_seq) matches Some(e) ==> e.class
            == Class::InvalidArgument),
{
}

/// A prompt is decoded where it has a token and leaves room for one more; it is
/// decoded in pieces of at most 2048 tokens, and of no more than the context holds.
pub proof fn a_prompt_leaves_room_for_a_token(n: nat, n_ctx: u32)
    ensures
        prefill_verdict(n, n_ctx) is Ok <==> 0 < n < n_ctx,
        n == 0 ==> prefill_verdict(n, n_ctx)->Err_0.class == Class::InvalidArgument,
        n >= n_ctx && n > 0 ==> prefill_verdict(n, n_ctx)->Err_0.class == Class::Capacity,
        prompt_batch(n_ctx) <= n_ctx && prompt_batch(n_ctx) <= 2048,
        prompt_batch(n_ctx) == n_ctx || prompt_batch(n_ctx) == 2048,
{
}

/// A request is refused on the field that is at fault: the first of those that
/// cannot be met, in this order, and no other field is named.
pub proof fn a_refused_description_names_its_field(d: GenerateDesc, vocab: i32, drawn: u64)
    requires
        vocab >= 0,
        desc_verdict(d, vocab, drawn) is Err,
    ensures
        ({
            let e = desc_verdict(d, vocab, drawn)->Err_0;
            let most: int = if d.max_new_tokens == 0 {
                512
            } else {
                d.max_new_tokens as int
            };
            let bias = forall|i: int|
                0 <= i < d.logit_bias.len() ==> 0 <= (#[trigger] d.logit_bias@[i]).0 < vocab;
            let stops = forall|i: int|
                0 <= i < d.stop_tokens.len() ==> 0 <= #[trigger] d.stop_tokens@[i] < vocab;
            let offered = d.n_sequences <= 1 && d.n_tools == 0 && d.structured_kind
                != StructuredKind::JsonSchema;
            let listed = offered && d.min_new_tokens <= most && bias && stops;
            &&& d.n_sequences > 1 ==> e.field == Field::GenerateSequences
            &&& d.n_sequences <= 1 && d.n_tools > 0 ==> e.field == Field::GenerateTools
            &&& d.n_sequences <= 1 && d.n_tools == 0 && !offered ==> e.field
                == Field::GenerateStructuredKind
            &&& offered <==> e.class == Class::InvalidArgument
            &&& !offered <==> e.class == Class::UnsupportedOption
            &&& offered && d.min_new_tokens > most ==> e.field == Field::Number(3)
            &&& offered && d.min_new_tokens <= most && !bias ==> e.field == Field::GenerateLogitBias
            &&& offered && d.min_new_tokens <= most && bias && !stops ==> e.field == Field::Number(15)
            &&& listed && d.top_k > vocab ==> e.field == Field::Number(6)
            &&& listed && d.top_k <= vocab && d.logprobs > vocab ==> e.field == Field::GenerateLogprobs
            &&& listed && d.top_k <= vocab && d.logprobs <= vocab ==> e.field == Field::GenerateSeed
        }),
{
    a_description_is_planned_where_it_can_be_met(d, vocab, drawn);
    let b = bias_ids(d.logit_bias@);
    foreign_is_outside(b, vocab, 0);
    foreign_is_outside(d.stop_tokens@, vocab, 0);
    if first_foreign(b, vocab, 0) is None {
        assert forall|i: int| 0 <= i < d.logit_bias.len() implies 0 <= (#[trigger] d.logit_bias@[i]).0
            < vocab by {
            assert(0 <= b[i] < vocab);
        }
    } else {
        let i = choose|i: int| 0 <= i < b.len() && !(0 <= #[trigger] b[i] < vocab);
        assert(!(0 <= d.logit_bias@[i].0 < vocab));
    }
}

/// A write of texts that was taken leaves row `k` as text `k`, cut to the budget; a
/// write that stopped at a row leaves that row empty and those behind it as they were.
pub proof fn a_write_of_texts_leaves_its_rows(
    s: EmbedSession,
    o: EmbedSession,
    texts: Seq<Tokens>,
    prefix: Seq<char>,
    truncate: Truncate,
    budget: u32,
    n: int,
    k: int,
)
    requires
        0 <= k < n,
    ensures
        s.holds_cut(texts, prefix, truncate, budget, n) ==> s.rows@[k]@ == cut_row(
            k as nat,
            texts[k].ids@,
            texts[k].last_is_special,
            prefix,
            truncate,
            budget,
        )->Ok_0,
        s.stopped_at_text(&o, texts, prefix, truncate, budget, n) ==> s.rows@[k]@ == cut_row(
            k as nat,
            texts[k].ids@,
            texts[k].last_is_special,
            prefix,
            truncate,
            budget,
        )->Ok_0 && s.rows@[n]@.len() == 0 && s.rows@.len() == o.rows@.len(),
        s.stopped_at_text(&o, texts, prefix, truncate, budget, k) && n < s.rows.len() ==> s.rows@[n]
            == o.rows@[n],
{
}

/// A write of token rows leaves row `k` as row `k` of the batch, without its masked
/// tokens; one that stopped leaves the rows from there on as they were.
pub proof fn a_write_of_tokens_leaves_its_rows(
    s: EmbedSession,
    o: EmbedSession,
    batch: TokenBatch,
    n: int,
    k: int,
)
    requires
        0 <= k < n,
    ensures
        s.holds_batch(batch, n) ==> s.rows@[k]@ == prepared_row(batch, k)->Ok_0,
        s.stopped_at_tokens(&o, batch, n) ==> s.rows@[k]@ == prepared_row(batch, k)->Ok_0,
        s.stopped_at_tokens(&o, batch, k) && n < s.rows.len() ==> s.rows@[n] == o.rows@[n],
        s.stopped_at_tokens(&o, batch, k) && k < s.rows.len() ==> s.rows@[k] == o.rows@[k],
{
}

} // verus!

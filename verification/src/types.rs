//! Names shared by the providers: tasks, kinds of model, options and placements.

use vstd::prelude::*;

verus! {

/// What a model is asked to do.
#[derive(Clone, Copy, Debug, PartialEq, Eq, Structural)]
pub enum Task {
    Embed,
    Rerank,
    Classify,
    TokenClassify,
    Generate,
    Run,
}

/// The name of a task in messages.
pub open spec fn task_text(t: Task) -> Seq<char> {
    match t {
        Task::Embed => "Embed"@,
        Task::Rerank => "Rerank"@,
        Task::Classify => "Classify"@,
        Task::TokenClassify => "TokenClassify"@,
        Task::Generate => "Generate"@,
        Task::Run => "Run"@,
    }
}

impl Task {
    /// The name of the task in messages.
    pub fn text(self) -> (r: &'static str)
        ensures
            r@ == task_text(self),
    {
        match self {
            Task::Embed => "Embed",
            Task::Rerank => "Rerank",
            Task::Classify => "Classify",
            Task::TokenClassify => "TokenClassify",
            Task::Generate => "Generate",
            Task::Run => "Run",
        }
    }
}

/// What a bundle holds.
#[derive(Clone, Copy, Debug, PartialEq, Eq, Structural)]
pub enum ModelKind {
    Embedding,
    Reranker,
    Classifier,
    TokenClassifier,
    Generative,
    Generic,
}

/// The name of a kind of model in messages.
pub open spec fn kind_text(k: ModelKind) -> Seq<char> {
    match k {
        ModelKind::Embedding => "Embedding"@,
        ModelKind::Reranker => "Reranker"@,
        ModelKind::Classifier => "Classifier"@,
        ModelKind::TokenClassifier => "TokenClassifier"@,
        ModelKind::Generative => "Generative"@,
        ModelKind::Generic => "Generic"@,
    }
}

impl ModelKind {
    /// The name of the kind in messages.
    pub fn text(self) -> (r: &'static str)
        ensures
            r@ == kind_text(self),
    {
        match self {
            ModelKind::Embedding => "Embedding",
            ModelKind::Reranker => "Reranker",
            ModelKind::Classifier => "Classifier",
            ModelKind::TokenClassifier => "TokenClassifier",
            ModelKind::Generative => "Generative",
            ModelKind::Generic => "Generic",
        }
    }
}

/// How an input that is too long is cut.
#[derive(Clone, Copy, Debug, PartialEq, Eq, Structural)]
pub enum Truncate {
    /// As the model does it.
    Model,
    /// Not at all.
    Off,
    /// At the end.
    Right,
    /// At the beginning.
    Left,
}

/// The role a text plays, which picks its prefix.
#[derive(Clone, Copy, Debug, PartialEq, Eq, Structural)]
pub enum PromptRole {
    Off,
    Query,
    Document,
}

/// How a vector is normalized.
#[derive(Clone, Copy, Debug, PartialEq, Eq, Structural)]
pub enum Normalize {
    Model,
    Off,
    L2,
}

/// How token vectors become one.
#[derive(Clone, Copy, Debug, PartialEq, Eq, Structural)]
pub enum Pooling {
    Model,
    Mean,
    Cls,
    Last,
}

/// How token labels become spans.
#[derive(Clone, Copy, Debug, PartialEq, Eq, Structural)]
pub enum Aggregation {
    Model,
    Off,
    Simple,
    First,
    Max,
}

/// The element type an embedding is asked in.
#[derive(Clone, Copy, Debug, PartialEq, Eq, Structural)]
pub enum OutputDtype {
    Model,
    F32,
    /// Any other.
    Other,
}

/// What kind of device.
#[derive(Clone, Copy, Debug, PartialEq, Eq, Structural)]
pub enum DeviceKind {
    Cpu,
    Gpu,
    IGpu,
    Accel,
}

/// Where memory lies.
#[derive(Clone, Copy, Debug, PartialEq, Eq, Structural)]
pub enum Placement {
    Host,
    Pinned,
    Device,
    Shared,
}

/// The name of a placement in messages.
pub open spec fn placement_text(p: Placement) -> Seq<char> {
    match p {
        Placement::Host => "Host"@,
        Placement::Pinned => "Pinned"@,
        Placement::Device => "Device"@,
        Placement::Shared => "Shared"@,
    }
}

impl Placement {
    /// The name of the placement in messages.
    pub fn text(self) -> (r: &'static str)
        ensures
            r@ == placement_text(self),
    {
        match self {
            Placement::Host => "Host",
            Placement::Pinned => "Pinned",
            Placement::Device => "Device",
            Placement::Shared => "Shared",
        }
    }
}

/// Where a stage of a run is done.
#[derive(Clone, Copy, Debug, PartialEq, Eq, Structural)]
pub enum StagePlacement {
    Unused,
    Host,
    Device,
}

/// Where each stage of a run is done.
#[derive(Clone, Copy, Debug, PartialEq, Eq, Structural)]
pub struct Stages {
    pub tokenize: StagePlacement,
    pub encode: StagePlacement,
    pub pool: StagePlacement,
    pub normalize: StagePlacement,
    pub postprocess: StagePlacement,
}

/// What a provider tells of a loaded model.
#[derive(Debug)]
pub struct ModelInfo {
    pub task: Task,
    pub kind: ModelKind,
    pub dim: u32,
    pub labels: Vec<String>,
    pub pooling: Option<Pooling>,
    pub normalize: Option<Normalize>,
    pub aggregation: Option<Aggregation>,
    pub max_seq: u32,
    pub max_batch: u32,
    /// Whether the vectors are single-precision numbers; a generative model has no one type.
    pub f32_vectors: bool,
    pub stages: Stages,
    pub vocab_size: u32,
    pub model_id: String,
    pub revision: String,
    pub tokenizer_sha256: String,
    pub provider_id: String,
    pub prefix_query: String,
    pub prefix_document: String,
}

/// What of a bundle goes into its model's information unchanged.
#[derive(Debug)]
pub struct BundleNames {
    pub model_id: String,
    pub revision: String,
    pub tokenizer_sha256: String,
    pub prefix_query: String,
    pub prefix_document: String,
}

impl ModelInfo {
    /// Whether the information repeats the bundle's names.
    pub open spec fn names_bundle(&self, names: BundleNames, provider: Seq<char>) -> bool {
        &&& self.model_id@ == names.model_id@
        &&& self.revision@ == names.revision@
        &&& self.tokenizer_sha256@ == names.tokenizer_sha256@
        &&& self.prefix_query@ == names.prefix_query@
        &&& self.prefix_document@ == names.prefix_document@
        &&& self.provider_id@ == provider
    }
}

/// An element type.
#[derive(Clone, Copy, Debug, PartialEq, Eq, Structural)]
pub enum DType {
    Bool,
    U8,
    U16,
    U32,
    U64,
    I8,
    I16,
    I32,
    I64,
    F16,
    BF16,
    F32,
    F64,
    Bytes,
}

/// The name of an element type in messages.
pub open spec fn dtype_text(d: DType) -> Seq<char> {
    match d {
        DType::Bool => "Bool"@,
        DType::U8 => "U8"@,
        DType::U16 => "U16"@,
        DType::U32 => "U32"@,
        DType::U64 => "U64"@,
        DType::I8 => "I8"@,
        DType::I16 => "I16"@,
        DType::I32 => "I32"@,
        DType::I64 => "I64"@,
        DType::F16 => "F16"@,
        DType::BF16 => "BF16"@,
        DType::F32 => "F32"@,
        DType::F64 => "F64"@,
        DType::Bytes => "Bytes"@,
    }
}

impl DType {
    /// The name of the element type in messages.
    pub fn text(self) -> (r: &'static str)
        ensures
            r@ == dtype_text(self),
    {
        match self {
            DType::Bool => "Bool",
            DType::U8 => "U8",
            DType::U16 => "U16",
            DType::U32 => "U32",
            DType::U64 => "U64",
            DType::I8 => "I8",
            DType::I16 => "I16",
            DType::I32 => "I32",
            DType::I64 => "I64",
            DType::F16 => "F16",
            DType::BF16 => "BF16",
            DType::F32 => "F32",
            DType::F64 => "F64",
            DType::Bytes => "Bytes",
        }
    }
}

/// The options of an embedding call.
#[derive(Clone, Copy, Debug, PartialEq, Eq, Structural)]
pub struct EmbedOptions {
    pub truncate: Truncate,
    pub max_tokens: u32,
    pub prompt_role: PromptRole,
    pub normalize: Normalize,
    pub pooling: Pooling,
    pub output_dim: u32,
    pub output_dtype: OutputDtype,
}

/// The options that leave everything to the model.
pub open spec fn embed_defaults() -> EmbedOptions {
    EmbedOptions {
        truncate: Truncate::Model,
        max_tokens: 0,
        prompt_role: PromptRole::Off,
        normalize: Normalize::Model,
        pooling: Pooling::Model,
        output_dim: 0,
        output_dtype: OutputDtype::Model,
    }
}

impl EmbedOptions {
    /// The options that leave everything to the model.
    pub fn defaults() -> (r: EmbedOptions)
        ensures
            r == embed_defaults(),
    {
        EmbedOptions {
            truncate: Truncate::Model,
            max_tokens: 0,
            prompt_role: PromptRole::Off,
            normalize: Normalize::Model,
            pooling: Pooling::Model,
            output_dim: 0,
            output_dtype: OutputDtype::Model,
        }
    }
}

/// The options of a reranking call.
#[derive(Clone, Copy, Debug, PartialEq, Eq, Structural)]
pub struct RerankOptions {
    pub truncate: Truncate,
    pub max_tokens: u32,
    pub top_n: u32,
    pub return_sorted: bool,
    pub raw_scores: bool,
}

/// The options of a classification call.
#[derive(Clone, Copy, Debug, PartialEq, Eq, Structural)]
pub struct ClassifyOptions {
    pub truncate: Truncate,
    pub max_tokens: u32,
    pub aggregation: Aggregation,
    pub raw_scores: bool,
}

/// The options that leave everything to the model.
pub open spec fn rerank_defaults() -> RerankOptions {
    RerankOptions {
        truncate: Truncate::Model,
        max_tokens: 0,
        top_n: 0,
        return_sorted: false,
        raw_scores: false,
    }
}

impl RerankOptions {
    /// The options that leave everything to the model.
    pub fn defaults() -> (r: RerankOptions)
        ensures
            r == rerank_defaults(),
    {
        RerankOptions {
            truncate: Truncate::Model,
            max_tokens: 0,
            top_n: 0,
            return_sorted: false,
            raw_scores: false,
        }
    }
}

/// The options that leave everything to the model.
pub open spec fn classify_defaults() -> ClassifyOptions {
    ClassifyOptions {
        truncate: Truncate::Model,
        max_tokens: 0,
        aggregation: Aggregation::Model,
        raw_scores: false,
    }
}

impl ClassifyOptions {
    /// The options that leave everything to the model.
    pub fn defaults() -> (r: ClassifyOptions)
        ensures
            r == classify_defaults(),
    {
        ClassifyOptions {
            truncate: Truncate::Model,
            max_tokens: 0,
            aggregation: Aggregation::Model,
            raw_scores: false,
        }
    }
}

/// Whether a run normalizes: as asked, or else as the model says.
pub open spec fn normalizes(asked: Normalize, model: bool) -> bool {
    match asked {
        Normalize::Model => model,
        Normalize::L2 => true,
        Normalize::Off => false,
    }
}

/// Whether a run normalizes.
pub fn normalizes_of(asked: Normalize, model: bool) -> (r: bool)
    ensures
        r == normalizes(asked, model),
{
    match asked {
        Normalize::Model => model,
        Normalize::L2 => true,
        Normalize::Off => false,
    }
}

/// A batch of token rows that a caller prepared, row `r` at `r * row_stride`.
pub struct TokenBatch {
    pub batch: u32,
    pub seq: u32,
    pub row_stride: u32,
    pub ids: Vec<i32>,
    pub mask: Vec<i32>,
    pub types: Option<Vec<i32>>,
}

impl TokenBatch {
    /// Whether every row lies inside the buffers.
    pub open spec fn wf(&self) -> bool {
        &&& self.seq <= self.row_stride
        &&& self.batch * self.row_stride <= self.ids.len()
        &&& self.batch * self.row_stride <= self.mask.len()
        &&& self.types matches Some(t) ==> self.batch * self.row_stride <= t.len()
    }

    /// Row `r` of a buffer of the batch.
    pub open spec fn row(&self, buffer: Seq<i32>, r: int) -> Seq<i32> {
        buffer.subrange(r * self.row_stride, r * self.row_stride + self.seq)
    }

    /// The token types of row `r`: all zero where the batch has none.
    pub open spec fn types_row(&self, r: int) -> Seq<i32> {
        match self.types {
            Some(t) => self.row(t@, r),
            None => Seq::new(self.seq as nat, |i: int| 0i32),
        }
    }

    /// A copy of row `r` of a buffer of the batch.
    pub fn row_of(&self, buffer: &Vec<i32>, r: u32) -> (out: Vec<i32>)
        requires
            self.seq <= self.row_stride,
            self.batch * self.row_stride <= buffer.len(),
            r < self.batch,
        ensures
            out@ == self.row(buffer@, r as int),
            out.len() == self.seq,
    {
        proof {
            assert(r * self.row_stride + self.row_stride <= self.batch * self.row_stride)
                by (nonlinear_arith)
                requires
                    r + 1 <= self.batch,
            ;
            assert(0 <= r * self.row_stride) by (nonlinear_arith);
        }
        let base: u64 = r as u64 * self.row_stride as u64;
        let base: usize = base as usize;
        let mut out: Vec<i32> = Vec::new();
        let mut i: usize = 0;
        while i < self.seq as usize
            invariant
                i <= self.seq,
                base == r * self.row_stride,
                base + self.seq <= buffer.len(),
                out@ == buffer@.subrange(base as int, base + i),
            decreases self.seq - i,
        {
            out.push(buffer[base + i]);
            i = i + 1;
            proof {
                assert(out@ =~= buffer@.subrange(base as int, base + i));
            }
        }
        out
    }
}

/// An explicit wish decides whether a vector is normalized; without one the model does.
pub proof fn a_wish_decides_the_normalization(asked: Normalize, model: bool)
    ensures
        asked == Normalize::L2 ==> normalizes(asked, model),
        asked == Normalize::Off ==> !normalizes(asked, model),
        asked == Normalize::Model ==> normalizes(asked, model) == model,
{
}

/// Every kind of model, task, placement and element type is told by its own name.
pub proof fn values_are_told_by_their_own_names(k: ModelKind, t: Task, p: Placement, d: DType)
    ensures
        k == ModelKind::Embedding <==> kind_text(k) == "Embedding"@,
        k == ModelKind::Reranker <==> kind_text(k) == "Reranker"@,
        k == ModelKind::Classifier <==> kind_text(k) == "Classifier"@,
        k == ModelKind::TokenClassifier <==> kind_text(k) == "TokenClassifier"@,
        k == ModelKind::Generative <==> kind_text(k) == "Generative"@,
        k == ModelKind::Generic <==> kind_text(k) == "Generic"@,
        t == Task::Embed <==> task_text(t) == "Embed"@,
        t == Task::Rerank <==> task_text(t) == "Rerank"@,
        t == Task::Classify <==> task_text(t) == "Classify"@,
        t == Task::TokenClassify <==> task_text(t) == "TokenClassify"@,
        t == Task::Generate <==> task_text(t) == "Generate"@,
        t == Task::Run <==> task_text(t) == "Run"@,
        p == Placement::Host <==> placement_text(p) == "Host"@,
        p == Placement::Pinned <==> placement_text(p) == "Pinned"@,
        p == Placement::Device <==> placement_text(p) == "Device"@,
        p == Placement::Shared <==> placement_text(p) == "Shared"@,
        d == DType::F32 <==> dtype_text(d) == "F32"@,
        d == DType::F16 <==> dtype_text(d) == "F16"@,
        d == DType::BF16 <==> dtype_text(d) == "BF16"@,
        d == DType::I32 <==> dtype_text(d) == "I32"@,
{
    reveal_strlit("Embedding");
    reveal_strlit("Reranker");
    reveal_strlit("Classifier");
    reveal_strlit("TokenClassifier");
    reveal_strlit("Generative");
    reveal_strlit("Generic");
    assert("Embedding"@[0] == 'E' && "Reranker"@[0] == 'R' && "Classifier"@[0] == 'C'
        && "TokenClassifier"@[0] == 'T' && "Generative"@[0] == 'G' && "Generic"@[0] == 'G');
    assert("Generative"@.len() == 10 && "Generic"@.len() == 7);
    reveal_strlit("Embed");
    reveal_strlit("Rerank");
    reveal_strlit("Classify");
    reveal_strlit("TokenClassify");
    reveal_strlit("Generate");
    reveal_strlit("Run");
    assert("Embed"@[0] == 'E' && "Rerank"@[1] == 'e' && "Classify"@[0] == 'C'
        && "TokenClassify"@[0] == 'T' && "Generate"@[0] == 'G' && "Run"@[1] == 'u');
    assert("Rerank"@[0] == 'R' && "Run"@[0] == 'R');
    reveal_strlit("Host");
    reveal_strlit("Pinned");
    reveal_strlit("Device");
    reveal_strlit("Shared");
    assert("Host"@[0] == 'H' && "Pinned"@[0] == 'P' && "Device"@[0] == 'D' && "Shared"@[0] == 'S');
    reveal_strlit("Bool");
    reveal_strlit("U8");
    reveal_strlit("U16");
    reveal_strlit("U32");
    reveal_strlit("U64");
    reveal_strlit("I8");
    reveal_strlit("I16");
    reveal_strlit("I32");
    reveal_strlit("I64");
    reveal_strlit("F16");
    reveal_strlit("BF16");
    reveal_strlit("F32");
    reveal_strlit("F64");
    reveal_strlit("Bytes");
    assert("F32"@[0] == 'F' && "F32"@[1] == '3' && "F16"@[0] == 'F' && "F16"@[1] == '1' && "F64"@[0]
        == 'F' && "F64"@[1] == '6' && "BF16"@[0] == 'B' && "BF16"@[1] == 'F' && "Bool"@[1] == 'o'
        && "Bytes"@[1] == 'y');
    assert("I32"@[0] == 'I' && "I32"@[1] == '3' && "I8"@.len() == 2 && "I16"@[1] == '1' && "I64"@[1]
        == '6');
    assert("U8"@[0] == 'U' && "U16"@[0] == 'U' && "U32"@[0] == 'U' && "U64"@[0] == 'U');
}

/// A row of a token batch is `seq` numbers that begin a stride behind the last row's.
pub proof fn rows_stand_a_stride_apart(b: TokenBatch, buffer: Seq<i32>, r: int, c: int)
    requires
        0 <= c < b.seq,
        0 <= r,
        r * b.row_stride + b.seq <= buffer.len(),
    ensures
        b.row(buffer, r).len() == b.seq,
        b.row(buffer, r)[c] == buffer[r * b.row_stride + c],
{
    assert(0 <= r * b.row_stride) by (nonlinear_arith)
        requires
            0 <= r,
            0 <= b.row_stride,
    ;
}

/// Options that were not given leave everything to the model: every choice is its,
/// nothing is limited and no score is left raw or put in order.
pub proof fn options_not_given_are_the_models(e: EmbedOptions, r: RerankOptions, c: ClassifyOptions)
    ensures
        e == embed_defaults() <==> e.truncate == Truncate::Model && e.max_tokens == 0
            && e.prompt_role == PromptRole::Off && e.normalize == Normalize::Model && e.pooling
            == Pooling::Model && e.output_dim == 0 && e.output_dtype == OutputDtype::Model,
        r == rerank_defaults() <==> r.truncate == Truncate::Model && r.max_tokens == 0 && r.top_n == 0
            && !r.return_sorted && !r.raw_scores,
        c == classify_defaults() <==> c.truncate == Truncate::Model && c.max_tokens == 0
            && c.aggregation == Aggregation::Model && !c.raw_scores,
{
}

/// A batch without token types has type 0 everywhere; one with them has its own.
pub proof fn types_not_given_are_zero(b: TokenBatch, r: int, i: int)
    requires
        0 <= i < b.seq,
    ensures
        b.types is None ==> b.types_row(r).len() == b.seq && b.types_row(r)[i] == 0,
        b.types matches Some(t) ==> b.types_row(r) == b.row(t@, r),
{
}

} // verus!

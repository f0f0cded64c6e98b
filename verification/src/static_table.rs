//! The static provider: a table of one vector per token.
//!
//! An embedding is the mean of the rows of a text's tokens. Which rows those
//! are is decided here; their numbers are carried as the bits of
//! single-precision numbers.

use vstd::prelude::*;
use crate::bytes::{as_u32, as_u64, le_values, pow256, read_all};
use crate::error::{Class, Error, ErrorView, agrees, agrees_plain, plain};
use crate::rank::{is_finite, is_finite_of};
use crate::text::{cat2, cat3, cat4, cat5, cat9, decimal, decimal_of, signed_decimal, signed_of};
use crate::types::{
    BundleNames, ModelInfo, ModelKind, Normalize, Placement, Pooling, StagePlacement, Stages, Task,
    kind_text, placement_text, task_text,
};

verus! {

/// Provider id.
pub const STATIC_PROVIDER_ID: &'static str = "static";

/// Artifact format name.
pub const STATIC_ARTIFACT: &'static str = "static";

/// The provider.
#[derive(Debug)]
pub struct StaticProvider;

/// The pinned version of the tokenizer.
pub fn tokenizers_version() -> (r: &'static str)
    ensures
        r@ == "0.23"@,
{
    "0.23"
}

/// Whether the provider offers a task: embedding text on its one device.
pub open spec fn offers(ordinal: u32, task: Task, text: bool) -> bool {
    ordinal == 0 && task == Task::Embed && text
}

/// What a bundle says of itself, as it was read.
pub struct Bundle {
    pub model_id: String,
    pub kind: ModelKind,
    pub has_static: bool,
    pub pooling: Result<Option<Pooling>, Error>,
    /// The pooling the manifest names, as debug output shows it.
    pub pooling_shown: String,
}

/// Whether the provider can run a task on a bundle, and if not, why.
pub open spec fn run_verdict(
    ordinal: u32,
    task: Task,
    text: bool,
    modality: Seq<char>,
    b: Bundle,
) -> Result<(), ErrorView> {
    if !offers(ordinal, task, text) {
        Err(
            plain(
                Class::UnsupportedTask,
                "static provider offers EMBED x TEXT only, not "@ + task_text(task) + " x "@ + modality,
            ),
        )
    } else if !b.has_static {
        Err(
            plain(
                Class::BundleNoArtifact,
                "bundle `"@ + b.model_id@ + "` has no `static` artifact"@,
            ),
        )
    } else if b.kind != ModelKind::Embedding {
        Err(
            plain(
                Class::UnsupportedTask,
                "static provider serves embedding bundles, not "@ + kind_text(b.kind),
            ),
        )
    } else {
        match b.pooling {
            Err(e) => Err(e@),
            Ok(p) => if p == Some(Pooling::Mean) {
                Ok(())
            } else {
                Err(
                    plain(
                        Class::Unsupported,
                        "static tables are mean-pooled; bundle `"@ + b.model_id@ + "` declares "@
                            + b.pooling_shown@,
                    ),
                )
            },
        }
    }
}

impl StaticProvider {
    /// Construct.
    pub fn new() -> (r: StaticProvider)
        ensures
            r == StaticProvider,
    {
        StaticProvider
    }

    /// Whether the provider offers a task.
    pub fn offers(&self, ordinal: u32, task: Task, text: bool) -> (r: bool)
        ensures
            r == offers(ordinal, task, text),
    {
        ordinal == 0 && task == Task::Embed && text
    }

    /// Whether the provider can run a task on a bundle. `modality` is the
    /// modality's name and `text` whether it is text.
    pub fn can_run(&self, ordinal: u32, task: Task, text: bool, modality: &str, b: Bundle) -> (r:
        Result<(), Error>)
        ensures
            agrees_plain(r, run_verdict(ordinal, task, text, modality@, b)),
    {
        if !self.offers(ordinal, task, text) {
            return Err(
                Error::plain(
                    Class::UnsupportedTask,
                    cat4(
                        "static provider offers EMBED x TEXT only, not ",
                        task.text(),
                        " x ",
                        modality,
                    ),
                ),
            );
        }
        if !b.has_static {
            return Err(
                Error::plain(
                    Class::BundleNoArtifact,
                    cat3("bundle `", b.model_id.as_str(), "` has no `static` artifact"),
                ),
            );
        }
        if b.kind != ModelKind::Embedding {
            return Err(
                Error::plain(
                    Class::UnsupportedTask,
                    cat2("static provider serves embedding bundles, not ", b.kind.text()),
                ),
            );
        }
        match b.pooling {
            Err(e) => Err(e),
            Ok(Some(Pooling::Mean)) => Ok(()),
            Ok(_) => Err(
                Error::plain(
                    Class::Unsupported,
                    cat4(
                        "static tables are mean-pooled; bundle `",
                        b.model_id.as_str(),
                        "` declares ",
                        b.pooling_shown.as_str(),
                    ),
                ),
            ),
        }
    }

    /// Whether there is a device of this ordinal.
    pub fn check_device(&self, ordinal: u32) -> (r: Result<(), Error>)
        ensures
            agrees_plain(
                r,
                if ordinal != 0 {
                    Err(
                        plain(
                            Class::DeviceNotFound,
                            "static provider has no device ordinal "@ + decimal(ordinal as nat),
                        ),
                    )
                } else {
                    Ok(())
                },
            ),
    {
        if ordinal != 0 {
            return Err(
                Error::plain(
                    Class::DeviceNotFound,
                    cat2(
                        "static provider has no device ordinal ",
                        decimal_of(ordinal as u128).as_str(),
                    ),
                ),
            );
        }
        Ok(())
    }

    /// Whether an allocation is offered: only in host memory.
    pub fn alloc_place(&self, placement: Placement) -> (r: Result<(), Error>)
        ensures
            agrees_plain(
                r,
                if placement == Placement::Host {
                    Ok(())
                } else {
                    Err(
                        plain(
                            Class::UnsupportedPlacement,
                            "static provider allocates TURBO_PLACE_HOST only, not "@
                                + placement_text(placement),
                        ),
                    )
                },
            ),
    {
        if placement == Placement::Host {
            return Ok(());
        }
        Err(
            Error::plain(
                Class::UnsupportedPlacement,
                cat2("static provider allocates TURBO_PLACE_HOST only, not ", placement.text()),
            ),
        )
    }

    /// The refusal of a buffer import: of a handle that is no host pointer, and
    /// of a host pointer, which is not written.
    pub fn import(&self, host_pointer: bool) -> (r: Error)
        ensures
            r@ == (if host_pointer {
                plain(Class::NotImplemented, "static provider buffer import"@)
            } else {
                plain(Class::Unsupported, "static provider imports TURBO_HANDLE_HOST_PTR only"@)
            }),
    {
        if host_pointer {
            Error::say(Class::NotImplemented, "static provider buffer import")
        } else {
            Error::say(Class::Unsupported, "static provider imports TURBO_HANDLE_HOST_PTR only")
        }
    }
}

/// A table: one row of `dim` numbers for each of `vocab_size` tokens.
#[derive(Debug)]
pub struct Table {
    pub vocab_size: u32,
    pub dim: u32,
    pub values: Vec<u32>,
}

impl Table {
    /// Whether the table has its shape and holds finite numbers only.
    pub open spec fn wf(&self) -> bool {
        &&& self.dim > 0
        &&& self.vocab_size > 0
        &&& self.values.len() == self.vocab_size * self.dim
        &&& forall|i: int| 0 <= i < self.values.len() ==> is_finite(#[trigger] self.values@[i])
    }
}

/// Whether every number is finite.
pub open spec fn all_finite(v: Seq<u32>) -> bool {
    forall|i: int| 0 <= i < v.len() ==> is_finite(#[trigger] v[i])
}

/// The numbers of a table file, or why it is refused.
pub open spec fn table_verdict(vocab_size: u32, dim: u32, bytes: Seq<u8>, path: Seq<char>) -> Result<
    Seq<u32>,
    ErrorView,
> {
    let need = vocab_size * dim * 4;
    if dim == 0 || vocab_size == 0 {
        Err(
            plain(
                Class::BundleInvalid,
                "static bundle must declare contract.dim and contract.vocab_size"@,
            ),
        )
    } else if need > usize::MAX {
        Err(plain(Class::BundleInvalid, "vocab_size * dim overflows"@))
    } else if bytes.len() != need {
        Err(
            plain(
                Class::BundleIntegrity,
                "static table `"@ + path + "` is "@ + decimal(bytes.len())
                    + " bytes; contract vocab_size "@ + decimal(vocab_size as nat) + " x dim "@
                    + decimal(dim as nat) + (" needs "@ + decimal(need as nat)),
            ),
        )
    } else if !all_finite(as_u32(le_values(bytes, 4))) {
        Err(
            plain(
                Class::BundleIntegrity,
                "static table `"@ + path + "` contains a non-finite value"@,
            ),
        )
    } else {
        Ok(as_u32(le_values(bytes, 4)))
    }
}

/// Read a table file: little-endian single-precision numbers, row by row.
pub fn read_table(vocab_size: u32, dim: u32, bytes: &Vec<u8>, path: &str) -> (r: Result<
    Table,
    Error,
>)
    ensures
        match table_verdict(vocab_size, dim, bytes@, path@) {
            Err(e) => r is Err && r->Err_0@ == e,
            Ok(v) => r is Ok && r->Ok_0.wf() && r->Ok_0.values@ == v && r->Ok_0.vocab_size
                == vocab_size && r->Ok_0.dim == dim,
        },
{
    if dim == 0 || vocab_size == 0 {
        return Err(
            Error::say(
                Class::BundleInvalid,
                "static bundle must declare contract.dim and contract.vocab_size",
            ),
        );
    }
    proof {
        let a = vocab_size as int;
        let b = dim as int;
        assert(0 <= a * b <= 0xffff_ffff * 0xffff_ffff) by (nonlinear_arith)
            requires
                0 <= a <= 0xffff_ffff,
                0 <= b <= 0xffff_ffff,
        ;
    }
    let need: u128 = vocab_size as u128 * dim as u128 * 4;
    if need > usize::MAX as u128 {
        return Err(Error::say(Class::BundleInvalid, "vocab_size * dim overflows"));
    }
    if bytes.len() as u128 != need {
        return Err(
            Error::plain(
                Class::BundleIntegrity,
                cat9(
                    "static table `",
                    path,
                    "` is ",
                    decimal_of(bytes.len() as u128).as_str(),
                    " bytes; contract vocab_size ",
                    decimal_of(vocab_size as u128).as_str(),
                    " x dim ",
                    decimal_of(dim as u128).as_str(),
                    cat2(" needs ", decimal_of(need).as_str()).as_str(),
                ),
            ),
        );
    }
    let values = read_words(bytes);
    if !all_finite_of(&values) {
        return Err(
            Error::plain(
                Class::BundleIntegrity,
                cat3("static table `", path, "` contains a non-finite value"),
            ),
        );
    }
    proof {
        crate::bytes::le_values_len(bytes@, 4);
    }
    Ok(Table { vocab_size, dim, values })
}

/// Whether every number is finite.
fn all_finite_of(v: &Vec<u32>) -> (r: bool)
    ensures
        r == all_finite(v@),
{
    let mut i: usize = 0;
    while i < v.len()
        invariant
            i <= v.len(),
            forall|k: int| 0 <= k < i ==> is_finite(#[trigger] v@[k]),
        decreases v.len() - i,
    {
        if !is_finite_of(v[i]) {
            return false;
        }
        i = i + 1;
    }
    true
}

/// The 32-bit numbers in bytes.
pub fn read_words(bytes: &Vec<u8>) -> (r: Vec<u32>)
    ensures
        r@ == as_u32(le_values(bytes@, 4)),
{
    let words = read_all(bytes, 4);
    let mut values: Vec<u32> = Vec::new();
    let ghost want = as_u32(le_values(bytes@, 4));
    let mut i: usize = 0;
    while i < words.len()
        invariant
            i <= words.len(),
            words@ == as_u64(le_values(bytes@, 4)),
            want == as_u32(le_values(bytes@, 4)),
            values@ == want.take(i as int),
        decreases words.len() - i,
    {
        let v: u32 = words[i] as u32;
        proof {
            value_bound(bytes@, i as int);
            assert(v == want[i as int]);
        }
        values.push(v);
        i = i + 1;
        proof {
            assert(values@ =~= want.take(i as int));
        }
    }
    proof {
        assert(values@ =~= want);
    }
    values
}

/// Four bytes write a 32-bit number.
proof fn value_bound(b: Seq<u8>, i: int)
    requires
        0 <= i < le_values(b, 4).len(),
    ensures
        le_values(b, 4)[i] < 0x1_0000_0000,
    decreases b.len(),
{
    reveal_with_fuel(pow256, 5);
    if b.len() >= 4 {
        crate::bytes::le_value_bound(b.take(4));
        if i > 0 {
            value_bound(b.skip(4), i - 1);
        }
    }
}

/// Whether the tokenizer has as many tokens as the table has rows.
pub fn check_vocabulary(tokenizer: u32, rows: u32) -> (r: Result<(), Error>)
    ensures
        match vocabulary_fault(tokenizer, rows) {
            Some(e) => r is Err && r->Err_0@ == e,
            None => r is Ok,
        },
{
    if tokenizer == rows {
        return Ok(());
    }
    Err(
        Error::plain(
            Class::BundleInvalid,
            cat5(
                "tokenizer vocabulary is ",
                decimal_of(tokenizer as u128).as_str(),
                " but the static table has ",
                decimal_of(rows as u128).as_str(),
                " rows",
            ),
        ),
    )
}

/// Whether information is that of a loaded model.
pub open spec fn tells_model(
    r: ModelInfo,
    dim: u32,
    vocab_size: u32,
    normalize: Option<Normalize>,
    max_seq: u32,
    max_batch: u32,
    names: BundleNames,
) -> bool {
    &&& r.task == Task::Embed
    &&& r.kind == ModelKind::Embedding
    &&& r.dim == dim
    &&& r.labels.len() == 0
    &&& r.pooling == Some(Pooling::Mean)
    &&& r.normalize == normalize
    &&& r.aggregation is None
    &&& r.max_seq == (if max_seq == 0 {
        512
    } else {
        max_seq
    })
    &&& r.max_batch == (if max_batch == 0 {
        64
    } else {
        max_batch
    })
    &&& r.f32_vectors
    &&& r.stages == (Stages {
        tokenize: StagePlacement::Host,
        encode: StagePlacement::Host,
        pool: StagePlacement::Host,
        normalize: StagePlacement::Host,
        postprocess: StagePlacement::Unused,
    })
    &&& r.vocab_size == vocab_size
    &&& r.names_bundle(names, STATIC_PROVIDER_ID@)
}

/// What the provider tells of a model it loaded. A limit of zero is replaced
/// by the provider's own: 512 tokens, 64 rows.
pub fn model_info(
    dim: u32,
    vocab_size: u32,
    normalize: Option<Normalize>,
    max_seq: u32,
    max_batch: u32,
    names: BundleNames,
) -> (r: ModelInfo)
    ensures
        tells_model(r, dim, vocab_size, normalize, max_seq, max_batch, names),
{
    let host = StagePlacement::Host;
    ModelInfo {
        task: Task::Embed,
        kind: ModelKind::Embedding,
        dim,
        labels: Vec::new(),
        pooling: Some(Pooling::Mean),
        normalize,
        aggregation: None,
        max_seq: if max_seq == 0 {
            512
        } else {
            max_seq
        },
        max_batch: if max_batch == 0 {
            64
        } else {
            max_batch
        },
        f32_vectors: true,
        stages: Stages {
            tokenize: host,
            encode: host,
            pool: host,
            normalize: host,
            postprocess: StagePlacement::Unused,
        },
        vocab_size,
        model_id: names.model_id,
        revision: names.revision,
        tokenizer_sha256: names.tokenizer_sha256,
        provider_id: STATIC_PROVIDER_ID.to_owned(),
        prefix_query: names.prefix_query,
        prefix_document: names.prefix_document,
    }
}

/// What a static bundle says, as it was read.
#[derive(Debug)]
pub struct StaticContract {
    pub dim: u32,
    pub vocab_size: u32,
    pub max_seq: u32,
    pub max_batch: u32,
    pub normalize: Result<Option<Normalize>, Error>,
    pub names: BundleNames,
}

/// A loaded model.
#[derive(Debug)]
pub struct StaticModel {
    pub table: Table,
    pub info: ModelInfo,
}

/// The refusal of a tokenizer that has not as many tokens as the table has rows.
pub open spec fn vocabulary_fault(tokenizer: u32, rows: u32) -> Option<ErrorView> {
    if tokenizer != rows {
        Some(
            plain(
                Class::BundleInvalid,
                "tokenizer vocabulary is "@ + decimal(tokenizer as nat)
                    + " but the static table has "@ + decimal(rows as nat) + " rows"@,
            ),
        )
    } else {
        None
    }
}

/// The refusal of a load, if there is one: of the contract's extents, then of the
/// file, the table in it, the tokenizer, its vocabulary and the normalization.
pub open spec fn load_fault(
    c: StaticContract,
    file: Result<Vec<u8>, Error>,
    path: Seq<char>,
    tokenizer: Result<u32, Error>,
) -> Option<ErrorView> {
    if c.dim == 0 || c.vocab_size == 0 {
        Some(
            plain(
                Class::BundleInvalid,
                "static bundle must declare contract.dim and contract.vocab_size"@,
            ),
        )
    } else {
        match file {
            Err(e) => Some(e@),
            Ok(bytes) => match table_verdict(c.vocab_size, c.dim, bytes@, path) {
                Err(e) => Some(e),
                Ok(_) => match tokenizer {
                    Err(e) => Some(e@),
                    Ok(n) => match vocabulary_fault(n, c.vocab_size) {
                        Some(e) => Some(e),
                        None => match c.normalize {
                            Err(e) => Some(e@),
                            Ok(_) => None,
                        },
                    },
                },
            },
        }
    }
}

/// Load a model. `file` are the bytes of the table at `path`, `tokenizer` the size of
/// the tokenizer's vocabulary.
pub fn load_model(
    c: StaticContract,
    file: Result<Vec<u8>, Error>,
    path: &str,
    tokenizer: Result<u32, Error>,
) -> (r: Result<StaticModel, Error>)
    ensures
        match load_fault(c, file, path@, tokenizer) {
            Some(e) => r is Err && r->Err_0@ == e,
            None => {
                &&& r is Ok
                &&& r->Ok_0.table.wf()
                &&& r->Ok_0.table.vocab_size == c.vocab_size
                &&& r->Ok_0.table.dim == c.dim
                &&& r->Ok_0.table.values@ == as_u32(le_values(file->Ok_0@, 4))
                &&& tells_model(
                    r->Ok_0.info,
                    c.dim,
                    c.vocab_size,
                    c.normalize->Ok_0,
                    c.max_seq,
                    c.max_batch,
                    c.names,
                )
            },
        },
{
    if c.dim == 0 || c.vocab_size == 0 {
        return Err(
            Error::say(
                Class::BundleInvalid,
                "static bundle must declare contract.dim and contract.vocab_size",
            ),
        );
    }
    let bytes = match file {
        Err(e) => return Err(e),
        Ok(b) => b,
    };
    let table = match read_table(c.vocab_size, c.dim, &bytes, path) {
        Err(e) => return Err(e),
        Ok(t) => t,
    };
    let n = match tokenizer {
        Err(e) => return Err(e),
        Ok(n) => n,
    };
    match check_vocabulary(n, c.vocab_size) {
        Err(e) => return Err(e),
        Ok(()) => {},
    }
    let normalize = match c.normalize {
        Err(e) => return Err(e),
        Ok(n) => n,
    };
    let info = model_info(c.dim, c.vocab_size, normalize, c.max_seq, c.max_batch, c.names);
    Ok(StaticModel { table, info })
}

/// The table rows that the first `n` columns pick, in order: the tokens whose
/// mask is not zero. A token outside the table is refused.
pub open spec fn picked(ids: Seq<i32>, mask: Seq<i32>, vocab_size: u32, n: int) -> Result<
    Seq<u32>,
    ErrorView,
>
    decreases n,
{
    if n <= 0 {
        Ok(Seq::empty())
    } else {
        match picked(ids, mask, vocab_size, n - 1) {
            Err(e) => Err(e),
            Ok(rows) => if mask[n - 1] == 0 {
                Ok(rows)
            } else if ids[n - 1] < 0 || ids[n - 1] >= vocab_size {
                Err(
                    plain(
                        Class::InvalidArgument,
                        "token id "@ + signed_decimal(ids[n - 1] as int)
                            + " is outside the table of "@ + decimal(vocab_size as nat) + " rows"@,
                    ),
                )
            } else {
                Ok(rows.push(ids[n - 1] as u32))
            },
        }
    }
}

/// A refused token decides the whole.
proof fn picked_refusal_stays(ids: Seq<i32>, mask: Seq<i32>, vocab_size: u32, i: int, n: int)
    requires
        0 <= i <= n,
    ensures
        picked(ids, mask, vocab_size, i) is Err ==> picked(ids, mask, vocab_size, n) == picked(
            ids,
            mask,
            vocab_size,
            i,
        ),
    decreases n,
{
    if i < n {
        picked_refusal_stays(ids, mask, vocab_size, i, n - 1);
    }
}

/// The table rows whose mean is the embedding of a row of tokens.
pub fn picked_of(ids: &Vec<i32>, mask: &Vec<i32>, vocab_size: u32) -> (r: Result<Vec<u32>, Error>)
    requires
        ids.len() == mask.len(),
    ensures
        agrees(r, picked(ids@, mask@, vocab_size, ids.len() as int)),
{
    let mut rows: Vec<u32> = Vec::new();
    let mut i: usize = 0;
    while i < ids.len()
        invariant
            i <= ids.len(),
            ids.len() == mask.len(),
            picked(ids@, mask@, vocab_size, i as int) == Ok::<Seq<u32>, ErrorView>(rows@),
        decreases ids.len() - i,
    {
        proof {
            picked_refusal_stays(ids@, mask@, vocab_size, i + 1, ids.len() as int);
        }
        if mask[i] != 0 {
            let id = ids[i];
            if id < 0 || id as u32 >= vocab_size {
                return Err(
                    Error::plain(
                        Class::InvalidArgument,
                        cat5(
                            "token id ",
                            signed_of(id as i64).as_str(),
                            " is outside the table of ",
                            decimal_of(vocab_size as u128).as_str(),
                            " rows",
                        ),
                    ),
                );
            }
            rows.push(id as u32);
        }
        i = i + 1;
    }
    Ok(rows)
}

/// The numbers of table row `id`.
pub fn table_row(t: &Table, id: u32) -> (r: Vec<u32>)
    requires
        t.wf(),
        id < t.vocab_size,
    ensures
        r@ == t.values@.subrange(id * t.dim, id * t.dim + t.dim),
{
    proof {
        assert(id * t.dim + t.dim <= t.vocab_size * t.dim) by (nonlinear_arith)
            requires
                id + 1 <= t.vocab_size,
        ;
        assert(0 <= id * t.dim) by (nonlinear_arith);
    }
    let base: u64 = id as u64 * t.dim as u64;
    let base: usize = base as usize;
    let dim: usize = t.dim as usize;
    let mut out: Vec<u32> = Vec::new();
    let mut k: usize = 0;
    while k < dim
        invariant
            k <= dim,
            base + dim <= t.values.len(),
            out@ == t.values@.subrange(base as int, base + k),
        decreases dim - k,
    {
        out.push(t.values[base + k]);
        k = k + 1;
        proof {
            assert(out@ =~= t.values@.subrange(base as int, base + k));
        }
    }
    out
}

/// The same tokens in another order pick the same rows as often: two rows of
/// tokens without padding that are permutations of each other pick permuted rows.
pub proof fn picked_is_a_bag(a: Seq<i32>, b: Seq<i32>, vocab_size: u32)
    requires
        a.to_multiset() == b.to_multiset(),
        forall|i: int| 0 <= i < a.len() ==> 0 <= #[trigger] a[i] < vocab_size,
    ensures
        ({
            let ones = Seq::new(a.len(), |i: int| 1i32);
            let pa = picked(a, ones, vocab_size, a.len() as int);
            let pb = picked(b, ones, vocab_size, b.len() as int);
            &&& a.len() == b.len()
            &&& pa is Ok
            &&& pb is Ok
            &&& pa->Ok_0.to_multiset() == pb->Ok_0.to_multiset()
        }),
{
    broadcast use vstd::seq_lib::group_to_multiset_ensures;

    assert(a.to_multiset().len() == a.len() && b.to_multiset().len() == b.len());
    let ones = Seq::new(a.len(), |i: int| 1i32);
    assert forall|i: int| 0 <= i < b.len() implies 0 <= #[trigger] b[i] < vocab_size by {
        assert(b.contains(b[i]));
        assert(b.to_multiset().count(b[i]) > 0);
        assert(a.to_multiset().count(b[i]) > 0);
        assert(a.contains(b[i]));
        let j = choose|j: int| 0 <= j < a.len() && a[j] == b[i];
        assert(0 <= a[j] < vocab_size);
    }
    picked_all(a, ones, vocab_size, a.len() as int);
    picked_all(b, ones, vocab_size, b.len() as int);
    let f = |x: i32| x as u32;
    assert(a.map_values(f) =~= Seq::new(a.len(), |i: int| a[i] as u32));
    assert(b.map_values(f) =~= Seq::new(b.len(), |i: int| b[i] as u32));
    map_keeps_bag(a, b);
}

/// A row of tokens without padding picks each token's row.
proof fn picked_all(ids: Seq<i32>, mask: Seq<i32>, vocab_size: u32, n: int)
    requires
        0 <= n <= ids.len() == mask.len(),
        forall|i: int| 0 <= i < ids.len() ==> 0 <= #[trigger] ids[i] < vocab_size,
        forall|i: int| 0 <= i < mask.len() ==> #[trigger] mask[i] != 0,
    ensures
        picked(ids, mask, vocab_size, n) == Ok::<Seq<u32>, ErrorView>(
            Seq::new(n as nat, |i: int| ids[i] as u32),
        ),
    decreases n,
{
    if n > 0 {
        picked_all(ids, mask, vocab_size, n - 1);
        assert(Seq::new((n - 1) as nat, |i: int| ids[i] as u32).push(ids[n - 1] as u32) =~= Seq::new(
            n as nat,
            |i: int| ids[i] as u32,
        ));
    } else {
        assert(Seq::new(n as nat, |i: int| ids[i] as u32) =~= Seq::<u32>::empty());
    }
}

/// Equal bags stay equal under a map.
proof fn map_keeps_bag(a: Seq<i32>, b: Seq<i32>)
    requires
        a.to_multiset() == b.to_multiset(),
    ensures
        Seq::new(a.len(), |i: int| a[i] as u32).to_multiset() == Seq::new(
            b.len(),
            |i: int| b[i] as u32,
        ).to_multiset(),
    decreases a.len(),
{
    broadcast use vstd::seq_lib::group_to_multiset_ensures;

    let ma = Seq::new(a.len(), |i: int| a[i] as u32);
    let mb = Seq::new(b.len(), |i: int| b[i] as u32);
    assert(a.to_multiset().len() == a.len() && b.to_multiset().len() == b.len());
    if a.len() == 0 {
        assert(ma =~= mb);
    } else {
        let x = a.last();
        assert(a.to_multiset().count(x) > 0) by {
            assert(a.contains(x));
        }
        assert(b.contains(x));
        let j = choose|j: int| 0 <= j < b.len() && b[j] == x;
        let a1 = a.drop_last();
        let b1 = b.remove(j);
        assert(a =~= a1.push(x));
        assert(a.to_multiset() == a1.to_multiset().insert(x));
        assert(b1.to_multiset() =~= b.to_multiset().remove(x));
        assert(a1.to_multiset() =~= b1.to_multiset());
        map_keeps_bag(a1, b1);
        let ma1 = Seq::new(a1.len(), |i: int| a1[i] as u32);
        let mb1 = Seq::new(b1.len(), |i: int| b1[i] as u32);
        assert(ma =~= ma1.push(x as u32));
        assert(mb1 =~= mb.remove(j));
        assert(mb[j] == x as u32);
        assert(mb1.to_multiset() =~= mb.to_multiset().remove(x as u32));
        assert(ma.to_multiset() =~= mb.to_multiset());
    }
}

/// A bundle is run where the task is embedding text on the one device, a static
/// table is there, the bundle embeds and averages; what is refused first is the
/// task, then a bundle without a table, then one of another kind.
pub proof fn a_bundle_is_run_where_it_can_be(
    ordinal: u32,
    task: Task,
    text: bool,
    modality: Seq<char>,
    b: Bundle,
)
    ensures
        ({
            let v = run_verdict(ordinal, task, text, modality, b);
            let served = ordinal == 0 && task == Task::Embed && text;
            &&& v is Ok <==> served && b.has_static && b.kind == ModelKind::Embedding && b.pooling
                is Ok && b.pooling->Ok_0 == Some(Pooling::Mean)
            &&& !served ==> v is Err && v->Err_0.class == Class::UnsupportedTask
            &&& served && !b.has_static ==> v is Err && v->Err_0.class == Class::BundleNoArtifact
            &&& served && b.has_static && b.kind != ModelKind::Embedding ==> v is Err
                && v->Err_0.class == Class::UnsupportedTask
            &&& served && b.has_static && b.kind == ModelKind::Embedding && b.pooling is Err ==> v
                is Err && v->Err_0 == b.pooling->Err_0@
            &&& served && b.has_static && b.kind == ModelKind::Embedding && b.pooling is Ok && v
                is Err ==> v->Err_0.class == Class::Unsupported
        }),
{
}

/// A table is read where it has rows and columns, four bytes for each number and
/// only finite numbers: number `i` is written in its own four bytes, the lowest
/// first. Otherwise a table without rows or columns is an invalid bundle, and one
/// of another size, or with a number that is not finite, a damaged one.
pub proof fn a_table_is_its_bytes(vocab_size: u32, dim: u32, bytes: Seq<u8>, path: Seq<char>, i: int)
    requires
        vocab_size * dim * 4 <= usize::MAX,
    ensures
        ({
            let v = table_verdict(vocab_size, dim, bytes, path);
            let shaped = vocab_size > 0 && dim > 0;
            &&& v is Ok ==> shaped && bytes.len() == 4 * vocab_size * dim && v->Ok_0.len()
                == vocab_size * dim
            &&& v is Ok && 0 <= i < vocab_size * dim ==> is_finite(v->Ok_0[i]) && v->Ok_0[i]
                == bytes[4 * i] + 256 * bytes[4 * i + 1] + 0x1_0000 * bytes[4 * i + 2] + 0x100_0000
                * bytes[4 * i + 3]
            &&& !shaped ==> v is Err && v->Err_0.class == Class::BundleInvalid
            &&& shaped && v is Err ==> v->Err_0.class == Class::BundleIntegrity
            &&& shaped && bytes.len() == 4 * vocab_size * dim && v is Err ==> !all_finite(
                as_u32(le_values(bytes, 4)),
            )
        }),
{
    let n = vocab_size * dim;
    assert(4 * vocab_size * dim == 4 * n && vocab_size * dim * 4 == 4 * n) by (nonlinear_arith)
        requires
            n == vocab_size * dim,
    ;
    let v = table_verdict(vocab_size, dim, bytes, path);
    crate::bytes::le_values_len(bytes, 4);
    if v is Ok && 0 <= i < n {
        crate::bytes::numbers_are_read_from_their_own_bytes(bytes, 4, i);
        four_bytes(bytes.subrange(i * 4, i * 4 + 4));
        let values = as_u32(le_values(bytes, 4));
        assert(is_finite(values[i]));
    }
}

/// A number in four bytes, the lowest first.
proof fn four_bytes(b: Seq<u8>)
    requires
        b.len() == 4,
    ensures
        crate::bytes::le_value(b) == b[0] + 256 * b[1] + 0x1_0000 * b[2] + 0x100_0000 * b[3],
{
    reveal_with_fuel(crate::bytes::le_value, 5);
}

/// A table is loaded where its tokenizer numbers just its rows and nothing else is
/// at fault; the table's own faults are told before the tokenizer's, and those
/// before the contract's.
pub proof fn a_table_is_loaded_where_it_fits_its_tokenizer(
    c: StaticContract,
    bytes: Vec<u8>,
    path: Seq<char>,
    tokenizer: u32,
)
    ensures
        ({
            let table = table_verdict(c.vocab_size, c.dim, bytes@, path);
            let fault = load_fault(c, Ok(bytes), path, Ok(tokenizer));
            &&& fault is None <==> table is Ok && tokenizer == c.vocab_size && c.normalize is Ok
            &&& table is Err ==> fault == Some(table->Err_0)
            &&& table is Ok && tokenizer != c.vocab_size ==> fault is Some && fault->0.class
                == Class::BundleInvalid
            &&& table is Ok && tokenizer == c.vocab_size && c.normalize is Err ==> fault == Some(
                c.normalize->Err_0@,
            )
        }),
{
}

/// The rows of the table that are averaged are those of the live tokens, one for
/// each, in their order: entry `k` is the token at place `at[k]`.
pub proof fn the_live_tokens_are_averaged(ids: Seq<i32>, mask: Seq<i32>, vocab_size: u32, n: int) -> (at: Seq<
    int,
>)
    requires
        0 <= n <= ids.len(),
        picked(ids, mask, vocab_size, n) is Ok,
    ensures
        at.len() == picked(ids, mask, vocab_size, n)->Ok_0.len(),
        forall|k: int|
            0 <= k < at.len() ==> 0 <= (#[trigger] at[k]) < n && mask[at[k]] != 0 && picked(
                ids,
                mask,
                vocab_size,
                n,
            )->Ok_0[k] == ids[at[k]] && 0 <= ids[at[k]] < vocab_size,
        forall|j: int, k: int| 0 <= j < k < at.len() ==> #[trigger] at[j] < #[trigger] at[k],
        forall|i: int| 0 <= i < n && #[trigger] mask[i] != 0 ==> at.contains(i),
    decreases n,
{
    if n <= 0 {
        Seq::empty()
    } else {
        let at = the_live_tokens_are_averaged(ids, mask, vocab_size, n - 1);
        let before = picked(ids, mask, vocab_size, n - 1)->Ok_0;
        if mask[n - 1] == 0 {
            at
        } else {
            let more = at.push(n - 1);
            assert forall|i: int| 0 <= i < n && #[trigger] mask[i] != 0 implies more.contains(i) by {
                if i < n - 1 {
                    assert(at.contains(i));
                    let k = choose|k: int| 0 <= k < at.len() && at[k] == i;
                    assert(more[k] == i);
                } else {
                    assert(more[at.len() as int] == i);
                }
            }
            let after = picked(ids, mask, vocab_size, n)->Ok_0;
            assert(after == before.push(ids[n - 1] as u32));
            assert forall|k: int| 0 <= k < more.len() implies 0 <= (#[trigger] more[k]) < n
                && mask[more[k]] != 0 && after[k] == ids[more[k]] && 0 <= ids[more[k]] < vocab_size by {
                if k < at.len() {
                    assert(more[k] == at[k]);
                    assert(after[k] == before[k]);
                }
            }
            assert forall|j: int, k: int| 0 <= j < k < more.len() implies #[trigger] more[j]
                < #[trigger] more[k] by {
                assert(more[j] == at[j]);
                if k < at.len() {
                    assert(more[k] == at[k]);
                }
            }
            more
        }
    }
}

/// Tokens are refused for the first live one that the table has no row for: a token
/// that is masked out is never looked at.
pub proof fn the_first_token_outside_is_told(ids: Seq<i32>, mask: Seq<i32>, vocab_size: u32, i: int, n: int)
    requires
        0 <= i <= n <= ids.len(),
        forall|k: int| 0 <= k < i ==> mask[k] == 0 || 0 <= #[trigger] ids[k] < vocab_size,
    ensures
        i == n ==> picked(ids, mask, vocab_size, n) is Ok,
        i < n && mask[i] != 0 && !(0 <= ids[i] < vocab_size) ==> picked(ids, mask, vocab_size, n)
            == Err::<Seq<u32>, ErrorView>(
            plain(
                Class::InvalidArgument,
                "token id "@ + signed_decimal(ids[i] as int) + " is outside the table of "@ + decimal(
                    vocab_size as nat,
                ) + " rows"@,
            ),
        ),
    decreases i,
{
    if i > 0 {
        the_first_token_outside_is_told(ids, mask, vocab_size, i - 1, i - 1);
        assert(mask[i - 1] == 0 || 0 <= ids[i - 1] < vocab_size);
    }
    assert(picked(ids, mask, vocab_size, i) is Ok);
    if i < n && mask[i] != 0 && !(0 <= ids[i] < vocab_size) {
        assert(picked(ids, mask, vocab_size, i + 1) is Err);
        picked_refusal_stays(ids, mask, vocab_size, i + 1, n);
    }
}

/// A model's limits are those of its contract, 512 tokens and 64 rows where the
/// contract has none; it embeds by the mean, all on the host.
pub proof fn a_model_tells_its_limits(
    r: ModelInfo,
    dim: u32,
    vocab_size: u32,
    normalize: Option<Normalize>,
    max_seq: u32,
    max_batch: u32,
    names: BundleNames,
)
    requires
        tells_model(r, dim, vocab_size, normalize, max_seq, max_batch, names),
    ensures
        max_seq > 0 ==> r.max_seq == max_seq,
        max_batch > 0 ==> r.max_batch == max_batch,
        max_seq == 0 ==> r.max_seq == 512,
        max_batch == 0 ==> r.max_batch == 64,
        r.max_seq > 0 && r.max_batch > 0,
        r.dim == dim && r.vocab_size == vocab_size && r.normalize == normalize,
        r.kind == ModelKind::Embedding && r.task == Task::Embed && r.pooling == Some(Pooling::Mean),
        r.stages.tokenize == StagePlacement::Host && r.stages.encode == StagePlacement::Host
            && r.stages.pool == StagePlacement::Host && r.stages.normalize == StagePlacement::Host
            && r.stages.postprocess == StagePlacement::Unused,
{
}

} // verus!

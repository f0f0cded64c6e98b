//! The engine: the served models with their session buckets, and the decisions
//! of the tasks that the routes call. Sessions have a fixed shape and one owner,
//! so each model keeps a pool per (batch, seq) bucket; a request is served by the
//! smallest bucket that fits it and padded within it, split into bucket-sized
//! chunks when it has more rows than the largest bucket, and rejected with the
//! limit when it is longer than the longest bucket. Nothing is truncated unless
//! the request asks for it.

use vstd::prelude::*;
use crate::error::{agrees_plain, on_field, plain, Class, Error, ErrorView, Field};
use crate::bytes::{as_u32, le_values, pow256, read_all};
use crate::ggml::{prompt_chunks, FinishReason};
use crate::order::{lex_antisymmetric, lex_le, lex_le_of, lex_reflexive, lex_total, lex_transitive};
use crate::rank::{is_ranking, ranking};
use crate::text::{
    cat3, cat4, cat5, cat6, cat7, cat8, cat9, copy_all, decimal, decimal_of, holds, join_of, joined, last_at,
    last_at_bounds, lower_of, lowered, opt_view, rsplit_once_of, same, views,
};
use crate::types::{
    dtype_text, kind_text, Aggregation, DType, ModelKind, Normalize, Pooling, PromptRole, Truncate,
};

verus! {

/// `model`, `none`, `right` or `left`; `true` and `false` as some clients spell them.
pub open spec fn truncate_value(v: Option<Seq<char>>) -> Result<Truncate, ErrorView> {
    match v {
        None => Ok(Truncate::Model),
        Some(given) => {
            let s = lowered(given);
            if s == "model"@ {
                Ok(Truncate::Model)
            } else if s == "none"@ || s == "false"@ {
                Ok(Truncate::Off)
            } else if s == "right"@ || s == "true"@ {
                Ok(Truncate::Right)
            } else if s == "left"@ {
                Ok(Truncate::Left)
            } else {
                Err(
                    on_field(
                        Class::BadRequest,
                        Field::EmbedTruncate,
                        "truncate `"@ + s + "` is not model, none, right or left"@,
                    ),
                )
            }
        },
    }
}

/// `model`, `none`, `right` or `left`; `true` and `false` as some clients spell them.
pub fn parse_truncate(v: &Option<String>) -> (r: Result<Truncate, Error>)
    ensures
        agrees_plain(r, truncate_value(opt_view(*v))),
{
    let given = match v {
        None => return Ok(Truncate::Model),
        Some(s) => lower_of(s.as_str()),
    };
    let s = given.as_str();
    if same(s, "model") {
        Ok(Truncate::Model)
    } else if same(s, "none") || same(s, "false") {
        Ok(Truncate::Off)
    } else if same(s, "right") || same(s, "true") {
        Ok(Truncate::Right)
    } else if same(s, "left") {
        Ok(Truncate::Left)
    } else {
        Err(
            Error::on_field(
                Class::BadRequest,
                Field::EmbedTruncate,
                cat3("truncate `", s, "` is not model, none, right or left"),
            ),
        )
    }
}

/// `none`, `query` or `document` (`passage` is the same role).
pub open spec fn prompt_role_value(v: Option<Seq<char>>) -> Result<PromptRole, ErrorView> {
    match v {
        None => Ok(PromptRole::Off),
        Some(given) => {
            let s = lowered(given);
            if s == "none"@ {
                Ok(PromptRole::Off)
            } else if s == "query"@ {
                Ok(PromptRole::Query)
            } else if s == "document"@ || s == "passage"@ {
                Ok(PromptRole::Document)
            } else {
                Err(
                    on_field(
                        Class::BadRequest,
                        Field::EmbedPromptRole,
                        "prompt_role `"@ + s + "` is not none, query or document"@,
                    ),
                )
            }
        },
    }
}

/// `none`, `query` or `document` (`passage` is the same role).
pub fn parse_prompt_role(v: &Option<String>) -> (r: Result<PromptRole, Error>)
    ensures
        agrees_plain(r, prompt_role_value(opt_view(*v))),
{
    let given = match v {
        None => return Ok(PromptRole::Off),
        Some(s) => lower_of(s.as_str()),
    };
    let s = given.as_str();
    if same(s, "none") {
        Ok(PromptRole::Off)
    } else if same(s, "query") {
        Ok(PromptRole::Query)
    } else if same(s, "document") || same(s, "passage") {
        Ok(PromptRole::Document)
    } else {
        Err(
            Error::on_field(
                Class::BadRequest,
                Field::EmbedPromptRole,
                cat3("prompt_role `", s, "` is not none, query or document"),
            ),
        )
    }
}

/// `model`, `none` or `l2`.
pub open spec fn normalize_value(v: Option<Seq<char>>) -> Result<Normalize, ErrorView> {
    match v {
        None => Ok(Normalize::Model),
        Some(given) => {
            let s = lowered(given);
            if s == "model"@ {
                Ok(Normalize::Model)
            } else if s == "none"@ || s == "false"@ {
                Ok(Normalize::Off)
            } else if s == "l2"@ || s == "true"@ {
                Ok(Normalize::L2)
            } else {
                Err(
                    on_field(
                        Class::BadRequest,
                        Field::EmbedNormalize,
                        "normalize `"@ + s + "` is not model, none or l2"@,
                    ),
                )
            }
        },
    }
}

/// `model`, `none` or `l2`.
pub fn parse_normalize(v: &Option<String>) -> (r: Result<Normalize, Error>)
    ensures
        agrees_plain(r, normalize_value(opt_view(*v))),
{
    let given = match v {
        None => return Ok(Normalize::Model),
        Some(s) => lower_of(s.as_str()),
    };
    let s = given.as_str();
    if same(s, "model") {
        Ok(Normalize::Model)
    } else if same(s, "none") || same(s, "false") {
        Ok(Normalize::Off)
    } else if same(s, "l2") || same(s, "true") {
        Ok(Normalize::L2)
    } else {
        Err(
            Error::on_field(
                Class::BadRequest,
                Field::EmbedNormalize,
                cat3("normalize `", s, "` is not model, none or l2"),
            ),
        )
    }
}

/// `model`, `mean`, `cls` or `last`.
pub open spec fn pooling_value(v: Option<Seq<char>>) -> Result<Pooling, ErrorView> {
    match v {
        None => Ok(Pooling::Model),
        Some(given) => {
            let s = lowered(given);
            if s == "model"@ {
                Ok(Pooling::Model)
            } else if s == "mean"@ {
                Ok(Pooling::Mean)
            } else if s == "cls"@ {
                Ok(Pooling::Cls)
            } else if s == "last"@ {
                Ok(Pooling::Last)
            } else {
                Err(
                    on_field(
                        Class::BadRequest,
                        Field::EmbedPooling,
                        "pooling `"@ + s + "` is not model, mean, cls or last"@,
                    ),
                )
            }
        },
    }
}

/// `model`, `mean`, `cls` or `last`.
pub fn parse_pooling(v: &Option<String>) -> (r: Result<Pooling, Error>)
    ensures
        agrees_plain(r, pooling_value(opt_view(*v))),
{
    let given = match v {
        None => return Ok(Pooling::Model),
        Some(s) => lower_of(s.as_str()),
    };
    let s = given.as_str();
    if same(s, "model") {
        Ok(Pooling::Model)
    } else if same(s, "mean") {
        Ok(Pooling::Mean)
    } else if same(s, "cls") {
        Ok(Pooling::Cls)
    } else if same(s, "last") {
        Ok(Pooling::Last)
    } else {
        Err(
            Error::on_field(
                Class::BadRequest,
                Field::EmbedPooling,
                cat3("pooling `", s, "` is not model, mean, cls or last"),
            ),
        )
    }
}

/// `model`, `none`, `simple`, `first` or `max`.
pub open spec fn aggregation_value(v: Option<Seq<char>>) -> Result<Aggregation, ErrorView> {
    match v {
        None => Ok(Aggregation::Model),
        Some(given) => {
            let s = lowered(given);
            if s == "model"@ {
                Ok(Aggregation::Model)
            } else if s == "none"@ {
                Ok(Aggregation::Off)
            } else if s == "simple"@ {
                Ok(Aggregation::Simple)
            } else if s == "first"@ {
                Ok(Aggregation::First)
            } else if s == "max"@ {
                Ok(Aggregation::Max)
            } else {
                Err(
                    on_field(
                        Class::BadRequest,
                        Field::ClassifyAggregation,
                        "aggregation `"@ + s + "` is not model, none, simple, first or max"@,
                    ),
                )
            }
        },
    }
}

/// `model`, `none`, `simple`, `first` or `max`.
pub fn parse_aggregation(v: &Option<String>) -> (r: Result<Aggregation, Error>)
    ensures
        agrees_plain(r, aggregation_value(opt_view(*v))),
{
    let given = match v {
        None => return Ok(Aggregation::Model),
        Some(s) => lower_of(s.as_str()),
    };
    let s = given.as_str();
    if same(s, "model") {
        Ok(Aggregation::Model)
    } else if same(s, "none") {
        Ok(Aggregation::Off)
    } else if same(s, "simple") {
        Ok(Aggregation::Simple)
    } else if same(s, "first") {
        Ok(Aggregation::First)
    } else if same(s, "max") {
        Ok(Aggregation::Max)
    } else {
        Err(
            Error::on_field(
                Class::BadRequest,
                Field::ClassifyAggregation,
                cat3("aggregation `", s, "` is not model, none, simple, first or max"),
            ),
        )
    }
}

/// A session shape: so many rows of so many tokens.
#[derive(Clone, Copy, Debug, PartialEq, Eq, Structural)]
pub struct Bucket {
    pub batch: u32,
    pub seq: u32,
}

/// The name that clients use for a model: the one it was given, else what stands
/// behind the last `/` of its identifier, else the identifier.
pub open spec fn served_name(given: Option<Seq<char>>, model_id: Seq<char>) -> Seq<char> {
    match given {
        Some(n) => n,
        None => {
            let tail = model_id.skip(last_at(model_id, '/') + 1);
            if tail.len() > 0 {
                tail
            } else {
                model_id
            }
        },
    }
}

/// The name that clients use for a model.
pub fn served_name_of(given: &Option<String>, model_id: &str) -> (r: String)
    ensures
        r@ == served_name(opt_view(*given), model_id@),
{
    if let Some(n) = given {
        return n.clone();
    }
    proof {
        last_at_bounds(model_id@, '/');
        assert(model_id@.skip(0) =~= model_id@);
    }
    match rsplit_once_of(model_id, '/') {
        Some((_, tail)) => if !tail.as_str().is_empty() {
            tail
        } else {
            model_id.to_owned()
        },
        None => model_id.to_owned(),
    }
}

/// The batches that a model is served in where none is configured: 1, 8 and its
/// largest, as far as it takes them, each once.
pub open spec fn default_batches(max_batch: u32) -> Seq<u32> {
    if max_batch <= 1 {
        seq![max_batch]
    } else if max_batch <= 8 {
        seq![1, max_batch]
    } else {
        seq![1, 8, max_batch]
    }
}

/// The buckets of a model where none is configured.
pub fn default_buckets(max_batch: u32, max_seq: u32) -> (r: Vec<Bucket>)
    ensures
        r@ == default_batches(max_batch).map_values(|b: u32| Bucket { batch: b, seq: max_seq }),
{
    let mut v: Vec<Bucket> = Vec::new();
    if max_batch > 1 {
        v.push(Bucket { batch: 1, seq: max_seq });
    }
    if max_batch > 8 {
        v.push(Bucket { batch: 8, seq: max_seq });
    }
    v.push(Bucket { batch: max_batch, seq: max_seq });
    proof {
        assert(v@ =~= default_batches(max_batch).map_values(
            |b: u32| Bucket { batch: b, seq: max_seq },
        ));
    }
    v
}

/// Whether bucket `a` is listed before or with `b`: by length, then by rows.
pub open spec fn listed(a: Bucket, b: Bucket) -> bool {
    a.seq < b.seq || (a.seq == b.seq && a.batch <= b.batch)
}

/// Whether the buckets are in order.
pub open spec fn in_list_order(v: Seq<Bucket>) -> bool {
    forall|i: int, j: int| 0 <= i < j < v.len() ==> listed(#[trigger] v[i], #[trigger] v[j])
}

/// The refusal of the first bucket over a model's limits, from place `i` on.
pub open spec fn bucket_fault(
    name: Seq<char>,
    shapes: Seq<Bucket>,
    max_batch: u32,
    max_seq: u32,
    i: int,
) -> Option<ErrorView>
    decreases shapes.len() - i,
{
    if i < 0 || i >= shapes.len() {
        None
    } else if shapes[i].batch > max_batch || shapes[i].seq > max_seq {
        Some(
            plain(
                Class::BadRequest,
                "model `"@ + name + "`: bucket "@ + decimal(shapes[i].batch as nat) + "x"@ + decimal(
                    shapes[i].seq as nat,
                ) + " exceeds the model's limits "@ + (decimal(max_batch as nat) + "x"@ + decimal(
                    max_seq as nat,
                )),
            ),
        )
    } else {
        bucket_fault(name, shapes, max_batch, max_seq, i + 1)
    }
}

/// The bucket put where it belongs.
fn put_bucket(v: &mut Vec<Bucket>, b: Bucket)
    requires
        in_list_order(old(v)@),
    ensures
        in_list_order(final(v)@),
        final(v)@.to_multiset() == old(v)@.to_multiset().insert(b),
{
    let ghost before = v@;
    let mut at: usize = v.len();
    while at > 0 && (v[at - 1].seq > b.seq || (v[at - 1].seq == b.seq && v[at - 1].batch > b.batch))
        invariant
            at <= v.len(),
            v@ == before,
            in_list_order(before),
            forall|i: int| at <= i < v.len() ==> listed(b, #[trigger] before[i]),
        decreases at,
    {
        at = at - 1;
    }
    v.insert(at, b);
    proof {
        broadcast use vstd::seq_lib::group_to_multiset_ensures;

        let after = v@;
        assert(after == before.insert(at as int, b));
        assert(after.to_multiset() =~= before.to_multiset().insert(b));
        assert forall|i: int, j: int| 0 <= i < j < after.len() implies listed(
            #[trigger] after[i],
            #[trigger] after[j],
        ) by {
            if i < at && j < at {
                assert(listed(before[i], before[j]));
            } else if i < at && j == at {
                if i < at - 1 {
                    assert(listed(before[i], before[at - 1]));
                }
            } else if i < at && j > at {
                assert(listed(before[i], before[j - 1]));
            } else if i == at {
                assert(listed(b, before[j - 1]));
            } else {
                assert(listed(before[i - 1], before[j - 1]));
            }
        }
    }
}

/// The buckets that a model is served in, in order; a bucket over the model's
/// limits is refused, and a generative model keeps none.
pub fn load_buckets(
    name: &str,
    shapes: &Vec<Bucket>,
    kind: ModelKind,
    max_batch: u32,
    max_seq: u32,
) -> (r: Result<Vec<Bucket>, Error>)
    ensures
        if kind == ModelKind::Generative {
            r is Ok && r->Ok_0.len() == 0
        } else {
            match bucket_fault(name@, shapes@, max_batch, max_seq, 0) {
                Some(e) => r is Err && r->Err_0@ == e,
                None => {
                    &&& r is Ok
                    &&& in_list_order(r->Ok_0@)
                    &&& r->Ok_0@.to_multiset() == shapes@.to_multiset()
                },
            }
        },
{
    let mut out: Vec<Bucket> = Vec::new();
    if let ModelKind::Generative = kind {
        return Ok(out);
    }
    let mut i: usize = 0;
    proof {
        broadcast use vstd::seq_lib::group_to_multiset_ensures;

        assert(out@ =~= shapes@.take(0));
    }
    while i < shapes.len()
        invariant
            i <= shapes.len(),
            kind != ModelKind::Generative,
            bucket_fault(name@, shapes@, max_batch, max_seq, i as int) == bucket_fault(
                name@,
                shapes@,
                max_batch,
                max_seq,
                0,
            ),
            in_list_order(out@),
            out@.to_multiset() == shapes@.take(i as int).to_multiset(),
        decreases shapes.len() - i,
    {
        let b = shapes[i];
        if b.batch > max_batch || b.seq > max_seq {
            return Err(
                Error::plain(
                    Class::BadRequest,
                    cat8(
                        "model `",
                        name,
                        "`: bucket ",
                        decimal_of(b.batch as u128).as_str(),
                        "x",
                        decimal_of(b.seq as u128).as_str(),
                        " exceeds the model's limits ",
                        cat3(
                            decimal_of(max_batch as u128).as_str(),
                            "x",
                            decimal_of(max_seq as u128).as_str(),
                        ).as_str(),
                    ),
                ),
            );
        }
        put_bucket(&mut out, b);
        proof {
            broadcast use vstd::seq_lib::group_to_multiset_ensures;

            assert(shapes@.take(i + 1) =~= shapes@.take(i as int).push(b));
        }
        i = i + 1;
    }
    proof {
        assert(shapes@.take(i as int) =~= shapes@);
    }
    Ok(out)
}

/// The longest length of the first `n` buckets.
pub open spec fn longest_of(v: Seq<Bucket>, n: int) -> u32
    decreases n,
{
    if n <= 0 {
        0
    } else if v[n - 1].seq > longest_of(v, n - 1) {
        v[n - 1].seq
    } else {
        longest_of(v, n - 1)
    }
}

/// The widest batch of the first `n` buckets.
pub open spec fn widest_of(v: Seq<Bucket>, n: int) -> u32
    decreases n,
{
    if n <= 0 {
        0
    } else if v[n - 1].batch > widest_of(v, n - 1) {
        v[n - 1].batch
    } else {
        widest_of(v, n - 1)
    }
}

/// The longest sequence that any bucket serves; `model` where there is none.
pub fn max_seq(buckets: &Vec<Bucket>, model: u32) -> (r: u32)
    ensures
        r == (if buckets.len() == 0 {
            model
        } else {
            longest_of(buckets@, buckets.len() as int)
        }),
{
    if buckets.len() == 0 {
        return model;
    }
    let mut best: u32 = 0;
    let mut i: usize = 0;
    while i < buckets.len()
        invariant
            i <= buckets.len(),
            best == longest_of(buckets@, i as int),
        decreases buckets.len() - i,
    {
        if buckets[i].seq > best {
            best = buckets[i].seq;
        }
        i = i + 1;
    }
    best
}

/// The widest batch that any bucket serves; `model` where there is none.
pub fn max_batch(buckets: &Vec<Bucket>, model: u32) -> (r: u32)
    ensures
        r == (if buckets.len() == 0 {
            model
        } else {
            widest_of(buckets@, buckets.len() as int)
        }),
{
    if buckets.len() == 0 {
        return model;
    }
    let mut best: u32 = 0;
    let mut i: usize = 0;
    while i < buckets.len()
        invariant
            i <= buckets.len(),
            best == widest_of(buckets@, i as int),
        decreases buckets.len() - i,
    {
        if buckets[i].batch > best {
            best = buckets[i].batch;
        }
        i = i + 1;
    }
    best
}

/// Every bucket is at most as long as the longest, which one of them is.
pub proof fn longest_is_reached(v: Seq<Bucket>, n: int)
    requires
        0 <= n <= v.len(),
    ensures
        forall|i: int| 0 <= i < n ==> (#[trigger] v[i]).seq <= longest_of(v, n),
        n > 0 ==> exists|i: int| 0 <= i < n && (#[trigger] v[i]).seq == longest_of(v, n),
    decreases n,
{
    if n > 0 {
        longest_is_reached(v, n - 1);
        if v[n - 1].seq > longest_of(v, n - 1) || n == 1 {
            assert(v[n - 1].seq == longest_of(v, n));
        } else {
            let k = choose|i: int| 0 <= i < n - 1 && (#[trigger] v[i]).seq == longest_of(v, n - 1);
            assert(v[k].seq == longest_of(v, n));
        }
    }
}

/// How long a bucket a request needs: as long as its longest input where that is
/// known, else the longest. An input that is longer still is cut only where
/// `truncating` says so.
pub open spec fn need_of(name: Seq<char>, longest: u32, seq: Option<u32>, truncating: bool) -> Result<
    u32,
    ErrorView,
> {
    match seq {
        None => Ok(longest),
        Some(n) => if n <= longest {
            Ok(n)
        } else if truncating {
            Ok(longest)
        } else {
            Err(
                on_field(
                    Class::Capacity,
                    Field::EmbedTruncate,
                    "an input needs "@ + decimal(n as nat)
                        + " tokens but the longest session of model `"@ + name + "` holds "@ + decimal(
                        longest as nat,
                    ) + "; set truncate to right or left to cut it, or shorten it"@,
                ),
            )
        },
    }
}

/// Whether a bucket is long enough and has a row for each.
pub open spec fn holds_all(b: Bucket, rows: int, need: u32) -> bool {
    b.seq >= need && b.batch >= rows
}

/// Whether bucket `a` is smaller than `b`, or as small: fewer rows, then shorter.
pub open spec fn as_small(a: Bucket, b: Bucket) -> bool {
    a.batch < b.batch || (a.batch == b.batch && a.seq <= b.seq)
}

/// Whether bucket `a` takes more of a request than `b`, or as much: more rows,
/// then shorter.
pub open spec fn as_wide(a: Bucket, b: Bucket) -> bool {
    a.batch > b.batch || (a.batch == b.batch && a.seq <= b.seq)
}

/// Whether some bucket is long enough and has a row for each.
pub open spec fn some_holds_all(v: Seq<Bucket>, rows: int, need: u32) -> bool {
    exists|j: int| 0 <= j < v.len() && holds_all(#[trigger] v[j], rows, need)
}

/// Whether bucket `i` is the one to serve `rows` rows of `need` tokens: the
/// smallest that holds them all, the first of equals; or, where none does, the
/// widest that is long enough, the last of equals.
pub open spec fn is_choice(v: Seq<Bucket>, rows: int, need: u32, i: int) -> bool {
    &&& 0 <= i < v.len()
    &&& if some_holds_all(v, rows, need) {
        &&& holds_all(v[i], rows, need)
        &&& forall|j: int|
            0 <= j < v.len() && holds_all(#[trigger] v[j], rows, need) ==> as_small(v[i], v[j]) && (j
                < i ==> v[j] != v[i])
    } else {
        &&& v[i].seq >= need
        &&& forall|j: int|
            0 <= j < v.len() && (#[trigger] v[j]).seq >= need ==> as_wide(v[i], v[j]) && (j > i
                ==> v[j] != v[i])
    }
}

/// A request is served by one bucket.
pub proof fn choice_is_unique(v: Seq<Bucket>, rows: int, need: u32, i: int, k: int)
    requires
        is_choice(v, rows, need, i),
        is_choice(v, rows, need, k),
    ensures
        i == k,
{
    if some_holds_all(v, rows, need) {
        assert(as_small(v[i], v[k]) && as_small(v[k], v[i]));
    } else {
        assert(as_wide(v[i], v[k]) && as_wide(v[k], v[i]));
    }
    assert(v[i] == v[k]);
}

/// The bucket that serves a request of `rows` rows whose longest input has `seq`
/// tokens (`None`: unknown); the caller splits its rows by the bucket's batch.
pub fn choose_bucket(name: &str, buckets: &Vec<Bucket>, rows: usize, seq: Option<u32>, truncating: bool) -> (r: Result<
    usize,
    Error,
>)
    ensures
        if buckets.len() == 0 {
            r is Err && r->Err_0@ == plain(
                Class::BadRequest,
                "model `"@ + name@ + "` serves no sessions (generative model)"@,
            )
        } else {
            match need_of(
                name@,
                longest_of(buckets@, buckets.len() as int),
                seq,
                truncating,
            ) {
                Err(e) => r is Err && r->Err_0@ == e,
                Ok(need) => r is Ok && is_choice(buckets@, rows as int, need, r->Ok_0 as int),
            }
        },
{
    if buckets.len() == 0 {
        return Err(
            Error::plain(
                Class::BadRequest,
                cat3("model `", name, "` serves no sessions (generative model)"),
            ),
        );
    }
    let longest = max_seq(buckets, 0);
    let need: u32 = match seq {
        None => longest,
        Some(n) => if n <= longest {
            n
        } else if truncating {
            longest
        } else {
            return Err(
                Error::on_field(
                    Class::Capacity,
                    Field::EmbedTruncate,
                    cat7(
                        "an input needs ",
                        decimal_of(n as u128).as_str(),
                        " tokens but the longest session of model `",
                        name,
                        "` holds ",
                        decimal_of(longest as u128).as_str(),
                        "; set truncate to right or left to cut it, or shorten it",
                    ),
                ),
            );
        },
    };
    proof {
        longest_is_reached(buckets@, buckets.len() as int);
    }
    match smallest_holding(buckets, rows, need) {
        Some(i) => Ok(i),
        None => Ok(widest_fitting(buckets, rows, need)),
    }
}

/// The smallest bucket that holds all rows, the first of equals.
fn smallest_holding(v: &Vec<Bucket>, rows: usize, need: u32) -> (r: Option<usize>)
    ensures
        r is Some <==> some_holds_all(v@, rows as int, need),
        r matches Some(i) ==> is_choice(v@, rows as int, need, i as int),
{
    let mut best: Option<usize> = None;
    let mut i: usize = 0;
    while i < v.len()
        invariant
            i <= v.len(),
            best is None ==> forall|j: int| 0 <= j < i ==> !holds_all(#[trigger] v@[j], rows as int, need),
            best matches Some(k) ==> {
                &&& k < i
                &&& holds_all(v@[k as int], rows as int, need)
                &&& forall|j: int|
                    0 <= j < i && holds_all(#[trigger] v@[j], rows as int, need) ==> as_small(
                        v@[k as int],
                        v@[j],
                    ) && (j < k ==> v@[j] != v@[k as int])
            },
        decreases v.len() - i,
    {
        let b = v[i];
        if b.seq >= need && b.batch as u64 >= rows as u64 {
            let better = match best {
                None => true,
                Some(k) => b.batch < v[k].batch || (b.batch == v[k].batch && b.seq < v[k].seq),
            };
            if better {
                best = Some(i);
            }
        }
        i = i + 1;
    }
    proof {
        if let Some(k) = best {
            assert(holds_all(v@[k as int], rows as int, need));
        }
    }
    best
}

/// The widest bucket that is long enough, the last of equals.
fn widest_fitting(v: &Vec<Bucket>, rows: usize, need: u32) -> (r: usize)
    requires
        !some_holds_all(v@, rows as int, need),
        exists|i: int| 0 <= i < v.len() && (#[trigger] v@[i]).seq >= need,
    ensures
        is_choice(v@, rows as int, need, r as int),
{
    let mut best: Option<usize> = None;
    let mut i: usize = 0;
    while i < v.len()
        invariant
            i <= v.len(),
            best is None ==> forall|j: int| 0 <= j < i ==> (#[trigger] v@[j]).seq < need,
            best matches Some(k) ==> {
                &&& k < i
                &&& v@[k as int].seq >= need
                &&& forall|j: int|
                    0 <= j < i && (#[trigger] v@[j]).seq >= need ==> as_wide(v@[k as int], v@[j]) && (
                    j > k ==> v@[j] != v@[k as int])
            },
        decreases v.len() - i,
    {
        let b = v[i];
        if b.seq >= need {
            let better = match best {
                None => true,
                Some(k) => b.batch > v[k].batch || (b.batch == v[k].batch && b.seq <= v[k].seq),
            };
            if better {
                best = Some(i);
            }
        }
        i = i + 1;
    }
    match best {
        Some(k) => k,
        None => {
            assert(false);
            0
        },
    }
}

/// Every bucket that serves a request is long enough for it, and no bucket that
/// is long enough takes more of its rows where not all fit.
pub proof fn choice_fits(v: Seq<Bucket>, rows: int, need: u32, i: int)
    requires
        is_choice(v, rows, need, i),
    ensures
        v[i].seq >= need,
        v[i].batch >= rows || forall|j: int|
            0 <= j < v.len() && (#[trigger] v[j]).seq >= need ==> v[j].batch <= v[i].batch,
{
}

/// The served models by name, in name order, each once.
#[derive(Debug)]
pub struct Registry {
    names: Vec<String>,
}

/// Whether names stand in order, each once.
pub open spec fn strictly_ordered(v: Seq<Seq<char>>) -> bool {
    forall|i: int, j: int|
        0 <= i < j < v.len() ==> lex_le(#[trigger] v[i], #[trigger] v[j]) && v[i] != v[j]
}

impl View for Registry {
    type V = Seq<Seq<char>>;

    closed spec fn view(&self) -> Seq<Seq<char>> {
        views(self.names@)
    }
}

impl Registry {
    /// The names stand in order, each once.
    pub open spec fn wf(&self) -> bool {
        strictly_ordered(self@)
    }

    /// No models.
    pub fn new() -> (r: Registry)
        ensures
            r.wf(),
            r@ == Seq::<Seq<char>>::empty(),
    {
        let r = Registry { names: Vec::new() };
        proof {
            assert(r@ =~= Seq::empty());
        }
        r
    }

    /// How many names stand before this one.
    fn seek(&self, name: &str) -> (r: usize)
        requires
            self.wf(),
        ensures
            r <= self@.len(),
            forall|i: int| 0 <= i < r ==> lex_le(#[trigger] self@[i], name@) && self@[i] != name@,
            forall|i: int| r <= i < self@.len() ==> lex_le(name@, #[trigger] self@[i]),
            self@.contains(name@) <==> r < self@.len() && self@[r as int] == name@,
    {
        let mut at: usize = 0;
        while at < self.names.len() && !lex_le_of(name, self.names[at].as_str())
            invariant
                at <= self.names.len(),
                forall|i: int| 0 <= i < at ==> lex_le(#[trigger] self@[i], name@) && self@[i] != name@,
            decreases self.names.len() - at,
        {
            proof {
                lex_total(self@[at as int], name@);
                lex_reflexive(name@);
            }
            at = at + 1;
        }
        proof {
            assert forall|i: int| at <= i < self@.len() implies lex_le(name@, #[trigger] self@[i]) by {
                if i > at {
                    assert(lex_le(self@[at as int], self@[i]));
                    lex_transitive(name@, self@[at as int], self@[i]);
                }
            }
            if self@.contains(name@) {
                let k = choose|k: int| 0 <= k < self@.len() && self@[k] == name@;
                assert(k >= at);
                if k > at {
                    assert(lex_le(self@[at as int], self@[k]) && self@[at as int] != self@[k]);
                    lex_antisymmetric(self@[at as int], name@);
                }
            }
        }
        at
    }

    /// Where a model stands, or the refusal of a name that is not served.
    pub fn model(&self, name: &str) -> (r: Result<usize, Error>)
        requires
            self.wf(),
        ensures
            if self@.contains(name@) {
                r is Ok && r->Ok_0 < self@.len() && self@[r->Ok_0 as int] == name@
            } else {
                r is Err && r->Err_0@ == plain(
                    Class::NotFound,
                    "no model named `"@ + name@ + "`; served: "@ + joined(self@, ", "@),
                )
            },
    {
        let at = self.seek(name);
        if at < self.names.len() && same(self.names[at].as_str(), name) {
            return Ok(at);
        }
        Err(
            Error::plain(
                Class::NotFound,
                cat4("no model named `", name, "`; served: ", join_of(&self.names, ", ").as_str()),
            ),
        )
    }

    /// Add a model; its name must be new.
    pub fn load_model(&mut self, name: &str) -> (r: Result<usize, Error>)
        requires
            old(self).wf(),
        ensures
            final(self).wf(),
            if old(self)@.contains(name@) {
                &&& r is Err
                &&& r->Err_0@ == plain(
                    Class::BadRequest,
                    "a model named `"@ + name@
                        + "` is already served; give the new one a `name=`"@,
                )
                &&& final(self)@ == old(self)@
            } else {
                &&& r is Ok
                &&& r->Ok_0 <= old(self)@.len()
                &&& final(self)@ == old(self)@.insert(r->Ok_0 as int, name@)
            },
    {
        let at = self.seek(name);
        if at < self.names.len() && same(self.names[at].as_str(), name) {
            return Err(
                Error::plain(
                    Class::BadRequest,
                    cat3(
                        "a model named `",
                        name,
                        "` is already served; give the new one a `name=`",
                    ),
                ),
            );
        }
        let ghost before = self@;
        self.names.insert(at, name.to_owned());
        proof {
            let after = self@;
            assert(after =~= before.insert(at as int, name@));
            assert forall|i: int, j: int| 0 <= i < j < after.len() implies lex_le(
                #[trigger] after[i],
                #[trigger] after[j],
            ) && after[i] != after[j] by {
                if i == at {
                    assert(lex_le(name@, before[j - 1]));
                    assert(before.contains(before[j - 1]));
                } else if j == at {
                    assert(lex_le(before[i], name@));
                } else {
                    let a = if i < at { i } else { i - 1 };
                    let b = if j < at { j } else { j - 1 };
                    assert(after[i] == before[a] && after[j] == before[b]);
                    assert(lex_le(before[a], before[b]));
                }
            }
        }
        Ok(at)
    }

    /// Take a model away; requests that hold it finish, new ones do not find it.
    pub fn unload(&mut self, name: &str) -> (r: Result<usize, Error>)
        requires
            old(self).wf(),
        ensures
            final(self).wf(),
            if old(self)@.contains(name@) {
                &&& r is Ok
                &&& r->Ok_0 < old(self)@.len()
                &&& old(self)@[r->Ok_0 as int] == name@
                &&& final(self)@ == old(self)@.remove(r->Ok_0 as int)
            } else {
                &&& r is Err
                &&& r->Err_0@ == plain(
                    Class::NotFound,
                    "no model named `"@ + name@ + "` to unload"@,
                )
                &&& final(self)@ == old(self)@
            },
    {
        let at = self.seek(name);
        if at >= self.names.len() || !same(self.names[at].as_str(), name) {
            return Err(
                Error::plain(Class::NotFound, cat3("no model named `", name, "` to unload")),
            );
        }
        let ghost before = self@;
        let _ = self.names.remove(at);
        proof {
            let after = self@;
            assert(after =~= before.remove(at as int));
            assert forall|i: int, j: int| 0 <= i < j < after.len() implies lex_le(
                #[trigger] after[i],
                #[trigger] after[j],
            ) && after[i] != after[j] by {
                let a = if i < at { i } else { i + 1 };
                let b = if j < at { j } else { j + 1 };
                assert(after[i] == before[a] && after[j] == before[b]);
                assert(lex_le(before[a], before[b]));
            }
        }
        Ok(at)
    }

    /// The served names, sorted.
    pub fn names(&self) -> (r: Vec<String>)
        ensures
            views(r@) == self@,
    {
        copy_all(&self.names)
    }

    /// Whether no model is served.
    pub fn is_empty(&self) -> (r: bool)
        ensures
            r == (self@.len() == 0),
    {
        self.names.len() == 0
    }
}

/// Taking away the model that was added leaves the names as they were.
pub proof fn unload_undoes_load(v: Seq<Seq<char>>, at: int, name: Seq<char>)
    requires
        strictly_ordered(v),
        0 <= at <= v.len(),
        !v.contains(name),
    ensures
        v.insert(at, name).contains(name),
        v.insert(at, name).remove(at) == v,
        !v.insert(at, name).remove(at).contains(name),
{
    assert(v.insert(at, name)[at] == name);
    assert(v.insert(at, name).remove(at) =~= v);
}

/// The names of the served models decide their order: two registries of the same
/// names are the same.
pub proof fn ordered_names_are_unique(a: Seq<Seq<char>>, b: Seq<Seq<char>>)
    requires
        strictly_ordered(a),
        strictly_ordered(b),
        forall|n: Seq<char>| a.contains(n) <==> b.contains(n),
    ensures
        a == b,
    decreases a.len(),
{
    if a.len() == 0 {
        if b.len() > 0 {
            assert(b.contains(b[0]));
            assert(a.contains(b[0]));
        }
        assert(a =~= b);
    } else {
        assert(a.contains(a[0]));
        assert(b.contains(a[0]));
        let k = choose|k: int| 0 <= k < b.len() && b[k] == a[0];
        assert(b.contains(b[0]));
        assert(a.contains(b[0]));
        let m = choose|m: int| 0 <= m < a.len() && a[m] == b[0];
        if k > 0 {
            assert(lex_le(b[0], b[k]) && b[0] != b[k]);
            assert(m > 0);
            assert(lex_le(a[0], a[m]));
            lex_antisymmetric(a[0], b[0]);
        }
        let x = a.drop_first();
        let y = b.drop_first();
        assert forall|i: int, j: int| 0 <= i < j < x.len() implies lex_le(#[trigger] x[i], #[trigger] x[j])
            && x[i] != x[j] by {
            assert(lex_le(a[i + 1], a[j + 1]));
        }
        assert forall|i: int, j: int| 0 <= i < j < y.len() implies lex_le(#[trigger] y[i], #[trigger] y[j])
            && y[i] != y[j] by {
            assert(lex_le(b[i + 1], b[j + 1]));
        }
        assert forall|n: Seq<char>| x.contains(n) <==> y.contains(n) by {
            tail_contains(a, n);
            tail_contains(b, n);
        }
        ordered_names_are_unique(x, y);
        assert(a =~= seq![a[0]] + x);
        assert(b =~= seq![b[0]] + y);
    }
}

/// The names behind the first are those that are not the first.
proof fn tail_contains(a: Seq<Seq<char>>, n: Seq<char>)
    requires
        strictly_ordered(a),
        a.len() > 0,
    ensures
        a.drop_first().contains(n) <==> a.contains(n) && n != a[0],
{
    let x = a.drop_first();
    if x.contains(n) {
        let i = choose|i: int| 0 <= i < x.len() && x[i] == n;
        assert(a[i + 1] == n);
        assert(lex_le(a[0], a[i + 1]) && a[0] != a[i + 1]);
    }
    if a.contains(n) && n != a[0] {
        let i = choose|i: int| 0 <= i < a.len() && a[i] == n;
        assert(x[i - 1] == n);
    }
}

/// What a model of a kind is called where another was given.
pub open spec fn role_of(kind: ModelKind) -> Seq<char> {
    match kind {
        ModelKind::Embedding => "an embedding model"@,
        ModelKind::Reranker => "a reranker"@,
        ModelKind::Classifier => "a classifier"@,
        ModelKind::TokenClassifier => "a token classifier"@,
        ModelKind::Generative => "a generative model"@,
        ModelKind::Generic => "a generic RUN model"@,
    }
}

/// The refusal of a model of another kind than a task needs.
pub open spec fn kind_fault(name: Seq<char>, has: ModelKind, needs: ModelKind) -> Option<ErrorView> {
    if has != needs {
        Some(
            plain(
                Class::BadRequest,
                "model `"@ + name + "` is "@ + kind_text(has) + ", not "@ + role_of(needs),
            ),
        )
    } else {
        None
    }
}

/// Check that a model is of the kind that a task needs.
pub fn check_kind(name: &str, has: ModelKind, needs: ModelKind) -> (r: Result<(), Error>)
    ensures
        match kind_fault(name@, has, needs) {
            Some(e) => r is Err && r->Err_0@ == e,
            None => r is Ok,
        },
{
    if has == needs {
        return Ok(());
    }
    let role: &str = match needs {
        ModelKind::Embedding => "an embedding model",
        ModelKind::Reranker => "a reranker",
        ModelKind::Classifier => "a classifier",
        ModelKind::TokenClassifier => "a token classifier",
        ModelKind::Generative => "a generative model",
        ModelKind::Generic => "a generic RUN model",
    };
    Err(Error::plain(Class::BadRequest, cat6("model `", name, "` is ", has.text(), ", not ", role)))
}

/// The refusal of a call that hands a task `n` texts (or messages).
pub open spec fn texts_fault(name: Seq<char>, has: ModelKind, needs: ModelKind, n: nat) -> Option<
    ErrorView,
> {
    match kind_fault(name, has, needs) {
        Some(e) => Some(e),
        None => if n == 0 {
            Some(
                plain(
                    Class::BadRequest,
                    if needs == ModelKind::Generative {
                        "messages is empty"@
                    } else {
                        "input has no texts"@
                    },
                ),
            )
        } else {
            None
        },
    }
}

/// Check a call that hands a task `n` texts (or messages).
pub fn check_texts(name: &str, has: ModelKind, needs: ModelKind, n: usize) -> (r: Result<(), Error>)
    ensures
        match texts_fault(name@, has, needs, n as nat) {
            Some(e) => r is Err && r->Err_0@ == e,
            None => r is Ok,
        },
{
    match check_kind(name, has, needs) {
        Err(e) => return Err(e),
        Ok(()) => {},
    }
    if n == 0 {
        return Err(
            Error::say(
                Class::BadRequest,
                if needs == ModelKind::Generative {
                    "messages is empty"
                } else {
                    "input has no texts"
                },
            ),
        );
    }
    Ok(())
}

/// The refusal of a reranking of `docs` documents.
pub open spec fn rerank_fault(name: Seq<char>, has: ModelKind, docs: nat, top_n: u32) -> Option<
    ErrorView,
> {
    match kind_fault(name, has, ModelKind::Reranker) {
        Some(e) => Some(e),
        None => if docs == 0 {
            Some(plain(Class::BadRequest, "documents is empty"@))
        } else if top_n > docs {
            Some(
                on_field(
                    Class::BadRequest,
                    Field::RerankTopN,
                    "top_n "@ + decimal(top_n as nat) + " exceeds the "@ + decimal(docs)
                        + " documents"@,
                ),
            )
        } else {
            None
        },
    }
}

/// Check a reranking of `docs` documents.
pub fn check_rerank(name: &str, has: ModelKind, docs: usize, top_n: u32) -> (r: Result<(), Error>)
    ensures
        match rerank_fault(name@, has, docs as nat, top_n) {
            Some(e) => r is Err && r->Err_0@ == e,
            None => r is Ok,
        },
{
    match check_kind(name, has, ModelKind::Reranker) {
        Err(e) => return Err(e),
        Ok(()) => {},
    }
    if docs == 0 {
        return Err(Error::say(Class::BadRequest, "documents is empty"));
    }
    if top_n as u64 > docs as u64 {
        return Err(
            Error::on_field(
                Class::BadRequest,
                Field::RerankTopN,
                cat5(
                    "top_n ",
                    decimal_of(top_n as u128).as_str(),
                    " exceeds the ",
                    decimal_of(docs as u128).as_str(),
                    " documents",
                ),
            ),
        );
    }
    Ok(())
}

/// Whether a text may be cut: only where right or left truncation is asked for;
/// the model's default is a convention that the caller did not ask for.
pub fn truncating(t: Truncate) -> (r: bool)
    ensures
        r == (t == Truncate::Right || t == Truncate::Left),
{
    match t {
        Truncate::Right => true,
        Truncate::Left => true,
        _ => false,
    }
}

/// What goes before a text in its role.
pub open spec fn prefix_text(role: PromptRole, query: Seq<char>, document: Seq<char>) -> Seq<char> {
    match role {
        PromptRole::Query => query,
        PromptRole::Document => document,
        PromptRole::Off => Seq::empty(),
    }
}

/// What goes before a text in its role.
pub fn prefix(role: PromptRole, query: &str, document: &str) -> (r: String)
    ensures
        r@ == prefix_text(role, query@, document@),
{
    match role {
        PromptRole::Query => query.to_owned(),
        PromptRole::Document => document.to_owned(),
        PromptRole::Off => {
            let s = String::new();
            proof {
                assert(s@ =~= Seq::empty());
            }
            s
        },
    }
}

/// The largest of the first `n` counts.
pub open spec fn most(counts: Seq<u32>, n: int) -> u32
    decreases n,
{
    if n <= 0 {
        0
    } else if counts[n - 1] > most(counts, n - 1) {
        counts[n - 1]
    } else {
        most(counts, n - 1)
    }
}

/// The tokens of the longest text, given those of each.
pub fn longest(counts: &Vec<u32>) -> (r: u32)
    ensures
        r == most(counts@, counts.len() as int),
{
    let mut best: u32 = 0;
    let mut i: usize = 0;
    while i < counts.len()
        invariant
            i <= counts.len(),
            best == most(counts@, i as int),
        decreases counts.len() - i,
    {
        if counts[i] > best {
            best = counts[i];
        }
        i = i + 1;
    }
    best
}

/// No text is longer than the longest.
pub proof fn longest_bounds_every_text(counts: Seq<u32>, n: int, i: int)
    requires
        0 <= i < n <= counts.len(),
    ensures
        counts[i] <= most(counts, n),
    decreases n,
{
    if i < n - 1 {
        longest_bounds_every_text(counts, n - 1, i);
    }
}

/// The tokens of the longest pair: the query's and those of the longest document.
pub fn longest_pair(query: u32, docs: &Vec<u32>) -> (r: u32)
    requires
        docs.len() > 0,
        query + most(docs@, docs.len() as int) <= u32::MAX,
    ensures
        r == query + most(docs@, docs.len() as int),
{
    query + longest(docs)
}

/// The sum of the first `n` counts.
pub open spec fn total(counts: Seq<u32>, n: int) -> nat
    decreases n,
{
    if n <= 0 {
        0
    } else {
        total(counts, n - 1) + counts[n - 1] as nat
    }
}

/// A sum grows with its counts.
proof fn total_grows(counts: Seq<u32>, i: int, n: int)
    requires
        0 <= i <= n <= counts.len(),
    ensures
        total(counts, i) <= total(counts, n),
    decreases n,
{
    if i < n {
        total_grows(counts, i, n - 1);
    }
}

/// The tokens of all texts together.
pub fn total_tokens(counts: &Vec<u32>) -> (r: u32)
    requires
        total(counts@, counts.len() as int) <= u32::MAX,
    ensures
        r == total(counts@, counts.len() as int),
{
    let mut sum: u32 = 0;
    let mut i: usize = 0;
    while i < counts.len()
        invariant
            i <= counts.len(),
            sum == total(counts@, i as int),
            total(counts@, counts.len() as int) <= u32::MAX,
        decreases counts.len() - i,
    {
        proof {
            total_grows(counts@, i + 1, counts.len() as int);
        }
        sum = sum + counts[i];
        i = i + 1;
    }
    sum
}

/// The chunks in which `n` rows go through a bucket of `batch` rows: `[start, end)`
/// of the rows, in order.
pub fn chunks(n: usize, batch: usize) -> (r: Vec<(usize, usize)>)
    requires
        batch > 0,
    ensures
        r@ == prompt_chunks(n as int, batch as int, 0),
{
    let mut out: Vec<(usize, usize)> = Vec::new();
    let mut start: usize = 0;
    proof {
        assert(out@ + prompt_chunks(n as int, batch as int, 0) =~= prompt_chunks(
            n as int,
            batch as int,
            0,
        ));
    }
    while start < n
        invariant
            batch > 0,
            start <= n,
            out@ + prompt_chunks(n as int, batch as int, start as int) == prompt_chunks(
                n as int,
                batch as int,
                0,
            ),
        decreases n - start,
    {
        let end: usize = if n - start > batch {
            start + batch
        } else {
            n
        };
        let ghost before = out@;
        out.push((start, end));
        proof {
            let rest = prompt_chunks(n as int, batch as int, end as int);
            assert(prompt_chunks(n as int, batch as int, start as int) == seq![(start, end)] + rest);
            assert(before + (seq![(start, end)] + rest) =~= out@ + rest);
        }
        start = end;
    }
    proof {
        assert(out@ =~= out@ + prompt_chunks(n as int, batch as int, start as int));
    }
    out
}

/// The width of a vector: the one asked for, or the model's.
pub open spec fn width_asked(asked: u32, model: u32) -> u32 {
    if asked == 0 {
        model
    } else {
        asked
    }
}

/// The width of the vectors that are asked for: the model's where none is.
pub fn output_width(asked: u32, model: u32) -> (r: u32)
    ensures
        r == width_asked(asked, model),
{
    if asked == 0 {
        model
    } else {
        asked
    }
}

/// Check the shape of a chunk's embeddings.
pub fn check_embeddings(rows: u64, width: u64, chunk: u64, dim: u64) -> (r: Result<(), Error>)
    ensures
        if width == dim && rows == chunk {
            r is Ok
        } else {
            r is Err && r->Err_0@ == plain(
                Class::Internal,
                "provider returned a ["@ + decimal(rows as nat) + ", "@ + decimal(width as nat)
                    + "] result for "@ + decimal(chunk as nat) + " rows of width "@ + decimal(
                    dim as nat,
                ),
            )
        },
{
    if width == dim && rows == chunk {
        return Ok(());
    }
    Err(
        Error::plain(
            Class::Internal,
            cat8(
                "provider returned a [",
                decimal_of(rows as u128).as_str(),
                ", ",
                decimal_of(width as u128).as_str(),
                "] result for ",
                decimal_of(chunk as u128).as_str(),
                " rows of width ",
                decimal_of(dim as u128).as_str(),
            ),
        ),
    )
}

/// Check the number of a chunk's scores.
pub fn check_scores(n: u64, chunk: u64) -> (r: Result<(), Error>)
    ensures
        if n == chunk {
            r is Ok
        } else {
            r is Err && r->Err_0@ == plain(
                Class::Internal,
                "provider returned "@ + decimal(n as nat) + " scores for "@ + decimal(chunk as nat)
                    + " documents"@,
            )
        },
{
    if n == chunk {
        return Ok(());
    }
    Err(
        Error::plain(
            Class::Internal,
            cat5(
                "provider returned ",
                decimal_of(n as u128).as_str(),
                " scores for ",
                decimal_of(chunk as u128).as_str(),
                " documents",
            ),
        ),
    )
}

/// Check the shape of a chunk's label scores.
pub fn check_labels(rows: u64, width: u64, chunk: u64, labels: u64) -> (r: Result<(), Error>)
    ensures
        if rows == chunk && width == labels {
            r is Ok
        } else {
            r is Err && r->Err_0@ == plain(
                Class::Internal,
                "provider returned a ["@ + decimal(rows as nat) + ", "@ + decimal(width as nat)
                    + "] result for "@ + decimal(chunk as nat) + " texts and "@ + decimal(
                    labels as nat,
                ) + " labels"@,
            )
        },
{
    if rows == chunk && width == labels {
        return Ok(());
    }
    Err(
        Error::plain(
            Class::Internal,
            cat9(
                "provider returned a [",
                decimal_of(rows as u128).as_str(),
                ", ",
                decimal_of(width as u128).as_str(),
                "] result for ",
                decimal_of(chunk as u128).as_str(),
                " texts and ",
                decimal_of(labels as u128).as_str(),
                " labels",
            ),
        ),
    )
}

/// Check that a result holds single-precision numbers.
pub fn require_f32(dtype: DType, what: &str) -> (r: Result<(), Error>)
    ensures
        if dtype == DType::F32 {
            r is Ok
        } else {
            r is Err && r->Err_0@ == plain(
                Class::UnsupportedDtype,
                "the server reads f32 "@ + what@ + "; the provider returned "@ + dtype_text(dtype),
            )
        },
{
    if dtype == DType::F32 {
        return Ok(());
    }
    Err(
        Error::plain(
            Class::UnsupportedDtype,
            cat4("the server reads f32 ", what, "; the provider returned ", dtype.text()),
        ),
    )
}

/// The bits of the single-precision numbers that were read into `bytes`; `read`
/// is how many bytes the read gave.
pub fn read_f32(bytes: &Vec<u8>, read: usize) -> (r: Result<Vec<u32>, Error>)
    ensures
        if read == bytes.len() {
            r is Ok && r->Ok_0@ == as_u32(le_values(bytes@, 4))
        } else {
            r is Err && r->Err_0@ == plain(
                Class::Internal,
                "result read gave "@ + decimal(read as nat) + " bytes for "@ + decimal(bytes@.len())
                    + " expected"@,
            )
        },
{
    if read != bytes.len() {
        return Err(
            Error::plain(
                Class::Internal,
                cat5(
                    "result read gave ",
                    decimal_of(read as u128).as_str(),
                    " bytes for ",
                    decimal_of(bytes.len() as u128).as_str(),
                    " expected",
                ),
            ),
        );
    }
    let words = read_all(bytes, 4);
    proof {
        reveal_with_fuel(pow256, 5);
    }
    let mut out: Vec<u32> = Vec::new();
    let mut i: usize = 0;
    while i < words.len()
        invariant
            i <= words.len(),
            out.len() == i,
            forall|j: int| 0 <= j < words.len() ==> (#[trigger] words@[j]) <= u32::MAX,
            forall|j: int| 0 <= j < i ==> (#[trigger] out@[j]) == words@[j],
        decreases words.len() - i,
    {
        out.push(words[i] as u32);
        i = i + 1;
    }
    proof {
        let v = le_values(bytes@, 4);
        assert forall|j: int| 0 <= j < v.len() implies out@[j] == #[trigger] as_u32(v)[j] by {
            crate::bytes::le_values_bound(bytes@, 4, j);
        }
        assert(out@ =~= as_u32(v));
    }
    Ok(out)
}

/// Numbers as rows of `width`.
pub fn split_rows(flat: &Vec<u32>, width: usize, rows: usize) -> (r: Vec<Vec<u32>>)
    requires
        flat.len() == rows * width,
    ensures
        r.len() == rows,
        forall|i: int|
            0 <= i < rows ==> (#[trigger] r@[i])@ == flat@.subrange(i * width, (i + 1) * width),
{
    let mut out: Vec<Vec<u32>> = Vec::new();
    let mut i: usize = 0;
    let mut at: usize = 0;
    while i < rows
        invariant
            i <= rows,
            out.len() == i,
            at == i * width,
            flat.len() == rows * width,
            forall|k: int|
                0 <= k < i ==> (#[trigger] out@[k])@ == flat@.subrange(k * width, (k + 1) * width),
        decreases rows - i,
    {
        proof {
            assert((i + 1) * width == i * width + width) by (nonlinear_arith);
            assert((i + 1) * width <= rows * width) by (nonlinear_arith)
                requires
                    i + 1 <= rows,
                    width >= 0,
            ;
        }
        let mut row: Vec<u32> = Vec::new();
        let mut j: usize = 0;
        while j < width
            invariant
                j <= width,
                at + width <= flat.len(),
                row@ == flat@.subrange(at as int, at + j),
            decreases width - j,
        {
            row.push(flat[at + j]);
            j = j + 1;
            proof {
                assert(row@ =~= flat@.subrange(at as int, at + j));
            }
        }
        out.push(row);
        at = at + width;
        i = i + 1;
    }
    out
}

/// The documents best first: all of them, or the first `top_n` where that is not 0.
pub fn rank(scores: &Vec<u32>, top_n: u32) -> (r: Vec<i32>)
    requires
        scores.len() <= i32::MAX,
    ensures
        exists|order: Seq<usize>| #[trigger]
            is_ranking(scores@, order) && r@ == cut_ranking(order, top_n),
{
    let order = ranking(scores);
    let n: usize = if top_n != 0 && (top_n as u64) < order.len() as u64 {
        top_n as usize
    } else {
        order.len()
    };
    let mut out: Vec<i32> = Vec::new();
    let mut i: usize = 0;
    while i < n
        invariant
            i <= n <= order.len(),
            scores.len() <= i32::MAX,
            is_ranking(scores@, order@),
            out.len() == i,
            forall|j: int| 0 <= j < i ==> (#[trigger] out@[j]) == order@[j],
        decreases n - i,
    {
        assert(order@[i as int] < scores.len());
        out.push(order[i] as i32);
        i = i + 1;
    }
    proof {
        assert(out@ =~= cut_ranking(order@, top_n));
    }
    out
}

/// The first `top_n` of a ranking, all of it where that is 0.
pub open spec fn cut_ranking(order: Seq<usize>, top_n: u32) -> Seq<i32> {
    let n = if top_n != 0 && top_n < order.len() {
        top_n as nat
    } else {
        order.len()
    };
    Seq::new(n, |i: int| order[i] as i32)
}

/// A span that a provider found; the score is held by its bits.
#[derive(Clone, Copy, Debug, PartialEq, Eq, Structural)]
pub struct Span {
    pub row: u32,
    pub byte_start: u32,
    pub byte_end: u32,
    pub label: u32,
    pub score: u32,
}

/// The first `n` spans of a row, in order.
pub open spec fn row_spans(spans: Seq<Span>, row: int, n: int) -> Seq<Span>
    decreases n,
{
    if n <= 0 {
        Seq::empty()
    } else if spans[n - 1].row == row {
        row_spans(spans, row, n - 1).push(spans[n - 1])
    } else {
        row_spans(spans, row, n - 1)
    }
}

/// The refusal of the first span on a row that was not asked for, from `i` on.
pub open spec fn span_fault(spans: Seq<Span>, rows: nat, i: int) -> Option<ErrorView>
    decreases spans.len() - i,
{
    if i < 0 || i >= spans.len() {
        None
    } else if spans[i].row >= rows {
        Some(
            plain(
                Class::Internal,
                "provider reported a span on row "@ + decimal(spans[i].row as nat) + " of "@ + decimal(
                    rows,
                ),
            ),
        )
    } else {
        span_fault(spans, rows, i + 1)
    }
}

/// The spans of each of `rows` rows, in the order in which they were found.
pub fn spans_by_row(spans: &Vec<Span>, rows: usize) -> (r: Result<Vec<Vec<Span>>, Error>)
    ensures
        match span_fault(spans@, rows as nat, 0) {
            Some(e) => r is Err && r->Err_0@ == e,
            None => {
                &&& r is Ok
                &&& r->Ok_0.len() == rows
                &&& forall|k: int|
                    0 <= k < rows ==> (#[trigger] r->Ok_0@[k])@ == row_spans(
                        spans@,
                        k,
                        spans.len() as int,
                    )
            },
        },
{
    let mut out: Vec<Vec<Span>> = Vec::new();
    let mut k: usize = 0;
    while k < rows
        invariant
            k <= rows,
            out.len() == k,
            forall|j: int| 0 <= j < k ==> (#[trigger] out@[j])@ == Seq::<Span>::empty(),
        decreases rows - k,
    {
        let v: Vec<Span> = Vec::new();
        proof {
            assert(v@ =~= Seq::empty());
        }
        out.push(v);
        k = k + 1;
    }
    let mut i: usize = 0;
    while i < spans.len()
        invariant
            i <= spans.len(),
            out.len() == rows,
            span_fault(spans@, rows as nat, i as int) == span_fault(spans@, rows as nat, 0),
            forall|j: int| 0 <= j < rows ==> (#[trigger] out@[j])@ == row_spans(spans@, j, i as int),
        decreases spans.len() - i,
    {
        let s = spans[i];
        if s.row as u64 >= rows as u64 {
            return Err(
                Error::plain(
                    Class::Internal,
                    cat4(
                        "provider reported a span on row ",
                        decimal_of(s.row as u128).as_str(),
                        " of ",
                        decimal_of(rows as u128).as_str(),
                    ),
                ),
            );
        }
        let ghost before = out@;
        let mut row = take_row(&mut out, s.row as usize);
        row.push(s);
        out.set(s.row as usize, row);
        proof {
            assert forall|j: int| 0 <= j < rows implies (#[trigger] out@[j])@ == row_spans(
                spans@,
                j,
                i + 1,
            ) by {
                assert(before[j]@ == row_spans(spans@, j, i as int));
            }
        }
        i = i + 1;
    }
    Ok(out)
}

/// Take a row out, leaving an empty one.
fn take_row(v: &mut Vec<Vec<Span>>, k: usize) -> (r: Vec<Span>)
    requires
        k < old(v).len(),
    ensures
        r@ == old(v)@[k as int]@,
        final(v).len() == old(v).len(),
        forall|j: int| 0 <= j < old(v).len() && j != k ==> final(v)@[j] == old(v)@[j],
{
    let mut out: Vec<Span> = Vec::new();
    let mut i: usize = 0;
    while i < v[k].len()
        invariant
            k < v.len(),
            *v == *old(v),
            i <= v@[k as int].len(),
            out@ == v@[k as int]@.take(i as int),
        decreases v@[k as int].len() - i,
    {
        out.push(v[k][i]);
        i = i + 1;
        proof {
            assert(out@ =~= v@[k as int]@.take(i as int));
        }
    }
    proof {
        assert(out@ =~= v@[k as int]@);
    }
    v.set(k, Vec::new());
    out
}

/// Check that an input's bytes are as many as its shape and datatype need.
pub fn check_input_bytes(name: &str, have: u64, need: u64) -> (r: Result<(), Error>)
    ensures
        if have == need {
            r is Ok
        } else {
            r is Err && r->Err_0@ == plain(
                Class::BadRequest,
                "input `"@ + name@ + "` has "@ + decimal(have as nat)
                    + " bytes of data but its shape and datatype need "@ + decimal(need as nat),
            )
        },
{
    if have == need {
        return Ok(());
    }
    Err(
        Error::plain(
            Class::BadRequest,
            cat6(
                "input `",
                name,
                "` has ",
                decimal_of(have as u128).as_str(),
                " bytes of data but its shape and datatype need ",
                decimal_of(need as u128).as_str(),
            ),
        ),
    )
}

/// Check that every provider library loaded and that a model is served.
pub fn check_engine(failed: &Option<(String, String)>, models: usize) -> (r: Result<(), Error>)
    ensures
        match failed {
            Some(f) => r is Err && r->Err_0@ == plain(
                Class::Internal,
                "provider `"@ + f.0@ + "` failed: "@ + f.1@,
            ),
            None => if models == 0 {
                r is Err && r->Err_0@ == plain(
                    Class::BadRequest,
                    "no models configured; pass --model or --config"@,
                )
            } else {
                r is Ok
            },
        },
{
    if let Some(f) = failed {
        return Err(
            Error::plain(
                Class::Internal,
                cat4("provider `", f.0.as_str(), "` failed: ", f.1.as_str()),
            ),
        );
    }
    if models == 0 {
        return Err(
            Error::say(Class::BadRequest, "no models configured; pass --model or --config"),
        );
    }
    Ok(())
}

/// One streamed piece of a generation.
#[derive(Debug)]
pub struct Piece {
    /// The text that this step produced.
    pub text: String,
    /// Set on the last piece.
    pub done: bool,
    /// Why the generation stopped; meaningful once `done`.
    pub finish_reason: FinishReason,
    pub prompt_tokens: u32,
    /// Tokens generated so far.
    pub generated_tokens: u32,
}

/// What a producer of pieces does after one was sent.
#[derive(Clone, Copy, Debug, PartialEq, Eq, Structural)]
pub enum AfterPiece {
    /// Make the next.
    Step,
    /// The client went away: stop the model.
    Cancel,
    /// That was the last.
    End,
}

/// What follows a piece.
pub open spec fn piece_outcome(sent: bool, done: bool) -> AfterPiece {
    if !sent {
        AfterPiece::Cancel
    } else if done {
        AfterPiece::End
    } else {
        AfterPiece::Step
    }
}

/// What a producer of pieces does after one was sent, or could not be.
pub fn after_piece(sent: bool, done: bool) -> (r: AfterPiece)
    ensures
        r == piece_outcome(sent, done),
{
    if !sent {
        AfterPiece::Cancel
    } else if done {
        AfterPiece::End
    } else {
        AfterPiece::Step
    }
}

/// The pieces of a generation, put together.
#[derive(Debug)]
pub struct Collected {
    pub text: String,
    pub prompt_tokens: u32,
    pub generated_tokens: u32,
    /// Why it stopped; nothing where no last piece came.
    pub finish: Option<FinishReason>,
}

/// The text of the first `n` pieces.
pub open spec fn piece_text(p: Seq<Piece>, n: int) -> Seq<char>
    decreases n,
{
    if n <= 0 {
        Seq::empty()
    } else {
        piece_text(p, n - 1) + p[n - 1].text@
    }
}

/// The reason of the last of the first `n` pieces that says it is the last.
pub open spec fn piece_finish(p: Seq<Piece>, n: int) -> Option<FinishReason>
    decreases n,
{
    if n <= 0 {
        None
    } else if p[n - 1].done {
        Some(p[n - 1].finish_reason)
    } else {
        piece_finish(p, n - 1)
    }
}

impl Collected {
    /// Whether this is what the first `n` pieces give: their text in order, and
    /// the counts of the last.
    pub open spec fn gathers(&self, p: Seq<Piece>, n: int) -> bool {
        &&& self.text@ == piece_text(p, n)
        &&& self.prompt_tokens == (if n <= 0 {
            0
        } else {
            p[n - 1].prompt_tokens
        })
        &&& self.generated_tokens == (if n <= 0 {
            0
        } else {
            p[n - 1].generated_tokens
        })
        &&& self.finish == piece_finish(p, n)
    }

    /// Put the pieces together.
    pub fn of(pieces: &Vec<Piece>) -> (r: Collected)
        ensures
            r.gathers(pieces@, pieces.len() as int),
    {
        let mut c = Collected {
            text: String::new(),
            prompt_tokens: 0,
            generated_tokens: 0,
            finish: None,
        };
        proof {
            assert(c.text@ =~= Seq::empty());
        }
        let mut i: usize = 0;
        while i < pieces.len()
            invariant
                i <= pieces.len(),
                c.gathers(pieces@, i as int),
            decreases pieces.len() - i,
        {
            let p = &pieces[i];
            c.text.append(p.text.as_str());
            c.prompt_tokens = p.prompt_tokens;
            c.generated_tokens = p.generated_tokens;
            if p.done {
                c.finish = Some(p.finish_reason);
            }
            i = i + 1;
        }
        c
    }
}

/// A served model, as its tasks see it.
#[derive(Debug)]
pub struct ServedModel {
    pub name: String,
    pub kind: ModelKind,
    pub dim: u32,
    pub buckets: Vec<Bucket>,
}

impl ServedModel {
    /// Every bucket has a row.
    pub open spec fn wf(&self) -> bool {
        forall|i: int| 0 <= i < self.buckets.len() ==> (#[trigger] self.buckets@[i]).batch > 0
    }
}

/// The bucket that serves a request, and the chunks of its rows.
#[derive(Debug)]
pub struct Lease {
    pub bucket: usize,
    pub chunks: Vec<(usize, usize)>,
}

/// Whether a lease is the one of a request of `rows` rows, or the refusal is.
pub open spec fn leases(
    m: ServedModel,
    rows: int,
    seq: Option<u32>,
    cuts: bool,
    r: Result<Lease, Error>,
) -> bool {
    if m.buckets.len() == 0 {
        r is Err && r->Err_0@ == plain(
            Class::BadRequest,
            "model `"@ + m.name@ + "` serves no sessions (generative model)"@,
        )
    } else {
        match need_of(m.name@, longest_of(m.buckets@, m.buckets.len() as int), seq, cuts) {
            Err(e) => r is Err && r->Err_0@ == e,
            Ok(need) => {
                &&& r is Ok
                &&& is_choice(m.buckets@, rows, need, r->Ok_0.bucket as int)
                &&& r->Ok_0.chunks@ == prompt_chunks(
                    rows,
                    m.buckets@[r->Ok_0.bucket as int].batch as int,
                    0,
                )
            },
        }
    }
}

/// The bucket for `rows` rows of up to `seq` tokens (`None`: unknown), and the
/// chunks of the rows.
pub fn lease(m: &ServedModel, rows: usize, seq: Option<u32>, cuts: bool) -> (r: Result<Lease, Error>)
    requires
        m.wf(),
    ensures
        leases(*m, rows as int, seq, cuts, r),
{
    let bucket = match choose_bucket(m.name.as_str(), &m.buckets, rows, seq, cuts) {
        Err(e) => return Err(e),
        Ok(b) => b,
    };
    Ok(Lease { bucket, chunks: chunks(rows, m.buckets[bucket].batch as usize) })
}

/// The largest count, where the texts were counted.
pub open spec fn most_of(counts: Option<Vec<u32>>) -> Option<u32> {
    match counts {
        Some(c) => Some(most(c@, c.len() as int)),
        None => None,
    }
}

/// The largest count, where the texts were counted.
fn most_known(counts: &Option<Vec<u32>>) -> (r: Option<u32>)
    ensures
        r == most_of(*counts),
{
    match counts {
        Some(c) => Some(longest(c)),
        None => None,
    }
}

/// The lease of a task on `n` texts. `validated` is what the provider says of the
/// options; `counted` the tokens of each text with its prefix, where there is a
/// tokenizer.
pub fn text_lease(
    m: &ServedModel,
    needs: ModelKind,
    n: usize,
    truncate: Truncate,
    validated: Result<(), Error>,
    counted: Result<Option<Vec<u32>>, Error>,
) -> (r: Result<Lease, Error>)
    requires
        m.wf(),
    ensures
        match texts_fault(m.name@, m.kind, needs, n as nat) {
            Some(e) => r is Err && r->Err_0@ == e,
            None => match validated {
                Err(e) => r is Err && r->Err_0@ == e@,
                Ok(_) => match counted {
                    Err(e) => r is Err && r->Err_0@ == e@,
                    Ok(c) => leases(
                        *m,
                        n as int,
                        most_of(c),
                        truncate == Truncate::Right || truncate == Truncate::Left,
                        r,
                    ),
                },
            },
        },
{
    match check_texts(m.name.as_str(), m.kind, needs, n) {
        Err(e) => return Err(e),
        Ok(()) => {},
    }
    match validated {
        Err(e) => return Err(e),
        Ok(()) => {},
    }
    let counts = match counted {
        Err(e) => return Err(e),
        Ok(c) => c,
    };
    lease(m, n, most_known(&counts), truncating(truncate))
}

/// The lease of a reranking: the longest pair sizes the bucket. `counted` are the
/// tokens of the query and of each document.
pub fn rerank_lease(
    m: &ServedModel,
    docs: usize,
    top_n: u32,
    truncate: Truncate,
    validated: Result<(), Error>,
    counted: Result<Option<(u32, Vec<u32>)>, Error>,
) -> (r: Result<Lease, Error>)
    requires
        m.wf(),
        counted matches Ok(Some(c)) ==> c.1.len() == docs && c.0 + most(c.1@, c.1.len() as int)
            <= u32::MAX,
    ensures
        match rerank_fault(m.name@, m.kind, docs as nat, top_n) {
            Some(e) => r is Err && r->Err_0@ == e,
            None => match validated {
                Err(e) => r is Err && r->Err_0@ == e@,
                Ok(_) => match counted {
                    Err(e) => r is Err && r->Err_0@ == e@,
                    Ok(c) => leases(
                        *m,
                        docs as int,
                        match c {
                            Some(c) => Some((c.0 + most(c.1@, c.1.len() as int)) as u32),
                            None => None,
                        },
                        truncate == Truncate::Right || truncate == Truncate::Left,
                        r,
                    ),
                },
            },
        },
{
    match check_rerank(m.name.as_str(), m.kind, docs, top_n) {
        Err(e) => return Err(e),
        Ok(()) => {},
    }
    match validated {
        Err(e) => return Err(e),
        Ok(()) => {},
    }
    let longest = match &counted {
        Err(_) => None,
        Ok(None) => None,
        Ok(Some(c)) => Some(longest_pair(c.0, &c.1)),
    };
    match counted {
        Err(e) => Err(e),
        Ok(_) => lease(m, docs, longest, truncating(truncate)),
    }
}

/// The lease of a generic run: one row, of the longest bucket.
pub fn run_lease(m: &ServedModel) -> (r: Result<Lease, Error>)
    requires
        m.wf(),
    ensures
        match kind_fault(m.name@, m.kind, ModelKind::Generic) {
            Some(e) => r is Err && r->Err_0@ == e,
            None => leases(*m, 1, None, true, r),
        },
{
    match check_kind(m.name.as_str(), m.kind, ModelKind::Generic) {
        Err(e) => return Err(e),
        Ok(()) => {},
    }
    lease(m, 1, None, true)
}

/// Whether chunks follow each other from the first row to the last, none empty.
pub open spec fn covers(c: Seq<(usize, usize)>, rows: int) -> bool {
    &&& c.len() > 0
    &&& c[0].0 == 0
    &&& c.last().1 == rows
    &&& forall|i: int| 0 <= i < c.len() ==> (#[trigger] c[i]).0 < c[i].1
    &&& forall|i: int, j: int|
        0 <= i && j == i + 1 && j < c.len() ==> (#[trigger] c[j]).0 == (#[trigger] c[i]).1
}

/// A request that is leased goes through its bucket whole: its chunks follow each
/// other from the first row to the last, and none has more rows than the bucket.
pub proof fn lease_covers_every_row(m: ServedModel, rows: int, seq: Option<u32>, cuts: bool, r: Result<
    Lease,
    Error,
>)
    requires
        m.wf(),
        0 < rows <= usize::MAX,
        leases(m, rows, seq, cuts, r),
        r is Ok,
    ensures
        ({
            let c = r->Ok_0.chunks@;
            let batch = m.buckets@[r->Ok_0.bucket as int].batch;
            &&& covers(c, rows)
            &&& forall|i: int| 0 <= i < c.len() ==> (#[trigger] c[i]).1 - c[i].0 <= batch
        }),
{
    let batch = m.buckets@[r->Ok_0.bucket as int].batch as int;
    crate::ggml::prompt_chunks_cover(rows, batch, 0);
}

/// A request that may not be cut is only leased a bucket that holds its longest
/// text.
pub proof fn lease_holds_the_longest(m: ServedModel, rows: int, seq: u32, r: Result<Lease, Error>)
    requires
        m.wf(),
        leases(m, rows, Some(seq), false, r),
        r is Ok,
    ensures
        m.buckets@[r->Ok_0.bucket as int].seq >= seq,
{
}

/// What a request may say of truncation, in any case: nothing or `model` leaves it to
/// the model, `none` and `false` refuse it, `right` and `true` cut at the end and `left`
/// at the beginning. Everything else is a bad request.
pub proof fn truncation_is_read_by_its_name(given: Seq<char>)
    ensures
        truncate_value(None) == Ok::<Truncate, ErrorView>(Truncate::Model),
        ({
            let s = lowered(given);
            let v = truncate_value(Some(given));
            &&& v == Ok::<Truncate, ErrorView>(Truncate::Model) <==> s == "model"@
            &&& v == Ok::<Truncate, ErrorView>(Truncate::Off) <==> s == "none"@ || s == "false"@
            &&& v == Ok::<Truncate, ErrorView>(Truncate::Right) <==> s == "right"@ || s == "true"@
            &&& v == Ok::<Truncate, ErrorView>(Truncate::Left) <==> s == "left"@
        }),
{
    option_words_differ();
}

/// What a request may say of a text's role: nothing or `none` for none, `query`, and
/// `document` or `passage`.
pub proof fn a_role_is_read_by_its_name(given: Seq<char>)
    ensures
        prompt_role_value(None) == Ok::<PromptRole, ErrorView>(PromptRole::Off),
        ({
            let s = lowered(given);
            let v = prompt_role_value(Some(given));
            &&& v == Ok::<PromptRole, ErrorView>(PromptRole::Off) <==> s == "none"@
            &&& v == Ok::<PromptRole, ErrorView>(PromptRole::Query) <==> s == "query"@
            &&& v == Ok::<PromptRole, ErrorView>(PromptRole::Document) <==> s == "document"@ || s
                == "passage"@
        }),
{
    option_words_differ();
}

/// What a request may say of normalization: nothing or `model` leaves it to the model,
/// `none` and `false` leave vectors as they are, `l2` and `true` make them of length one.
pub proof fn normalization_is_read_by_its_name(given: Seq<char>)
    ensures
        normalize_value(None) == Ok::<Normalize, ErrorView>(Normalize::Model),
        ({
            let s = lowered(given);
            let v = normalize_value(Some(given));
            &&& v == Ok::<Normalize, ErrorView>(Normalize::Model) <==> s == "model"@
            &&& v == Ok::<Normalize, ErrorView>(Normalize::Off) <==> s == "none"@ || s == "false"@
            &&& v == Ok::<Normalize, ErrorView>(Normalize::L2) <==> s == "l2"@ || s == "true"@
        }),
{
    option_words_differ();
}

/// What a request may say of pooling: nothing or `model`, `mean`, `cls` or `last`.
pub proof fn pooling_is_read_by_its_name(given: Seq<char>)
    ensures
        pooling_value(None) == Ok::<Pooling, ErrorView>(Pooling::Model),
        ({
            let s = lowered(given);
            let v = pooling_value(Some(given));
            &&& v == Ok::<Pooling, ErrorView>(Pooling::Model) <==> s == "model"@
            &&& v == Ok::<Pooling, ErrorView>(Pooling::Mean) <==> s == "mean"@
            &&& v == Ok::<Pooling, ErrorView>(Pooling::Cls) <==> s == "cls"@
            &&& v == Ok::<Pooling, ErrorView>(Pooling::Last) <==> s == "last"@
        }),
{
    option_words_differ();
}

/// What a request may say of aggregation: nothing or `model`, `none`, `simple`, `first`
/// or `max`.
pub proof fn aggregation_is_read_by_its_name(given: Seq<char>)
    ensures
        aggregation_value(None) == Ok::<Aggregation, ErrorView>(Aggregation::Model),
        ({
            let s = lowered(given);
            let v = aggregation_value(Some(given));
            &&& v == Ok::<Aggregation, ErrorView>(Aggregation::Model) <==> s == "model"@
            &&& v == Ok::<Aggregation, ErrorView>(Aggregation::Off) <==> s == "none"@
            &&& v == Ok::<Aggregation, ErrorView>(Aggregation::Simple) <==> s == "simple"@
            &&& v == Ok::<Aggregation, ErrorView>(Aggregation::First) <==> s == "first"@
            &&& v == Ok::<Aggregation, ErrorView>(Aggregation::Max) <==> s == "max"@
        }),
{
    option_words_differ();
}

/// The words of the options are told apart by their beginnings.
proof fn option_words_differ()
    ensures
        "model"@[0] == 'm' && "model"@[1] == 'o',
        "mean"@[0] == 'm' && "mean"@[1] == 'e',
        "max"@[0] == 'm' && "max"@[1] == 'a',
        "none"@[0] == 'n',
        "false"@[0] == 'f' && "false"@[1] == 'a',
        "first"@[0] == 'f' && "first"@[1] == 'i',
        "right"@[0] == 'r',
        "true"@[0] == 't',
        "left"@[0] == 'l' && "left"@[1] == 'e',
        "last"@[0] == 'l' && "last"@[1] == 'a',
        "l2"@[0] == 'l' && "l2"@[1] == '2',
        "cls"@[0] == 'c',
        "simple"@[0] == 's',
        "query"@[0] == 'q',
        "document"@[0] == 'd',
        "passage"@[0] == 'p',
{
    reveal_strlit("model");
    reveal_strlit("mean");
    reveal_strlit("max");
    reveal_strlit("none");
    reveal_strlit("false");
    reveal_strlit("first");
    reveal_strlit("right");
    reveal_strlit("true");
    reveal_strlit("left");
    reveal_strlit("last");
    reveal_strlit("l2");
    reveal_strlit("cls");
    reveal_strlit("simple");
    reveal_strlit("query");
    reveal_strlit("document");
    reveal_strlit("passage");
}

/// A model is served under the name that it was given, and else under its own without
/// the path before it.
pub proof fn a_model_is_served_under_its_own_name(given: Option<Seq<char>>, owner: Seq<char>, name: Seq<char>)
    requires
        !name.contains('/'),
        name.len() > 0,
    ensures
        given matches Some(n) ==> served_name(given, owner + seq!['/'] + name) == n,
        given is None ==> served_name(given, owner + seq!['/'] + name) == name,
        given is None ==> served_name(given, name) == name,
{
    let id = owner + seq!['/'] + name;
    no_slash_behind(owner + seq!['/'], name);
    assert((owner + seq!['/']).last() == '/');
    assert(id.skip(owner.len() as int + 1) =~= name);
    no_slash_behind(Seq::empty(), name);
    assert(Seq::<char>::empty() + name =~= name);
    assert(name.skip(0) =~= name);
}

/// The last slash stands before what has none.
proof fn no_slash_behind(a: Seq<char>, t: Seq<char>)
    requires
        !t.contains('/'),
    ensures
        last_at(a + t, '/') == last_at(a, '/'),
    decreases t.len(),
{
    if t.len() == 0 {
        assert(a + t =~= a);
    } else {
        assert(t.contains(t[t.len() - 1]));
        assert((a + t).drop_last() =~= a + t.drop_last());
        assert forall|c: char| t.drop_last().contains(c) implies t.contains(c) by {
            let i = choose|i: int| 0 <= i < t.drop_last().len() && t.drop_last()[i] == c;
            assert(t[i] == c);
        }
        no_slash_behind(a, t.drop_last());
    }
}

/// The default batches end with the model's own, begin with single rows, and grow.
pub proof fn default_batches_grow_to_the_models_own(max_batch: u32)
    requires
        max_batch >= 1,
    ensures
        ({
            let b = default_batches(max_batch);
            &&& 1 <= b.len() <= 3
            &&& b[0] == 1
            &&& b.last() == max_batch
            &&& forall|i: int, j: int| 0 <= i < j < b.len() ==> #[trigger] b[i] < #[trigger] b[j]
            &&& max_batch > 8 ==> b.contains(8)
        }),
{
    if max_batch > 8 {
        assert(default_batches(max_batch)[1] == 8);
    }
}

/// Buckets are taken where none exceeds the model's limits.
pub proof fn buckets_stay_within_the_limits(name: Seq<char>, shapes: Seq<Bucket>, max_batch: u32, max_seq: u32, i: int)
    requires
        0 <= i <= shapes.len(),
    ensures
        bucket_fault(name, shapes, max_batch, max_seq, i) is None <==> forall|k: int|
            i <= k < shapes.len() ==> (#[trigger] shapes[k]).batch <= max_batch && shapes[k].seq <= max_seq,
    decreases shapes.len() - i,
{
    if i < shapes.len() {
        if !(shapes[i].batch > max_batch || shapes[i].seq > max_seq) {
            buckets_stay_within_the_limits(name, shapes, max_batch, max_seq, i + 1);
        } else {
            assert(!(shapes[i].batch <= max_batch && shapes[i].seq <= max_seq));
        }
    }
}

/// A request needs a session as long as its longest input, and where that is unknown the
/// longest there is. A longer input is cut where that is allowed, and else refused.
pub proof fn a_request_needs_room_for_its_longest_input(
    name: Seq<char>,
    longest: u32,
    seq: Option<u32>,
    truncating: bool,
)
    ensures
        seq is None ==> need_of(name, longest, seq, truncating) == Ok::<u32, ErrorView>(longest),
        seq matches Some(n) ==> {
            &&& n <= longest ==> need_of(name, longest, seq, truncating) == Ok::<u32, ErrorView>(n)
            &&& n > longest && truncating ==> need_of(name, longest, seq, truncating) == Ok::<
                u32,
                ErrorView,
            >(longest)
            &&& n > longest && !truncating ==> need_of(name, longest, seq, truncating) is Err
        },
{
}

/// The bucket of a request that one bucket can hold whole holds it whole, and none that
/// does so has a smaller batch, nor of the same batch a shorter sequence. Where none can,
/// it is as wide as there is among those that are long enough, and of these the shortest.
pub proof fn the_smallest_bucket_that_holds_all_is_chosen(
    v: Seq<Bucket>,
    rows: int,
    need: u32,
    i: int,
    j: int,
)
    requires
        is_choice(v, rows, need, i),
        0 <= j < v.len(),
        v[j].seq >= need,
    ensures
        v[i].seq >= need,
        v[j].batch >= rows ==> v[i].batch >= rows && (v[i].batch < v[j].batch || v[i].batch == v[j].batch
            && v[i].seq <= v[j].seq),
        v[i].batch < rows ==> v[i].batch > v[j].batch || v[i].batch == v[j].batch && v[i].seq <= v[j].seq,
{
    if v[j].batch >= rows {
        assert(holds_all(v[j], rows, need));
    }
    if v[i].batch < rows {
        assert(!holds_all(v[i], rows, need));
    }
}

/// A request goes to a model of its kind, with something to work on: texts, messages or
/// documents, and of these no more are asked back than were given.
pub proof fn requests_go_to_models_of_their_kind(
    name: Seq<char>,
    has: ModelKind,
    needs: ModelKind,
    n: nat,
    top_n: u32,
)
    ensures
        texts_fault(name, has, needs, n) is None <==> has == needs && n > 0,
        rerank_fault(name, has, n, top_n) is None <==> has == ModelKind::Reranker && n > 0 && top_n <= n,
        kind_fault(name, has, needs) is None <==> has == needs,
{
}

/// A text gets the prompt of its role and no other.
pub proof fn a_text_gets_the_prompt_of_its_role(role: PromptRole, query: Seq<char>, document: Seq<char>)
    ensures
        role == PromptRole::Query ==> prefix_text(role, query, document) == query,
        role == PromptRole::Document ==> prefix_text(role, query, document) == document,
        role == PromptRole::Off ==> prefix_text(role, query, document).len() == 0,
{
}

/// A ranking is cut to its best: as many as were asked for, and all where nothing was.
pub proof fn a_ranking_is_cut_to_its_best(order: Seq<usize>, top_n: u32)
    requires
        forall|i: int| 0 <= i < order.len() ==> #[trigger] order[i] <= i32::MAX,
    ensures
        ({
            let c = cut_ranking(order, top_n);
            &&& top_n == 0 || top_n >= order.len() ==> c.len() == order.len()
            &&& 0 < top_n <= order.len() ==> c.len() == top_n
            &&& forall|i: int| 0 <= i < c.len() ==> #[trigger] c[i] == order[i]
        }),
{
}

/// The best `n` of a ranking cut to more are those of one cut to `n`.
pub proof fn cutting_a_ranking_further_keeps_its_best(order: Seq<usize>, a: u32, b: u32)
    requires
        0 < a <= b <= order.len(),
    ensures
        cut_ranking(order, a) == cut_ranking(order, b).take(a as int),
{
    assert(cut_ranking(order, a) =~= cut_ranking(order, b).take(a as int));
}

/// The spans of a row are those that the provider reported on it, in their order.
pub proof fn a_row_has_its_own_spans(spans: Seq<Span>, row: int, n: int)
    requires
        0 <= n <= spans.len(),
    ensures
        row_spans(spans, row, n) == spans.take(n).filter(|s: Span| s.row == row),
    decreases n,
{
    reveal(Seq::filter);
    if n > 0 {
        a_row_has_its_own_spans(spans, row, n - 1);
        assert(spans.take(n).drop_last() =~= spans.take(n - 1));
    }
}

/// Spans are taken where each is on a row of the request.
pub proof fn spans_are_on_rows_of_the_request(spans: Seq<Span>, rows: nat, i: int)
    requires
        0 <= i <= spans.len(),
    ensures
        span_fault(spans, rows, i) is None <==> forall|k: int| i <= k < spans.len() ==> (#[trigger] spans[k]).row < rows,
    decreases spans.len() - i,
{
    if i < spans.len() {
        if spans[i].row < rows {
            spans_are_on_rows_of_the_request(spans, rows, i + 1);
        } else {
            assert(!(spans[i].row < rows));
        }
    }
}

/// A collected answer is the text of all pieces in their order, with the counts of the
/// last, and ended as the last piece that ended it says.
pub proof fn an_answer_is_all_its_pieces(c: Collected, p: Seq<Piece>, n: int)
    requires
        0 < n <= p.len(),
        c.gathers(p, n),
    ensures
        c.text@ == piece_text(p, n - 1) + p[n - 1].text@,
        piece_text(p, 0).len() == 0,
        c.prompt_tokens == p[n - 1].prompt_tokens,
        c.generated_tokens == p[n - 1].generated_tokens,
        p[n - 1].done ==> c.finish == Some(p[n - 1].finish_reason),
        (forall|i: int| 0 <= i < n ==> !(#[trigger] p[i]).done) ==> c.finish is None,
{
    if forall|i: int| 0 <= i < n ==> !(#[trigger] p[i]).done {
        running_has_no_end(p, n);
    }
}

/// Pieces that all go on have no end.
proof fn running_has_no_end(p: Seq<Piece>, n: int)
    requires
        0 <= n <= p.len(),
        forall|i: int| 0 <= i < n ==> !(#[trigger] p[i]).done,
    ensures
        piece_finish(p, n) is None,
    decreases n,
{
    if n > 0 {
        assert(!p[n - 1].done);
        running_has_no_end(p, n - 1);
    }
}

/// The tokens of a request are counted together: those of a list are those of its parts.
pub proof fn tokens_are_counted_together(a: Seq<u32>, b: Seq<u32>)
    ensures
        total(a + b, (a + b).len() as int) == total(a, a.len() as int) + total(b, b.len() as int),
        forall|x: u32| total(#[trigger] seq![x], 1) == x,
    decreases b.len(),
{
    reveal_with_fuel(total, 2);
    if b.len() == 0 {
        assert(a + b =~= a);
    } else {
        let c = b.drop_last();
        tokens_are_counted_together(a, c);
        total_of_a_beginning(a + b, a + c, (a + c).len() as int);
        total_of_a_beginning(b, c, c.len() as int);
    }
}

/// The total of a beginning does not depend on what follows.
proof fn total_of_a_beginning(a: Seq<u32>, b: Seq<u32>, n: int)
    requires
        0 <= n <= a.len(),
        n <= b.len(),
        forall|i: int| 0 <= i < n ==> #[trigger] a[i] == b[i],
    ensures
        total(a, n) == total(b, n),
    decreases n,
{
    if n > 0 {
        total_of_a_beginning(a, b, n - 1);
        assert(a[n - 1] == b[n - 1]);
    }
}

/// The most tokens of a text are those of one of the texts.
pub proof fn the_most_is_reached(counts: Seq<u32>, n: int)
    requires
        0 < n <= counts.len(),
    ensures
        exists|i: int| 0 <= i < n && #[trigger] counts[i] == most(counts, n),
        forall|i: int| 0 <= i < n ==> #[trigger] counts[i] <= most(counts, n),
    decreases n,
{
    if n > 1 {
        the_most_is_reached(counts, n - 1);
        if counts[n - 1] <= most(counts, n - 1) {
            let i = choose|i: int| 0 <= i < n - 1 && #[trigger] counts[i] == most(counts, n - 1);
            assert(counts[i] == most(counts, n));
        } else {
            assert(counts[n - 1] == most(counts, n));
        }
    } else {
        assert(most(counts, 0) == 0);
        assert(counts[0] == most(counts, n));
    }
}

/// The widest batch is that of one of the buckets, and none is wider.
pub proof fn no_bucket_is_wider_than_the_widest(v: Seq<Bucket>, n: int, k: int)
    requires
        0 <= k < n <= v.len(),
    ensures
        v[k].batch <= widest_of(v, n),
        exists|i: int| 0 <= i < n && (#[trigger] v[i]).batch == widest_of(v, n),
    decreases n,
{
    if n == 1 {
        assert(widest_of(v, 0) == 0);
        assert(v[0].batch == widest_of(v, 1));
    } else {
        no_bucket_is_wider_than_the_widest(
            v,
            n - 1,
            if k < n - 1 {
                k
            } else {
                0
            },
        );
        if v[n - 1].batch > widest_of(v, n - 1) {
            assert(v[n - 1].batch == widest_of(v, n));
        } else {
            let i = choose|i: int| 0 <= i < n - 1 && (#[trigger] v[i]).batch == widest_of(v, n - 1);
            assert(v[i].batch == widest_of(v, n));
        }
    }
}

/// A width that is asked for is the one that is given; 0 asks for the model's.
pub proof fn a_width_is_the_one_asked_for(asked: u32, model: u32)
    ensures
        asked > 0 ==> width_asked(asked, model) == asked,
        width_asked(0, model) == model,
{
}

/// A generation goes on after a piece that was sent and was not the last; it is
/// cancelled after one that could not be sent, even the last.
pub proof fn a_generation_goes_on_while_it_is_heard(sent: bool, done: bool)
    ensures
        piece_outcome(sent, done) == AfterPiece::Cancel <==> !sent,
        piece_outcome(sent, done) == AfterPiece::End <==> sent && done,
        piece_outcome(sent, done) == AfterPiece::Step <==> sent && !done,
{
}

/// A model of a kind is called by its own role.
pub proof fn a_kind_is_called_by_its_role(kind: ModelKind)
    ensures
        kind == ModelKind::Embedding ==> role_of(kind) == "an embedding model"@,
        kind == ModelKind::Reranker ==> role_of(kind) == "a reranker"@,
        kind == ModelKind::Classifier ==> role_of(kind) == "a classifier"@,
        kind == ModelKind::TokenClassifier ==> role_of(kind) == "a token classifier"@,
        kind == ModelKind::Generative ==> role_of(kind) == "a generative model"@,
        kind == ModelKind::Generic ==> role_of(kind) == "a generic RUN model"@,
{
}

/// Buckets in order ascend by their length, and buckets of one length by their rows.
pub proof fn listed_buckets_ascend(v: Seq<Bucket>, i: int, j: int)
    requires
        in_list_order(v),
        0 <= i <= j < v.len(),
    ensures
        v[i].seq <= v[j].seq,
        v[i].seq == v[j].seq ==> v[i].batch <= v[j].batch,
{
}

} // verus!

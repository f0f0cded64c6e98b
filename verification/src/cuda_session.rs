//! A CUDA session: rows staged on the host, what is uploaded of them, and what
//! a run gives.

use vstd::prelude::*;
use crate::bytes::row_views;
use crate::cuda::{Activation, Elem, Kind, Plan, elem_width};
use crate::error::{Class, Error, ErrorView, Field, agrees_plain, on_field, plain};
use crate::rank::{is_ranking, ranking};
use crate::spans::{close_all, grouped, groups_view, row_spans, words_inside, Group, GroupView};
use crate::text::{bracketed, bracketed_of, cat3, cat4, cat9, decimal, decimal_of, views};
use crate::types::{
    Aggregation, ClassifyOptions, EmbedOptions, OutputDtype, Pooling, RerankOptions, TokenBatch,
    Truncate, classify_defaults, embed_defaults, normalizes, normalizes_of, rerank_defaults,
};
use crate::wordpiece::{
    TRUNC_ERROR, TRUNC_LONGEST_FIRST, TRUNC_QUERY_PRIORITY, TextWords, Vocab, WORDPIECE_OK, WordSpan,
    encode_row, pair_verdict, row_tokens, window,
};

verus! {

/// One staged row.
pub struct Row {
    pub ids: Vec<i32>,
    pub mask: Vec<i32>,
    pub types: Vec<i32>,
}

impl Row {
    /// Whether the row has `seq` columns.
    pub open spec fn wide(&self, seq: u32) -> bool {
        self.ids.len() == seq && self.mask.len() == seq && self.types.len() == seq
    }
}

/// What was written last.
#[derive(Clone, Copy, Debug, PartialEq, Eq, Structural)]
pub enum Written {
    Nothing,
    Embed,
    Tokens,
    Pairs,
    Classify,
}

/// `tokens`, then `fill` up to `seq` columns.
pub open spec fn padded(tokens: Seq<i32>, fill: i32, seq: u32) -> Seq<i32> {
    Seq::new(
        seq as nat,
        |i: int|
            if i < tokens.len() {
                tokens[i]
            } else {
                fill
            },
    )
}

/// `n` times `v`.
pub open spec fn repeated(v: i32, n: nat) -> Seq<i32> {
    Seq::new(n, |i: int| v)
}

/// How many elements are not zero.
pub open spec fn live_count(mask: Seq<i32>) -> nat
    decreases mask.len(),
{
    if mask.len() == 0 {
        0
    } else {
        live_count(mask.drop_last()) + if mask.last() != 0 {
            1nat
        } else {
            0
        }
    }
}

/// There are no more live elements than elements.
pub proof fn live_count_bound(mask: Seq<i32>)
    ensures
        live_count(mask) <= mask.len(),
    decreases mask.len(),
{
    if mask.len() > 0 {
        live_count_bound(mask.drop_last());
    }
}

/// How many elements are not zero.
fn live_count_of(mask: &Vec<i32>) -> (r: usize)
    ensures
        r == live_count(mask@),
{
    let mut n: usize = 0;
    let mut i: usize = 0;
    while i < mask.len()
        invariant
            i <= mask.len(),
            n <= i,
            n == live_count(mask@.take(i as int)),
        decreases mask.len() - i,
    {
        proof {
            assert(mask@.take(i + 1).drop_last() =~= mask@.take(i as int));
        }
        if mask[i] != 0 {
            n = n + 1;
        }
        i = i + 1;
    }
    proof {
        assert(mask@.take(i as int) =~= mask@);
    }
    n
}

/// The largest of the first `n` lengths, 0 of none.
pub open spec fn longest(lengths: Seq<u32>, n: int) -> u32
    decreases n,
{
    if n <= 0 {
        0
    } else {
        let rest = longest(lengths, n - 1);
        if lengths[n - 1] > rest {
            lengths[n - 1]
        } else {
            rest
        }
    }
}

/// How many columns of the rows are used: all of them, or those of the longest
/// live row rounded up to eight.
pub open spec fn used_columns(longest: u32, seq: u32, full: bool) -> int {
    let l = if longest == 0 {
        1int
    } else {
        longest as int
    };
    let up = (l + 7) / 8 * 8;
    if full || up > seq {
        seq as int
    } else {
        up
    }
}

/// The number of columns a session shape needs at least.
pub open spec fn session_verdict(max_batch: u32, max_seq: u32) -> Result<(), ErrorView> {
    if max_batch < 1 || max_seq < 2 {
        Err(
            plain(Class::InvalidArgument, "session needs max_batch >= 1 and max_seq >= 2"@),
        )
    } else {
        Ok(())
    }
}

/// Whether a session of this shape can be made.
pub fn check_session(max_batch: u32, max_seq: u32) -> (r: Result<(), Error>)
    ensures
        agrees_plain(r, session_verdict(max_batch, max_seq)),
{
    if max_batch < 1 || max_seq < 2 {
        return Err(
            Error::say(Class::InvalidArgument, "session needs max_batch >= 1 and max_seq >= 2"),
        );
    }
    Ok(())
}

/// The token budget of a call: what it asks, or all columns.
pub open spec fn budget(max_tokens: u32, seq: u32, reason: Seq<char>) -> Result<u32, ErrorView> {
    let b = if max_tokens == 0 {
        seq
    } else {
        max_tokens
    };
    if b > seq {
        Err(
            plain(
                Class::Capacity,
                "max_tokens "@ + decimal(b as nat) + " exceeds the session's max_seq "@ + decimal(
                    seq as nat,
                ),
            ),
        )
    } else if b < 2 {
        Err(plain(Class::Capacity, reason))
    } else {
        Ok(b)
    }
}

/// The token budget of a call. `reason` is the refusal of a budget below two.
pub fn budget_of(max_tokens: u32, seq: u32, reason: &str) -> (r: Result<u32, Error>)
    ensures
        agrees_plain(r, budget(max_tokens, seq, reason@)),
{
    let b = if max_tokens == 0 {
        seq
    } else {
        max_tokens
    };
    if b > seq {
        return Err(
            Error::plain(
                Class::Capacity,
                cat4(
                    "max_tokens ",
                    decimal_of(b as u128).as_str(),
                    " exceeds the session's max_seq ",
                    decimal_of(seq as u128).as_str(),
                ),
            ),
        );
    }
    if b < 2 {
        return Err(Error::say(Class::Capacity, reason));
    }
    Ok(b)
}

/// Whether a number of inputs fits a session.
pub open spec fn count_verdict(count: nat, batch: u32) -> Result<(), ErrorView> {
    if count == 0 || count > batch {
        Err(
            plain(
                Class::Capacity,
                decimal(count) + " inputs written but the session holds 1.."@ + decimal(batch as nat)
                    + " rows"@,
            ),
        )
    } else {
        Ok(())
    }
}

/// Whether a number of inputs fits a session.
pub fn check_count(count: usize, batch: u32) -> (r: Result<(), Error>)
    ensures
        agrees_plain(r, count_verdict(count as nat, batch)),
{
    if count == 0 || count > batch as usize {
        return Err(
            Error::plain(
                Class::Capacity,
                cat4(
                    decimal_of(count as u128).as_str(),
                    " inputs written but the session holds 1..",
                    decimal_of(batch as u128).as_str(),
                    " rows",
                ),
            ),
        );
    }
    Ok(())
}

/// The refusal of a token batch that is larger than the session.
pub open spec fn batch_verdict(rows: u32, cols: u32, batch: u32, seq: u32) -> Result<(), ErrorView> {
    if rows > batch || cols > seq {
        Err(
            plain(
                Class::Capacity,
                "token batch ["@ + decimal(rows as nat) + ", "@ + decimal(cols as nat)
                    + "] exceeds the session shape ["@ + decimal(batch as nat) + ", "@ + decimal(
                    seq as nat,
                ) + "]"@,
            ),
        )
    } else {
        Ok(())
    }
}

/// Whether a token batch fits a session.
pub fn check_batch(rows: u32, cols: u32, batch: u32, seq: u32) -> (r: Result<(), Error>)
    ensures
        agrees_plain(r, batch_verdict(rows, cols, batch, seq)),
{
    if rows > batch || cols > seq {
        return Err(
            Error::plain(
                Class::Capacity,
                cat9(
                    "token batch [",
                    decimal_of(rows as u128).as_str(),
                    ", ",
                    decimal_of(cols as u128).as_str(),
                    "] exceeds the session shape [",
                    decimal_of(batch as u128).as_str(),
                    ", ",
                    decimal_of(seq as u128).as_str(),
                    "]",
                ),
            ),
        );
    }
    Ok(())
}

/// The refusal of an output dimension larger than the model's.
pub open spec fn too_wide(asked: u32, dim: u32) -> ErrorView {
    on_field(
        Class::InvalidArgument,
        Field::EmbedOutputDim,
        "output_dim "@ + decimal(asked as nat) + " exceeds the model dimension "@ + decimal(
            dim as nat,
        ),
    )
}

/// The refusal of an output dimension larger than the model's.
pub fn refuse_width(asked: u32, dim: u32) -> (r: Error)
    ensures
        r@ == too_wide(asked, dim),
{
    Error::on_field(
        Class::InvalidArgument,
        Field::EmbedOutputDim,
        cat4(
            "output_dim ",
            decimal_of(asked as u128).as_str(),
            " exceeds the model dimension ",
            decimal_of(dim as u128).as_str(),
        ),
    )
}

/// What of the model a session works with, and the rows staged in it.
pub struct Session {
    pub plan: Plan,
    pub elem: Elem,
    pub has_types: bool,
    pub batch: u32,
    pub seq: u32,
    pub rows: Vec<Row>,
    pub lengths: Vec<u32>,
    pub words: Vec<Vec<WordSpan>>,
    pub eopts: EmbedOptions,
    pub ropts: RerankOptions,
    pub copts: ClassifyOptions,
    pub written: Written,
    pub n_rows: u32,
    pub used_seq: u32,
    pub readback_valid: bool,
    pub runs: u64,
    pub h2d: u64,
    pub d2h: u64,
}

/// Why a budget below two is refused.
pub const NEED_TWO: &'static str = "token budget must be at least 2 for [CLS] and [SEP]";

/// What writing the first `n` rows gives: the first row that does not fit is refused.
pub open spec fn rows_verdict(
    prefix: Seq<i32>,
    texts: Seq<Vec<i32>>,
    truncate: Truncate,
    budget: u32,
    n: int,
) -> Result<(), ErrorView>
    decreases n,
{
    if n <= 0 {
        Ok(())
    } else {
        match rows_verdict(prefix, texts, truncate, budget, n - 1) {
            Err(e) => Err(e),
            Ok(_) => match window(
                (n - 1) as u32,
                prefix.len(),
                texts[n - 1]@.len(),
                truncate,
                budget,
            ) {
                Err(e) => Err(e),
                Ok(_) => Ok(()),
            },
        }
    }
}

/// A refused row decides the whole.
proof fn refused_row_stays(
    prefix: Seq<i32>,
    texts: Seq<Vec<i32>>,
    truncate: Truncate,
    budget: u32,
    i: int,
    n: int,
)
    requires
        0 <= i <= n,
    ensures
        rows_verdict(prefix, texts, truncate, budget, i) is Err ==> rows_verdict(
            prefix,
            texts,
            truncate,
            budget,
            n,
        ) == rows_verdict(prefix, texts, truncate, budget, i),
    decreases n,
{
    if i < n {
        refused_row_stays(prefix, texts, truncate, budget, i, n - 1);
    }
}

/// The live tokens of row `r`.
pub open spec fn text_tokens(
    vocab: Vocab,
    prefix: Seq<i32>,
    text: Seq<i32>,
    truncate: Truncate,
    budget: u32,
    r: int,
) -> Seq<i32> {
    let w = window(r as u32, prefix.len(), text.len(), truncate, budget)->Ok_0;
    row_tokens(vocab, prefix, text, w.0 as int, w.1 as int)
}

impl Session {
    /// Whether the staging has the session's shape.
    pub open spec fn wf(&self) -> bool {
        &&& self.rows.len() == self.batch
        &&& self.lengths.len() == self.batch
        &&& self.words.len() == self.batch
        &&& self.n_rows <= self.batch
        &&& self.used_seq <= self.seq
        &&& forall|r: int| 0 <= r < self.rows.len() ==> (#[trigger] self.rows@[r]).wide(self.seq)
    }

    /// Whether everything but the staged rows is as in `o`.
    pub open spec fn same_model(&self, o: &Session) -> bool {
        &&& self.plan == o.plan
        &&& self.elem == o.elem
        &&& self.has_types == o.has_types
        &&& self.batch == o.batch
        &&& self.seq == o.seq
        &&& self.runs == o.runs
        &&& self.h2d == o.h2d
        &&& self.d2h == o.d2h
    }

    /// Whether the last write is still the one of `o`.
    pub open spec fn same_write(&self, o: &Session) -> bool {
        &&& self.eopts == o.eopts
        &&& self.ropts == o.ropts
        &&& self.copts == o.copts
        &&& self.written == o.written
        &&& self.n_rows == o.n_rows
        &&& self.used_seq == o.used_seq
        &&& self.readback_valid == o.readback_valid
    }

    /// Whether the tokens from row `n` on are as in `o`.
    pub open spec fn tokens_stay(&self, o: &Session, n: int) -> bool {
        &&& forall|i: int| n <= i < self.batch ==> #[trigger] self.rows@[i] == o.rows@[i]
        &&& forall|i: int| n <= i < self.batch ==> #[trigger] self.lengths@[i] == o.lengths@[i]
    }

    /// Whether the words from row `n` on are as in `o`.
    pub open spec fn words_stay(&self, o: &Session, n: int) -> bool {
        forall|i: int| n <= i < self.batch ==> #[trigger] self.words@[i] == o.words@[i]
    }

    /// Whether everything from row `n` on is as in `o`.
    pub open spec fn behind_stays(&self, o: &Session, n: int) -> bool {
        self.tokens_stay(o, n) && self.words_stay(o, n)
    }

    /// Whether the first `n` rows have the words of their texts, none where words are
    /// not kept.
    pub open spec fn holds_words(
        &self,
        texts: Seq<Vec<i32>>,
        words: Option<Seq<TextWords>>,
        truncate: Truncate,
        budget: u32,
        n: int,
    ) -> bool {
        forall|i: int|
            0 <= i < n ==> (#[trigger] self.words@[i])@ == (match words {
                Some(w) => w[i].kept(texts[i]@.len(), truncate, budget),
                None => Seq::empty(),
            })
    }

    /// Whether a write of texts over `o` got as far as row `k`, which was refused: the
    /// rows before it are those of the texts, those behind it as they were, and the
    /// refused one has no words where words are kept.
    pub open spec fn stopped_at(
        &self,
        o: &Session,
        vocab: Vocab,
        prefix: Seq<i32>,
        texts: Seq<Vec<i32>>,
        words: Option<Seq<TextWords>>,
        truncate: Truncate,
        budget: u32,
        k: int,
    ) -> bool {
        &&& 0 <= k < texts.len()
        &&& rows_verdict(prefix, texts, truncate, budget, k) is Ok
        &&& rows_verdict(prefix, texts, truncate, budget, k + 1) is Err
        &&& self.holds_texts(vocab, prefix, texts, truncate, budget, k)
        &&& self.holds_words(texts, words, truncate, budget, k)
        &&& self.tokens_stay(o, k)
        &&& self.words_stay(o, k + 1)
        &&& match words {
            Some(_) => self.words@[k]@ == Seq::<WordSpan>::empty(),
            None => self.words@[k] == o.words@[k],
        }
    }

    /// A new session: nothing written, every column zero.
    pub fn new(plan: Plan, elem: Elem, has_types: bool, batch: u32, seq: u32) -> (r: Session)
        ensures
            r.wf(),
            r.plan == plan,
            r.elem == elem,
            r.has_types == has_types,
            r.batch == batch,
            r.seq == seq,
            r.written == Written::Nothing,
            r.n_rows == 0,
            r.used_seq == 0,
            !r.readback_valid,
            r.runs == 0,
            r.h2d == 0,
            r.d2h == 0,
            r.eopts == embed_defaults(),
            r.ropts == rerank_defaults(),
            r.copts == classify_defaults(),
            forall|i: int|
                0 <= i < batch ==> (#[trigger] r.rows@[i]).ids@ == repeated(0, seq as nat)
                    && r.rows@[i].mask@ == repeated(0, seq as nat) && r.rows@[i].types@ == repeated(
                    0,
                    seq as nat,
                ),
            forall|i: int| 0 <= i < batch ==> #[trigger] r.lengths@[i] == 0,
            forall|i: int| 0 <= i < batch ==> (#[trigger] r.words@[i])@ == Seq::<WordSpan>::empty(),
    {
        let mut rows: Vec<Row> = Vec::new();
        let mut lengths: Vec<u32> = Vec::new();
        let mut words: Vec<Vec<WordSpan>> = Vec::new();
        let mut i: u32 = 0;
        while i < batch
            invariant
                i <= batch,
                rows.len() == i,
                lengths.len() == i,
                words.len() == i,
                forall|j: int|
                    0 <= j < i ==> (#[trigger] rows@[j]).ids@ == repeated(0, seq as nat)
                        && rows@[j].mask@ == repeated(0, seq as nat) && rows@[j].types@ == repeated(
                        0,
                        seq as nat,
                    ),
                forall|j: int| 0 <= j < i ==> #[trigger] lengths@[j] == 0,
                forall|j: int| 0 <= j < i ==> (#[trigger] words@[j])@ == Seq::<WordSpan>::empty(),
            decreases batch - i,
        {
            let row = Row {
                ids: vec![0i32; seq as usize],
                mask: vec![0i32; seq as usize],
                types: vec![0i32; seq as usize],
            };
            proof {
                assert(row.ids@ =~= repeated(0, seq as nat));
                assert(row.mask@ =~= repeated(0, seq as nat));
                assert(row.types@ =~= repeated(0, seq as nat));
            }
            rows.push(row);
            lengths.push(0);
            words.push(Vec::new());
            i = i + 1;
        }
        Session {
            plan,
            elem,
            has_types,
            batch,
            seq,
            rows,
            lengths,
            words,
            eopts: EmbedOptions::defaults(),
            ropts: RerankOptions::defaults(),
            copts: ClassifyOptions::defaults(),
            written: Written::Nothing,
            n_rows: 0,
            used_seq: 0,
            readback_valid: false,
            runs: 0,
            h2d: 0,
            d2h: 0,
        }
    }

    /// Note a finished write of `count` rows.
    fn finish_write(&mut self, count: u32, written: Written, full_width: bool)
        requires
            old(self).wf(),
            count <= old(self).batch,
        ensures
            final(self).wf(),
            final(self).same_model(old(self)),
            final(self).rows == old(self).rows,
            final(self).lengths == old(self).lengths,
            final(self).words == old(self).words,
            final(self).eopts == old(self).eopts,
            final(self).ropts == old(self).ropts,
            final(self).copts == old(self).copts,
            final(self).n_rows == count,
            final(self).written == written,
            !final(self).readback_valid,
            final(self).used_seq == used_columns(
                longest(old(self).lengths@, count as int),
                old(self).seq,
                full_width,
            ),
    {
        let mut top: u32 = 0;
        let mut i: u32 = 0;
        while i < count
            invariant
                i <= count,
                count <= self.lengths.len(),
                top == longest(self.lengths@, i as int),
            decreases count - i,
        {
            if self.lengths[i as usize] > top {
                top = self.lengths[i as usize];
            }
            i = i + 1;
        }
        let l: u64 = if top == 0 {
            1
        } else {
            top as u64
        };
        let up: u64 = (l + 7) / 8 * 8;
        self.n_rows = count;
        self.written = written;
        self.readback_valid = false;
        self.used_seq = if full_width || up > self.seq as u64 {
            self.seq
        } else {
            up as u32
        };
    }

    /// Whether rows `from..to` hold the texts, padded, with token types zero.
    pub open spec fn holds_texts(
        &self,
        vocab: Vocab,
        prefix: Seq<i32>,
        texts: Seq<Vec<i32>>,
        truncate: Truncate,
        budget: u32,
        n: int,
    ) -> bool {
        forall|r: int|
            0 <= r < n ==> {
                let t = text_tokens(vocab, prefix, texts[r]@, truncate, budget, r);
                &&& (#[trigger] self.rows@[r]).ids@ == padded(t, vocab.pad(), self.seq)
                &&& self.rows@[r].mask@ == padded(repeated(1, t.len()), 0, self.seq)
                &&& self.rows@[r].types@ == repeated(0, self.seq as nat)
                &&& self.lengths@[r] == t.len()
            }
    }

    /// Encode the texts into the first rows. `texts` holds the tokens of each
    /// text and `prefix` those of the prompt prefix; `words` the words of each
    /// text where they are kept.
    fn encode_rows(
        &mut self,
        vocab: &Vocab,
        prefix: &Vec<i32>,
        texts: &Vec<Vec<i32>>,
        words: Option<&Vec<TextWords>>,
        truncate: Truncate,
        budget: u32,
    ) -> (r: Result<(), Error>)
        requires
            old(self).wf(),
            texts.len() <= old(self).batch,
            words matches Some(w) ==> w.len() == texts.len() && forall|i: int|
                0 <= i < w.len() ==> (#[trigger] w@[i]).wf(),
            budget <= old(self).seq,
        ensures
            final(self).wf(),
            final(self).same_model(old(self)),
            final(self).same_write(old(self)),
            agrees_plain(r, rows_verdict(prefix@, texts@, truncate, budget, texts.len() as int)),
            r is Ok ==> {
                let n = texts.len() as int;
                &&& final(self).holds_texts(*vocab, prefix@, texts@, truncate, budget, n)
                &&& final(self).holds_words(texts@, words_seq(words), truncate, budget, n)
                &&& final(self).behind_stays(old(self), n)
            },
            r is Err ==> exists|k: int| #[trigger]
                final(self).stopped_at(
                    old(self),
                    *vocab,
                    prefix@,
                    texts@,
                    words_seq(words),
                    truncate,
                    budget,
                    k,
                ),
    {
        let mut r: usize = 0;
        while r < texts.len()
            invariant
                r <= texts.len(),
                self.wf(),
                texts.len() <= self.batch,
                budget <= self.seq,
                self.same_model(old(self)),
                self.same_write(old(self)),
                words matches Some(w) ==> w.len() == texts.len() && forall|i: int|
                    0 <= i < w.len() ==> (#[trigger] w@[i]).wf(),
                rows_verdict(prefix@, texts@, truncate, budget, r as int) is Ok,
                self.holds_texts(*vocab, prefix@, texts@, truncate, budget, r as int),
                self.holds_words(texts@, words_seq(words), truncate, budget, r as int),
                self.behind_stays(old(self), r as int),
            decreases texts.len() - r,
        {
            proof {
                refused_row_stays(prefix@, texts@, truncate, budget, r + 1, texts.len() as int);
            }
            let ghost start = *self;
            if words.is_some() {
                self.words.set(r, Vec::new());
            }
            let mut ids: Vec<i32> = vec![0i32; self.seq as usize];
            let mut mask: Vec<i32> = vec![0i32; self.seq as usize];
            let n = match encode_row(
                vocab,
                r as u32,
                prefix,
                &texts[r],
                truncate,
                budget,
                self.seq,
                &mut ids,
                &mut mask,
            ) {
                Ok(n) => n,
                Err(e) => {
                    proof {
                        assert(self.rows == start.rows && self.lengths == start.lengths);
                        assert(forall|i: int| 0 <= i < self.batch && i != r ==> #[trigger] self.words@[i]
                            == start.words@[i]);
                        assert(self.stopped_at(
                            old(self),
                            *vocab,
                            prefix@,
                            texts@,
                            words_seq(words),
                            truncate,
                            budget,
                            r as int,
                        ));
                    }
                    return Err(e);
                },
            };
            let types: Vec<i32> = vec![0i32; self.seq as usize];
            proof {
                let t = text_tokens(*vocab, prefix@, texts@[r as int]@, truncate, budget, r as int);
                assert(ids@ =~= padded(t, vocab.pad(), self.seq));
                assert(mask@ =~= padded(repeated(1, t.len()), 0, self.seq));
                assert(types@ =~= repeated(0, self.seq as nat));
            }
            let kept: Vec<WordSpan> = match words {
                Some(w) => w[r].kept_of(texts[r].len(), truncate, budget),
                None => Vec::new(),
            };
            let ghost before = *self;
            self.words.set(r, kept);
            self.rows.set(r, Row { ids, mask, types });
            self.lengths.set(r, n);
            proof {
                assert(forall|i: int| 0 <= i < self.batch && i != r ==> #[trigger] self.words@[i]
                    == start.words@[i]);
                assert forall|k: int| 0 <= k < r + 1 implies ({
                    let t = text_tokens(*vocab, prefix@, texts@[k]@, truncate, budget, k);
                    &&& (#[trigger] self.rows@[k]).ids@ == padded(t, vocab.pad(), self.seq)
                    &&& self.rows@[k].mask@ == padded(repeated(1, t.len()), 0, self.seq)
                    &&& self.rows@[k].types@ == repeated(0, self.seq as nat)
                    &&& self.lengths@[k] == t.len()
                }) by {
                    if k < r {
                        assert(self.rows@[k] == before.rows@[k]);
                        assert(self.lengths@[k] == before.lengths@[k]);
                    }
                }
            }
            r = r + 1;
        }
        Ok(())
    }

    /// Keep the words of the first rows.
    fn store_words(&mut self, words: Vec<Vec<WordSpan>>)
        requires
            old(self).wf(),
            words.len() <= old(self).batch,
        ensures
            final(self).wf(),
            final(self).same_model(old(self)),
            final(self).same_write(old(self)),
            final(self).rows == old(self).rows,
            final(self).lengths == old(self).lengths,
            forall|i: int| 0 <= i < words.len() ==> #[trigger] final(self).words@[i] == words@[i],
            forall|i: int|
                words.len() <= i < final(self).batch ==> #[trigger] final(self).words@[i] == old(
                    self,
                ).words@[i],
    {
        let ghost all = words@;
        let n = words.len();
        let mut words = words;
        let mut k: usize = n;
        while k > 0
            invariant
                k <= n,
                n == all.len(),
                n <= self.batch,
                self.wf(),
                self.same_model(old(self)),
                self.same_write(old(self)),
                self.rows == old(self).rows,
                self.lengths == old(self).lengths,
                words@ == all.take(k as int),
                forall|i: int| k <= i < n ==> #[trigger] self.words@[i] == all[i],
                forall|i: int| n <= i < self.batch ==> #[trigger] self.words@[i] == old(self).words@[i],
            decreases k,
        {
            k = k - 1;
            let last = words.pop();
            match last {
                Some(w) => {
                    self.words.set(k, w);
                },
                None => {},
            }
            proof {
                assert(words@ =~= all.take(k as int));
            }
        }
    }
}

/// The words of texts, where they are kept.
pub open spec fn words_seq(words: Option<&Vec<TextWords>>) -> Option<Seq<TextWords>> {
    match words {
        Some(w) => Some(w@),
        None => None,
    }
}

/// The words of texts where a model of this kind keeps them.
pub open spec fn tagged_words(kind: Kind, words: Seq<TextWords>) -> Option<Seq<TextWords>> {
    if kind == Kind::TokenClassifier {
        Some(words)
    } else {
        None
    }
}

/// The checks of a text write that precede tokenization: the budget, or the refusal.
pub open spec fn text_checks(
    kind: Kind,
    width: u32,
    batch: u32,
    seq: u32,
    count: nat,
    opts: EmbedOptions,
) -> Result<u32, ErrorView> {
    if kind != Kind::Embedding {
        Err(plain(Class::UnsupportedTask, "write_text needs an embedding model"@))
    } else {
        match count_verdict(count, batch) {
            Err(e) => Err(e),
            Ok(_) => if opts.output_dtype == OutputDtype::Other {
                Err(on_field(Class::UnsupportedOption, Field::EmbedOutputDtype, "output_dtype"@))
            } else if opts.output_dim > width {
                Err(too_wide(opts.output_dim, width))
            } else {
                budget(opts.max_tokens, seq, NEED_TWO@)
            },
        }
    }
}

/// The checks of a pair write that precede packing: the budget and the
/// packer's truncation mode, or the refusal.
pub open spec fn pair_checks(kind: Kind, batch: u32, seq: u32, count: nat, opts: RerankOptions) -> Result<
    (u32, u32),
    ErrorView,
> {
    if kind != Kind::Reranker {
        Err(plain(Class::UnsupportedTask, "write_pairs needs a reranker model"@))
    } else {
        match count_verdict(count, batch) {
            Err(e) => Err(e),
            Ok(_) => match budget(opts.max_tokens, seq, NEED_TWO@) {
                Err(e) => Err(e),
                Ok(b) => match opts.truncate {
                    Truncate::Model => Ok((b, TRUNC_LONGEST_FIRST)),
                    Truncate::Right => Ok((b, TRUNC_QUERY_PRIORITY)),
                    Truncate::Off => Ok((b, TRUNC_ERROR)),
                    Truncate::Left => Err(
                        on_field(
                            Class::UnsupportedOption,
                            Field::RerankTruncate,
                            "truncate=LEFT"@,
                        ),
                    ),
                },
            },
        }
    }
}

/// The checks of a classification write that precede tokenization.
pub open spec fn classify_checks(
    kind: Kind,
    batch: u32,
    seq: u32,
    count: nat,
    opts: ClassifyOptions,
) -> Result<u32, ErrorView> {
    if kind != Kind::Classifier && kind != Kind::TokenClassifier {
        Err(plain(Class::UnsupportedTask, "write_text_classify needs a classifier model"@))
    } else {
        match count_verdict(count, batch) {
            Err(e) => Err(e),
            Ok(_) => budget(opts.max_tokens, seq, NEED_TWO@),
        }
    }
}

/// The checks, then the rows.
pub open spec fn after_checks(
    checks: Result<u32, ErrorView>,
    prefix: Seq<i32>,
    texts: Seq<Vec<i32>>,
    truncate: Truncate,
) -> Result<(), ErrorView> {
    match checks {
        Err(e) => Err(e),
        Ok(b) => rows_verdict(prefix, texts, truncate, b, texts.len() as int),
    }
}

/// `n` empty word lists.
fn no_words(n: usize) -> (r: Vec<Vec<WordSpan>>)
    ensures
        r.len() == n,
        forall|i: int| 0 <= i < n ==> (#[trigger] r@[i])@ == Seq::<WordSpan>::empty(),
{
    let mut out: Vec<Vec<WordSpan>> = Vec::new();
    while out.len() < n
        invariant
            out.len() <= n,
            forall|i: int| 0 <= i < out.len() ==> (#[trigger] out@[i])@ == Seq::<WordSpan>::empty(),
        decreases n - out.len(),
    {
        out.push(Vec::new());
    }
    out
}

/// A row as the pair packer left it, and the packer's status.
pub struct Packed {
    pub row: Row,
    pub status: i32,
}

/// The first row from `i` on that the packer refused, or the number of rows.
pub open spec fn refused_from(rows: Seq<Packed>, i: int) -> int
    decreases rows.len() - i,
{
    if 0 <= i < rows.len() && rows[i].status == WORDPIECE_OK {
        refused_from(rows, i + 1)
    } else {
        i
    }
}

/// The first row that the packer refused, or the number of rows.
fn refused_of(rows: &Vec<Packed>) -> (r: usize)
    ensures
        r == refused_from(rows@, 0),
        r <= rows.len(),
        r < rows.len() ==> rows@[r as int].status != WORDPIECE_OK,
{
    let mut i: usize = 0;
    while i < rows.len() && rows[i].status == WORDPIECE_OK
        invariant
            i <= rows.len(),
            refused_from(rows@, i as int) == refused_from(rows@, 0),
        decreases rows.len() - i,
    {
        i = i + 1;
    }
    i
}

impl Session {
    /// Check a text write and give its token budget.
    pub fn check_text(&self, count: usize, opts: &EmbedOptions) -> (r: Result<u32, Error>)
        ensures
            agrees_plain(
                r,
                text_checks(
                    self.plan.kind,
                    self.plan.width,
                    self.batch,
                    self.seq,
                    count as nat,
                    *opts,
                ),
            ),
    {
        if self.plan.kind != Kind::Embedding {
            return Err(
                Error::say(Class::UnsupportedTask, "write_text needs an embedding model"),
            );
        }
        match check_count(count, self.batch) {
            Err(e) => return Err(e),
            Ok(_) => {},
        }
        if opts.output_dtype == OutputDtype::Other {
            return Err(
                Error::on_field(
                    Class::UnsupportedOption,
                    Field::EmbedOutputDtype,
                    "output_dtype".to_owned(),
                ),
            );
        }
        if opts.output_dim > self.plan.width {
            return Err(refuse_width(opts.output_dim, self.plan.width));
        }
        budget_of(opts.max_tokens, self.seq, NEED_TWO)
    }

    /// Write texts to embed. `texts` holds the tokens of each text, `prefix`
    /// those of the prompt prefix.
    pub fn write_text(
        &mut self,
        vocab: &Vocab,
        prefix: &Vec<i32>,
        texts: &Vec<Vec<i32>>,
        opts: &EmbedOptions,
    ) -> (r: Result<(), Error>)
        requires
            old(self).wf(),
        ensures
            final(self).wf(),
            final(self).same_model(old(self)),
            agrees_plain(
                r,
                after_checks(
                    text_checks(
                        old(self).plan.kind,
                        old(self).plan.width,
                        old(self).batch,
                        old(self).seq,
                        texts@.len(),
                        *opts,
                    ),
                    prefix@,
                    texts@,
                    opts.truncate,
                ),
            ),
            r is Err ==> final(self).same_write(old(self)),
            r is Err ==> match text_checks(
                old(self).plan.kind,
                old(self).plan.width,
                old(self).batch,
                old(self).seq,
                texts@.len(),
                *opts,
            ) {
                Err(_) => *final(self) == *old(self),
                Ok(b) => exists|k: int| #[trigger]
                    final(self).stopped_at(
                        old(self),
                        *vocab,
                        prefix@,
                        texts@,
                        None,
                        opts.truncate,
                        b,
                        k,
                    ),
            },
            r is Ok ==> {
                let b = budget(opts.max_tokens, old(self).seq, NEED_TWO@)->Ok_0;
                &&& final(self).behind_stays(old(self), texts.len() as int)
                &&& final(self).holds_texts(
                    *vocab,
                    prefix@,
                    texts@,
                    opts.truncate,
                    b,
                    texts.len() as int,
                )
                &&& final(self).eopts == *opts
                &&& final(self).ropts == old(self).ropts
                &&& final(self).copts == old(self).copts
                &&& final(self).written == Written::Embed
                &&& final(self).n_rows == texts.len()
                &&& !final(self).readback_valid
                &&& final(self).used_seq == used_columns(
                    longest(final(self).lengths@, texts.len() as int),
                    old(self).seq,
                    false,
                )
                &&& forall|i: int|
                    0 <= i < texts.len() ==> (#[trigger] final(self).words@[i])@ == Seq::<
                        WordSpan,
                    >::empty()
            },
    {
        let b = match self.check_text(texts.len(), opts) {
            Err(e) => return Err(e),
            Ok(b) => b,
        };
        match self.encode_rows(vocab, prefix, texts, None, opts.truncate, b) {
            Err(e) => return Err(e),
            Ok(_) => {},
        }
        self.eopts = *opts;
        self.finish_write(texts.len() as u32, Written::Embed, false);
        Ok(())
    }

    /// Check a classification write and give its token budget.
    pub fn check_classify(&self, count: usize, opts: &ClassifyOptions) -> (r: Result<u32, Error>)
        ensures
            agrees_plain(
                r,
                classify_checks(self.plan.kind, self.batch, self.seq, count as nat, *opts),
            ),
    {
        if self.plan.kind != Kind::Classifier && self.plan.kind != Kind::TokenClassifier {
            return Err(
                Error::say(
                    Class::UnsupportedTask,
                    "write_text_classify needs a classifier model",
                ),
            );
        }
        match check_count(count, self.batch) {
            Err(e) => return Err(e),
            Ok(_) => {},
        }
        budget_of(opts.max_tokens, self.seq, NEED_TWO)
    }

    /// Write texts to classify. A token classifier keeps the words that survive in
    /// their rows, and the session's full width, so that the output's shape does not
    /// depend on the length of the input.
    pub fn write_text_classify(
        &mut self,
        vocab: &Vocab,
        texts: &Vec<Vec<i32>>,
        words: &Vec<TextWords>,
        opts: &ClassifyOptions,
    ) -> (r: Result<(), Error>)
        requires
            old(self).wf(),
            words.len() == texts.len(),
            forall|i: int| 0 <= i < words.len() ==> (#[trigger] words@[i]).wf(),
        ensures
            final(self).wf(),
            final(self).same_model(old(self)),
            agrees_plain(
                r,
                after_checks(
                    classify_checks(
                        old(self).plan.kind,
                        old(self).batch,
                        old(self).seq,
                        texts@.len(),
                        *opts,
                    ),
                    Seq::empty(),
                    texts@,
                    opts.truncate,
                ),
            ),
            r is Err ==> final(self).same_write(old(self)),
            r is Err ==> match classify_checks(
                old(self).plan.kind,
                old(self).batch,
                old(self).seq,
                texts@.len(),
                *opts,
            ) {
                Err(_) => *final(self) == *old(self),
                Ok(b) => exists|k: int| #[trigger]
                    final(self).stopped_at(
                        old(self),
                        *vocab,
                        Seq::empty(),
                        texts@,
                        tagged_words(old(self).plan.kind, words@),
                        opts.truncate,
                        b,
                        k,
                    ),
            },
            r is Ok ==> {
                let b = budget(opts.max_tokens, old(self).seq, NEED_TWO@)->Ok_0;
                let tagging = old(self).plan.kind == Kind::TokenClassifier;
                &&& final(self).behind_stays(old(self), texts.len() as int)
                &&& final(self).holds_texts(
                    *vocab,
                    Seq::empty(),
                    texts@,
                    opts.truncate,
                    b,
                    texts.len() as int,
                )
                &&& final(self).copts == *opts
                &&& final(self).eopts == old(self).eopts
                &&& final(self).ropts == old(self).ropts
                &&& final(self).written == Written::Classify
                &&& final(self).n_rows == texts.len()
                &&& !final(self).readback_valid
                &&& final(self).used_seq == used_columns(
                    longest(final(self).lengths@, texts.len() as int),
                    old(self).seq,
                    tagging,
                )
                &&& forall|i: int|
                    0 <= i < texts.len() ==> (#[trigger] final(self).words@[i])@ == (if tagging {
                        words@[i].kept(texts@[i]@.len(), opts.truncate, b)
                    } else {
                        Seq::empty()
                    })
            },
    {
        let b = match self.check_classify(texts.len(), opts) {
            Err(e) => return Err(e),
            Ok(b) => b,
        };
        let tagging = self.plan.kind == Kind::TokenClassifier;
        let kept = if tagging {
            Some(words)
        } else {
            None
        };
        let prefix: Vec<i32> = Vec::new();
        match self.encode_rows(vocab, &prefix, texts, kept, opts.truncate, b) {
            Err(e) => return Err(e),
            Ok(_) => {},
        }
        self.copts = *opts;
        self.finish_write(texts.len() as u32, Written::Classify, tagging);
        Ok(())
    }

    /// Check a pair write and give the budget and the packer's truncation mode.
    pub fn check_pairs(&self, count: usize, opts: &RerankOptions) -> (r: Result<(u32, u32), Error>)
        ensures
            agrees_plain(
                r,
                pair_checks(self.plan.kind, self.batch, self.seq, count as nat, *opts),
            ),
    {
        if self.plan.kind != Kind::Reranker {
            return Err(Error::say(Class::UnsupportedTask, "write_pairs needs a reranker model"));
        }
        match check_count(count, self.batch) {
            Err(e) => return Err(e),
            Ok(_) => {},
        }
        let b = match budget_of(opts.max_tokens, self.seq, NEED_TWO) {
            Err(e) => return Err(e),
            Ok(b) => b,
        };
        match opts.truncate {
            Truncate::Model => Ok((b, TRUNC_LONGEST_FIRST)),
            Truncate::Right => Ok((b, TRUNC_QUERY_PRIORITY)),
            Truncate::Off => Ok((b, TRUNC_ERROR)),
            Truncate::Left => Err(
                Error::on_field(
                    Class::UnsupportedOption,
                    Field::RerankTruncate,
                    "truncate=LEFT".to_owned(),
                ),
            ),
        }
    }

    /// Whether the first `n` rows are those that were packed, without words.
    pub open spec fn holds_pairs(&self, rows: Seq<Packed>, n: int) -> bool {
        &&& forall|i: int| 0 <= i < n ==> #[trigger] self.rows@[i] == rows[i].row
        &&& forall|i: int| 0 <= i < n ==> #[trigger] self.lengths@[i] == live_count(rows[i].row.mask@)
        &&& forall|i: int| 0 <= i < n ==> (#[trigger] self.words@[i])@ == Seq::<WordSpan>::empty()
    }

    /// Write packed query and document pairs, one row each. At the first row that the
    /// packer refused the write ends: the rows before it are written, its own is as
    /// the packer left it, and what the session ran before stays to be run.
    pub fn write_pairs(&mut self, rows: Vec<Packed>, opts: &RerankOptions) -> (r: Result<(), Error>)
        requires
            old(self).wf(),
            forall|i: int| 0 <= i < rows.len() ==> (#[trigger] rows@[i]).row.wide(old(self).seq),
        ensures
            final(self).wf(),
            final(self).same_model(old(self)),
            match pair_checks(
                old(self).plan.kind,
                old(self).batch,
                old(self).seq,
                rows@.len(),
                *opts,
            ) {
                Err(e) => r is Err && r->Err_0@ == e && *final(self) == *old(self),
                Ok(b) => {
                    let n = refused_from(rows@, 0);
                    &&& final(self).holds_pairs(rows@, n)
                    &&& final(self).eopts == old(self).eopts
                    &&& final(self).copts == old(self).copts
                    &&& if n < rows.len() {
                        let seq = old(self).seq;
                        let w = seq as usize;
                        &&& r is Err
                        &&& Err::<(), ErrorView>(r->Err_0@) == pair_verdict(
                            rows@[n].status,
                            w,
                            w,
                            w,
                            w,
                            seq,
                            b.0,
                        )
                        &&& final(self).same_write(old(self))
                        &&& final(self).rows@[n] == rows@[n].row
                        &&& final(self).lengths@[n] == old(self).lengths@[n]
                        &&& final(self).words@[n] == old(self).words@[n]
                        &&& final(self).behind_stays(old(self), n + 1)
                    } else {
                        &&& r is Ok
                        &&& final(self).behind_stays(old(self), n)
                        &&& final(self).ropts == *opts
                        &&& final(self).written == Written::Pairs
                        &&& final(self).n_rows == rows.len()
                        &&& !final(self).readback_valid
                        &&& final(self).used_seq == used_columns(
                            longest(final(self).lengths@, rows.len() as int),
                            old(self).seq,
                            false,
                        )
                    }
                },
            },
    {
        let (b, _) = match self.check_pairs(rows.len(), opts) {
            Err(e) => return Err(e),
            Ok(b) => b,
        };
        let count = rows.len();
        let n = refused_of(&rows);
        let ghost all = rows@;
        let mut rows = rows;
        let mut status: i32 = WORDPIECE_OK;
        let mut k: usize = count;
        while k > 0
            invariant
                k <= count,
                n <= count,
                count == all.len(),
                count <= self.batch,
                self.wf(),
                self.same_model(old(self)),
                self.same_write(old(self)),
                rows@ == all.take(k as int),
                forall|i: int| 0 <= i < count ==> (#[trigger] all[i]).row.wide(self.seq),
                forall|i: int| k <= i <= n && i < count ==> #[trigger] self.rows@[i] == all[i].row,
                forall|i: int|
                    k <= i < n ==> #[trigger] self.lengths@[i] == live_count(all[i].row.mask@),
                forall|i: int|
                    n < i < self.batch || i == n == count && n < self.batch ==> #[trigger] self.rows@[i]
                        == old(self).rows@[i],
                forall|i: int| n <= i < self.batch ==> #[trigger] self.lengths@[i] == old(self).lengths@[i],
                self.words == old(self).words,
                k <= n < count ==> status == all[n as int].status,
            decreases k,
        {
            k = k - 1;
            match rows.pop() {
                Some(p) => {
                    assert(p == all[k as int]);
                    assert(p.row.wide(self.seq));
                    if k < n {
                        let live = live_count_of(&p.row.mask);
                        proof {
                            live_count_bound(p.row.mask@);
                        }
                        self.lengths.set(k, live as u32);
                        self.rows.set(k, p.row);
                    } else if k == n {
                        status = p.status;
                        self.rows.set(k, p.row);
                    }
                },
                None => {},
            }
            proof {
                assert(rows@ =~= all.take(k as int));
            }
        }
        let none = no_words(n);
        self.store_words(none);
        if n < count {
            let w = self.seq as usize;
            return Vocab::pack_pair(status, w, w, w, w, self.seq, b);
        }
        self.ropts = *opts;
        self.finish_write(n as u32, Written::Pairs, false);
        Ok(())
    }

    /// Write token rows that the caller prepared. They take the full width and
    /// the default options.
    pub fn write_tokens(&mut self, vocab: &Vocab, batch: &TokenBatch) -> (r: Result<(), Error>)
        requires
            old(self).wf(),
            batch.wf(),
        ensures
            final(self).wf(),
            final(self).same_model(old(self)),
            match batch_verdict(batch.batch, batch.seq, old(self).batch, old(self).seq) {
                Err(e) => r is Err && r->Err_0@ == e && *final(self) == *old(self),
                Ok(_) => {
                    &&& r is Ok
                    &&& forall|i: int|
                        0 <= i < batch.batch ==> {
                            &&& (#[trigger] final(self).rows@[i]).ids@ == padded(
                                batch.row(batch.ids@, i),
                                vocab.pad(),
                                old(self).seq,
                            )
                            &&& final(self).rows@[i].mask@ == padded(
                                batch.row(batch.mask@, i),
                                0,
                                old(self).seq,
                            )
                            &&& final(self).rows@[i].types@ == padded(
                                batch.types_row(i),
                                0,
                                old(self).seq,
                            )
                            &&& final(self).lengths@[i] == batch.seq
                            &&& final(self).words@[i]@ == Seq::<WordSpan>::empty()
                        }
                    &&& final(self).behind_stays(old(self), batch.batch as int)
                    &&& final(self).eopts == embed_defaults()
                    &&& final(self).ropts == rerank_defaults()
                    &&& final(self).copts == classify_defaults()
                    &&& final(self).written == Written::Tokens
                    &&& final(self).n_rows == batch.batch
                    &&& !final(self).readback_valid
                    &&& final(self).used_seq == old(self).seq
                },
            },
    {
        match check_batch(batch.batch, batch.seq, self.batch, self.seq) {
            Err(e) => return Err(e),
            Ok(_) => {},
        }
        let pad = vocab.pad_id();
        let mut r: u32 = 0;
        while r < batch.batch
            invariant
                r <= batch.batch,
                batch.wf(),
                batch.batch <= self.batch,
                batch.seq <= self.seq,
                pad == vocab.pad(),
                self.wf(),
                self.same_model(old(self)),
                self.same_write(old(self)),
                self.words == old(self).words,
                forall|i: int|
                    0 <= i < r ==> {
                        &&& (#[trigger] self.rows@[i]).ids@ == padded(
                            batch.row(batch.ids@, i),
                            vocab.pad(),
                            self.seq,
                        )
                        &&& self.rows@[i].mask@ == padded(batch.row(batch.mask@, i), 0, self.seq)
                        &&& self.rows@[i].types@ == padded(batch.types_row(i), 0, self.seq)
                        &&& self.lengths@[i] == batch.seq
                    },
                self.behind_stays(old(self), batch.batch as int),
            decreases batch.batch - r,
        {
            let ids = pad_to(batch.row_of(&batch.ids, r), pad, self.seq);
            let mask = pad_to(batch.row_of(&batch.mask, r), 0, self.seq);
            let types = match &batch.types {
                Some(t) => pad_to(batch.row_of(t, r), 0, self.seq),
                None => vec![0i32; self.seq as usize],
            };
            proof {
                if batch.types is None {
                    assert(types@ =~= padded(batch.types_row(r as int), 0, self.seq));
                }
            }
            self.rows.set(r as usize, Row { ids, mask, types });
            self.lengths.set(r as usize, batch.seq);
            r = r + 1;
        }
        let none = no_words(batch.batch as usize);
        self.store_words(none);
        self.eopts = EmbedOptions::defaults();
        self.copts = ClassifyOptions::defaults();
        self.ropts = RerankOptions::defaults();
        self.finish_write(batch.batch, Written::Tokens, true);
        Ok(())
    }

    /// Whether a run can begin: something was written.
    pub fn check_run(&self) -> (r: Result<(), Error>)
        ensures
            agrees_plain(
                r,
                if self.written == Written::Nothing || self.n_rows == 0 {
                    Err(plain(Class::InvalidState, "no inputs written"@))
                } else {
                    Ok(())
                },
            ),
    {
        if self.written == Written::Nothing || self.n_rows == 0 {
            return Err(Error::say(Class::InvalidState, "no inputs written"));
        }
        Ok(())
    }
}

/// `v` with `fill` behind it up to `seq` columns.
fn pad_to(v: Vec<i32>, fill: i32, seq: u32) -> (r: Vec<i32>)
    requires
        v.len() <= seq,
    ensures
        r@ == padded(v@, fill, seq),
{
    let ghost tokens = v@;
    let mut v = v;
    while v.len() < seq as usize
        invariant
            tokens.len() <= v.len() <= seq,
            v@ == padded(tokens, fill, seq).take(v.len() as int),
        decreases seq - v.len(),
    {
        v.push(fill);
        proof {
            assert(v@ =~= padded(tokens, fill, seq).take(v.len() as int));
        }
    }
    proof {
        assert(v@ =~= padded(tokens, fill, seq));
    }
    v
}

/// The first `used` columns of the first `n` rows of one section, one row after the other.
pub open spec fn compacted(section: spec_fn(Row) -> Seq<i32>, rows: Seq<Row>, used: int, n: int) -> Seq<
    i32,
>
    decreases n,
{
    if n <= 0 {
        Seq::empty()
    } else {
        compacted(section, rows, used, n - 1) + section(rows[n - 1]).take(used)
    }
}

/// The ids of a row.
pub open spec fn ids_section() -> spec_fn(Row) -> Seq<i32> {
    |row: Row| row.ids@
}

/// The mask of a row.
pub open spec fn mask_section() -> spec_fn(Row) -> Seq<i32> {
    |row: Row| row.mask@
}

/// The token types of a row.
pub open spec fn types_section() -> spec_fn(Row) -> Seq<i32> {
    |row: Row| row.types@
}

/// What goes to the device for a run, and how many bytes that is.
pub struct Upload {
    pub ids: Vec<i32>,
    pub mask: Vec<i32>,
    pub types: Option<Vec<i32>>,
    pub bytes: u64,
}

/// How many bytes a run uploads: two sections, three where the model takes token types.
pub open spec fn upload_bytes(n_rows: u32, used: u32, elem: Elem, has_types: bool) -> int {
    (if has_types { 3int } else { 2int }) * (n_rows * used * elem_width(elem))
}

/// Append the first `used` columns.
fn append_columns(out: &mut Vec<i32>, row: &Vec<i32>, used: usize)
    requires
        used <= row.len(),
    ensures
        final(out)@ == old(out)@ + row@.take(used as int),
{
    let mut c: usize = 0;
    let ghost before = out@;
    proof {
        assert(out@ =~= before + row@.take(0));
    }
    while c < used
        invariant
            c <= used <= row.len(),
            out@ == before + row@.take(c as int),
        decreases used - c,
    {
        out.push(row[c]);
        c = c + 1;
        proof {
            assert(out@ =~= before + row@.take(c as int));
        }
    }
}

impl Session {
    /// The rows compacted to the used columns, counted as uploaded.
    pub fn upload(&mut self) -> (u: Upload)
        requires
            old(self).wf(),
            old(self).h2d + upload_bytes(
                old(self).n_rows,
                old(self).used_seq,
                old(self).elem,
                old(self).has_types,
            ) <= u64::MAX,
        ensures
            final(self).wf(),
            final(self).same_write(old(self)),
            final(self).rows == old(self).rows,
            final(self).lengths == old(self).lengths,
            final(self).words == old(self).words,
            final(self).plan == old(self).plan,
            final(self).elem == old(self).elem,
            final(self).has_types == old(self).has_types,
            final(self).batch == old(self).batch,
            final(self).seq == old(self).seq,
            final(self).runs == old(self).runs,
            final(self).d2h == old(self).d2h,
            u.bytes == upload_bytes(
                old(self).n_rows,
                old(self).used_seq,
                old(self).elem,
                old(self).has_types,
            ),
            final(self).h2d == old(self).h2d + u.bytes,
            u.ids@ == compacted(
                ids_section(),
                old(self).rows@,
                old(self).used_seq as int,
                old(self).n_rows as int,
            ),
            u.mask@ == compacted(
                mask_section(),
                old(self).rows@,
                old(self).used_seq as int,
                old(self).n_rows as int,
            ),
            u.types is Some <==> old(self).has_types,
            u.types matches Some(t) ==> t@ == compacted(
                types_section(),
                old(self).rows@,
                old(self).used_seq as int,
                old(self).n_rows as int,
            ),
    {
        let mut ids: Vec<i32> = Vec::new();
        let mut mask: Vec<i32> = Vec::new();
        let mut types: Vec<i32> = Vec::new();
        let used = self.used_seq as usize;
        let mut r: u32 = 0;
        while r < self.n_rows
            invariant
                r <= self.n_rows,
                self.wf(),
                used == self.used_seq,
                ids@ == compacted(ids_section(), self.rows@, used as int, r as int),
                mask@ == compacted(mask_section(), self.rows@, used as int, r as int),
                types@ == compacted(types_section(), self.rows@, used as int, r as int),
            decreases self.n_rows - r,
        {
            let row = &self.rows[r as usize];
            assert(row.wide(self.seq));
            append_columns(&mut ids, &row.ids, used);
            append_columns(&mut mask, &row.mask, used);
            append_columns(&mut types, &row.types, used);
            r = r + 1;
        }
        let width = self.elem.width() as u128;
        let sections: u128 = if self.has_types {
            3
        } else {
            2
        };
        proof {
            let a = self.n_rows as int;
            let b = self.used_seq as int;
            assert(0 <= a * b <= 0xffff_ffff * 0xffff_ffff) by (nonlinear_arith)
                requires
                    0 <= a <= 0xffff_ffff,
                    0 <= b <= 0xffff_ffff,
            ;
            assert(0 <= a * b * width <= 8 * (0xffff_ffff * 0xffff_ffff)) by (nonlinear_arith)
                requires
                    0 <= a * b <= 0xffff_ffff * 0xffff_ffff,
                    0 <= width <= 8,
            ;
        }
        let bytes: u128 = sections * (self.n_rows as u128 * self.used_seq as u128 * width);
        self.h2d = self.h2d + bytes as u64;
        Upload {
            ids,
            mask,
            types: if self.has_types {
                Some(types)
            } else {
                None
            },
            bytes: bytes as u64,
        }
    }

    /// Count bytes read back from the device, once per run.
    pub fn read_back(&mut self, bytes: u64) -> (r: bool)
        requires
            old(self).d2h + bytes <= u64::MAX,
        ensures
            r == !old(self).readback_valid,
            *final(self) == (Session {
                d2h: if old(self).readback_valid {
                    old(self).d2h
                } else {
                    (old(self).d2h + bytes) as u64
                },
                readback_valid: true,
                ..*old(self)
            }),
    {
        if self.readback_valid {
            return false;
        }
        self.d2h = self.d2h + bytes;
        self.readback_valid = true;
        true
    }

    /// Count a finished run.
    pub fn count_run(&mut self)
        requires
            old(self).runs < u64::MAX,
        ensures
            *final(self) == (Session { runs: (old(self).runs + 1) as u64, ..*old(self) }),
    {
        self.runs = self.runs + 1;
    }
}

/// The shape that a model's output has.
pub open spec fn expected_shape(kind: Kind, n_rows: u32, used: u32, width: u32) -> Seq<i64> {
    match kind {
        Kind::Embedding => seq![n_rows as i64, used as i64, width as i64],
        Kind::TokenClassifier => seq![n_rows as i64, used as i64, width as i64],
        _ => seq![n_rows as i64, width as i64],
    }
}

/// Whether the output of a run has the shape that was expected.
pub fn check_output(shape: &Vec<i64>, kind: Kind, n_rows: u32, used: u32, width: u32) -> (r: Result<
    (),
    Error,
>)
    ensures
        agrees_plain(
            r,
            if shape@ == expected_shape(kind, n_rows, used, width) {
                Ok(())
            } else {
                Err(
                    plain(
                        Class::Runtime,
                        "model output shape "@ + bracketed(shape@) + " does not match the expected "@
                            + bracketed(expected_shape(kind, n_rows, used, width)),
                    ),
                )
            },
        ),
{
    let mut want: Vec<i64> = Vec::new();
    want.push(n_rows as i64);
    if kind == Kind::Embedding || kind == Kind::TokenClassifier {
        want.push(used as i64);
    }
    want.push(width as i64);
    proof {
        assert(want@ =~= expected_shape(kind, n_rows, used, width));
    }
    let mut same = shape.len() == want.len();
    let mut i: usize = 0;
    while same && i < want.len()
        invariant
            i <= want.len(),
            same ==> shape.len() == want.len() && forall|j: int| 0 <= j < i ==> shape@[j] == want@[j],
            !same ==> shape@ != want@,
        decreases want.len() - i + if same {
            1int
        } else {
            0
        },
    {
        if shape[i] != want[i] {
            same = false;
        } else {
            i = i + 1;
        }
    }
    if same {
        proof {
            assert(shape@ =~= want@);
        }
        return Ok(());
    }
    Err(
        Error::plain(
            Class::Runtime,
            cat4(
                "model output shape ",
                bracketed_of(shape).as_str(),
                " does not match the expected ",
                bracketed_of(&want).as_str(),
            ),
        ),
    )
}

/// The refusal of what a run of the graph gave: no such output, another shape, no
/// memory.
pub open spec fn output_fault(
    shape: Option<Vec<i64>>,
    name: Seq<char>,
    has_data: bool,
    kind: Kind,
    n_rows: u32,
    used: u32,
    width: u32,
) -> Option<ErrorView> {
    match shape {
        None => Some(plain(Class::Internal, "output `"@ + name + "` missing from the run"@)),
        Some(s) => if s@ != expected_shape(kind, n_rows, used, width) {
            Some(
                plain(
                    Class::Runtime,
                    "model output shape "@ + bracketed(s@) + " does not match the expected "@
                        + bracketed(expected_shape(kind, n_rows, used, width)),
                ),
            )
        } else if !has_data {
            Some(plain(Class::Runtime, "model output has no data pointer"@))
        } else {
            None
        },
    }
}

/// What is done with the output of a run.
#[derive(Clone, Copy, Debug, PartialEq, Eq, Structural)]
pub enum Launch {
    /// Pool to `out_dim` columns; mode 0 is the mean, 1 the first token, 2 the last.
    Pool { mode: i32, normalize: bool, out_dim: u32 },
    /// Copy this many numbers as they are.
    Copy { n: u64 },
    /// The logistic function of this many numbers.
    Sigmoid { n: u64 },
    /// The softmax of each row.
    Softmax { rows: u64, width: u32 },
}

/// How many numbers of scores a run gives, and in how many rows.
pub open spec fn score_rows(kind: Kind, n_rows: u32, used: u32) -> int {
    if kind == Kind::TokenClassifier {
        n_rows * used
    } else {
        n_rows as int
    }
}

/// What is done with the output of a run on this plan.
pub open spec fn launch(
    plan: Plan,
    written: Written,
    eopts: EmbedOptions,
    ropts: RerankOptions,
    copts: ClassifyOptions,
    n_rows: u32,
    used: u32,
) -> Launch {
    match plan.kind {
        Kind::Embedding => {
            let pool = if eopts.pooling == Pooling::Model {
                plan.pool
            } else {
                eopts.pooling
            };
            Launch::Pool {
                mode: match pool {
                    Pooling::Cls => 1,
                    Pooling::Last => 2,
                    _ => 0,
                },
                normalize: normalizes(eopts.normalize, plan.normalize),
                out_dim: if eopts.output_dim == 0 {
                    plan.width
                } else {
                    eopts.output_dim
                },
            }
        },
        _ => {
            let raw = match written {
                Written::Pairs => ropts.raw_scores,
                Written::Classify => copts.raw_scores,
                _ => false,
            };
            let rows = score_rows(plan.kind, n_rows, used);
            if raw || plan.activation == Activation::Raw {
                Launch::Copy { n: (rows * plan.width) as u64 }
            } else if plan.activation == Activation::Sigmoid {
                Launch::Sigmoid { n: (rows * plan.width) as u64 }
            } else {
                Launch::Softmax { rows: rows as u64, width: plan.width }
            }
        },
    }
}

impl Session {
    /// What is done with the output of the run.
    pub fn launch(&self) -> (r: Launch)
        requires
            score_rows(self.plan.kind, self.n_rows, self.used_seq) * self.plan.width <= u64::MAX,
            self.plan.pool != Pooling::Model,
        ensures
            r == launch(
                self.plan,
                self.written,
                self.eopts,
                self.ropts,
                self.copts,
                self.n_rows,
                self.used_seq,
            ),
    {
        if self.plan.kind == Kind::Embedding {
            let pool = if self.eopts.pooling == Pooling::Model {
                self.plan.pool
            } else {
                self.eopts.pooling
            };
            return Launch::Pool {
                mode: match pool {
                    Pooling::Cls => 1,
                    Pooling::Last => 2,
                    _ => 0,
                },
                normalize: normalizes_of(self.eopts.normalize, self.plan.normalize),
                out_dim: if self.eopts.output_dim == 0 {
                    self.plan.width
                } else {
                    self.eopts.output_dim
                },
            };
        }
        let raw = match self.written {
            Written::Pairs => self.ropts.raw_scores,
            Written::Classify => self.copts.raw_scores,
            _ => false,
        };
        proof {
            let a = self.n_rows as int;
            let b = self.used_seq as int;
            assert(0 <= a * b <= 0xffff_ffff * 0xffff_ffff) by (nonlinear_arith)
                requires
                    0 <= a <= 0xffff_ffff,
                    0 <= b <= 0xffff_ffff,
            ;
        }
        let rows: u64 = if self.plan.kind == Kind::TokenClassifier {
            self.n_rows as u64 * self.used_seq as u64
        } else {
            self.n_rows as u64
        };
        if raw || self.plan.activation == Activation::Raw {
            Launch::Copy { n: rows * self.plan.width as u64 }
        } else if self.plan.activation == Activation::Sigmoid {
            Launch::Sigmoid { n: rows * self.plan.width as u64 }
        } else {
            Launch::Softmax { rows, width: self.plan.width }
        }
    }

    /// Begin a run: something was written, and nothing of this run was read back.
    pub fn begin_run(&mut self) -> (r: Result<(), Error>)
        ensures
            if old(self).written == Written::Nothing || old(self).n_rows == 0 {
                &&& r is Err
                &&& r->Err_0@ == plain(Class::InvalidState, "no inputs written"@)
                &&& *final(self) == *old(self)
            } else {
                &&& r is Ok
                &&& *final(self) == (Session { readback_valid: false, ..*old(self) })
            },
    {
        match self.check_run() {
            Err(e) => return Err(e),
            Ok(()) => {},
        }
        self.readback_valid = false;
        Ok(())
    }

    /// What is done with what the graph gave: `shape` is that of the output `name`,
    /// where the run has it, and `has_data` whether it has memory.
    pub fn execute(&self, name: &str, shape: &Option<Vec<i64>>, has_data: bool) -> (r: Result<Launch, Error>)
        requires
            score_rows(self.plan.kind, self.n_rows, self.used_seq) * self.plan.width <= u64::MAX,
            self.plan.pool != Pooling::Model,
        ensures
            match output_fault(
                *shape,
                name@,
                has_data,
                self.plan.kind,
                self.n_rows,
                self.used_seq,
                self.plan.width,
            ) {
                Some(e) => r is Err && r->Err_0@ == e,
                None => r == Ok::<Launch, Error>(
                    launch(
                        self.plan,
                        self.written,
                        self.eopts,
                        self.ropts,
                        self.copts,
                        self.n_rows,
                        self.used_seq,
                    ),
                ),
            },
    {
        let got = match shape {
            None => return Err(
                Error::plain(Class::Internal, cat3("output `", name, "` missing from the run")),
            ),
            Some(s) => s,
        };
        match check_output(got, self.plan.kind, self.n_rows, self.used_seq, self.plan.width) {
            Err(e) => return Err(e),
            Ok(()) => {},
        }
        if !has_data {
            return Err(Error::say(Class::Runtime, "model output has no data pointer"));
        }
        Ok(self.launch())
    }

    /// The shape of the first output of a run.
    pub fn output_shape(&self) -> (r: Vec<u64>)
        ensures
            r@ == (match self.plan.kind {
                Kind::Embedding => seq![
                    self.n_rows as u64,
                    if self.eopts.output_dim == 0 {
                        self.plan.width as u64
                    } else {
                        self.eopts.output_dim as u64
                    },
                ],
                Kind::Classifier => seq![self.n_rows as u64, self.plan.width as u64],
                Kind::Reranker => seq![self.n_rows as u64],
                Kind::TokenClassifier => seq![
                    self.n_rows as u64,
                    self.used_seq as u64,
                    self.plan.width as u64,
                ],
            }),
    {
        let mut out: Vec<u64> = Vec::new();
        out.push(self.n_rows as u64);
        match self.plan.kind {
            Kind::Embedding => {
                out.push(
                    if self.eopts.output_dim == 0 {
                        self.plan.width as u64
                    } else {
                        self.eopts.output_dim as u64
                    },
                );
            },
            Kind::Classifier => {
                out.push(self.plan.width as u64);
            },
            Kind::Reranker => {},
            Kind::TokenClassifier => {
                out.push(self.used_seq as u64);
                out.push(self.plan.width as u64);
            },
        }
        out
    }

    /// The order of the documents, best first, and how many of it are reported;
    /// nothing where no order was asked for.
    pub fn sorted(&self, scores: &Vec<u32>) -> (r: Option<(Vec<usize>, usize)>)
        ensures
            r is Some <==> self.plan.kind == Kind::Reranker && (self.ropts.return_sorted
                || self.ropts.top_n != 0),
            r matches Some(p) ==> is_ranking(scores@, p.0@) && p.1 == (if self.ropts.top_n == 0
                || self.ropts.top_n > scores.len() {
                scores.len() as int
            } else {
                self.ropts.top_n as int
            }),
    {
        if !(self.plan.kind == Kind::Reranker && (self.ropts.return_sorted || self.ropts.top_n
            != 0)) {
            return None;
        }
        let order = ranking(scores);
        let k = if self.ropts.top_n == 0 || self.ropts.top_n as usize > scores.len() {
            scores.len()
        } else {
            self.ropts.top_n as usize
        };
        Some((order, k))
    }

    /// The room for inputs in bytes, every section at the session's shape.
    pub fn input_bytes(&self) -> (r: u128)
        ensures
            r == upload_bytes(self.batch, self.seq, self.elem, self.has_types),
    {
        let width = self.elem.width() as u128;
        proof {
            let a = self.batch as int;
            let b = self.seq as int;
            assert(0 <= a * b <= 0xffff_ffff * 0xffff_ffff) by (nonlinear_arith)
                requires
                    0 <= a <= 0xffff_ffff,
                    0 <= b <= 0xffff_ffff,
            ;
            assert(0 <= a * b * width <= 8 * (0xffff_ffff * 0xffff_ffff)) by (nonlinear_arith)
                requires
                    0 <= a * b <= 0xffff_ffff * 0xffff_ffff,
                    0 <= width <= 8,
            ;
        }
        let one: u128 = self.batch as u128 * self.seq as u128 * width;
        if self.has_types {
            3 * one
        } else {
            2 * one
        }
    }
}

/// The label scores of each of the `used` columns of row `r`.
pub open spec fn columns_of(probs: Seq<u32>, width: int, used: int, r: int) -> Seq<Seq<u32>> {
    Seq::new(
        used as nat,
        |c: int| probs.subrange((r * used + c) * width, (r * used + c + 1) * width),
    )
}

/// The spans of the first `n` rows, row after row.
pub open spec fn spans_until(
    words: Seq<Vec<WordSpan>>,
    probs: Seq<u32>,
    labels: Seq<Seq<char>>,
    used: int,
    agg: Aggregation,
    n: int,
) -> Seq<GroupView>
    decreases n,
{
    if n <= 0 {
        Seq::empty()
    } else {
        let w = words[n - 1]@;
        spans_until(words, probs, labels, used, agg, n - 1) + close_all(
            grouped(
                (n - 1) as u32,
                w,
                columns_of(probs, labels.len() as int, used, n - 1),
                labels,
                agg,
                words_inside(w, w.len() as int, used),
            ),
        )
    }
}

/// The label scores of each column of a row.
fn columns_at(probs: &Vec<u32>, width: usize, used: usize, r: usize) -> (res: Vec<Vec<u32>>)
    requires
        (r + 1) * used * width <= probs.len(),
    ensures
        row_views(res@) == columns_of(probs@, width as int, used as int, r as int),
        forall|c: int| 0 <= c < res.len() ==> (#[trigger] res@[c]).len() == width,
{
    let mut out: Vec<Vec<u32>> = Vec::new();
    proof {
        assert((r + 1) * used * width == (r * used) * width + used * width) by (nonlinear_arith);
        assert(0 <= (r * used) * width) by (nonlinear_arith)
            requires
                r >= 0,
                used >= 0,
                width >= 0,
        ;
        assert(0 <= used * width) by (nonlinear_arith)
            requires
                used >= 0,
                width >= 0,
        ;
    }
    let mut c: usize = 0;
    let mut at: usize = if width == 0 {
        0
    } else {
        proof {
            assert(r * used <= (r * used) * width) by (nonlinear_arith)
                requires
                    r >= 0,
                    used >= 0,
                    width >= 1,
            ;
        }
        r * used * width
    };
    let ghost want = columns_of(probs@, width as int, used as int, r as int);
    proof {
        if width == 0 {
            assert((r * used) * width == 0) by (nonlinear_arith)
                requires
                    width == 0,
            ;
        }
        assert((r * used + 0) * width == (r * used) * width);
        assert(row_views(out@) =~= want.take(0));
    }
    while c < used
        invariant
            c <= used,
            at == (r * used + c) * width,
            (r + 1) * used * width <= probs.len(),
            want == columns_of(probs@, width as int, used as int, r as int),
            row_views(out@) == want.take(c as int),
            forall|k: int| 0 <= k < out.len() ==> (#[trigger] out@[k]).len() == width,
        decreases used - c,
    {
        proof {
            assert((r * used + c + 1) * width == (r * used + c) * width + width) by (nonlinear_arith);
            assert((r * used + c + 1) * width <= (r + 1) * used * width) by (nonlinear_arith)
                requires
                    c + 1 <= used,
                    width >= 0,
                    r >= 0,
            ;
        }
        let mut column: Vec<u32> = Vec::new();
        let mut l: usize = 0;
        while l < width
            invariant
                l <= width,
                at + width <= probs.len(),
                column@ == probs@.subrange(at as int, at + l),
            decreases width - l,
        {
            column.push(probs[at + l]);
            l = l + 1;
            proof {
                assert(column@ =~= probs@.subrange(at as int, at + l));
            }
        }
        let ghost before = row_views(out@);
        let ghost seen = column@;
        out.push(column);
        proof {
            assert(seen == want[c as int]);
            assert(row_views(out@) =~= before.push(seen));
            assert(want.take(c + 1) =~= want.take(c as int).push(want[c as int]));
        }
        at = at + width;
        c = c + 1;
    }
    proof {
        assert(want.take(used as int) =~= want);
    }
    out
}

impl Session {
    /// The aggregation of the last write: the one asked for, or the model's.
    pub open spec fn aggregation(&self) -> Aggregation {
        if self.copts.aggregation == Aggregation::Model {
            self.plan.aggregation
        } else {
            self.copts.aggregation
        }
    }

    /// The spans of every row. `probs` are the label scores that were read back, by
    /// their bits: of each row, of each used column, one for each label.
    pub fn aggregate_spans(&self, probs: &Vec<u32>, labels: &Vec<String>) -> (r: Vec<Group>)
        requires
            self.wf(),
            1 <= labels.len() <= u32::MAX,
            probs.len() == self.n_rows * self.used_seq * labels.len(),
            forall|i: int, k: int|
                0 <= i < self.n_rows && 0 <= k < self.words@[i].len() ==> (
                #[trigger] self.words@[i]@[k]).n_tokens > 0,
        ensures
            groups_view(r@) == spans_until(
                self.words@,
                probs@,
                views(labels@),
                self.used_seq as int,
                self.aggregation(),
                self.n_rows as int,
            ),
    {
        let agg = if self.copts.aggregation == Aggregation::Model {
            self.plan.aggregation
        } else {
            self.copts.aggregation
        };
        let used = self.used_seq as usize;
        let width = labels.len();
        let mut out: Vec<Group> = Vec::new();
        let mut r: u32 = 0;
        proof {
            assert(groups_view(out@) =~= Seq::empty());
        }
        while r < self.n_rows
            invariant
                r <= self.n_rows,
                self.wf(),
                used == self.used_seq,
                width == labels.len(),
                agg == self.aggregation(),
                1 <= labels.len() <= u32::MAX,
                probs.len() == self.n_rows * self.used_seq * labels.len(),
                forall|i: int, k: int|
                    0 <= i < self.n_rows && 0 <= k < self.words@[i].len() ==> (
                    #[trigger] self.words@[i]@[k]).n_tokens > 0,
                groups_view(out@) == spans_until(
                    self.words@,
                    probs@,
                    views(labels@),
                    used as int,
                    agg,
                    r as int,
                ),
            decreases self.n_rows - r,
        {
            proof {
                let n = self.n_rows as int;
                assert((r + 1) * used * width <= n * used * width) by (nonlinear_arith)
                    requires
                        r + 1 <= n,
                        used >= 0,
                        width >= 0,
                ;
            }
            let columns = columns_at(probs, width, used, r as usize);
            proof {
                assert(row_views(columns@).len() == used);
            }
            let more = row_spans(r, &self.words[r as usize], &columns, labels, agg);
            let ghost before = groups_view(out@);
            let ghost added = groups_view(more@);
            let mut more = more;
            out.append(&mut more);
            proof {
                assert(groups_view(out@) =~= before + added);
            }
            r = r + 1;
        }
        out
    }
}

/// What is uploaded holds as many elements as the rows have used columns.
pub proof fn compacted_len(
    section: spec_fn(Row) -> Seq<i32>,
    rows: Seq<Row>,
    used: int,
    n: int,
)
    requires
        0 <= n <= rows.len(),
        0 <= used,
        forall|r: int| 0 <= r < rows.len() ==> section(#[trigger] rows[r]).len() >= used,
    ensures
        compacted(section, rows, used, n).len() == n * used,
    decreases n,
{
    if n > 0 {
        compacted_len(section, rows, used, n - 1);
        assert(section(rows[n - 1]).len() >= used);
        assert((n - 1) * used + used == n * used) by (nonlinear_arith);
    } else {
        assert(n * used == 0) by (nonlinear_arith)
            requires
                n == 0,
        ;
    }
}

/// The longest of the lengths is at least each of them, and no more than their bound.
pub proof fn longest_bounds(lengths: Seq<u32>, n: int, bound: u32)
    requires
        0 <= n <= lengths.len(),
        forall|i: int| 0 <= i < n ==> #[trigger] lengths[i] <= bound,
    ensures
        longest(lengths, n) <= bound,
        forall|i: int| 0 <= i < n ==> #[trigger] lengths[i] <= longest(lengths, n),
    decreases n,
{
    if n > 0 {
        longest_bounds(lengths, n - 1, bound);
    }
}

/// Compaction cuts no live token: where no row is longer than the session's
/// sequence, every row's live tokens lie inside the used columns.
pub proof fn compaction_keeps_live_tokens(lengths: Seq<u32>, n: int, seq: u32, full: bool, i: int)
    requires
        0 <= i < n <= lengths.len(),
        forall|k: int| 0 <= k < n ==> #[trigger] lengths[k] <= seq,
    ensures
        lengths[i] <= used_columns(longest(lengths, n), seq, full) <= seq,
{
    longest_bounds(lengths, n, seq);
}

/// What is uploaded is each row's used columns, row behind row: nothing is moved or left
/// out.
pub proof fn uploads_are_row_by_row(
    section: spec_fn(Row) -> Seq<i32>,
    rows: Seq<Row>,
    used: int,
    n: int,
    r: int,
    c: int,
)
    requires
        0 <= r < n <= rows.len(),
        0 <= c < used,
        forall|i: int| 0 <= i < rows.len() ==> section(#[trigger] rows[i]).len() >= used,
    ensures
        0 <= r * used + c < compacted(section, rows, used, n).len(),
        compacted(section, rows, used, n)[r * used + c] == section(rows[r])[c],
    decreases n,
{
    compacted_len(section, rows, used, n);
    compacted_len(section, rows, used, n - 1);
    assert(section(rows[n - 1]).len() >= used);
    assert(0 <= r * used) by (nonlinear_arith)
        requires
            0 <= r,
            0 < used,
    ;
    assert((n - 1) * used + used == n * used) by (nonlinear_arith);
    if r < n - 1 {
        uploads_are_row_by_row(section, rows, used, n - 1, r, c);
    }
}

/// The used columns are the longest row's, rounded up to eights: at least one, fewer
/// than eight more than the row has, and never more than the session's. A write of whole
/// rows uses them all.
pub proof fn used_columns_are_the_longest_in_eights(longest: u32, seq: u32, full: bool)
    requires
        1 <= longest <= seq,
    ensures
        ({
            let u = used_columns(longest, seq, full);
            &&& longest <= u <= seq
            &&& full ==> u == seq
            &&& !full ==> u < longest + 8
            &&& !full ==> u % 8 == 0 || u == seq
        }),
{
}

/// A budget is what was asked for, or the session's length where nothing was; it is
/// refused where it is longer than the session or has no room for the two special tokens.
pub proof fn a_budget_is_what_was_asked(max_tokens: u32, seq: u32, reason: Seq<char>)
    ensures
        ({
            let b = budget(max_tokens, seq, reason);
            &&& b is Ok <==> max_tokens <= seq && seq >= 2 && max_tokens != 1
            &&& b is Ok && max_tokens != 0 ==> b->Ok_0 == max_tokens
            &&& b is Ok && max_tokens == 0 ==> b->Ok_0 == seq
        }),
{
}

/// A write fits a session where it has at least one row and no more than the session;
/// a batch of tokens where neither its rows nor its columns are more.
pub proof fn writes_fit_their_session(count: nat, rows: u32, cols: u32, batch: u32, seq: u32)
    ensures
        count_verdict(count, batch) is Ok <==> 1 <= count <= batch,
        batch_verdict(rows, cols, batch, seq) is Ok <==> rows <= batch && cols <= seq,
        session_verdict(batch, seq) is Ok <==> batch >= 1 && seq >= 2,
{
}

/// Texts go to embedding models, pairs to rerankers, texts to label to classifiers of
/// both sorts, and to no other kind; the budget is the one that was asked for.
pub proof fn writes_go_to_models_of_their_kind(
    kind: Kind,
    width: u32,
    batch: u32,
    seq: u32,
    count: nat,
    e: EmbedOptions,
    r: RerankOptions,
    c: ClassifyOptions,
)
    ensures
        text_checks(kind, width, batch, seq, count, e) is Ok <==> {
            &&& kind == Kind::Embedding
            &&& 1 <= count <= batch
            &&& e.output_dtype != OutputDtype::Other
            &&& e.output_dim <= width
            &&& e.max_tokens <= seq && seq >= 2 && e.max_tokens != 1
        },
        pair_checks(kind, batch, seq, count, r) is Ok <==> {
            &&& kind == Kind::Reranker
            &&& 1 <= count <= batch
            &&& r.truncate != Truncate::Left
            &&& r.max_tokens <= seq && seq >= 2 && r.max_tokens != 1
        },
        classify_checks(kind, batch, seq, count, c) is Ok <==> {
            &&& kind == Kind::Classifier || kind == Kind::TokenClassifier
            &&& 1 <= count <= batch
            &&& c.max_tokens <= seq && seq >= 2 && c.max_tokens != 1
        },
        text_checks(kind, width, batch, seq, count, e) matches Ok(b) ==> b == (if e.max_tokens == 0 {
            seq
        } else {
            e.max_tokens
        }),
        classify_checks(kind, batch, seq, count, c) matches Ok(b) ==> b == (if c.max_tokens == 0 {
            seq
        } else {
            c.max_tokens
        }),
        pair_checks(kind, batch, seq, count, r) matches Ok(p) ==> {
            &&& p.0 == (if r.max_tokens == 0 {
                seq
            } else {
                r.max_tokens
            })
            &&& r.truncate == Truncate::Model <==> p.1 == 0
            &&& r.truncate == Truncate::Right <==> p.1 == 1
            &&& r.truncate == Truncate::Off <==> p.1 == 2
        },
{
}

/// What becomes of a run's output. An embedding model's is pooled by the pooling that
/// was asked for or the model's own, where nothing was: 0 for the mean, 1 for the first
/// token, 2 for the last; as wide as asked, or as the model. Scores stay as they are
/// where raw ones were asked of this write or the model has no activation, and else go
/// through the model's activation.
pub proof fn a_run_ends_as_it_was_asked(
    plan: Plan,
    written: Written,
    e: EmbedOptions,
    r: RerankOptions,
    c: ClassifyOptions,
    n_rows: u32,
    used: u32,
)
    ensures
        ({
            let l = launch(plan, written, e, r, c, n_rows, used);
            let mean = e.pooling == Pooling::Mean || e.pooling == Pooling::Model && (plan.pool
                == Pooling::Mean || plan.pool == Pooling::Model);
            let cls = e.pooling == Pooling::Cls || e.pooling == Pooling::Model && plan.pool
                == Pooling::Cls;
            let raw = written == Written::Pairs && r.raw_scores || written == Written::Classify
                && c.raw_scores || plan.activation == Activation::Raw;
            &&& plan.kind == Kind::Embedding <==> l is Pool
            &&& l is Pool ==> {
                &&& l->mode == (if cls {
                    1
                } else if mean {
                    0
                } else {
                    2int
                })
                &&& l->normalize == (e.normalize == crate::types::Normalize::L2 || e.normalize == crate::types::Normalize::Model
                    && plan.normalize)
                &&& e.output_dim == 0 ==> l->out_dim == plan.width
                &&& e.output_dim != 0 ==> l->out_dim == e.output_dim
            }
            &&& plan.kind != Kind::Embedding ==> {
                &&& raw <==> l is Copy
                &&& !raw && plan.activation == Activation::Sigmoid <==> l is Sigmoid
                &&& !raw && plan.activation == Activation::Softmax <==> l is Softmax
                &&& l is Softmax ==> l->width == plan.width
            }
        }),
{
}

/// To ask for what the model does is to ask for nothing.
pub proof fn asking_for_the_models_own_changes_nothing(
    plan: Plan,
    written: Written,
    e: EmbedOptions,
    r: RerankOptions,
    c: ClassifyOptions,
    n_rows: u32,
    used: u32,
)
    requires
        plan.pool != Pooling::Model,
    ensures
        launch(
            plan,
            written,
            EmbedOptions {
                pooling: plan.pool,
                normalize: if plan.normalize {
                    crate::types::Normalize::L2
                } else {
                    crate::types::Normalize::Off
                },
                output_dim: plan.width,
                ..e
            },
            r,
            c,
            n_rows,
            used,
        ) == launch(
            plan,
            written,
            EmbedOptions { pooling: Pooling::Model, normalize: crate::types::Normalize::Model, output_dim: 0, ..e },
            r,
            c,
            n_rows,
            used,
        ),
{
}

/// What a run gives has a vector for each row: of each token where tokens are pooled or
/// labelled, and one where the row is scored. Scores count one number for each label.
pub proof fn outputs_have_a_vector_for_each_row(kind: Kind, n_rows: u32, used: u32, width: u32)
    ensures
        ({
            let s = expected_shape(kind, n_rows, used, width);
            &&& s.len() == (if kind == Kind::Embedding || kind == Kind::TokenClassifier {
                3
            } else {
                2int
            })
            &&& s[0] == n_rows
            &&& s[s.len() - 1] == width
            &&& s.len() == 3 ==> s[1] == used
            &&& kind == Kind::TokenClassifier ==> score_rows(kind, n_rows, used) == s[0] * s[1]
            &&& kind == Kind::Reranker || kind == Kind::Classifier ==> score_rows(kind, n_rows, used) == s[0]
        }),
{
}

/// A column of a row's scores is its labels' numbers, in the order of the labels.
pub proof fn columns_are_read_in_order(probs: Seq<u32>, width: int, used: int, rows: int, r: int, c: int, l: int)
    requires
        0 <= r < rows,
        0 <= c < used,
        0 <= l < width,
        probs.len() == rows * used * width,
    ensures
        columns_of(probs, width, used, r).len() == used,
        columns_of(probs, width, used, r)[c].len() == width,
        columns_of(probs, width, used, r)[c][l] == probs[(r * used + c) * width + l],
{
    assert((r * used + c + 1) * width == (r * used + c) * width + width) by (nonlinear_arith);
    assert(0 <= (r * used + c) * width) by (nonlinear_arith)
        requires
            0 <= r,
            0 <= used,
            0 <= c,
            0 <= width,
    ;
    assert((r * used + c + 1) * width <= rows * used * width) by (nonlinear_arith)
        requires
            0 <= r < rows,
            0 <= c < used,
            0 <= width,
    ;
}

/// The spans of a batch are those of its rows, one row's behind the other's: each is of
/// one of the rows, and they stand in row order.
pub proof fn spans_stand_in_row_order(
    words: Seq<Vec<WordSpan>>,
    probs: Seq<u32>,
    labels: Seq<Seq<char>>,
    used: int,
    agg: Aggregation,
    n: int,
)
    requires
        0 <= n <= words.len(),
        n <= u32::MAX,
    ensures
        ({
            let g = spans_until(words, probs, labels, used, agg, n);
            &&& forall|i: int| 0 <= i < g.len() ==> (#[trigger] g[i]).row < n
            &&& forall|i: int, j: int| 0 <= i < j < g.len() ==> (#[trigger] g[i]).row <= (#[trigger] g[j]).row
        }),
    decreases n,
{
    if n > 0 {
        spans_stand_in_row_order(words, probs, labels, used, agg, n - 1);
        let w = words[n - 1]@;
        let cols = columns_of(probs, labels.len() as int, used, n - 1);
        let inside = words_inside(w, w.len() as int, used);
        crate::spans::words_stop_at_the_first_outside(w, w.len() as int, used);
        crate::spans::groups_are_word_aligned((n - 1) as u32, w, cols, labels, agg, inside);
        let old_g = spans_until(words, probs, labels, used, agg, n - 1);
        let new_g = close_all(grouped((n - 1) as u32, w, cols, labels, agg, inside));
        let g = spans_until(words, probs, labels, used, agg, n);
        assert(g == old_g + new_g);
        assert forall|i: int| 0 <= i < g.len() implies (#[trigger] g[i]).row < n && (i >= old_g.len()
            ==> g[i].row == n - 1) by {
            if i >= old_g.len() {
                assert(g[i] == new_g[i - old_g.len()]);
            } else {
                assert(g[i] == old_g[i]);
            }
        }
        assert forall|i: int, j: int| 0 <= i < j < g.len() implies (#[trigger] g[i]).row <= (
        #[trigger] g[j]).row by {
            if j < old_g.len() {
                assert(g[i] == old_g[i] && g[j] == old_g[j]);
            }
        }
    }
}

/// A row is its tokens and then its filling, and as many columns as the session has.
pub proof fn a_row_is_its_tokens_and_filling(tokens: Seq<i32>, fill: i32, seq: u32, i: int)
    requires
        0 <= i < seq,
    ensures
        padded(tokens, fill, seq).len() == seq,
        i < tokens.len() ==> padded(tokens, fill, seq)[i] == tokens[i],
        i >= tokens.len() ==> padded(tokens, fill, seq)[i] == fill,
{
}

/// An upload has two sections, or three where token types are among them, each of four
/// or eight bytes for each used column of each row.
pub proof fn uploads_count_every_section(n_rows: u32, used: u32, elem: Elem, has_types: bool)
    ensures
        elem == Elem::I32 && !has_types ==> upload_bytes(n_rows, used, elem, has_types) == 8 * (n_rows
            * used),
        elem == Elem::I64 && !has_types ==> upload_bytes(n_rows, used, elem, has_types) == 16 * (n_rows
            * used),
        elem == Elem::I32 && has_types ==> upload_bytes(n_rows, used, elem, has_types) == 12 * (n_rows
            * used),
        elem == Elem::I64 && has_types ==> upload_bytes(n_rows, used, elem, has_types) == 24 * (n_rows
            * used),
{
    let n = n_rows * used;
    assert(n * 4 == 4 * n && n * 8 == 8 * n) by (nonlinear_arith);
}

/// The rows of a write go up to the first that the packer refused.
pub proof fn a_write_goes_up_to_the_first_refused(rows: Seq<Packed>, i: int)
    requires
        0 <= i <= rows.len(),
    ensures
        i <= refused_from(rows, i) <= rows.len(),
        forall|k: int| i <= k < refused_from(rows, i) ==> (#[trigger] rows[k]).status == 0,
        refused_from(rows, i) < rows.len() ==> rows[refused_from(rows, i)].status != 0,
    decreases rows.len() - i,
{
    if i < rows.len() && rows[i].status == 0 {
        a_write_goes_up_to_the_first_refused(rows, i + 1);
    }
}

/// Words are kept by a token classifier alone.
pub proof fn only_a_token_classifier_keeps_words(kind: Kind, words: Seq<TextWords>)
    ensures
        kind == Kind::TokenClassifier ==> tagged_words(kind, words) == Some(words),
        kind != Kind::TokenClassifier ==> tagged_words(kind, words) is None,
{
}

/// A text that was written is its row: column `c` of its ids is the token there and
/// the padding behind the last, its mask is 1 for just its tokens, its types are 0
/// and its length is the number of its tokens.
pub proof fn a_written_text_is_its_row(
    s: Session,
    vocab: Vocab,
    prefix: Seq<i32>,
    texts: Seq<Vec<i32>>,
    truncate: Truncate,
    budget: u32,
    n: int,
    r: int,
    c: int,
)
    requires
        s.holds_texts(vocab, prefix, texts, truncate, budget, n),
        0 <= r < n,
        0 <= c < s.seq,
    ensures
        ({
            let w = window(r as u32, prefix.len(), texts[r]@.len(), truncate, budget)->Ok_0;
            let t = row_tokens(vocab, prefix, texts[r]@, w.0 as int, w.1 as int);
            let row = s.rows@[r];
            &&& s.lengths@[r] == t.len()
            &&& row.ids@[c] == (if c < t.len() {
                t[c]
            } else {
                vocab.pad()
            })
            &&& row.mask@[c] == (if c < t.len() {
                1i32
            } else {
                0i32
            })
            &&& row.types@[c] == 0
        }),
{
    let row = s.rows@[r];
    assert(row == s.rows@[r]);
}

/// Each section of an upload is that part of a row.
pub proof fn sections_are_their_parts_of_a_row(row: Row)
    ensures
        ids_section()(row) == row.ids@,
        mask_section()(row) == row.mask@,
        types_section()(row) == row.types@,
{
}

/// Texts are written where the checks pass and every row does; a failed check is told
/// before any row's.
pub proof fn checks_go_before_rows(
    checks: Result<u32, ErrorView>,
    prefix: Seq<i32>,
    texts: Seq<Vec<i32>>,
    truncate: Truncate,
)
    ensures
        checks is Err ==> after_checks(checks, prefix, texts, truncate) == Err::<(), ErrorView>(
            checks->Err_0,
        ),
        after_checks(checks, prefix, texts, truncate) is Ok ==> checks is Ok && rows_verdict(
            prefix,
            texts,
            truncate,
            checks->Ok_0,
            texts.len() as int,
        ) is Ok,
{
}

} // verus!

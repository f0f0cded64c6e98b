//! A session of the static provider: the token rows that were written, and the
//! table rows that a run averages.

use vstd::prelude::*;
use crate::bytes::row_views;
use crate::error::{Error, ErrorView};
use crate::static_table::{picked, picked_of};
use crate::types::{
    embed_defaults, normalizes, normalizes_of, EmbedOptions, Normalize, PromptRole, TokenBatch, Truncate,
};

verus! {

/// How the texts of a write are tokenized: no special tokens, no padding.
#[derive(Clone, Copy, Debug, PartialEq, Eq, Structural)]
pub struct EncodeOptions {
    pub add_special_tokens: bool,
    pub truncate: Truncate,
    pub max_tokens: u32,
    pub pad_to: u32,
    pub prompt_role: PromptRole,
}

/// A session.
#[derive(Debug)]
pub struct StaticSession {
    pub max_batch: u32,
    pub max_seq: u32,
    pub dim: u32,
    pub vocab_size: u32,
    /// Whether the model's vectors are normalized.
    pub normalized: bool,
    pub ids: Vec<Vec<i32>>,
    pub mask: Vec<Vec<i32>>,
    pub lengths: Vec<u32>,
    pub n_rows: u32,
    pub opts: EmbedOptions,
    pub runs: u64,
}

/// A row of tokens in a session: the tokens, then what was there before.
pub open spec fn laid_over(row: Seq<i32>, was: Seq<i32>) -> Seq<i32> {
    Seq::new(
        was.len(),
        |i: int|
            if i < row.len() {
                row[i]
            } else {
                was[i]
            },
    )
}

/// A mask in a session: the row's, then unset.
pub open spec fn masked(row: Seq<i32>, seq: nat) -> Seq<i32> {
    Seq::new(
        seq,
        |i: int|
            if i < row.len() {
                row[i]
            } else {
                0
            },
    )
}

/// A row in which nothing was written.
pub open spec fn zeros(n: u32) -> Seq<i32> {
    Seq::new(n as nat, |i: int| 0i32)
}

/// Whether the rows from `n` on are those that were there.
pub open spec fn rows_stay(now: Seq<Vec<i32>>, was: Seq<Vec<i32>>, n: int) -> bool {
    &&& now.len() == was.len()
    &&& forall|k: int| n <= k < now.len() ==> #[trigger] now[k] == was[k]
}

/// How many of the first `n` are 1.
pub open spec fn ones(mask: Seq<i32>, n: int) -> nat
    decreases n,
{
    if n <= 0 {
        0
    } else {
        ones(mask, n - 1) + (if mask[n - 1] == 1 {
            1nat
        } else {
            0nat
        })
    }
}

/// The table rows of the first `n` rows of tokens, or the first refusal.
pub open spec fn picks(ids: Seq<Vec<i32>>, mask: Seq<Vec<i32>>, vocab_size: u32, n: int) -> Result<
    Seq<Seq<u32>>,
    ErrorView,
>
    decreases n,
{
    if n <= 0 {
        Ok(Seq::empty())
    } else {
        match picks(ids, mask, vocab_size, n - 1) {
            Err(e) => Err(e),
            Ok(rows) => match picked(
                ids[n - 1]@,
                mask[n - 1]@,
                vocab_size,
                ids[n - 1].len() as int,
            ) {
                Err(e) => Err(e),
                Ok(row) => Ok(rows.push(row)),
            },
        }
    }
}

/// A refused row decides the whole.
proof fn pick_refusal_stays(ids: Seq<Vec<i32>>, mask: Seq<Vec<i32>>, vocab_size: u32, i: int, n: int)
    requires
        0 <= i <= n,
    ensures
        picks(ids, mask, vocab_size, i) is Err ==> picks(ids, mask, vocab_size, n) == picks(
            ids,
            mask,
            vocab_size,
            i,
        ),
    decreases n,
{
    if i < n {
        pick_refusal_stays(ids, mask, vocab_size, i, n - 1);
    }
}

/// What a run does: the table rows to average for each row, how wide the vectors
/// are, and whether they are normalized.
#[derive(Debug)]
pub struct StaticRun {
    pub rows: Vec<Vec<u32>>,
    pub width: u32,
    pub normalize: bool,
}

impl StaticSession {
    /// Every row is as long as the session's longest.
    pub open spec fn wf(&self) -> bool {
        &&& self.ids.len() == self.max_batch
        &&& self.mask.len() == self.max_batch
        &&& self.lengths.len() == self.max_batch
        &&& self.n_rows <= self.max_batch
        &&& forall|r: int| 0 <= r < self.ids.len() ==> (#[trigger] self.ids@[r]).len() == self.max_seq
        &&& forall|r: int| 0 <= r < self.mask.len() ==> (#[trigger] self.mask@[r]).len() == self.max_seq
    }

    /// A session with nothing written.
    pub fn new(max_batch: u32, max_seq: u32, dim: u32, vocab_size: u32, normalize: Option<Normalize>) -> (r: StaticSession)
        ensures
            r.wf(),
            r.max_batch == max_batch,
            r.max_seq == max_seq,
            r.dim == dim,
            r.vocab_size == vocab_size,
            r.normalized == (normalize == Some(Normalize::L2)),
            r.n_rows == 0,
            r.opts == embed_defaults(),
            r.runs == 0,
            forall|k: int| 0 <= k < max_batch ==> (#[trigger] r.ids@[k])@ == zeros(max_seq),
            forall|k: int| 0 <= k < max_batch ==> (#[trigger] r.mask@[k])@ == zeros(max_seq),
            forall|k: int| 0 <= k < max_batch ==> #[trigger] r.lengths@[k] == 0,
    {
        let mut ids: Vec<Vec<i32>> = Vec::new();
        let mut mask: Vec<Vec<i32>> = Vec::new();
        let mut lengths: Vec<u32> = Vec::new();
        let mut r: u32 = 0;
        while r < max_batch
            invariant
                r <= max_batch,
                ids.len() == r,
                mask.len() == r,
                lengths.len() == r,
                forall|k: int| 0 <= k < r ==> (#[trigger] ids@[k])@ == zeros(max_seq),
                forall|k: int| 0 <= k < r ==> (#[trigger] mask@[k])@ == zeros(max_seq),
                forall|k: int| 0 <= k < r ==> #[trigger] lengths@[k] == 0,
            decreases max_batch - r,
        {
            let no_ids = vec![0i32; max_seq as usize];
            let no_mask = vec![0i32; max_seq as usize];
            proof {
                assert(no_ids@ =~= zeros(max_seq));
                assert(no_mask@ =~= zeros(max_seq));
            }
            ids.push(no_ids);
            mask.push(no_mask);
            lengths.push(0);
            r = r + 1;
        }
        let normalized = match normalize {
            Some(n) => n == Normalize::L2,
            None => false,
        };
        StaticSession {
            max_batch,
            max_seq,
            dim,
            vocab_size,
            normalized,
            ids,
            mask,
            lengths,
            n_rows: 0,
            opts: EmbedOptions::defaults(),
            runs: 0,
        }
    }

    /// Begin a write of `count` texts; how they are tokenized into the rows.
    pub fn write_text(&mut self, count: u32, opts: EmbedOptions) -> (r: EncodeOptions)
        requires
            old(self).wf(),
            count <= old(self).max_batch,
        ensures
            final(self).wf(),
            *final(self) == (StaticSession { n_rows: count, opts, ..*old(self) }),
            r == (EncodeOptions {
                add_special_tokens: false,
                truncate: opts.truncate,
                max_tokens: if opts.max_tokens == 0 {
                    old(self).max_seq
                } else {
                    opts.max_tokens
                },
                pad_to: 0,
                prompt_role: opts.prompt_role,
            }),
    {
        self.opts = opts;
        self.n_rows = count;
        EncodeOptions {
            add_special_tokens: false,
            truncate: opts.truncate,
            max_tokens: if opts.max_tokens == 0 {
                self.max_seq
            } else {
                opts.max_tokens
            },
            pad_to: 0,
            prompt_role: opts.prompt_role,
        }
    }

    /// Write token rows: each over the row there, its mask unset behind it.
    pub fn write_tokens(&mut self, batch: &TokenBatch)
        requires
            old(self).wf(),
            batch.wf(),
            batch.batch <= old(self).max_batch,
            batch.seq <= old(self).max_seq,
        ensures
            final(self).wf(),
            *final(self) == (StaticSession {
                n_rows: batch.batch,
                opts: embed_defaults(),
                ids: final(self).ids,
                mask: final(self).mask,
                lengths: final(self).lengths,
                ..*old(self)
            }),
            forall|k: int|
                0 <= k < batch.batch ==> {
                    &&& (#[trigger] final(self).ids@[k])@ == laid_over(
                        batch.row(batch.ids@, k),
                        old(self).ids@[k]@,
                    )
                    &&& final(self).mask@[k]@ == masked(
                        batch.row(batch.mask@, k),
                        old(self).max_seq as nat,
                    )
                    &&& final(self).lengths@[k] == ones(
                        batch.row(batch.mask@, k),
                        batch.seq as int,
                    )
                },
            rows_stay(final(self).ids@, old(self).ids@, batch.batch as int),
            rows_stay(final(self).mask@, old(self).mask@, batch.batch as int),
            forall|k: int|
                batch.batch <= k < old(self).max_batch ==> #[trigger] final(self).lengths@[k] == old(
                    self,
                ).lengths@[k],
    {
        self.opts = EmbedOptions::defaults();
        self.n_rows = batch.batch;
        let mut r: u32 = 0;
        while r < batch.batch
            invariant
                r <= batch.batch,
                batch.wf(),
                self.wf(),
                self.max_batch == old(self).max_batch,
                self.max_seq == old(self).max_seq,
                self.vocab_size == old(self).vocab_size,
                self.dim == old(self).dim,
                self.normalized == old(self).normalized,
                self.runs == old(self).runs,
                self.n_rows == batch.batch,
                self.opts == embed_defaults(),
                batch.batch <= self.max_batch,
                batch.seq <= self.max_seq,
                forall|k: int|
                    0 <= k < r ==> {
                        &&& (#[trigger] self.ids@[k])@ == laid_over(
                            batch.row(batch.ids@, k),
                            old(self).ids@[k]@,
                        )
                        &&& self.mask@[k]@ == masked(
                            batch.row(batch.mask@, k),
                            old(self).max_seq as nat,
                        )
                        &&& self.lengths@[k] == ones(
                            batch.row(batch.mask@, k),
                            batch.seq as int,
                        )
                    },
                rows_stay(self.ids@, old(self).ids@, r as int),
                rows_stay(self.mask@, old(self).mask@, r as int),
                forall|k: int|
                    r <= k < self.max_batch ==> #[trigger] self.lengths@[k] == old(self).lengths@[k],
            decreases batch.batch - r,
        {
            let ids = batch.row_of(&batch.ids, r);
            let mask = batch.row_of(&batch.mask, r);
            let over = lay_over(&ids, &self.ids[r as usize]);
            let under = mask_of(&mask, self.max_seq as usize);
            let live = count_ones(&mask);
            let ghost before = *self;
            self.ids.set(r as usize, over);
            self.mask.set(r as usize, under);
            self.lengths.set(r as usize, live);
            proof {
                assert forall|k: int| 0 <= k < r + 1 implies ({
                    &&& (#[trigger] self.ids@[k])@ == laid_over(
                        batch.row(batch.ids@, k),
                        old(self).ids@[k]@,
                    )
                    &&& self.mask@[k]@ == masked(
                        batch.row(batch.mask@, k),
                        old(self).max_seq as nat,
                    )
                    &&& self.lengths@[k] == ones(batch.row(batch.mask@, k), batch.seq as int)
                }) by {
                    if k < r {
                        assert(self.ids@[k] == before.ids@[k]);
                    }
                }
            }
            r = r + 1;
        }
    }

    /// The table rows that a run averages, row by row, and how its vectors are made.
    pub fn run(&mut self) -> (r: Result<StaticRun, Error>)
        requires
            old(self).wf(),
            old(self).runs < u64::MAX,
        ensures
            final(self).wf(),
            match picks(
                old(self).ids@,
                old(self).mask@,
                old(self).vocab_size,
                old(self).n_rows as int,
            ) {
                Err(e) => r is Err && r->Err_0@ == e && *final(self) == *old(self),
                Ok(rows) => {
                    &&& r is Ok
                    &&& row_views(r->Ok_0.rows@) == rows
                    &&& r->Ok_0.width == (if old(self).opts.output_dim == 0 {
                        old(self).dim
                    } else {
                        old(self).opts.output_dim
                    })
                    &&& r->Ok_0.normalize == normalizes(
                        old(self).opts.normalize,
                        old(self).normalized,
                    )
                    &&& *final(self) == (StaticSession {
                        runs: (old(self).runs + 1) as u64,
                        ..*old(self)
                    })
                },
            },
    {
        let mut rows: Vec<Vec<u32>> = Vec::new();
        let mut r: u32 = 0;
        proof {
            assert(row_views(rows@) =~= Seq::empty());
        }
        while r < self.n_rows
            invariant
                r <= self.n_rows,
                *self == *old(self),
                self.wf(),
                picks(self.ids@, self.mask@, self.vocab_size, r as int) == Ok::<
                    Seq<Seq<u32>>,
                    ErrorView,
                >(row_views(rows@)),
            decreases self.n_rows - r,
        {
            proof {
                pick_refusal_stays(
                    self.ids@,
                    self.mask@,
                    self.vocab_size,
                    r + 1,
                    self.n_rows as int,
                );
                assert(self.ids@[r as int].len() == self.max_seq);
                assert(self.mask@[r as int].len() == self.max_seq);
            }
            let row = match picked_of(
                &self.ids[r as usize],
                &self.mask[r as usize],
                self.vocab_size,
            ) {
                Err(e) => return Err(e),
                Ok(row) => row,
            };
            let ghost before = row_views(rows@);
            let ghost seen = row@;
            rows.push(row);
            proof {
                assert(row_views(rows@) =~= before.push(seen));
            }
            r = r + 1;
        }
        self.runs = self.runs + 1;
        Ok(
            StaticRun {
                rows,
                width: if self.opts.output_dim == 0 {
                    self.dim
                } else {
                    self.opts.output_dim
                },
                normalize: normalizes_of(self.opts.normalize, self.normalized),
            },
        )
    }

    /// The bytes of a session's token rows: ids and mask, four each.
    pub fn input_bytes(&self) -> (r: u128)
        ensures
            r == self.max_batch * self.max_seq * 8,
    {
        proof {
            assert(0 <= self.max_batch * self.max_seq <= 0xffff_ffff * 0xffff_ffff)
                by (nonlinear_arith)
                requires
                    0 <= self.max_batch <= 0xffff_ffff,
                    0 <= self.max_seq <= 0xffff_ffff,
            ;
        }
        self.max_batch as u128 * self.max_seq as u128 * 8
    }
}

/// The row laid over what was there.
fn lay_over(row: &Vec<i32>, was: &Vec<i32>) -> (r: Vec<i32>)
    ensures
        r@ == laid_over(row@, was@),
{
    let mut out: Vec<i32> = Vec::new();
    let mut i: usize = 0;
    while i < was.len()
        invariant
            i <= was.len(),
            out.len() == i,
            forall|k: int| 0 <= k < i ==> (#[trigger] out@[k]) == laid_over(row@, was@)[k],
        decreases was.len() - i,
    {
        if i < row.len() {
            out.push(row[i]);
        } else {
            out.push(was[i]);
        }
        i = i + 1;
    }
    proof {
        assert(out@ =~= laid_over(row@, was@));
    }
    out
}

/// The row's mask, unset behind it.
fn mask_of(row: &Vec<i32>, seq: usize) -> (r: Vec<i32>)
    ensures
        r@ == masked(row@, seq as nat),
{
    let mut out: Vec<i32> = Vec::new();
    let mut i: usize = 0;
    while i < seq
        invariant
            i <= seq,
            out.len() == i,
            forall|k: int| 0 <= k < i ==> (#[trigger] out@[k]) == masked(row@, seq as nat)[k],
        decreases seq - i,
    {
        if i < row.len() {
            out.push(row[i]);
        } else {
            out.push(0);
        }
        i = i + 1;
    }
    proof {
        assert(out@ =~= masked(row@, seq as nat));
    }
    out
}

/// How many of a mask are 1.
fn count_ones(mask: &Vec<i32>) -> (r: u32)
    requires
        mask.len() <= u32::MAX,
    ensures
        r == ones(mask@, mask.len() as int),
{
    let mut n: u32 = 0;
    let mut i: usize = 0;
    while i < mask.len()
        invariant
            i <= mask.len() <= u32::MAX,
            n == ones(mask@, i as int),
            n <= i,
        decreases mask.len() - i,
    {
        if mask[i] == 1 {
            n = n + 1;
        }
        i = i + 1;
    }
    n
}

/// What a run averages depends on the tokens that were written alone: laying a row
/// over an older one and leaving the places behind it unmasked picks the same rows
/// of the table as the row itself.
pub proof fn older_rows_are_not_averaged(
    row: Seq<i32>,
    live: Seq<i32>,
    was: Seq<i32>,
    vocab_size: u32,
    n: int,
)
    requires
        row.len() == live.len(),
        row.len() <= was.len(),
        0 <= n <= was.len(),
    ensures
        picked(laid_over(row, was), masked(live, was.len()), vocab_size, n) == picked(
            row,
            live,
            vocab_size,
            if n <= row.len() {
                n
            } else {
                row.len() as int
            },
        ),
    decreases n,
{
    if n > 0 {
        older_rows_are_not_averaged(row, live, was, vocab_size, n - 1);
    }
}

/// A row is counted by the places whose mask is 1.
pub proof fn a_length_counts_the_ones(mask: Seq<i32>, n: int)
    requires
        0 <= n <= mask.len(),
    ensures
        ones(mask, n) == mask.take(n).filter(|x: i32| x == 1).len(),
        ones(mask, n) <= n,
    decreases n,
{
    reveal(Seq::filter);
    if n > 0 {
        a_length_counts_the_ones(mask, n - 1);
        assert(mask.take(n).drop_last() =~= mask.take(n - 1));
        assert(mask.take(n).last() == mask[n - 1]);
    } else {
        assert(mask.take(0) =~= Seq::empty());
    }
}

/// A run has the picked rows of every row that was written, each at its own place,
/// and is refused where one of them is: for the first that is.
pub proof fn every_row_is_picked(
    ids: Seq<Vec<i32>>,
    mask: Seq<Vec<i32>>,
    vocab_size: u32,
    n: int,
    k: int,
)
    requires
        0 <= k < n,
    ensures
        ({
            let all = picks(ids, mask, vocab_size, n);
            let row = picked(ids[k]@, mask[k]@, vocab_size, ids[k]@.len() as int);
            &&& all is Ok ==> all->Ok_0.len() == n && row == Ok::<Seq<u32>, ErrorView>(all->Ok_0[k])
            &&& row is Err && picks(ids, mask, vocab_size, k) is Ok ==> all == Err::<
                Seq<Seq<u32>>,
                ErrorView,
            >(row->Err_0)
        }),
    decreases n,
{
    if k < n - 1 {
        every_row_is_picked(ids, mask, vocab_size, n - 1, k);
    }
    picks_count(ids, mask, vocab_size, n - 1);
}

/// There is an entry for each row.
proof fn picks_count(ids: Seq<Vec<i32>>, mask: Seq<Vec<i32>>, vocab_size: u32, n: int)
    requires
        n >= 0,
    ensures
        picks(ids, mask, vocab_size, n) is Ok ==> picks(ids, mask, vocab_size, n)->Ok_0.len() == n,
    decreases n,
{
    if n > 0 {
        picks_count(ids, mask, vocab_size, n - 1);
    }
}

} // verus!

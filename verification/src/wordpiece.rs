//! Token rows: `[CLS] prefix text [SEP] [PAD...]`, and the words they hold.
//!
//! The tokenizer itself runs outside. The functions here take the ids it gave,
//! cut them to the budget, lay out the row, and say which columns hold which
//! word.

use vstd::prelude::*;
use crate::error::{Class, Error, ErrorView, agrees_plain, plain};
use crate::text::{cat2, cat3, cat4, cat5, decimal, decimal_of, signed_decimal, signed_of};
use crate::types::Truncate;

verus! {

/// Pair truncation: drop from the longer sequence first.
pub const TRUNC_LONGEST_FIRST: u32 = 0;

/// Pair truncation: keep the query whole and truncate the document.
pub const TRUNC_QUERY_PRIORITY: u32 = 1;

/// Pair truncation: fail when the pair exceeds the budget.
pub const TRUNC_ERROR: u32 = 2;

/// The tokenizer's status for success.
pub const WORDPIECE_OK: i32 = 0;

/// The tokenizer's status for an input it does not accept.
pub const WORDPIECE_ERR_INVALID_ARGUMENT: i32 = 1;

/// The tokenizer's status for a file that is not there.
pub const WORDPIECE_ERR_NOT_FOUND: i32 = 2;

/// The special tokens of a loaded vocabulary.
#[derive(Clone, Copy, Debug, PartialEq, Eq, Structural)]
pub struct Vocab {
    cls: i32,
    sep: i32,
    pad: i32,
}

impl View for Vocab {
    type V = Vocab;

    open spec fn view(&self) -> Vocab {
        *self
    }
}

/// What loading a tokenizer gives for the loader's status and the ids it found.
pub open spec fn load_result(
    status: i32,
    loaded: bool,
    cls: i32,
    sep: i32,
    pad: i32,
    path: Seq<char>,
) -> Result<(int, int, int), ErrorView> {
    if status == WORDPIECE_ERR_NOT_FOUND {
        Err(plain(Class::BundleNotFound, "tokenizer file `"@ + path + "` not found"@))
    } else if status == WORDPIECE_ERR_INVALID_ARGUMENT {
        Err(
            plain(
                Class::BundleInvalid,
                "`"@ + path + "` is not a supported BERT WordPiece configuration (uncased or cased)"@,
            ),
        )
    } else if status != WORDPIECE_OK || !loaded {
        Err(
            plain(
                Class::Internal,
                "wordpiece loader failed with status "@ + signed_decimal(status as int),
            ),
        )
    } else if cls < 0 || sep < 0 || pad < 0 {
        Err(plain(Class::BundleInvalid, "tokenizer defines no [CLS], [SEP], or [PAD] token"@))
    } else {
        Ok((cls as int, sep as int, pad as int))
    }
}

/// Whether a pair was packed, from the lengths of the row buffers and the packer's status.
pub open spec fn pair_verdict(
    status: i32,
    ids: usize,
    mask: usize,
    types: usize,
    pos: usize,
    seq: u32,
    budget: u32,
) -> Result<(), ErrorView> {
    if ids < seq || mask < seq || types < seq || pos < seq {
        Err(plain(Class::Internal, "pair row buffers are shorter than the session sequence"@))
    } else if status == WORDPIECE_OK {
        Ok(())
    } else if status == WORDPIECE_ERR_INVALID_ARGUMENT {
        Err(
            plain(
                Class::Capacity,
                "query/document pair does not fit the budget of "@ + decimal(budget as nat)
                    + " tokens with truncation NONE, or is not valid UTF-8"@,
            ),
        )
    } else {
        Err(
            plain(
                Class::Internal,
                "wordpiece pair packing failed with status "@ + signed_decimal(status as int),
            ),
        )
    }
}

impl Vocab {
    /// The `[CLS]` id.
    pub closed spec fn cls(self) -> i32 {
        self.cls
    }

    /// The `[SEP]` id.
    pub closed spec fn sep(self) -> i32 {
        self.sep
    }

    /// The `[PAD]` id.
    pub closed spec fn pad(self) -> i32 {
        self.pad
    }

    /// The vocabulary of a tokenizer that was loaded with this status and these special ids.
    pub fn load(status: i32, loaded: bool, cls: i32, sep: i32, pad: i32, path: &str) -> (r: Result<
        Vocab,
        Error,
    >)
        ensures
            match load_result(status, loaded, cls, sep, pad, path@) {
                Ok(ids) => r is Ok && r->Ok_0.cls() == ids.0 && r->Ok_0.sep() == ids.1 && r->Ok_0.pad()
                    == ids.2,
                Err(e) => r is Err && r->Err_0@ == e,
            },
    {
        if status == WORDPIECE_ERR_NOT_FOUND {
            return Err(
                Error::plain(Class::BundleNotFound, cat3("tokenizer file `", path, "` not found")),
            );
        }
        if status == WORDPIECE_ERR_INVALID_ARGUMENT {
            return Err(
                Error::plain(
                    Class::BundleInvalid,
                    cat3(
                        "`",
                        path,
                        "` is not a supported BERT WordPiece configuration (uncased or cased)",
                    ),
                ),
            );
        }
        if status != WORDPIECE_OK || !loaded {
            return Err(
                Error::plain(
                    Class::Internal,
                    cat2("wordpiece loader failed with status ", signed_of(status as i64).as_str()),
                ),
            );
        }
        if cls < 0 || sep < 0 || pad < 0 {
            return Err(
                Error::say(
                    Class::BundleInvalid,
                    "tokenizer defines no [CLS], [SEP], or [PAD] token",
                ),
            );
        }
        Ok(Vocab { cls, sep, pad })
    }

    /// The `[PAD]` id.
    pub fn pad_id(&self) -> (r: i32)
        ensures
            r == self.pad(),
    {
        self.pad
    }

    /// How many tokens a text has, from the tokenizer's status and count.
    pub fn count(status: i32, n: usize) -> (r: Result<usize, Error>)
        ensures
            agrees_plain(
                r,
                if status != WORDPIECE_OK {
                    Err(
                        plain(
                            Class::InvalidArgument,
                            "text is not valid UTF-8 or could not be tokenized"@,
                        ),
                    )
                } else {
                    Ok(n)
                },
            ),
    {
        if status != WORDPIECE_OK {
            return Err(
                Error::say(
                    Class::InvalidArgument,
                    "text is not valid UTF-8 or could not be tokenized",
                ),
            );
        }
        Ok(n)
    }

    /// How many ids the tokenizer wrote into `room` places, from its status and count.
    pub fn tokenize_into(status: i32, n: usize, room: usize) -> (r: Result<usize, Error>)
        ensures
            agrees_plain(
                r,
                if room == 0 {
                    Ok(0usize)
                } else if status != WORDPIECE_OK {
                    Err(
                        plain(
                            Class::Internal,
                            "text tokenization failed after a successful count"@,
                        ),
                    )
                } else {
                    Ok(if n <= room { n } else { room })
                },
            ),
    {
        if room == 0 {
            return Ok(0);
        }
        if status != WORDPIECE_OK {
            return Err(
                Error::say(Class::Internal, "text tokenization failed after a successful count"),
            );
        }
        Ok(
            if n <= room {
                n
            } else {
                room
            },
        )
    }

    /// Whether a pair was packed, from the lengths of the row buffers and the packer's status.
    pub fn pack_pair(
        status: i32,
        ids: usize,
        mask: usize,
        types: usize,
        pos: usize,
        seq: u32,
        budget: u32,
    ) -> (r: Result<(), Error>)
        ensures
            agrees_plain(r, pair_verdict(status, ids, mask, types, pos, seq, budget)),
    {
        let n = seq as usize;
        if ids < n || mask < n || types < n || pos < n {
            return Err(
                Error::say(
                    Class::Internal,
                    "pair row buffers are shorter than the session sequence",
                ),
            );
        }
        if status == WORDPIECE_OK {
            return Ok(());
        }
        if status == WORDPIECE_ERR_INVALID_ARGUMENT {
            return Err(
                Error::plain(
                    Class::Capacity,
                    cat3(
                        "query/document pair does not fit the budget of ",
                        decimal_of(budget as u128).as_str(),
                        " tokens with truncation NONE, or is not valid UTF-8",
                    ),
                ),
            );
        }
        Err(
            Error::plain(
                Class::Internal,
                cat2("wordpiece pair packing failed with status ", signed_of(status as i64).as_str()),
            ),
        )
    }
}

/// One whitespace-delimited word (or one punctuation character) of an input
/// row and the token columns it occupies.
#[derive(Clone, Copy, Debug, PartialEq, Eq, Structural)]
pub struct WordSpan {
    /// Byte start in the input text.
    pub start: u64,
    /// Byte end (exclusive).
    pub end: u64,
    /// First token column in the row.
    pub first_token: u32,
    /// Number of sub-tokens.
    pub n_tokens: u32,
}

/// Room the encoder needs between calls; sized once per session.
pub struct RowScratch {
    /// Prefix staging, `seq * 16` ids.
    pub ids: Vec<i32>,
}

impl RowScratch {
    /// Room for a session of `seq` columns.
    pub fn new(seq: u32) -> (r: RowScratch)
        requires
            seq * 16 <= usize::MAX,
        ensures
            r.ids@ == Seq::new((seq * 16) as nat, |i: int| 0i32),
    {
        let n = seq as usize * 16;
        let ids: Vec<i32> = vec![0i32; n];
        proof {
            assert(ids@ =~= Seq::new((seq * 16) as nat, |i: int| 0i32));
        }
        RowScratch { ids }
    }
}

/// Which tokens of a text stay: how many are skipped, and how many follow.
#[derive(Clone, Copy, Debug, PartialEq, Eq, Structural)]
pub struct Window {
    pub skip: usize,
    pub take: usize,
}

impl View for Window {
    type V = Window;

    open spec fn view(&self) -> Window {
        *self
    }
}

/// The window of a text, or why the row does not fit its budget.
pub open spec fn window(
    row: u32,
    n_prefix: nat,
    n_text: nat,
    truncate: Truncate,
    budget: u32,
) -> Result<(nat, nat), ErrorView> {
    if budget < 2 {
        Err(plain(Class::Capacity, "token budget must be at least 2 for [CLS] and [SEP]"@))
    } else if n_prefix > budget - 2 {
        Err(
            plain(
                Class::Capacity,
                "prompt prefix alone is "@ + decimal(n_prefix) + " tokens but the content budget is "@
                    + decimal((budget - 2) as nat),
            ),
        )
    } else {
        let room = (budget - 2 - n_prefix) as nat;
        if n_text <= room {
            Ok((0nat, n_text))
        } else {
            match truncate {
                Truncate::Off => Err(
                    plain(
                        Class::Capacity,
                        "input row "@ + decimal(row as nat) + " tokenizes to "@ + decimal(
                            n_text + n_prefix + 2,
                        ) + (" tokens but the budget is "@ + decimal(budget as nat)
                            + " and truncation is NONE"@),
                    ),
                ),
                Truncate::Left => Ok(((n_text - room) as nat, room)),
                _ => Ok((0nat, room)),
            }
        }
    }
}

/// The window of a text of `n_text` tokens behind a prefix of `n_prefix`.
pub fn window_of(row: u32, n_prefix: usize, n_text: usize, truncate: Truncate, budget: u32) -> (r:
    Result<Window, Error>)
    ensures
        match window(row, n_prefix as nat, n_text as nat, truncate, budget) {
            Ok(w) => r is Ok && r->Ok_0.skip == w.0 && r->Ok_0.take == w.1,
            Err(e) => r is Err && r->Err_0@ == e,
        },
{
    if budget < 2 {
        return Err(
            Error::say(Class::Capacity, "token budget must be at least 2 for [CLS] and [SEP]"),
        );
    }
    let content: usize = (budget - 2) as usize;
    if n_prefix > content {
        return Err(
            Error::plain(
                Class::Capacity,
                cat4(
                    "prompt prefix alone is ",
                    decimal_of(n_prefix as u128).as_str(),
                    " tokens but the content budget is ",
                    decimal_of(content as u128).as_str(),
                ),
            ),
        );
    }
    let room: usize = content - n_prefix;
    if n_text <= room {
        return Ok(Window { skip: 0, take: n_text });
    }
    match truncate {
        Truncate::Off => {
            let tail = cat3(
                " tokens but the budget is ",
                decimal_of(budget as u128).as_str(),
                " and truncation is NONE",
            );
            Err(
                Error::plain(
                    Class::Capacity,
                    cat5(
                        "input row ",
                        decimal_of(row as u128).as_str(),
                        " tokenizes to ",
                        decimal_of(n_text as u128 + n_prefix as u128 + 2).as_str(),
                        tail.as_str(),
                    ),
                ),
            )
        },
        Truncate::Left => Ok(Window { skip: n_text - room, take: room }),
        Truncate::Right => Ok(Window { skip: 0, take: room }),
        Truncate::Model => Ok(Window { skip: 0, take: room }),
    }
}

/// The live tokens of a row.
pub open spec fn row_tokens(
    vocab: Vocab,
    prefix: Seq<i32>,
    text: Seq<i32>,
    skip: int,
    take: int,
) -> Seq<i32> {
    seq![vocab.cls()] + prefix + text.subrange(skip, skip + take) + seq![vocab.sep()]
}

/// `row` laid over the beginning of `before`, `fill` from its end to column `seq`.
pub open spec fn laid_over(before: Seq<i32>, row: Seq<i32>, fill: i32, seq: int) -> Seq<i32> {
    Seq::new(
        before.len(),
        |i: int|
            if i < row.len() {
                row[i]
            } else if i < seq {
                fill
            } else {
                before[i]
            },
    )
}

/// What encoding a row gives: the number of live tokens.
pub open spec fn encoded(
    row: u32,
    prefix: Seq<i32>,
    text: Seq<i32>,
    truncate: Truncate,
    budget: u32,
    seq: u32,
    ids_room: nat,
    mask_room: nat,
) -> Result<u32, ErrorView> {
    if ids_room < seq || mask_room < seq {
        Err(plain(Class::Internal, "row buffers are shorter than the session sequence"@))
    } else {
        match window(row, prefix.len(), text.len(), truncate, budget) {
            Ok(w) => Ok((2 + prefix.len() + w.1) as u32),
            Err(e) => Err(e),
        }
    }
}

/// `src[start..end]` written into `before` at `from`.
pub open spec fn written(before: Seq<i32>, from: int, src: Seq<i32>) -> Seq<i32> {
    Seq::new(
        before.len(),
        |i: int|
            if from <= i < from + src.len() {
                src[i - from]
            } else {
                before[i]
            },
    )
}

/// Write `src[start..end]` at `from`; returns where it ends.
fn put(dst: &mut Vec<i32>, from: usize, src: &Vec<i32>, start: usize, end: usize) -> (r: usize)
    requires
        start <= end <= src.len(),
        from + (end - start) <= old(dst).len(),
    ensures
        r == from + (end - start),
        final(dst)@ == written(old(dst)@, from as int, src@.subrange(start as int, end as int)),
{
    let mut i: usize = start;
    let ghost d = dst@;
    proof {
        assert(dst@ =~= written(d, from as int, src@.subrange(start as int, start as int)));
    }
    while i < end
        invariant
            start <= i <= end <= src.len(),
            from + (end - start) <= dst.len(),
            dst@ == written(d, from as int, src@.subrange(start as int, i as int)),
        decreases end - i,
    {
        dst.set(from + (i - start), src[i]);
        i = i + 1;
        proof {
            assert(dst@ =~= written(d, from as int, src@.subrange(start as int, i as int)));
        }
    }
    from + (end - start)
}

/// Write `value` to the columns `from..to`.
fn fill(dst: &mut Vec<i32>, from: usize, to: usize, value: i32)
    requires
        to <= old(dst).len(),
    ensures
        final(dst)@ == written(
            old(dst)@,
            from as int,
            Seq::new((if from <= to { to - from } else { 0 }) as nat, |i: int| value),
        ),
{
    let mut i: usize = from;
    let ghost d = dst@;
    proof {
        assert(dst@ =~= written(d, from as int, Seq::new(0, |i: int| value)));
    }
    while i < to
        invariant
            from <= i,
            from <= to ==> i <= to,
            to < from ==> i == from,
            to <= dst.len(),
            dst@ == written(d, from as int, Seq::new((i - from) as nat, |k: int| value)),
        decreases to - i,
    {
        dst.set(i, value);
        i = i + 1;
        proof {
            assert(dst@ =~= written(d, from as int, Seq::new((i - from) as nat, |k: int| value)));
        }
    }
}

/// The row as it is written, piece by piece.
proof fn written_row(
    before: Seq<i32>,
    vocab: Vocab,
    prefix: Seq<i32>,
    kept: Seq<i32>,
    seq: int,
)
    requires
        2 + prefix.len() + kept.len() <= before.len(),
        seq <= before.len(),
    ensures
        ({
            let a = before.update(0, vocab.cls());
            let b = written(a, 1, prefix);
            let c = written(b, 1 + prefix.len() as int, kept);
            let d = c.update(1 + prefix.len() + kept.len() as int, vocab.sep());
            let live = 2 + prefix.len() + kept.len();
            let pads = Seq::new((if live <= seq { seq - live } else { 0 }) as nat, |i: int| vocab.pad());
            written(d, live as int, pads) == laid_over(
                before,
                seq![vocab.cls()] + prefix + kept + seq![vocab.sep()],
                vocab.pad(),
                seq,
            )
        }),
{
    let a = before.update(0, vocab.cls());
    let b = written(a, 1, prefix);
    let c = written(b, 1 + prefix.len() as int, kept);
    let d = c.update(1 + prefix.len() + kept.len() as int, vocab.sep());
    let live = 2 + prefix.len() + kept.len();
    let pads = Seq::new((if live <= seq { seq - live } else { 0 }) as nat, |i: int| vocab.pad());
    assert(written(d, live as int, pads) =~= laid_over(
        before,
        seq![vocab.cls()] + prefix + kept + seq![vocab.sep()],
        vocab.pad(),
        seq,
    ));
}

/// Encode a text with an optional prefix into one row:
/// `[CLS] prefix text [SEP] [PAD...]`. `budget` counts the special tokens.
/// Returns the number of live tokens; on an error the buffers stay as they were.
pub fn encode_row(
    vocab: &Vocab,
    row: u32,
    prefix: &Vec<i32>,
    text: &Vec<i32>,
    truncate: Truncate,
    budget: u32,
    seq: u32,
    row_ids: &mut Vec<i32>,
    row_mask: &mut Vec<i32>,
) -> (r: Result<u32, Error>)
    requires
        old(row_ids).len() >= seq && old(row_mask).len() >= seq ==> (window(
            row,
            prefix@.len(),
            text@.len(),
            truncate,
            budget,
        ) matches Ok(w) ==> 2 + prefix.len() + w.1 <= old(row_ids).len() && 2 + prefix.len() + w.1
            <= old(row_mask).len()),
    ensures
        agrees_plain(
            r,
            encoded(
                row,
                prefix@,
                text@,
                truncate,
                budget,
                seq,
                old(row_ids)@.len(),
                old(row_mask)@.len(),
            ),
        ),
        r is Err ==> final(row_ids)@ == old(row_ids)@ && final(row_mask)@ == old(row_mask)@,
        r is Ok ==> {
            let w = window(row, prefix@.len(), text@.len(), truncate, budget)->Ok_0;
            let tokens = row_tokens(*vocab, prefix@, text@, w.0 as int, w.1 as int);
            let ones = Seq::new(tokens.len(), |i: int| 1i32);
            &&& r->Ok_0 == tokens.len()
            &&& final(row_ids)@ == laid_over(old(row_ids)@, tokens, vocab.pad(), seq as int)
            &&& final(row_mask)@ == laid_over(old(row_mask)@, ones, 0, seq as int)
        },
{
    let seq_len = seq as usize;
    if row_ids.len() < seq_len || row_mask.len() < seq_len {
        return Err(
            Error::say(Class::Internal, "row buffers are shorter than the session sequence"),
        );
    }
    let w = match window_of(row, prefix.len(), text.len(), truncate, budget) {
        Ok(w) => w,
        Err(e) => return Err(e),
    };
    let ghost ids0 = row_ids@;
    let ghost mask0 = row_mask@;
    let ghost kept = text@.subrange(w.skip as int, w.skip + w.take);
    let ghost tokens = row_tokens(*vocab, prefix@, text@, w.skip as int, w.take as int);
    row_ids.set(0, vocab.cls);
    let col = put(row_ids, 1, prefix, 0, prefix.len());
    let col = put(row_ids, col, text, w.skip, w.skip + w.take);
    row_ids.set(col, vocab.sep);
    let live = col + 1;
    fill(row_ids, live, seq_len, vocab.pad);
    fill(row_mask, 0, live, 1);
    fill(row_mask, live, seq_len, 0);
    proof {
        assert(prefix@.subrange(0, prefix@.len() as int) =~= prefix@);
        written_row(ids0, *vocab, prefix@, kept, seq as int);
        assert(row_mask@ =~= laid_over(mask0, Seq::new(tokens.len(), |i: int| 1i32), 0, seq as int));
    }
    Ok(live as u32)
}

/// Whether a byte separates words.
pub open spec fn is_space(b: u8) -> bool {
    b <= 32
}

/// Whether a byte is ASCII punctuation, a word of its own.
pub open spec fn is_punct(b: u8) -> bool {
    33 <= b <= 47 || 58 <= b <= 64 || 91 <= b <= 96 || 123 <= b <= 126
}

/// Whether a byte is ASCII punctuation.
fn is_punct_of(b: u8) -> (r: bool)
    ensures
        r == is_punct(b),
{
    (33 <= b && b <= 47) || (58 <= b && b <= 64) || (91 <= b && b <= 96) || (123 <= b && b <= 126)
}

/// Where the run of word bytes that reaches `i` ends.
pub open spec fn run_end(b: Seq<u8>, i: int) -> int
    decreases b.len() - i,
{
    if 0 <= i < b.len() && !is_space(b[i]) && !is_punct(b[i]) {
        run_end(b, i + 1)
    } else {
        i
    }
}

/// A run never ends before it begins, nor behind the text.
pub proof fn run_end_bounds(b: Seq<u8>, i: int)
    requires
        0 <= i <= b.len(),
    ensures
        i <= run_end(b, i) <= b.len(),
    decreases b.len() - i,
{
    if i < b.len() && !is_space(b[i]) && !is_punct(b[i]) {
        run_end_bounds(b, i + 1);
    }
}

/// Where the word that begins at `i` ends.
pub open spec fn word_end(b: Seq<u8>, i: int) -> int {
    if is_punct(b[i]) {
        i + 1
    } else {
        run_end(b, i + 1)
    }
}

/// The byte ranges of the words at or after `i`, in order.
pub open spec fn words_from(b: Seq<u8>, i: int) -> Seq<(usize, usize)>
    decreases b.len() - i,
    when 0 <= i <= b.len()
    via words_from_ends
{
    if i >= b.len() {
        Seq::empty()
    } else if is_space(b[i]) {
        words_from(b, i + 1)
    } else {
        seq![(i as usize, word_end(b, i) as usize)] + words_from(b, word_end(b, i))
    }
}

#[via_fn]
proof fn words_from_ends(b: Seq<u8>, i: int) {
    if i < b.len() {
        run_end_bounds(b, i + 1);
    }
}

/// The byte ranges of the words of a text: runs without white space, each ASCII
/// punctuation character by itself.
pub fn word_ranges(b: &[u8]) -> (r: Vec<(usize, usize)>)
    ensures
        r@ == words_from(b@, 0),
{
    let mut out: Vec<(usize, usize)> = Vec::new();
    let mut i: usize = 0;
    proof {
        assert(out@ + words_from(b@, 0) =~= words_from(b@, 0));
    }
    while i < b.len()
        invariant
            i <= b.len(),
            out@ + words_from(b@, i as int) == words_from(b@, 0),
        decreases b.len() - i,
    {
        if b[i] <= 32 {
            i = i + 1;
            continue ;
        }
        let start = i;
        proof {
            run_end_bounds(b@, start + 1);
        }
        i = i + 1;
        if !is_punct_of(b[start]) {
            while i < b.len() && b[i] > 32 && !is_punct_of(b[i])
                invariant
                    start < i <= b.len(),
                    run_end(b@, i as int) == run_end(b@, start + 1),
                decreases b.len() - i,
            {
                i = i + 1;
            }
        }
        let ghost before = out@;
        out.push((start, i));
        proof {
            let tail = words_from(b@, i as int);
            assert(out@ + tail =~= before + (seq![(start, i)] + tail));
        }
    }
    proof {
        assert(out@ + words_from(b@, i as int) =~= out@);
    }
    out
}

/// How many tokens the first `k` words have together.
pub open spec fn tokens_before(counts: Seq<usize>, k: int) -> int
    decreases k,
{
    if k <= 0 {
        0
    } else {
        tokens_before(counts, k - 1) + counts[k - 1]
    }
}

/// Whether word `k` survived the cut whole.
pub open spec fn survives(counts: Seq<usize>, k: int, skip: int, take: int) -> bool {
    &&& counts[k] > 0
    &&& skip <= tokens_before(counts, k)
    &&& tokens_before(counts, k) + counts[k] <= skip + take
}

/// The span of word `k`.
pub open spec fn span_of(
    ranges: Seq<(usize, usize)>,
    counts: Seq<usize>,
    k: int,
    n_prefix: int,
    skip: int,
) -> WordSpan {
    WordSpan {
        start: ranges[k].0 as u64,
        end: ranges[k].1 as u64,
        first_token: (1 + n_prefix + tokens_before(counts, k) - skip) as u32,
        n_tokens: counts[k] as u32,
    }
}

/// The spans of those of the first `k` words that survived the cut whole, in order.
pub open spec fn spans(
    ranges: Seq<(usize, usize)>,
    counts: Seq<usize>,
    k: int,
    n_prefix: int,
    skip: int,
    take: int,
) -> Seq<WordSpan>
    decreases k,
{
    if k <= 0 {
        Seq::empty()
    } else {
        let rest = spans(ranges, counts, k - 1, n_prefix, skip, take);
        if survives(counts, k - 1, skip, take) {
            rest.push(span_of(ranges, counts, k - 1, n_prefix, skip))
        } else {
            rest
        }
    }
}

/// More words have more tokens.
pub proof fn tokens_before_grows(counts: Seq<usize>, a: int, b: int)
    requires
        0 <= a <= b <= counts.len(),
    ensures
        0 <= tokens_before(counts, a) <= tokens_before(counts, b),
    decreases b,
{
    if a < b {
        tokens_before_grows(counts, a, b - 1);
    } else if a > 0 {
        tokens_before_grows(counts, a - 1, a - 1);
    }
}

/// The words of a row for span aggregation: those whose tokens all survived
/// truncation, each with the columns that hold them. `counts` says how many
/// tokens each word of `ranges` has when tokenized alone.
pub fn collect_words(
    ranges: &Vec<(usize, usize)>,
    counts: &Vec<usize>,
    n_prefix: usize,
    skip: usize,
    take: usize,
) -> (r: Vec<WordSpan>)
    requires
        ranges.len() == counts.len(),
        tokens_before(counts@, counts.len() as int) <= usize::MAX,
        1 + n_prefix + take <= u32::MAX,
        skip + take <= usize::MAX,
    ensures
        r@ == spans(
            ranges@,
            counts@,
            counts.len() as int,
            n_prefix as int,
            skip as int,
            take as int,
        ),
{
    let mut out: Vec<WordSpan> = Vec::new();
    let mut seen: usize = 0;
    let mut k: usize = 0;
    while k < counts.len()
        invariant
            k <= counts.len(),
            ranges.len() == counts.len(),
            tokens_before(counts@, counts.len() as int) <= usize::MAX,
            1 + n_prefix + take <= u32::MAX,
            skip + take <= usize::MAX,
            seen == tokens_before(counts@, k as int),
            out@ == spans(ranges@, counts@, k as int, n_prefix as int, skip as int, take as int),
        decreases counts.len() - k,
    {
        let n = counts[k];
        proof {
            tokens_before_grows(counts@, k + 1, counts.len() as int);
        }
        if n > 0 && skip <= seen && seen + n <= skip + take {
            out.push(
                WordSpan {
                    start: ranges[k].0 as u64,
                    end: ranges[k].1 as u64,
                    first_token: (1 + n_prefix + (seen - skip)) as u32,
                    n_tokens: n as u32,
                },
            );
        }
        seen = seen + n;
        k = k + 1;
    }
    out
}

/// A text, and how many tokens each of its words has when tokenized alone.
#[derive(Debug)]
pub struct TextWords {
    pub bytes: Vec<u8>,
    pub counts: Vec<usize>,
}

impl TextWords {
    /// Whether every word of the text has its count.
    pub open spec fn wf(&self) -> bool {
        &&& self.counts@.len() == words_from(self.bytes@, 0).len()
        &&& tokens_before(self.counts@, self.counts.len() as int) <= usize::MAX
    }

    /// The words that survive in a row of `n_text` tokens without a prefix.
    pub open spec fn kept(&self, n_text: nat, truncate: Truncate, budget: u32) -> Seq<WordSpan> {
        match window(0, 0, n_text, truncate, budget) {
            Err(_) => Seq::empty(),
            Ok(w) => spans(
                words_from(self.bytes@, 0),
                self.counts@,
                self.counts.len() as int,
                0,
                w.0 as int,
                w.1 as int,
            ),
        }
    }

    /// The words that survive in a row of `n_text` tokens without a prefix.
    pub fn kept_of(&self, n_text: usize, truncate: Truncate, budget: u32) -> (r: Vec<WordSpan>)
        requires
            self.wf(),
        ensures
            r@ == self.kept(n_text as nat, truncate, budget),
    {
        match window_of(0, 0, n_text, truncate, budget) {
            Err(_) => Vec::new(),
            Ok(w) => {
                let ranges = word_ranges(self.bytes.as_slice());
                collect_words(&ranges, &self.counts, 0, w.skip, w.take)
            },
        }
    }
}

/// The tokens of the first `k` words, one after the other.
pub open spec fn flattened(tokens: Seq<Seq<i32>>, k: int) -> Seq<i32>
    decreases k,
{
    if k <= 0 {
        Seq::empty()
    } else {
        flattened(tokens, k - 1) + tokens[k - 1]
    }
}

/// Word `k` stands in the flattened text behind the words before it.
proof fn flattened_holds(tokens: Seq<Seq<i32>>, counts: Seq<usize>, k: int, n: int)
    requires
        0 <= k < n <= tokens.len(),
        counts.len() == tokens.len(),
        forall|i: int| 0 <= i < counts.len() ==> #[trigger] counts[i] == tokens[i].len(),
    ensures
        flattened(tokens, n).len() == tokens_before(counts, n),
        tokens_before(counts, k) + counts[k] <= tokens_before(counts, n),
        flattened(tokens, n).subrange(
            tokens_before(counts, k),
            tokens_before(counts, k) + counts[k],
        ) == tokens[k],
    decreases n,
{
    flattened_len(tokens, counts, n - 1);
    tokens_before_grows(counts, 0, k);
    if k == n - 1 {
        assert(flattened(tokens, n).subrange(
            tokens_before(counts, k),
            tokens_before(counts, k) + counts[k],
        ) =~= tokens[k]);
    } else {
        flattened_holds(tokens, counts, k, n - 1);
        let inner = flattened(tokens, n - 1);
        let a = tokens_before(counts, k);
        assert(flattened(tokens, n).subrange(a, a + counts[k]) =~= inner.subrange(a, a + counts[k]));
    }
}

/// The flattened text is as long as its words together.
proof fn flattened_len(tokens: Seq<Seq<i32>>, counts: Seq<usize>, n: int)
    requires
        0 <= n <= tokens.len(),
        counts.len() == tokens.len(),
        forall|i: int| 0 <= i < counts.len() ==> #[trigger] counts[i] == tokens[i].len(),
    ensures
        flattened(tokens, n).len() == tokens_before(counts, n),
    decreases n,
{
    if n > 0 {
        flattened_len(tokens, counts, n - 1);
        assert(counts[n - 1] == tokens[n - 1].len());
    }
}

/// The columns that the span of a surviving word names hold that word's own
/// tokens, strictly between `[CLS]` and `[SEP]`, for a text whose tokens are
/// those of its words.
pub proof fn span_columns_hold_the_word(
    vocab: Vocab,
    prefix: Seq<i32>,
    tokens: Seq<Seq<i32>>,
    ranges: Seq<(usize, usize)>,
    counts: Seq<usize>,
    skip: int,
    take: int,
    k: int,
)
    requires
        0 <= k < counts.len(),
        counts.len() == tokens.len(),
        forall|i: int| 0 <= i < counts.len() ==> #[trigger] counts[i] == tokens[i].len(),
        0 <= skip,
        0 <= take,
        skip + take <= flattened(tokens, tokens.len() as int).len(),
        2 + prefix.len() + take <= u32::MAX,
        survives(counts, k, skip, take),
    ensures
        ({
            let s = span_of(ranges, counts, k, prefix.len() as int, skip);
            let row = row_tokens(
                vocab,
                prefix,
                flattened(tokens, tokens.len() as int),
                skip,
                take,
            );
            &&& 1 <= s.first_token
            &&& s.n_tokens > 0
            &&& s.first_token + s.n_tokens < row.len()
            &&& row.subrange(s.first_token as int, s.first_token + s.n_tokens) == tokens[k]
        }),
{
    let text = flattened(tokens, tokens.len() as int);
    flattened_holds(tokens, counts, k, tokens.len() as int);
    let s = span_of(ranges, counts, k, prefix.len() as int, skip);
    let row = row_tokens(vocab, prefix, text, skip, take);
    let a = tokens_before(counts, k);
    assert(s.first_token == 1 + prefix.len() + a - skip);
    assert(row.subrange(s.first_token as int, s.first_token + s.n_tokens) =~= text.subrange(
        a,
        a + counts[k],
    ));
}

/// Spans are in row order and share no column: of two surviving words the
/// earlier ends before the later begins.
pub proof fn spans_do_not_overlap(
    ranges: Seq<(usize, usize)>,
    counts: Seq<usize>,
    n_prefix: int,
    skip: int,
    take: int,
    j: int,
    k: int,
)
    requires
        0 <= j < k < counts.len(),
        0 <= n_prefix,
        0 <= skip,
        0 <= take,
        1 + n_prefix + take <= u32::MAX,
        survives(counts, j, skip, take),
        survives(counts, k, skip, take),
    ensures
        ({
            let a = span_of(ranges, counts, j, n_prefix, skip);
            let b = span_of(ranges, counts, k, n_prefix, skip);
            a.first_token + a.n_tokens <= b.first_token
        }),
{
    tokens_before_grows(counts, j + 1, k);
}

/// A row is `[CLS]`, the prompt prefix, text and `[SEP]`, and within its budget. All of
/// the text is in it where it fits. Else right truncation, which is also the model's
/// own, keeps the text's beginning and left truncation its end; the prefix stays whole
/// either way. Without truncation a text that does not fit is refused.
pub proof fn a_row_keeps_the_side_it_is_asked_for(
    vocab: Vocab,
    row: u32,
    prefix: Seq<i32>,
    text: Seq<i32>,
    truncate: Truncate,
    budget: u32,
)
    requires
        budget >= 2,
    ensures
        ({
            let w = window(row, prefix.len(), text.len(), truncate, budget);
            let tokens = row_tokens(vocab, prefix, text, w->Ok_0.0 as int, w->Ok_0.1 as int);
            let p = prefix.len() as int;
            let fits = p + text.len() + 2 <= budget;
            &&& w is Ok <==> p + 2 <= budget && (fits || truncate != Truncate::Off)
            &&& w is Ok ==> {
                &&& tokens.len() == if fits {
                    p + text.len() + 2
                } else {
                    budget as int
                }
                &&& tokens[0] == vocab.cls()
                &&& tokens[tokens.len() - 1] == vocab.sep()
                &&& forall|i: int| 0 <= i < p ==> #[trigger] tokens[1 + i] == prefix[i]
                &&& fits || truncate != Truncate::Left ==> forall|i: int|
                    0 <= i < tokens.len() - 2 - p ==> #[trigger] tokens[1 + p + i] == text[i]
                &&& !fits && truncate == Truncate::Left ==> forall|i: int|
                    0 <= i < tokens.len() - 2 - p ==> #[trigger] tokens[1 + p + i] == text[text.len() - (
                    tokens.len() - 2 - p) + i]
            }
        }),
{
}

/// An ASCII byte is white space, punctuation, a letter or a digit, and just one of
/// these; control characters are white space. Other bytes belong to words.
pub proof fn bytes_are_spaces_punctuation_or_words(b: u8)
    ensures
        !(is_space(b) && is_punct(b)),
        is_space(b) <==> b <= 0x20,
        0x20 < b < 0x7f ==> (is_punct(b) <==> !(0x30 <= b <= 0x39 || 0x41 <= b <= 0x5a || 0x61 <= b
            <= 0x7a)),
        b >= 0x7f ==> !is_punct(b),
{
}

/// Every byte of a text but white space lies in one of its words.
pub proof fn every_byte_but_white_space_is_in_a_word(b: Seq<u8>, i: int, x: int) -> (k: int)
    requires
        0 <= i <= x < b.len() <= usize::MAX,
        !is_space(b[x]),
    ensures
        0 <= k < words_from(b, i).len(),
        words_from(b, i)[k].0 <= x < words_from(b, i)[k].1,
    decreases b.len() - i,
{
    if is_space(b[i]) {
        every_byte_but_white_space_is_in_a_word(b, i + 1, x)
    } else {
        let e = word_end(b, i);
        run_is_a_word(b, i + 1);
        let w = words_from(b, i);
        let rest = words_from(b, e);
        assert(w == seq![(i as usize, e as usize)] + rest);
        if x < e {
            assert(w[0] == (i as usize, e as usize));
            0
        } else {
            let k = every_byte_but_white_space_is_in_a_word(b, e, x);
            assert(w[k + 1] == rest[k]);
            k + 1
        }
    }
}

/// The words of a text lie in it one behind the other, and none is empty.
pub proof fn words_stand_one_behind_the_other(b: Seq<u8>, i: int, k: int)
    requires
        0 <= i <= b.len() <= usize::MAX,
        0 <= k < words_from(b, i).len(),
    ensures
        i <= words_from(b, i)[k].0 < words_from(b, i)[k].1 <= b.len(),
        k + 1 < words_from(b, i).len() ==> words_from(b, i)[k].1 <= words_from(b, i)[k + 1].0,
    decreases b.len() - i,
{
    if i < b.len() {
        if is_space(b[i]) {
            words_stand_one_behind_the_other(b, i + 1, k);
        } else {
            let e = word_end(b, i);
            run_is_a_word(b, i + 1);
            let w = words_from(b, i);
            let rest = words_from(b, e);
            assert(w == seq![(i as usize, e as usize)] + rest);
            if k > 0 {
                assert(w[k] == rest[k - 1]);
                words_stand_one_behind_the_other(b, e, k - 1);
                if k + 1 < w.len() {
                    assert(w[k + 1] == rest[k]);
                }
            } else {
                assert(w[0] == (i as usize, e as usize));
                if 1 < w.len() {
                    assert(w[1] == rest[0]);
                    words_stand_one_behind_the_other(b, e, 0);
                }
            }
        }
    }
}

/// A word holds no white space, and no punctuation mark unless it is one: byte `x` of
/// word `k` is neither, or all of the word.
pub proof fn a_word_is_one_mark_or_none(b: Seq<u8>, i: int, k: int, x: int)
    requires
        0 <= i <= b.len() <= usize::MAX,
        0 <= k < words_from(b, i).len(),
        words_from(b, i)[k].0 <= x < words_from(b, i)[k].1,
    ensures
        !is_space(b[x]),
        is_punct(b[x]) ==> words_from(b, i)[k].1 == words_from(b, i)[k].0 + 1,
    decreases b.len() - i,
{
    if i < b.len() {
        if is_space(b[i]) {
            a_word_is_one_mark_or_none(b, i + 1, k, x);
        } else {
            let e = word_end(b, i);
            run_is_a_word(b, i + 1);
            let w = words_from(b, i);
            let rest = words_from(b, e);
            assert(w == seq![(i as usize, e as usize)] + rest);
            if k > 0 {
                assert(w[k] == rest[k - 1]);
                a_word_is_one_mark_or_none(b, e, k - 1, x);
            } else {
                assert(w[0] == (i as usize, e as usize));
                if x > i {
                    assert(i + 1 <= x < run_end(b, i + 1));
                    assert(!is_space(b[x]) && !is_punct(b[x]));
                }
            }
        }
    }
}

/// A word is as long as it can be: where two words touch, the first ends in a
/// punctuation mark or the second begins with one.
pub proof fn words_touch_at_a_mark(b: Seq<u8>, i: int, k: int)
    requires
        0 <= i <= b.len() <= usize::MAX,
        0 <= k,
        k + 1 < words_from(b, i).len(),
        words_from(b, i)[k].1 == words_from(b, i)[k + 1].0,
    ensures
        is_punct(b[words_from(b, i)[k].1 - 1]) || is_punct(b[words_from(b, i)[k + 1].0 as int]),
    decreases b.len() - i,
{
    if i < b.len() {
        if is_space(b[i]) {
            words_touch_at_a_mark(b, i + 1, k);
        } else {
            let e = word_end(b, i);
            run_is_a_word(b, i + 1);
            let w = words_from(b, i);
            let rest = words_from(b, e);
            assert(w == seq![(i as usize, e as usize)] + rest);
            assert(w[k + 1] == rest[k]);
            if k > 0 {
                assert(w[k] == rest[k - 1]);
                words_touch_at_a_mark(b, e, k - 1);
            } else {
                assert(w[0] == (i as usize, e as usize));
                words_stand_one_behind_the_other(b, e, 0);
                assert(rest[0].0 < rest[0].1);
                a_word_is_one_mark_or_none(b, e, 0, rest[0].0 as int);
            }
        }
    }
}

/// A run holds neither white space nor punctuation, and ends before one or at the end.
proof fn run_is_a_word(b: Seq<u8>, i: int)
    requires
        0 <= i <= b.len(),
    ensures
        i <= run_end(b, i) <= b.len(),
        forall|x: int| i <= x < run_end(b, i) ==> !is_space(#[trigger] b[x]) && !is_punct(b[x]),
        run_end(b, i) < b.len() ==> is_space(b[run_end(b, i)]) || is_punct(b[run_end(b, i)]),
    decreases b.len() - i,
{
    if i < b.len() && !is_space(b[i]) && !is_punct(b[i]) {
        run_is_a_word(b, i + 1);
    }
}

/// Whether a span is that of word `j`, all of whose tokens are inside the window.
pub open spec fn spans_the_word(
    s: WordSpan,
    ranges: Seq<(usize, usize)>,
    counts: Seq<usize>,
    j: int,
    n_prefix: int,
    skip: int,
    take: int,
) -> bool {
    &&& 0 <= j < counts.len()
    &&& counts[j] > 0
    &&& skip <= tokens_before(counts, j)
    &&& tokens_before(counts, j) + counts[j] <= skip + take
    &&& s == span_of(ranges, counts, j, n_prefix, skip)
}

/// Whether a span is that of one of the first `k` words.
pub open spec fn spans_a_word(
    s: WordSpan,
    ranges: Seq<(usize, usize)>,
    counts: Seq<usize>,
    k: int,
    n_prefix: int,
    skip: int,
    take: int,
) -> bool {
    exists|j: int| #[trigger] spans_the_word(s, ranges, counts, j, n_prefix, skip, take) && j < k
}

/// Of the first `k` words just those have a span whose tokens are all inside the window
/// that truncation left, and none without tokens has one.
pub proof fn words_with_all_their_tokens_have_a_span(
    ranges: Seq<(usize, usize)>,
    counts: Seq<usize>,
    k: int,
    n_prefix: int,
    skip: int,
    take: int,
)
    requires
        0 <= k <= counts.len(),
    ensures
        ({
            let s = spans(ranges, counts, k, n_prefix, skip, take);
            &&& forall|j: int|
                0 <= j < k && counts[j] > 0 && skip <= #[trigger] tokens_before(counts, j)
                    && tokens_before(counts, j) + counts[j] <= skip + take ==> s.contains(
                    span_of(ranges, counts, j, n_prefix, skip),
                )
            &&& forall|i: int|
                0 <= i < s.len() ==> spans_a_word(#[trigger] s[i], ranges, counts, k, n_prefix, skip, take)
        }),
    decreases k,
{
    if k > 0 {
        words_with_all_their_tokens_have_a_span(ranges, counts, k - 1, n_prefix, skip, take);
        let old_s = spans(ranges, counts, k - 1, n_prefix, skip, take);
        let s = spans(ranges, counts, k, n_prefix, skip, take);
        assert forall|j: int|
            0 <= j < k && counts[j] > 0 && skip <= #[trigger] tokens_before(counts, j) && tokens_before(
                counts,
                j,
            ) + counts[j] <= skip + take implies s.contains(span_of(ranges, counts, j, n_prefix, skip)) by {
            let x = span_of(ranges, counts, j, n_prefix, skip);
            if j == k - 1 {
                assert(s[s.len() - 1] == x);
            } else {
                assert(old_s.contains(x));
                let i = choose|i: int| 0 <= i < old_s.len() && old_s[i] == x;
                assert(s[i] == x);
            }
        }
        assert forall|i: int| 0 <= i < s.len() implies spans_a_word(
            #[trigger] s[i],
            ranges,
            counts,
            k,
            n_prefix,
            skip,
            take,
        ) by {
            if i < old_s.len() {
                assert(s[i] == old_s[i]);
                let j = choose|j: int| #[trigger]
                    spans_the_word(old_s[i], ranges, counts, j, n_prefix, skip, take) && j < k - 1;
                assert(spans_the_word(s[i], ranges, counts, j, n_prefix, skip, take));
            } else {
                assert(spans_the_word(s[i], ranges, counts, k - 1, n_prefix, skip, take));
            }
        }
    }
}

/// A vocabulary is loaded where its file was found and understood and has all three
/// special tokens, which it then keeps.
pub proof fn a_vocabulary_has_its_special_tokens(
    status: i32,
    loaded: bool,
    cls: i32,
    sep: i32,
    pad: i32,
    path: Seq<char>,
)
    ensures
        ({
            let r = load_result(status, loaded, cls, sep, pad, path);
            &&& r is Ok <==> status == 0 && loaded && cls >= 0 && sep >= 0 && pad >= 0
            &&& r is Ok ==> r->Ok_0 == (cls as int, sep as int, pad as int)
        }),
{
}

/// A pair was packed where its row buffers hold a row and the packer's status is 0;
/// status 1 tells of a pair that does not fit, and any other of a fault.
pub proof fn a_pair_was_packed_where_the_status_is_zero(
    status: i32,
    ids: usize,
    mask: usize,
    types: usize,
    pos: usize,
    seq: u32,
    budget: u32,
)
    ensures
        ({
            let v = pair_verdict(status, ids, mask, types, pos, seq, budget);
            let room = ids >= seq && mask >= seq && types >= seq && pos >= seq;
            &&& v is Ok <==> room && status == 0
            &&& !room ==> v->Err_0.class == Class::Internal
            &&& room && status == 1 ==> v is Err && v->Err_0.class == Class::Capacity
            &&& room && status != 0 && status != 1 ==> v is Err && v->Err_0.class == Class::Internal
        }),
{
}

/// A row that is encoded has a live token for each that it writes, and never more
/// than its budget; a row without room for the session's sequence is a fault.
pub proof fn a_row_counts_the_tokens_it_writes(
    vocab: Vocab,
    row: u32,
    prefix: Seq<i32>,
    text: Seq<i32>,
    truncate: Truncate,
    budget: u32,
    seq: u32,
    ids_room: nat,
    mask_room: nat,
)
    ensures
        ({
            let v = encoded(row, prefix, text, truncate, budget, seq, ids_room, mask_room);
            let w = window(row, prefix.len(), text.len(), truncate, budget);
            &&& ids_room < seq || mask_room < seq ==> v is Err && v->Err_0.class == Class::Internal
            &&& ids_room >= seq && mask_room >= seq ==> (v is Ok <==> w is Ok)
            &&& v is Ok ==> v->Ok_0 == row_tokens(
                vocab,
                prefix,
                text,
                w->Ok_0.0 as int,
                w->Ok_0.1 as int,
            ).len() && v->Ok_0 <= budget
        }),
{
}

} // verus!

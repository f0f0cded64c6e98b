//! What the chunks of a request give, put together in the order of its rows: a
//! request wider than a bucket is answered as one. A chunk's result is checked
//! before it is read; numbers are held by their bits.

use vstd::prelude::*;
use crate::bytes::{as_u32, le_values, le_values_len, row_views};
use crate::engine::{
    check_embeddings, check_labels, check_scores, covers, cut_ranking, rank, read_f32, require_f32, row_spans,
    span_fault, spans_by_row, split_rows, Span,
};
use crate::error::{plain, Class, Error, ErrorView};
use crate::rank::is_ranking;
use crate::text::decimal;
use crate::types::{dtype_text, DType, Placement};

verus! {

/// The result of a chunk, before it is read.
#[derive(Debug)]
pub struct Output {
    pub dtype: DType,
    pub placement: Placement,
    /// Extents, outermost first.
    pub shape: Vec<u64>,
}

/// The refusal of a result that is not of single-precision numbers.
pub open spec fn dtype_fault(dtype: DType, what: Seq<char>) -> Option<ErrorView> {
    if dtype == DType::F32 {
        None
    } else {
        Some(
            plain(
                Class::UnsupportedDtype,
                "the server reads f32 "@ + what + "; the provider returned "@ + dtype_text(dtype),
            ),
        )
    }
}

/// The refusal of a chunk's embeddings before they are read: their datatype, then
/// their shape.
pub open spec fn embeddings_fault(out: Output, chunk: nat, dim: nat) -> Option<ErrorView> {
    match dtype_fault(out.dtype, "embeddings"@) {
        Some(e) => Some(e),
        None => if out.shape@[1] == dim && out.shape@[0] == chunk {
            None
        } else {
            Some(
                plain(
                    Class::Internal,
                    "provider returned a ["@ + decimal(out.shape@[0] as nat) + ", "@ + decimal(
                        out.shape@[1] as nat,
                    ) + "] result for "@ + decimal(chunk) + " rows of width "@ + decimal(dim),
                ),
            )
        },
    }
}

/// The refusal of a chunk's scores before they are read.
pub open spec fn scores_fault(out: Output, chunk: nat) -> Option<ErrorView> {
    match dtype_fault(out.dtype, "scores"@) {
        Some(e) => Some(e),
        None => if out.shape@[0] == chunk {
            None
        } else {
            Some(
                plain(
                    Class::Internal,
                    "provider returned "@ + decimal(out.shape@[0] as nat) + " scores for "@ + decimal(
                        chunk,
                    ) + " documents"@,
                ),
            )
        },
    }
}

/// The refusal of a chunk's label scores before they are read.
pub open spec fn labels_fault(out: Output, chunk: nat, labels: nat) -> Option<ErrorView> {
    match dtype_fault(out.dtype, "scores"@) {
        Some(e) => Some(e),
        None => if out.shape@[0] == chunk && out.shape@[1] == labels {
            None
        } else {
            Some(
                plain(
                    Class::Internal,
                    "provider returned a ["@ + decimal(out.shape@[0] as nat) + ", "@ + decimal(
                        out.shape@[1] as nat,
                    ) + "] result for "@ + decimal(chunk) + " texts and "@ + decimal(labels)
                        + " labels"@,
                ),
            )
        },
    }
}

/// The refusal of a read that gave another number of bytes than it was asked for.
pub open spec fn read_fault(read: nat, asked: nat) -> Option<ErrorView> {
    if read == asked {
        None
    } else {
        Some(
            plain(
                Class::Internal,
                "result read gave "@ + decimal(read) + " bytes for "@ + decimal(asked) + " expected"@,
            ),
        )
    }
}

/// The numbers in bytes.
pub open spec fn numbers(bytes: Seq<u8>) -> Seq<u32> {
    as_u32(le_values(bytes, 4))
}

/// Numbers as `n` rows of `width`.
pub open spec fn rows_of(flat: Seq<u32>, width: int, n: nat) -> Seq<Seq<u32>> {
    Seq::new(n, |i: int| flat.subrange(i * width, (i + 1) * width))
}

/// Put rows behind others.
fn append_rows(out: &mut Vec<Vec<u32>>, more: Vec<Vec<u32>>)
    ensures
        row_views(final(out)@) == row_views(old(out)@) + row_views(more@),
{
    let mut rest = more;
    out.append(&mut rest);
    proof {
        assert(row_views(out@) =~= row_views(old(out)@) + row_views(more@));
    }
}

/// Read bytes as rows of `width` and put them behind others.
fn take_rows(out: &mut Vec<Vec<u32>>, rows: usize, width: usize, bytes: &Vec<u8>, read: usize) -> (r: Result<
    (),
    Error,
>)
    requires
        bytes.len() == 4 * (rows * width),
    ensures
        match read_fault(read as nat, bytes@.len()) {
            Some(e) => r is Err && r->Err_0@ == e && *final(out) == *old(out),
            None => r is Ok && row_views(final(out)@) == row_views(old(out)@) + rows_of(
                numbers(bytes@),
                width as int,
                rows as nat,
            ),
        },
{
    match read_f32(bytes, read) {
        Err(e) => Err(e),
        Ok(flat) => {
            proof {
                le_values_len(bytes@, 4);
            }
            let more = split_rows(&flat, width, rows);
            proof {
                assert(row_views(more@) =~= rows_of(numbers(bytes@), width as int, rows as nat));
            }
            append_rows(out, more);
            Ok(())
        },
    }
}

/// The vectors of a request, as its chunks give them.
#[derive(Debug)]
pub struct Embedded {
    pub vectors: Vec<Vec<u32>>,
    /// The width of each vector.
    pub dim: u32,
    /// Where the provider left the last result.
    pub placement: Placement,
    /// The tokens of every text, where a tokenizer counted them.
    pub tokens: Option<u32>,
}

impl Embedded {
    /// No vectors yet.
    pub fn new(dim: u32, tokens: Option<u32>) -> (r: Embedded)
        ensures
            r.vectors@.len() == 0,
            r.dim == dim,
            r.placement == Placement::Host,
            r.tokens == tokens,
    {
        Embedded { vectors: Vec::new(), dim, placement: Placement::Host, tokens }
    }

    /// Check a chunk's result and note where it lies.
    pub fn check(&mut self, out: &Output, chunk: usize) -> (r: Result<(), Error>)
        requires
            out.shape.len() >= 2,
        ensures
            final(self).vectors == old(self).vectors,
            final(self).dim == old(self).dim,
            final(self).tokens == old(self).tokens,
            final(self).placement == out.placement,
            match embeddings_fault(*out, chunk as nat, old(self).dim as nat) {
                Some(e) => r is Err && r->Err_0@ == e,
                None => r is Ok,
            },
    {
        self.placement = out.placement;
        match require_f32(out.dtype, "embeddings") {
            Err(e) => return Err(e),
            Ok(()) => {},
        }
        check_embeddings(out.shape[0], out.shape[1], chunk as u64, self.dim as u64)
    }

    /// Take the vectors of a chunk; `read` is how many bytes the read gave.
    pub fn take(&mut self, chunk: usize, bytes: &Vec<u8>, read: usize) -> (r: Result<(), Error>)
        requires
            old(self).dim > 0,
            bytes.len() == 4 * (chunk * old(self).dim),
        ensures
            final(self).dim == old(self).dim,
            final(self).tokens == old(self).tokens,
            final(self).placement == old(self).placement,
            match read_fault(read as nat, bytes@.len()) {
                Some(e) => r is Err && r->Err_0@ == e && final(self).vectors == old(self).vectors,
                None => r is Ok && row_views(final(self).vectors@) == row_views(old(self).vectors@)
                    + rows_of(numbers(bytes@), old(self).dim as int, chunk as nat),
            },
    {
        take_rows(&mut self.vectors, chunk, self.dim as usize, bytes, read)
    }
}

/// The scores of a request's documents, in document order, as its chunks give them.
#[derive(Debug)]
pub struct Reranked {
    pub scores: Vec<u32>,
}

impl Reranked {
    /// No scores yet.
    pub fn new() -> (r: Reranked)
        ensures
            r.scores@ == Seq::<u32>::empty(),
    {
        Reranked { scores: Vec::new() }
    }

    /// Check a chunk's result.
    pub fn check(out: &Output, chunk: usize) -> (r: Result<(), Error>)
        requires
            out.shape.len() >= 1,
        ensures
            match scores_fault(*out, chunk as nat) {
                Some(e) => r is Err && r->Err_0@ == e,
                None => r is Ok,
            },
    {
        match require_f32(out.dtype, "scores") {
            Err(e) => return Err(e),
            Ok(()) => {},
        }
        check_scores(out.shape[0], chunk as u64)
    }

    /// Take the scores of a chunk; `read` is how many bytes the read gave.
    pub fn take(&mut self, bytes: &Vec<u8>, read: usize) -> (r: Result<(), Error>)
        ensures
            match read_fault(read as nat, bytes@.len()) {
                Some(e) => r is Err && r->Err_0@ == e && *final(self) == *old(self),
                None => r is Ok && final(self).scores@ == old(self).scores@ + numbers(bytes@),
            },
    {
        match read_f32(bytes, read) {
            Err(e) => Err(e),
            Ok(v) => {
                let mut more = v;
                self.scores.append(&mut more);
                Ok(())
            },
        }
    }

    /// One ranking over the documents of all chunks, best first, cut to `top_n`
    /// where that is not 0.
    pub fn sorted(&self, top_n: u32) -> (r: Vec<i32>)
        requires
            self.scores.len() <= i32::MAX,
        ensures
            exists|order: Seq<usize>| #[trigger]
                is_ranking(self.scores@, order) && r@ == cut_ranking(order, top_n),
    {
        rank(&self.scores, top_n)
    }
}

/// The label scores of a request's texts, as its chunks give them.
#[derive(Debug)]
pub struct Classified {
    pub scores: Vec<Vec<u32>>,
    pub labels: Vec<String>,
}

impl Classified {
    /// No scores yet.
    pub fn new(labels: Vec<String>) -> (r: Classified)
        ensures
            r.scores@.len() == 0,
            r.labels == labels,
    {
        Classified { scores: Vec::new(), labels }
    }

    /// Check a chunk's result.
    pub fn check(&self, out: &Output, chunk: usize) -> (r: Result<(), Error>)
        requires
            out.shape.len() >= 2,
        ensures
            match labels_fault(*out, chunk as nat, self.labels@.len()) {
                Some(e) => r is Err && r->Err_0@ == e,
                None => r is Ok,
            },
    {
        match require_f32(out.dtype, "scores") {
            Err(e) => return Err(e),
            Ok(()) => {},
        }
        check_labels(out.shape[0], out.shape[1], chunk as u64, self.labels.len() as u64)
    }

    /// Take the scores of a chunk; `read` is how many bytes the read gave.
    pub fn take(&mut self, chunk: usize, bytes: &Vec<u8>, read: usize) -> (r: Result<(), Error>)
        requires
            old(self).labels.len() > 0,
            bytes.len() == 4 * (chunk * old(self).labels.len()),
        ensures
            final(self).labels == old(self).labels,
            match read_fault(read as nat, bytes@.len()) {
                Some(e) => r is Err && r->Err_0@ == e && final(self).scores == old(self).scores,
                None => r is Ok && row_views(final(self).scores@) == row_views(old(self).scores@)
                    + rows_of(numbers(bytes@), old(self).labels.len() as int, chunk as nat),
            },
    {
        take_rows(&mut self.scores, chunk, self.labels.len(), bytes, read)
    }
}

/// The spans of a request's texts, as its chunks give them.
#[derive(Debug)]
pub struct Tagged {
    pub spans: Vec<Vec<Span>>,
    pub labels: Vec<String>,
}

/// Rows, each by its spans.
pub open spec fn span_views(v: Seq<Vec<Span>>) -> Seq<Seq<Span>> {
    Seq::new(v.len(), |i: int| v[i]@)
}

/// The spans of each of `n` rows, in the order in which they were found.
pub open spec fn spans_of(spans: Seq<Span>, n: nat) -> Seq<Seq<Span>> {
    Seq::new(n, |k: int| row_spans(spans, k, spans.len() as int))
}

impl Tagged {
    /// No spans yet.
    pub fn new(labels: Vec<String>) -> (r: Tagged)
        ensures
            r.spans@.len() == 0,
            r.labels == labels,
    {
        Tagged { spans: Vec::new(), labels }
    }

    /// Take the spans of a chunk of `chunk` texts.
    pub fn take(&mut self, chunk: usize, spans: &Vec<Span>) -> (r: Result<(), Error>)
        ensures
            final(self).labels == old(self).labels,
            match span_fault(spans@, chunk as nat, 0) {
                Some(e) => r is Err && r->Err_0@ == e && final(self).spans == old(self).spans,
                None => r is Ok && span_views(final(self).spans@) == span_views(old(self).spans@)
                    + spans_of(spans@, chunk as nat),
            },
    {
        match spans_by_row(spans, chunk) {
            Err(e) => Err(e),
            Ok(rows) => {
                let mut more = rows;
                self.spans.append(&mut more);
                proof {
                    assert(span_views(self.spans@) =~= span_views(old(self).spans@) + spans_of(
                        spans@,
                        chunk as nat,
                    ));
                }
                Ok(())
            },
        }
    }
}

/// The numbers of two results read one after the other are those of the two
/// together: what a request is answered does not depend on where its rows were
/// split.
pub proof fn chunks_join(a: Seq<u8>, b: Seq<u8>)
    requires
        a.len() % 4 == 0,
    ensures
        numbers(a + b) == numbers(a) + numbers(b),
    decreases a.len(),
{
    if a.len() < 4 {
        assert(a + b =~= b);
        assert(numbers(a) =~= Seq::empty());
        assert(numbers(a + b) =~= numbers(a) + numbers(b));
    } else {
        chunks_join(a.skip(4), b);
        assert((a + b).take(4) =~= a.take(4));
        assert((a + b).skip(4) =~= a.skip(4) + b);
        let head = seq![crate::bytes::le_value(a.take(4))];
        assert(le_values(a, 4) == head + le_values(a.skip(4), 4));
        assert(le_values(a + b, 4) == head + le_values(a.skip(4) + b, 4));
        assert(as_u32(head + le_values(a.skip(4), 4)) =~= as_u32(head) + numbers(a.skip(4)));
        assert(as_u32(head + le_values(a.skip(4) + b, 4)) =~= as_u32(head) + numbers(a.skip(4) + b));
        assert(numbers(a + b) =~= numbers(a) + numbers(b));
    }
}

/// The vectors of a request after its first `n` chunks, where `bytes` are what the
/// chunks' results hold: those that `Embedded::take` has put together.
pub open spec fn gathered(bytes: Seq<Seq<u8>>, chunks: Seq<(usize, usize)>, dim: int, n: int) -> Seq<
    Seq<u32>,
>
    decreases n,
{
    if n <= 0 {
        Seq::empty()
    } else {
        gathered(bytes, chunks, dim, n - 1) + rows_of(
            numbers(bytes[n - 1]),
            dim,
            (chunks[n - 1].1 - chunks[n - 1].0) as nat,
        )
    }
}

/// Whether the results of a request's chunks hold for every text the vector that it
/// has by itself.
pub open spec fn embeds_each(
    vector: spec_fn(Seq<char>) -> Seq<u32>,
    texts: Seq<Seq<char>>,
    chunks: Seq<(usize, usize)>,
    bytes: Seq<Seq<u8>>,
    dim: int,
) -> bool {
    &&& bytes.len() == chunks.len()
    &&& forall|c: int|
        0 <= c < chunks.len() ==> (#[trigger] bytes[c]).len() == 4 * ((chunks[c].1 - chunks[c].0) * dim)
    &&& forall|c: int, k: int|
        0 <= c < chunks.len() && 0 <= k < chunks[c].1 - chunks[c].0 ==> #[trigger] rows_of(
            numbers(bytes[c]),
            dim,
            (chunks[c].1 - chunks[c].0) as nat,
        )[k] == vector(texts[chunks[c].0 + k])
}

/// The first chunks give the vectors of the first texts.
proof fn gathered_in_order(
    vector: spec_fn(Seq<char>) -> Seq<u32>,
    texts: Seq<Seq<char>>,
    chunks: Seq<(usize, usize)>,
    bytes: Seq<Seq<u8>>,
    dim: int,
    n: int,
)
    requires
        covers(chunks, texts.len() as int),
        embeds_each(vector, texts, chunks, bytes, dim),
        0 <= n <= chunks.len(),
    ensures
        gathered(bytes, chunks, dim, n).len() == (if n == 0 {
            0
        } else {
            chunks[n - 1].1 as int
        }),
        forall|i: int|
            0 <= i < gathered(bytes, chunks, dim, n).len() ==> #[trigger] gathered(
                bytes,
                chunks,
                dim,
                n,
            )[i] == vector(texts[i]),
    decreases n,
{
    if n > 0 {
        gathered_in_order(vector, texts, chunks, bytes, dim, n - 1);
        let before = gathered(bytes, chunks, dim, n - 1);
        let c = chunks[n - 1];
        let more = rows_of(numbers(bytes[n - 1]), dim, (c.1 - c.0) as nat);
        if n > 1 {
            assert(chunks[n - 1].0 == chunks[n - 2].1);
        }
        assert(before.len() == c.0);
        let all = gathered(bytes, chunks, dim, n);
        assert forall|i: int| 0 <= i < all.len() implies #[trigger] all[i] == vector(texts[i]) by {
            if i >= before.len() {
                let k = i - before.len();
                assert(all[i] == more[k]);
                assert(0 <= k < chunks[n - 1].1 - chunks[n - 1].0);
            } else {
                assert(all[i] == before[i]);
            }
        }
    }
}

/// A row of a whole result has its width.
proof fn row_width(bytes: Seq<u8>, dim: int, n: int, k: int)
    requires
        0 <= dim,
        0 <= k < n,
        bytes.len() == 4 * (n * dim),
    ensures
        rows_of(numbers(bytes), dim, n as nat)[k].len() == dim,
{
    le_values_len(bytes, 4);
    assert(0 <= k * dim && (k + 1) * dim == k * dim + dim && (k + 1) * dim <= n * dim)
        by (nonlinear_arith)
        requires
            0 <= dim,
            0 <= k < n,
    ;
}

/// A request gives a vector for each of its texts, in their order, and however many
/// chunks it was split into, the vector of a text is the one that a request of that
/// text alone gives, for a provider that embeds a row from its own text only.
pub proof fn a_vector_does_not_depend_on_the_chunks(
    vector: spec_fn(Seq<char>) -> Seq<u32>,
    texts: Seq<Seq<char>>,
    chunks: Seq<(usize, usize)>,
    bytes: Seq<Seq<u8>>,
    one: Seq<Seq<u8>>,
    dim: int,
    i: int,
)
    requires
        covers(chunks, texts.len() as int),
        embeds_each(vector, texts, chunks, bytes, dim),
        0 <= i < texts.len(),
        0 <= dim,
        embeds_each(vector, seq![texts[i]], seq![(0usize, 1usize)], one, dim),
    ensures
        gathered(bytes, chunks, dim, chunks.len() as int)[i].len() == dim,
        gathered(bytes, chunks, dim, chunks.len() as int).len() == texts.len(),
        gathered(bytes, chunks, dim, chunks.len() as int)[i] == gathered(
            one,
            seq![(0usize, 1usize)],
            dim,
            1,
        )[0],
{
    let alone = seq![(0usize, 1usize)];
    gathered_in_order(vector, texts, chunks, bytes, dim, chunks.len() as int);
    assert(covers(alone, 1));
    gathered_in_order(vector, seq![texts[i]], alone, one, dim, 1);
    assert(one[0].len() == 4 * ((alone[0].1 - alone[0].0) * dim));
    row_width(one[0], dim, 1, 0);
    reveal_with_fuel(gathered, 2);
    assert(gathered(one, alone, dim, 1)[0] == rows_of(numbers(one[0]), dim, 1)[0]);
}

/// A result is taken where it is single-precision and of the shape that was asked
/// for, and refused for its type before its shape.
pub proof fn results_of_the_right_shape_are_taken(out: Output, chunk: nat, dim: nat)
    requires
        out.shape.len() >= 2,
    ensures
        embeddings_fault(out, chunk, dim) is None <==> out.dtype == DType::F32 && out.shape@[0] == chunk
            && out.shape@[1] == dim,
        labels_fault(out, chunk, dim) is None <==> out.dtype == DType::F32 && out.shape@[0] == chunk
            && out.shape@[1] == dim,
        scores_fault(out, chunk) is None <==> out.dtype == DType::F32 && out.shape@[0] == chunk,
        embeddings_fault(out, chunk, dim) matches Some(e) ==> e.class == (if out.dtype == DType::F32 {
            Class::Internal
        } else {
            Class::UnsupportedDtype
        }),
        labels_fault(out, chunk, dim) matches Some(e) ==> e.class == (if out.dtype == DType::F32 {
            Class::Internal
        } else {
            Class::UnsupportedDtype
        }),
        scores_fault(out, chunk) matches Some(e) ==> e.class == (if out.dtype == DType::F32 {
            Class::Internal
        } else {
            Class::UnsupportedDtype
        }),
{
}

/// A read is taken where it gave all the bytes that were asked for.
pub proof fn a_read_is_taken_whole(read: nat, asked: nat)
    ensures
        read_fault(read, asked) is None <==> read == asked,
        read_fault(read, asked) matches Some(e) ==> e.class == Class::Internal,
{
}

/// Column `j` of row `i` is the number behind the rows before it and the `j` columns
/// before it, written in its own four bytes, the lowest first.
pub proof fn rows_lie_behind_each_other(bytes: Seq<u8>, width: int, n: nat, i: int, j: int)
    requires
        width > 0,
        bytes.len() == 4 * (n * width),
        0 <= i < n,
        0 <= j < width,
    ensures
        rows_of(numbers(bytes), width, n).len() == n,
        rows_of(numbers(bytes), width, n)[i].len() == width,
        ({
            let at = 4 * (i * width + j);
            rows_of(numbers(bytes), width, n)[i][j] == bytes[at] + 256 * bytes[at + 1] + 0x1_0000
                * bytes[at + 2] + 0x100_0000 * bytes[at + 3]
        }),
{
    let k = i * width + j;
    assert(0 <= i * width && (i + 1) * width == i * width + width && (i + 1) * width <= n * width)
        by (nonlinear_arith)
        requires
            0 <= i < n,
            width > 0,
    ;
    crate::bytes::le_values_len(bytes, 4);
    crate::bytes::numbers_are_read_from_their_own_bytes(bytes, 4, k);
    reveal_with_fuel(crate::bytes::le_value, 5);
    let own = bytes.subrange(k * 4, k * 4 + 4);
    assert(crate::bytes::le_value(own) == own[0] + 256 * own[1] + 0x1_0000 * own[2] + 0x100_0000
        * own[3]);
    let flat = numbers(bytes);
    assert(rows_of(flat, width, n)[i] == flat.subrange(i * width, (i + 1) * width));
    assert(flat.subrange(i * width, (i + 1) * width)[j] == flat[k]);
}

} // verus!

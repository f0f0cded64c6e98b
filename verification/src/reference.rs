//! The reference benchmarks: what the programs that call a vendor's runtime alone
//! decide around their calls. They run the token rows or texts of a dump, and tell
//! the device as its driver names it.

use vstd::prelude::*;
use vstd::relations::{sorted_by, total_ordering};
use crate::convert::{parse_u64, u64_fault};
use crate::text::{
    all_quoted, bracketed, bracketed_of, cat2, cat3, cat4, cat7, cat8, chars_of, decimal,
    decimal_of, holds, joined, opt_view, quoted_list, same, slice_of, split_of, split_on,
    unsigned_value, views,
};

verus! {

/// Whether a character is white space.
pub open spec fn is_white(c: char) -> bool {
    let u = c as u32;
    (9 <= u <= 13) || u == 0x20 || u == 0x85 || u == 0xa0 || u == 0x1680 || (0x2000 <= u <= 0x200a)
        || u == 0x2028 || u == 0x2029 || u == 0x202f || u == 0x205f || u == 0x3000
}

/// Whether a character is white space.
fn is_white_of(c: char) -> (r: bool)
    ensures
        r == is_white(c),
{
    let u: u32 = c as u32;
    (9 <= u && u <= 13) || u == 0x20 || u == 0x85 || u == 0xa0 || u == 0x1680 || (0x2000 <= u && u
        <= 0x200a) || u == 0x2028 || u == 0x2029 || u == 0x202f || u == 0x205f || u == 0x3000
}

/// A text without the white space at its end.
pub open spec fn trim_end(s: Seq<char>) -> Seq<char>
    decreases s.len(),
{
    if s.len() > 0 && is_white(s.last()) {
        trim_end(s.drop_last())
    } else {
        s
    }
}

/// A text without the white space at its start.
pub open spec fn trim_start(s: Seq<char>) -> Seq<char>
    decreases s.len(),
{
    if s.len() > 0 && is_white(s[0]) {
        trim_start(s.skip(1))
    } else {
        s
    }
}

/// A text without the white space around it.
pub open spec fn trim(s: Seq<char>) -> Seq<char> {
    trim_end(trim_start(s))
}

/// A text without the white space around it.
pub fn trim_of(s: &str) -> (r: String)
    ensures
        r@ == trim(s@),
{
    let c = chars_of(s);
    let mut from: usize = 0;
    proof {
        assert(c@.skip(0) =~= c@);
    }
    while from < c.len() && is_white_of(c[from])
        invariant
            from <= c.len(),
            trim_start(c@.skip(from as int)) == trim_start(c@),
        decreases c.len() - from,
    {
        proof {
            assert(c@.skip(from as int).skip(1) =~= c@.skip(from + 1));
        }
        from = from + 1;
    }
    let ghost middle = c@.skip(from as int);
    proof {
        assert(trim_start(c@) == middle);
    }
    let mut to: usize = c.len();
    proof {
        assert(c@.subrange(from as int, to as int) =~= middle);
    }
    while to > from && is_white_of(c[to - 1])
        invariant
            from <= to <= c.len(),
            trim_end(c@.subrange(from as int, to as int)) == trim_end(middle),
        decreases to - from,
    {
        proof {
            assert(c@.subrange(from as int, to as int).drop_last() =~= c@.subrange(
                from as int,
                to - 1,
            ));
        }
        to = to - 1;
    }
    proof {
        let kept = c@.subrange(from as int, to as int);
        assert(trim_end(kept) == kept);
    }
    slice_of(&c, from, to)
}

/// The field of a comma-separated line at place `i`, without the space around it.
pub open spec fn csv_field(line: Seq<char>, i: int) -> Option<Seq<char>> {
    let parts = split_on(line, ',');
    if i < parts.len() {
        Some(trim(parts[i]))
    } else {
        None
    }
}

/// The field of a comma-separated line at place `i`.
fn csv_field_of(parts: &Vec<String>, i: usize) -> (r: Option<String>)
    ensures
        opt_view(r) == (if i < parts.len() {
            Some(trim(parts@[i as int]@))
        } else {
            None
        }),
{
    if i < parts.len() {
        Some(trim_of(parts[i].as_str()))
    } else {
        None
    }
}

/// The text, or nothing's text.
pub open spec fn or_blank(v: Option<Seq<char>>) -> Seq<char> {
    match v {
        Some(s) => s,
        None => Seq::empty(),
    }
}

/// The text, or nothing's text.
fn or_blank_of(v: Option<String>) -> (r: String)
    ensures
        r@ == or_blank(opt_view(v)),
{
    match v {
        Some(s) => s,
        None => {
            let s = String::new();
            proof {
                assert(s@ =~= Seq::empty());
            }
            s
        },
    }
}

/// A GPU as its driver names it.
#[derive(Debug)]
pub struct Gpu {
    pub name: String,
    pub driver: String,
    /// Its memory in MiB; 0 where the driver does not tell it.
    pub memory_mib: u64,
}

/// The memory that the driver's line tells, or the refusal of one that is no
/// number. An integrated GPU tells none.
pub open spec fn memory_of(line: Seq<char>) -> Result<u64, Seq<char>> {
    let field = match csv_field(line, 2) {
        Some(f) => f,
        None => "0"@,
    };
    if field == "[N/A]"@ || field == "N/A"@ || field == ""@ {
        Ok(0)
    } else {
        match unsigned_value(field, u64::MAX as nat) {
            Some(n) => Ok(n as u64),
            None => Err("nvidia-smi memory.total `"@ + line + "`: "@ + u64_fault(field)),
        }
    }
}

/// The GPU of the driver's line: name, driver version, memory.
pub fn read_gpu(line: &str) -> (r: Result<Gpu, String>)
    ensures
        match memory_of(line@) {
            Ok(m) => {
                &&& r is Ok
                &&& r->Ok_0.name@ == or_blank(csv_field(line@, 0))
                &&& r->Ok_0.driver@ == or_blank(csv_field(line@, 1))
                &&& r->Ok_0.memory_mib == m
            },
            Err(e) => r is Err && r->Err_0@ == e,
        },
{
    let parts = split_of(line, ',');
    proof {
        assert forall|i: int| 0 <= i < parts.len() implies views(parts@)[i] == parts@[i]@ by {}
    }
    let field = match csv_field_of(&parts, 2) {
        Some(f) => f,
        None => "0".to_owned(),
    };
    let f = field.as_str();
    let memory_mib: u64 = if same(f, "[N/A]") || same(f, "N/A") || same(f, "") {
        0
    } else {
        match parse_u64(f) {
            Ok(n) => n,
            Err(e) => return Err(cat4("nvidia-smi memory.total `", line, "`: ", e.as_str())),
        }
    };
    Ok(
        Gpu {
            name: or_blank_of(csv_field_of(&parts, 0)),
            driver: or_blank_of(csv_field_of(&parts, 1)),
            memory_mib,
        },
    )
}

/// The name of a GPU: the one that is given, else the driver's where it tells one.
pub open spec fn gpu_name(line: Seq<char>, given: Option<Seq<char>>) -> Option<Seq<char>> {
    match given {
        Some(n) => Some(n),
        None => match csv_field(line, 0) {
            Some(n) => if n.len() > 0 {
                Some(n)
            } else {
                None
            },
            None => None,
        },
    }
}

/// The GPU under the name that is given or that the driver's line tells; memory
/// that cannot be read counts as none.
pub fn named_gpu(line: &str, given: &Option<String>) -> (r: Result<Gpu, String>)
    ensures
        match gpu_name(line@, opt_view(*given)) {
            Some(n) => {
                &&& r is Ok
                &&& r->Ok_0.name@ == n
                &&& r->Ok_0.driver@ == or_blank(csv_field(line@, 1))
                &&& r->Ok_0.memory_mib == (match csv_field(line@, 2) {
                    Some(f) => match unsigned_value(f, u64::MAX as nat) {
                        Some(n) => n as u64,
                        None => 0u64,
                    },
                    None => 0u64,
                })
            },
            None => r is Err && r->Err_0@ == "no nvidia-smi on this machine; pass --device-name"@,
        },
{
    let parts = split_of(line, ',');
    proof {
        assert forall|i: int| 0 <= i < parts.len() implies views(parts@)[i] == parts@[i]@ by {}
    }
    let driver = or_blank_of(csv_field_of(&parts, 1));
    let memory_mib: u64 = match csv_field_of(&parts, 2) {
        Some(f) => match parse_u64(f.as_str()) {
            Ok(n) => n,
            Err(_) => 0,
        },
        None => 0,
    };
    let name = match given {
        Some(n) => n.clone(),
        None => match csv_field_of(&parts, 0) {
            Some(n) => if n.as_str().is_empty() {
                return Err("no nvidia-smi on this machine; pass --device-name".to_owned());
            } else {
                n
            },
            None => return Err("no nvidia-smi on this machine; pass --device-name".to_owned()),
        },
    };
    Ok(Gpu { name, driver, memory_mib })
}

/// MiB as bytes.
pub fn memory_bytes(mib: u64) -> (r: u64)
    requires
        mib <= 0xfff_ffff_ffff,
    ensures
        r == mib * 1048576,
{
    mib * 1048576
}

/// How a benchmark pools token vectors.
#[derive(Clone, Copy, Debug, PartialEq, Eq, Structural)]
pub enum Pool {
    Mean,
    Cls,
    Last,
}

/// Whether a dump's vectors are normalized, or the refusal of any other word.
pub open spec fn normalizes(word: Seq<char>) -> Result<bool, Seq<char>> {
    if word == "l2"@ {
        Ok(true)
    } else if word == "none"@ || word == ""@ {
        Ok(false)
    } else {
        Err("normalize `"@ + word + "` is not l2 or none"@)
    }
}

/// Whether a dump's vectors are normalized.
pub fn normalizes_of(word: &str) -> (r: Result<bool, String>)
    ensures
        match normalizes(word@) {
            Ok(b) => r == Ok::<bool, String>(b),
            Err(e) => r is Err && r->Err_0@ == e,
        },
{
    if same(word, "l2") {
        Ok(true)
    } else if same(word, "none") || same(word, "") {
        Ok(false)
    } else {
        Err(cat3("normalize `", word, "` is not l2 or none"))
    }
}

/// What an ONNX benchmark runs: the model's file, how it pools, whether it
/// normalizes.
#[derive(Debug)]
pub struct OnnxPlan {
    pub onnx: String,
    pub pool: Pool,
    pub normalize: bool,
}

/// The pooling of an ONNX benchmark, or the refusal of one that it has not.
pub open spec fn onnx_pool(word: Seq<char>) -> Result<Pool, Seq<char>> {
    if word == "mean"@ {
        Ok(Pool::Mean)
    } else if word == "cls"@ {
        Ok(Pool::Cls)
    } else {
        Err("pooling `"@ + word + "` is not implemented by this reference (mean, cls)"@)
    }
}

/// What an ONNX benchmark runs, from the dump's artifact, pooling and
/// normalization; `artifacts` are the names that the dump has.
pub fn onnx_plan(onnx: &Option<String>, artifacts: &Vec<String>, pooling: &str, normalize: &str) -> (r: Result<
    OnnxPlan,
    String,
>)
    ensures
        match onnx {
            None => r is Err && r->Err_0@
                == "the token dump names no `onnx` artifact; artifacts: "@ + ("["@ + joined(
                all_quoted(views(artifacts@)),
                ", "@,
            ) + "]"@),
            Some(path) => match onnx_pool(pooling@) {
                Err(e) => r is Err && r->Err_0@ == e,
                Ok(pool) => match normalizes(normalize@) {
                    Err(e) => r is Err && r->Err_0@ == e,
                    Ok(n) => r is Ok && r->Ok_0.onnx@ == path@ && r->Ok_0.pool == pool
                        && r->Ok_0.normalize == n,
                },
            },
        },
{
    let path = match onnx {
        None => return Err(
            cat2(
                "the token dump names no `onnx` artifact; artifacts: ",
                quoted_list(artifacts).as_str(),
            ),
        ),
        Some(p) => p,
    };
    let pool = if same(pooling, "mean") {
        Pool::Mean
    } else if same(pooling, "cls") {
        Pool::Cls
    } else {
        return Err(
            cat3("pooling `", pooling, "` is not implemented by this reference (mean, cls)"),
        );
    };
    match normalizes_of(normalize) {
        Err(e) => Err(e),
        Ok(normalize) => Ok(OnnxPlan { onnx: path.clone(), pool, normalize }),
    }
}

/// The input that a model lacks.
pub open spec fn missing_input(names: Seq<Seq<char>>) -> Option<Seq<char>> {
    if !names.contains("input_ids"@) {
        Some("input_ids"@)
    } else if !names.contains("attention_mask"@) {
        Some("attention_mask"@)
    } else {
        None
    }
}

/// Check a model's inputs; whether it takes token types.
pub fn check_inputs(names: &Vec<String>) -> (r: Result<bool, String>)
    ensures
        match missing_input(views(names@)) {
            Some(m) => r is Err && r->Err_0@ == "model has no `"@ + m + "` input; inputs: "@ + ("["@
                + joined(all_quoted(views(names@)), ", "@) + "]"@),
            None => r == Ok::<bool, String>(views(names@).contains("token_type_ids"@)),
        },
{
    if !holds(names, "input_ids") {
        return Err(
            cat4("model has no `", "input_ids", "` input; inputs: ", quoted_list(names).as_str()),
        );
    }
    if !holds(names, "attention_mask") {
        return Err(
            cat4(
                "model has no `",
                "attention_mask",
                "` input; inputs: ",
                quoted_list(names).as_str(),
            ),
        );
    }
    Ok(holds(names, "token_type_ids"))
}

/// Check that a cell of a dump has a token and a mask for each place.
pub fn check_cell(batch: u32, seq: u32, ids: usize, mask: usize) -> (r: Result<(), String>)
    ensures
        if ids == batch * seq && mask == batch * seq {
            r is Ok
        } else {
            r is Err && r->Err_0@ == "cell "@ + decimal(batch as nat) + "x"@ + decimal(seq as nat)
                + ": ids/mask hold "@ + decimal(ids as nat) + " and "@ + (decimal(mask as nat)
                + " elements"@)
        },
{
    proof {
        assert(0 <= batch * seq <= 0xffff_ffff * 0xffff_ffff) by (nonlinear_arith)
            requires
                0 <= batch <= 0xffff_ffff,
                0 <= seq <= 0xffff_ffff,
        ;
    }
    let want: u128 = batch as u128 * seq as u128;
    if ids as u128 == want && mask as u128 == want {
        return Ok(());
    }
    Err(
        cat8(
            "cell ",
            decimal_of(batch as u128).as_str(),
            "x",
            decimal_of(seq as u128).as_str(),
            ": ids/mask hold ",
            decimal_of(ids as u128).as_str(),
            " and ",
            cat2(decimal_of(mask as u128).as_str(), " elements").as_str(),
        ),
    )
}

/// Check the shape of a model's output; the width of its token vectors.
pub fn check_hidden(dims: &Vec<i64>, batch: u32, seq: u32) -> (r: Result<i64, String>)
    ensures
        if dims.len() == 3 && dims@[0] == batch && dims@[1] == seq {
            r == Ok::<i64, String>(dims@[2])
        } else {
            r is Err && r->Err_0@ == "output shape "@ + bracketed(dims@) + " is not ["@ + decimal(
                batch as nat,
            ) + ", "@ + decimal(seq as nat) + ", hidden]"@
        },
{
    if dims.len() == 3 && dims[0] == batch as i64 && dims[1] == seq as i64 {
        return Ok(dims[2]);
    }
    Err(
        cat7(
            "output shape ",
            bracketed_of(dims).as_str(),
            " is not [",
            decimal_of(batch as u128).as_str(),
            ", ",
            decimal_of(seq as u128).as_str(),
            ", hidden]",
        ),
    )
}

/// The first `n` places of a row whose mask is set.
pub open spec fn live_places(mask: Seq<i32>, start: int, n: int) -> Seq<usize>
    decreases n,
{
    if n <= 0 {
        Seq::empty()
    } else if mask[start + n - 1] != 0 {
        live_places(mask, start, n - 1).push((n - 1) as usize)
    } else {
        live_places(mask, start, n - 1)
    }
}

/// The places of a row whose vectors are averaged.
pub fn pooled_places(mask: &Vec<i32>, row: usize, seq: usize) -> (r: Vec<usize>)
    requires
        (row + 1) * seq <= mask.len(),
    ensures
        r@ == live_places(mask@, row * seq, seq as int),
{
    proof {
        assert((row + 1) * seq == row * seq + seq) by (nonlinear_arith);
        assert(row * seq >= 0) by (nonlinear_arith)
            requires
                row >= 0,
                seq >= 0,
        ;
    }
    let start: usize = row * seq;
    let mut out: Vec<usize> = Vec::new();
    let mut t: usize = 0;
    while t < seq
        invariant
            t <= seq,
            start + seq <= mask.len(),
            out@ == live_places(mask@, start as int, t as int),
        decreases seq - t,
    {
        if mask[start + t] != 0 {
            out.push(t);
        }
        t = t + 1;
    }
    out
}

/// Only places whose mask is set are averaged, and all of them.
pub proof fn every_live_place_is_pooled(mask: Seq<i32>, start: int, n: int, k: int)
    requires
        0 <= k < n <= usize::MAX,
    ensures
        live_places(mask, start, n).contains(k as usize) <==> mask[start + k] != 0,
    decreases n,
{
    let after = live_places(mask, start, n);
    let before = live_places(mask, start, n - 1);
    places_are_below(mask, start, n - 1);
    if k < n - 1 {
        every_live_place_is_pooled(mask, start, n - 1, k);
        if before.contains(k as usize) {
            let i = choose|i: int| 0 <= i < before.len() && before[i] == k as usize;
            assert(after[i] == k as usize);
        }
        if after.contains(k as usize) {
            let i = choose|i: int| 0 <= i < after.len() && after[i] == k as usize;
            assert(before[i] == k as usize);
        }
    } else if mask[start + k] != 0 {
        assert(after[before.len() as int] == k as usize);
    } else if after.contains(k as usize) {
        let i = choose|i: int| 0 <= i < after.len() && after[i] == k as usize;
        assert(before[i] < k);
    }
}

/// The places lie in the row.
proof fn places_are_below(mask: Seq<i32>, start: int, n: int)
    requires
        n <= usize::MAX,
    ensures
        forall|i: int| 0 <= i < live_places(mask, start, n).len() ==> (#[trigger] live_places(
            mask,
            start,
            n,
        )[i]) < n,
    decreases n,
{
    if n > 0 {
        places_are_below(mask, start, n - 1);
        let before = live_places(mask, start, n - 1);
        let after = live_places(mask, start, n);
        assert forall|i: int| 0 <= i < after.len() implies (#[trigger] after[i]) < n by {
            if i < before.len() {
                assert(after[i] == before[i]);
            }
        }
    }
}

/// The sum of the first `n` lengths.
pub open spec fn sum_of(lengths: Seq<u32>, n: int) -> nat
    decreases n,
{
    if n <= 0 {
        0
    } else {
        sum_of(lengths, n - 1) + lengths[n - 1] as nat
    }
}

/// The live tokens of a cell.
pub fn live_tokens(lengths: &Vec<u32>) -> (r: u64)
    requires
        lengths.len() <= u32::MAX,
    ensures
        r == sum_of(lengths@, lengths.len() as int),
{
    let mut sum: u64 = 0;
    let mut i: usize = 0;
    while i < lengths.len()
        invariant
            i <= lengths.len() <= u32::MAX,
            sum == sum_of(lengths@, i as int),
            sum <= i * 0xffff_ffff,
        decreases lengths.len() - i,
    {
        proof {
            assert((i + 1) * 0xffff_ffff == i * 0xffff_ffff + 0xffff_ffff);
            assert(i * 0xffff_ffff <= 0xffff_fffe * 0xffff_ffff);
        }
        sum = sum + lengths[i] as u64;
        i = i + 1;
    }
    sum
}

/// What an ONNX benchmark's receipt says of how it ran.
pub fn onnx_note(tokens: &str, pool: Pool, normalize: bool) -> (r: String)
    ensures
        r@
            == "this is the native side: ONNX Runtime CUDA through the ort crate on the token rows of "@
            + tokens@ + "; bundle identity copied from that dump; host-side "@ + pool_text(pool)
            + " pooling and "@ + (if normalize {
            "l2"@
        } else {
            "no"@
        }) + " normalization; no session counters"@,
{
    cat7(
        "this is the native side: ONNX Runtime CUDA through the ort crate on the token rows of ",
        tokens,
        "; bundle identity copied from that dump; host-side ",
        pool_text_of(pool),
        " pooling and ",
        if normalize {
            "l2"
        } else {
            "no"
        },
        " normalization; no session counters",
    )
}

/// A pooling's word.
pub open spec fn pool_text(p: Pool) -> Seq<char> {
    match p {
        Pool::Mean => "mean"@,
        Pool::Cls => "cls"@,
        Pool::Last => "last"@,
    }
}

/// A pooling's word.
fn pool_text_of(p: Pool) -> (r: &'static str)
    ensures
        r@ == pool_text(p),
{
    match p {
        Pool::Mean => "mean",
        Pool::Cls => "cls",
        Pool::Last => "last",
    }
}

/// The pooling of a llama.cpp benchmark, or the refusal of one that it has not.
pub open spec fn llama_pool(word: Seq<char>) -> Result<Pool, Seq<char>> {
    if word == "mean"@ {
        Ok(Pool::Mean)
    } else if word == "cls"@ {
        Ok(Pool::Cls)
    } else if word == "last"@ {
        Ok(Pool::Last)
    } else {
        Err("pooling `"@ + word + "` is not mean, cls or last"@)
    }
}

/// What a llama.cpp embedding benchmark runs.
#[derive(Debug)]
pub struct GgufPlan {
    pub gguf: String,
    pub pool: Pool,
    pub normalize: bool,
}

/// What a llama.cpp embedding benchmark runs, from the dump's artifact, pooling and
/// normalization.
pub fn gguf_plan(gguf: &Option<String>, pooling: &str, normalize: &str) -> (r: Result<GgufPlan, String>)
    ensures
        match gguf {
            None => r is Err && r->Err_0@ == "the token dump names no `gguf` artifact"@,
            Some(path) => match llama_pool(pooling@) {
                Err(e) => r is Err && r->Err_0@ == e,
                Ok(pool) => match normalizes(normalize@) {
                    Err(e) => r is Err && r->Err_0@ == e,
                    Ok(n) => r is Ok && r->Ok_0.gguf@ == path@ && r->Ok_0.pool == pool
                        && r->Ok_0.normalize == n,
                },
            },
        },
{
    let path = match gguf {
        None => return Err("the token dump names no `gguf` artifact".to_owned()),
        Some(p) => p,
    };
    let pool = if same(pooling, "mean") {
        Pool::Mean
    } else if same(pooling, "cls") {
        Pool::Cls
    } else if same(pooling, "last") {
        Pool::Last
    } else {
        return Err(cat3("pooling `", pooling, "` is not mean, cls or last"));
    };
    match normalizes_of(normalize) {
        Err(e) => Err(e),
        Ok(normalize) => Ok(GgufPlan { gguf: path.clone(), pool, normalize }),
    }
}

/// The token rows of a cell, each cut to `seq`.
pub fn cut_rows(rows: &Vec<Vec<i32>>, seq: usize) -> (r: Vec<Vec<i32>>)
    ensures
        r.len() == rows.len(),
        forall|i: int|
            0 <= i < r.len() ==> (#[trigger] r@[i])@ == (if rows@[i].len() > seq {
                rows@[i]@.take(seq as int)
            } else {
                rows@[i]@
            }),
{
    let mut out: Vec<Vec<i32>> = Vec::new();
    let mut i: usize = 0;
    while i < rows.len()
        invariant
            i <= rows.len(),
            out.len() == i,
            forall|k: int|
                0 <= k < i ==> (#[trigger] out@[k])@ == (if rows@[k].len() > seq {
                    rows@[k]@.take(seq as int)
                } else {
                    rows@[k]@
                }),
        decreases rows.len() - i,
    {
        let row = &rows[i];
        let n: usize = if row.len() > seq {
            seq
        } else {
            row.len()
        };
        let mut v: Vec<i32> = Vec::new();
        let mut j: usize = 0;
        while j < n
            invariant
                j <= n <= row.len(),
                v@ == row@.take(j as int),
            decreases n - j,
        {
            v.push(row[j]);
            j = j + 1;
            proof {
                assert(v@ =~= row@.take(j as int));
            }
        }
        proof {
            if row.len() <= seq {
                assert(v@ =~= row@);
            }
        }
        out.push(v);
        i = i + 1;
    }
    out
}

/// A token of a batch: its row, its place in the row, and its id.
#[derive(Clone, Copy, Debug, PartialEq, Eq, Structural)]
pub struct Placed {
    pub row: usize,
    pub place: usize,
    pub token: i32,
}

/// The first `n` tokens of a row in a batch.
pub open spec fn placed_row(row: Seq<i32>, r: int, n: int) -> Seq<Placed> {
    Seq::new(
        n as nat,
        |p: int| Placed { row: r as usize, place: p as usize, token: row[p] },
    )
}

/// The tokens of the first `n` rows in a batch, row by row.
pub open spec fn placed_rows(rows: Seq<Vec<i32>>, n: int) -> Seq<Placed>
    decreases n,
{
    if n <= 0 {
        Seq::empty()
    } else {
        placed_rows(rows, n - 1) + placed_row(rows[n - 1]@, n - 1, rows[n - 1].len() as int)
    }
}

/// The tokens of a batch, row by row, each at its place.
pub fn batch_tokens(rows: &Vec<Vec<i32>>) -> (r: Vec<Placed>)
    ensures
        r@ == placed_rows(rows@, rows.len() as int),
{
    let mut out: Vec<Placed> = Vec::new();
    let mut i: usize = 0;
    while i < rows.len()
        invariant
            i <= rows.len(),
            out@ == placed_rows(rows@, i as int),
        decreases rows.len() - i,
    {
        let row = &rows[i];
        let ghost before = out@;
        let mut p: usize = 0;
        proof {
            assert(before + placed_row(row@, i as int, 0) =~= before);
        }
        while p < row.len()
            invariant
                p <= row.len(),
                out@ == before + placed_row(row@, i as int, p as int),
            decreases row.len() - p,
        {
            out.push(Placed { row: i, place: p, token: row[p] });
            p = p + 1;
            proof {
                assert(out@ =~= before + placed_row(row@, i as int, p as int));
            }
        }
        i = i + 1;
    }
    out
}

/// The tokens of a prompt as they are decoded: each with its place, the logits of the
/// last alone asked for.
pub fn prompt_tokens(tokens: &Vec<i32>) -> (r: Vec<(usize, i32, bool)>)
    ensures
        r.len() == tokens.len(),
        forall|i: int|
            0 <= i < r.len() ==> #[trigger] r@[i] == (i as usize, tokens@[i], i + 1 == tokens.len()),
{
    let mut out: Vec<(usize, i32, bool)> = Vec::new();
    let mut i: usize = 0;
    while i < tokens.len()
        invariant
            i <= tokens.len(),
            out.len() == i,
            forall|k: int|
                0 <= k < i ==> #[trigger] out@[k] == (k as usize, tokens@[k], k + 1 == tokens.len()),
        decreases tokens.len() - i,
    {
        out.push((i, tokens[i], i + 1 == tokens.len()));
        i = i + 1;
    }
    out
}

/// The tokens that a context for a cell of embeddings holds, which is also the most
/// of one decode: those of every row at full length, as 32 bits hold them.
pub fn embed_context(batch: u32, seq: u32) -> (r: u32)
    ensures
        r == (batch * seq) % 0x1_0000_0000,
{
    proof {
        assert(0 <= batch * seq <= 0xffff_ffff * 0xffff_ffff) by (nonlinear_arith)
            requires
                0 <= batch <= 0xffff_ffff,
                0 <= seq <= 0xffff_ffff,
        ;
    }
    let n: u64 = batch as u64 * seq as u64;
    (n % 0x1_0000_0000) as u32
}

/// The tokens that a batch has room for: those placed in it, at least one.
pub fn batch_room(placed: &Vec<Placed>) -> (r: usize)
    ensures
        r == (if placed.len() == 0 {
            1
        } else {
            placed.len() as int
        }),
{
    if placed.len() == 0 {
        1
    } else {
        placed.len()
    }
}

/// What a generation benchmark's receipt says of how it ran.
pub fn generate_note(receipt: &str) -> (r: String)
    ensures
        r@
            == "this is the native side: llama.cpp through llama-cpp-2 with the GGUF's chat template, greedy decoding with the end token suppressed, on the prompt of "@
            + receipt@ + "; bundle identity copied from that receipt"@,
{
    cat3(
        "this is the native side: llama.cpp through llama-cpp-2 with the GGUF's chat template, greedy decoding with the end token suppressed, on the prompt of ",
        receipt,
        "; bundle identity copied from that receipt",
    )
}

/// What an embedding benchmark's receipt says of how llama.cpp ran.
pub fn embed_note(tokens: &str) -> (r: String)
    ensures
        r@
            == "this is the native side: llama.cpp through llama-cpp-2 tokenizing and pooling the texts of "@
            + tokens@ + "; bundle identity copied from that dump"@,
{
    cat3(
        "this is the native side: llama.cpp through llama-cpp-2 tokenizing and pooling the texts of ",
        tokens,
        "; bundle identity copied from that dump",
    )
}

/// The tokens that a context for a generation holds.
pub open spec fn context_tokens(prompt: u32, new_tokens: u32) -> int {
    if prompt + new_tokens + 8 < 512 {
        512
    } else {
        prompt + new_tokens + 8
    }
}

/// The tokens that a context for a generation holds: the prompt, what is generated
/// and a few more, at least 512.
pub fn context_size(prompt: u32, new_tokens: u32) -> (r: u32)
    requires
        prompt + new_tokens + 8 <= u32::MAX,
    ensures
        r == context_tokens(prompt, new_tokens),
{
    let n: u32 = prompt + new_tokens + 8;
    if n < 512 {
        512
    } else {
        n
    }
}

/// The tokens of one decode.
pub open spec fn decode_tokens(n_ctx: u32) -> u32 {
    if n_ctx < 2048 {
        n_ctx
    } else {
        2048
    }
}

/// The tokens of one decode: those of the context, at most 2048.
pub fn batch_size(n_ctx: u32) -> (r: u32)
    ensures
        r == decode_tokens(n_ctx),
{
    if n_ctx < 2048 {
        n_ctx
    } else {
        2048
    }
}

/// The first `n` tokens that end a generation.
pub open spec fn ends_of(flags: Seq<bool>, n: int) -> Seq<i32>
    decreases n,
{
    if n <= 0 {
        Seq::empty()
    } else if flags[n - 1] {
        ends_of(flags, n - 1).push((n - 1) as i32)
    } else {
        ends_of(flags, n - 1)
    }
}

/// The tokens that are suppressed so that every generation has the same length:
/// all that the vocabulary marks as an end.
pub fn end_tokens(flags: &Vec<bool>) -> (r: Result<Vec<i32>, String>)
    requires
        flags.len() <= i32::MAX,
    ensures
        if ends_of(flags@, flags.len() as int).len() == 0 {
            r is Err && r->Err_0@ == "the vocabulary marks no end-of-generation token"@
        } else {
            r is Ok && r->Ok_0@ == ends_of(flags@, flags.len() as int)
        },
{
    let mut out: Vec<i32> = Vec::new();
    let mut i: usize = 0;
    while i < flags.len()
        invariant
            i <= flags.len() <= i32::MAX,
            out@ == ends_of(flags@, i as int),
        decreases flags.len() - i,
    {
        if flags[i] {
            out.push(i as i32);
        }
        i = i + 1;
    }
    if out.len() == 0 {
        return Err("the vocabulary marks no end-of-generation token".to_owned());
    }
    Ok(out)
}

/// A generation of a fixed number of tokens, between its outside calls.
#[derive(Clone, Copy, Debug, PartialEq, Eq, Structural)]
pub struct Fixed {
    /// Tokens sampled.
    pub sampled: u32,
    /// Tokens decoded.
    pub decoded: u32,
    pub new_tokens: u32,
    pub prompt: u32,
}

impl Fixed {
    /// Between two samples every token but the last sampled one is decoded.
    pub open spec fn wf(&self) -> bool {
        &&& self.sampled <= self.new_tokens
        &&& self.prompt + self.new_tokens <= i32::MAX
        &&& self.decoded == self.prompt + self.sampled
    }

    /// A generation whose prompt is decoded.
    pub fn new(prompt: u32, new_tokens: u32) -> (r: Fixed)
        requires
            prompt + new_tokens <= i32::MAX,
        ensures
            r.wf(),
            r.sampled == 0,
            r.new_tokens == new_tokens,
            r.prompt == prompt,
    {
        Fixed { sampled: 0, decoded: prompt, new_tokens, prompt }
    }

    /// Whether another token is sampled.
    pub fn wants(&self) -> (r: bool)
        ensures
            r == (self.sampled < self.new_tokens),
    {
        self.sampled < self.new_tokens
    }

    /// A token was sampled: where it is decoded, or nowhere where it is the last.
    pub fn sampled_one(&mut self) -> (r: Option<u32>)
        requires
            old(self).wf(),
            old(self).sampled < old(self).new_tokens,
        ensures
            final(self).sampled == old(self).sampled + 1,
            final(self).new_tokens == old(self).new_tokens,
            final(self).prompt == old(self).prompt,
            if final(self).sampled == final(self).new_tokens {
                r is None && final(self).decoded == old(self).decoded
            } else {
                r == Some(old(self).decoded) && final(self).wf()
            },
    {
        self.sampled = self.sampled + 1;
        if self.sampled == self.new_tokens {
            return None;
        }
        let at = self.decoded;
        self.decoded = self.decoded + 1;
        Some(at)
    }
}

/// The order of numbers.
pub open spec fn number_le() -> spec_fn(u64, u64) -> bool {
    |a: u64, b: u64| a <= b
}

/// The order of numbers is total.
proof fn number_le_is_total()
    ensures
        total_ordering(number_le()),
{
}

/// The middle of measurements in nanoseconds: the one at half of their number when
/// they are in order.
pub fn median(v: &Vec<u64>) -> (r: u64)
    requires
        v.len() > 0,
    ensures
        r == v@.sort_by(number_le())[v.len() as int / 2],
{
    let mut out: Vec<u64> = Vec::new();
    let mut n: usize = 0;
    proof {
        broadcast use vstd::seq_lib::group_to_multiset_ensures;

        assert(out@ =~= v@.take(0));
    }
    while n < v.len()
        invariant
            n <= v.len(),
            out.len() == n,
            sorted_by(out@, number_le()),
            out@.to_multiset() == v@.take(n as int).to_multiset(),
        decreases v.len() - n,
    {
        let item = v[n];
        let mut at: usize = out.len();
        while at > 0 && out[at - 1] > item
            invariant
                at <= out.len(),
                sorted_by(out@, number_le()),
                forall|i: int| at <= i < out.len() ==> item <= #[trigger] out@[i],
            decreases at,
        {
            at = at - 1;
        }
        let ghost before = out@;
        out.insert(at, item);
        proof {
            broadcast use vstd::seq_lib::group_to_multiset_ensures;

            let after = out@;
            assert(after =~= before.insert(at as int, item));
            assert forall|i: int, j: int| 0 <= i < j < after.len() implies #[trigger] number_le()(
                after[i],
                after[j],
            ) by {
                if j < at {
                    assert(number_le()(before[i], before[j]));
                } else if j == at {
                    if i < at - 1 {
                        assert(number_le()(before[i], before[at - 1]));
                    }
                } else if i == at {
                    assert(item <= before[j - 1]);
                } else if i < at {
                    assert(number_le()(before[i], before[j - 1]));
                } else {
                    assert(number_le()(before[i - 1], before[j - 1]));
                }
            }
            assert(v@.take(n as int + 1) =~= v@.take(n as int).push(item));
        }
        n = n + 1;
    }
    proof {
        assert(v@.take(n as int) =~= v@);
        number_le_is_total();
        v@.lemma_sort_by_ensures(number_le());
        vstd::seq_lib::lemma_sorted_unique(out@, v@.sort_by(number_le()), number_le());
    }
    out[out.len() / 2]
}

/// White space among ASCII characters is the blank and the five that move the
/// paper; no letter, digit or sign of ASCII is white.
pub proof fn ascii_white_space(c: char)
    requires
        (c as u32) < 128,
    ensures
        is_white(c) <==> c == ' ' || c == '\t' || c == '\n' || c == '\r' || c as u32 == 11 || c as u32
            == 12,
{
}

/// Trimming at the end takes white space alone, and leaves none there.
proof fn trim_end_takes_white(s: Seq<char>) -> (n: int)
    ensures
        0 <= n <= s.len(),
        trim_end(s) == s.take(n),
        forall|i: int| n <= i < s.len() ==> is_white(#[trigger] s[i]),
        n > 0 ==> !is_white(s[n - 1]),
    decreases s.len(),
{
    if s.len() > 0 && is_white(s.last()) {
        let t = s.drop_last();
        let n = trim_end_takes_white(t);
        assert(t.take(n) =~= s.take(n));
        assert forall|i: int| n <= i < s.len() implies is_white(#[trigger] s[i]) by {
            if i < t.len() {
                assert(t[i] == s[i]);
            }
        }
        n
    } else {
        assert(s.take(s.len() as int) =~= s);
        s.len() as int
    }
}

/// Trimming at the start takes white space alone, and leaves none there.
proof fn trim_start_takes_white(s: Seq<char>) -> (n: int)
    ensures
        0 <= n <= s.len(),
        trim_start(s) == s.skip(n),
        forall|i: int| 0 <= i < n ==> is_white(#[trigger] s[i]),
        n < s.len() ==> !is_white(s[n]),
    decreases s.len(),
{
    if s.len() > 0 && is_white(s[0]) {
        let t = s.skip(1);
        let n = trim_start_takes_white(t);
        assert(t.skip(n) =~= s.skip(n + 1));
        assert forall|i: int| 0 <= i < n + 1 implies is_white(#[trigger] s[i]) by {
            if i > 0 {
                assert(t[i - 1] == s[i]);
            }
        }
        if n < t.len() {
            assert(t[n] == s[n + 1]);
        }
        n + 1
    } else {
        assert(s.skip(0) =~= s);
        0
    }
}

/// A trimmed text is the stretch of the text between the white space at its start
/// and that at its end: what is taken away is white, and what is left neither
/// begins nor ends with white space. The result is where the stretch lies.
pub proof fn trimming_takes_white_space_from_the_ends(s: Seq<char>) -> (r: (int, int))
    ensures
        0 <= r.0 <= r.1 <= s.len(),
        trim(s) == s.subrange(r.0, r.1),
        forall|i: int| 0 <= i < s.len() && !(r.0 <= i < r.1) ==> is_white(#[trigger] s[i]),
        trim(s).len() > 0 ==> !is_white(trim(s)[0]) && !is_white(trim(s).last()),
{
    let a = trim_start_takes_white(s);
    let t = s.skip(a);
    let n = trim_end_takes_white(t);
    assert(t.take(n) =~= s.subrange(a, a + n));
    assert forall|i: int| 0 <= i < s.len() && !(a <= i < a + n) implies is_white(#[trigger] s[i]) by {
        if i >= a + n {
            assert(t[i - a] == s[i]);
        }
    }
    if n > 0 {
        assert(trim(s)[0] == s[a]);
        assert(trim(s).last() == t[n - 1]);
    }
    (a, a + n)
}

/// The fields of a line are what stands between its commas, in their order, each
/// without the white space around it; a line has no further field.
pub proof fn a_line_has_its_fields_in_order(parts: Seq<Seq<char>>, i: int)
    requires
        parts.len() > 0,
        i >= 0,
        forall|k: int| 0 <= k < parts.len() ==> !(#[trigger] parts[k]).contains(','),
    ensures
        csv_field(joined(parts, seq![',']), i) == (if i < parts.len() {
            Some(trim(parts[i]))
        } else {
            None
        }),
{
    crate::text::joined_parts_split_back(parts, ',');
}

/// The memory of a GPU is the number in the third field of its line; a line
/// without that field, or with one that tells none, has no memory to tell.
pub proof fn a_gpu_has_the_memory_its_line_tells(line: Seq<char>, n: nat)
    requires
        n <= u64::MAX,
    ensures
        csv_field(line, 2) == Some(decimal(n)) ==> memory_of(line) == Ok::<u64, Seq<char>>(n as u64),
        csv_field(line, 2) is None || csv_field(line, 2) == Some("N/A"@) || csv_field(line, 2) == Some(
            "[N/A]"@,
        ) || csv_field(line, 2) == Some(Seq::<char>::empty()) ==> memory_of(line) == Ok::<u64, Seq<char>>(0),
        memory_of(line) matches Ok(m) ==> m > 0 ==> csv_field(line, 2) is Some && unsigned_value(
            csv_field(line, 2)->0,
            u64::MAX as nat,
        ) == Some(m as nat),
{
    reveal_strlit("0");
    reveal_strlit("");
    reveal_strlit("N/A");
    reveal_strlit("[N/A]");
    assert(""@ =~= Seq::<char>::empty());
    crate::text::a_decimal_reads_back(n, u64::MAX as nat);
    crate::text::a_decimal_reads_back(0, u64::MAX as nat);
    crate::text::numbers_are_digits_only(decimal(n), u64::MAX as nat);
    assert("N/A"@[0] == 'N' && "[N/A]"@[0] == '[');
    reveal_with_fuel(decimal, 2);
    assert("0"@ =~= decimal(0));
}

/// A name that is given goes before the one that the driver tells, and without a
/// driver's line a name has to be given.
pub proof fn a_given_name_goes_first(line: Seq<char>, given: Seq<char>)
    ensures
        gpu_name(line, Some(given)) == Some(given),
        csv_field(line, 0) matches Some(n) ==> n.len() > 0 ==> gpu_name(line, None) == Some(n),
        gpu_name(line, None) is None <==> or_blank(csv_field(line, 0)).len() == 0,
{
}

/// A pooling is read back from its word. Only a benchmark of llama.cpp pools by the
/// last token; no other word is a pooling.
pub proof fn a_pooling_is_the_one_its_word_names(p: Pool, word: Seq<char>)
    ensures
        llama_pool(pool_text(p)) == Ok::<Pool, Seq<char>>(p),
        p != Pool::Last ==> onnx_pool(pool_text(p)) == Ok::<Pool, Seq<char>>(p),
        onnx_pool(pool_text(Pool::Last)) is Err,
        llama_pool(word) is Ok <==> word == "mean"@ || word == "cls"@ || word == "last"@,
        llama_pool(word) matches Ok(q) ==> pool_text(q) == word,
        onnx_pool(word) matches Ok(q) ==> pool_text(q) == word,
        word == "mean"@ ==> llama_pool(word) == Ok::<Pool, Seq<char>>(Pool::Mean),
        word == "cls"@ ==> llama_pool(word) == Ok::<Pool, Seq<char>>(Pool::Cls),
        word == "last"@ ==> llama_pool(word) == Ok::<Pool, Seq<char>>(Pool::Last),
{
    reveal_strlit("mean");
    reveal_strlit("cls");
    reveal_strlit("last");
    assert("mean"@[0] == 'm' && "cls"@[0] == 'c' && "last"@[0] == 'l');
}

/// Vectors are normalized where the word is `l2` and nowhere else; the two words
/// that ask for none leave them as they are, and every other word is refused.
pub proof fn vectors_are_normalized_where_asked(word: Seq<char>)
    ensures
        normalizes(word) == Ok::<bool, Seq<char>>(true) <==> word == "l2"@,
        normalizes(word) == Ok::<bool, Seq<char>>(false) <==> word == "none"@ || word.len() == 0,
{
    reveal_strlit("l2");
    reveal_strlit("none");
    reveal_strlit("");
    assert("l2"@[0] == 'l' && "none"@[0] == 'n');
    assert(word.len() == 0 ==> word =~= ""@);
}

/// A model serves a benchmark where it has both inputs; where it has not, the one
/// that is named is one that is missing.
pub proof fn the_missing_input_is_missing(names: Seq<Seq<char>>)
    ensures
        missing_input(names) is None <==> names.contains("input_ids"@) && names.contains(
            "attention_mask"@,
        ),
        missing_input(names) matches Some(m) ==> !names.contains(m) && (m == "input_ids"@ || m
            == "attention_mask"@),
{
}

/// The tokens of rows that are put together are those of each.
pub proof fn sums_add_up(a: Seq<u32>, b: Seq<u32>, x: u32)
    ensures
        sum_of(a + b, (a + b).len() as int) == sum_of(a, a.len() as int) + sum_of(b, b.len() as int),
        sum_of(seq![x], 1) == x,
        sum_of(Seq::empty(), 0) == 0,
    decreases b.len(),
{
    reveal_with_fuel(sum_of, 2);
    sum_of_beginning(a + b, a, a.len() as int);
    if b.len() == 0 {
        assert(a + b =~= a);
    } else {
        let c = b.drop_last();
        sums_add_up(a, c, x);
        sum_of_beginning(a + b, a + c, (a + c).len() as int);
        sum_of_beginning(b, c, c.len() as int);
        assert((a + b).last() == b.last());
    }
}

/// The sum of a beginning depends on the beginning alone.
proof fn sum_of_beginning(a: Seq<u32>, b: Seq<u32>, n: int)
    requires
        n <= a.len(),
        n <= b.len(),
        forall|i: int| 0 <= i < n ==> a[i] == b[i],
    ensures
        sum_of(a, n) == sum_of(b, n),
    decreases n,
{
    if n > 0 {
        sum_of_beginning(a, b, n - 1);
    }
}

/// The number of tokens in the first `n` rows.
pub open spec fn tokens_before(rows: Seq<Vec<i32>>, n: int) -> nat
    decreases n,
{
    if n <= 0 {
        0
    } else {
        tokens_before(rows, n - 1) + rows[n - 1]@.len()
    }
}

/// The tokens of a batch are those of its rows, one row behind the other: token `p`
/// of row `r` stands behind all tokens of the rows before it and the `p` before it
/// in its own, and is told by its row and its place.
pub proof fn every_token_is_placed(rows: Seq<Vec<i32>>, n: int, r: int, p: int)
    requires
        0 <= r < n <= rows.len() <= usize::MAX,
        0 <= p < rows[r].len(),
    ensures
        placed_rows(rows, n).len() == tokens_before(rows, n),
        tokens_before(rows, r) + p < tokens_before(rows, n),
        placed_rows(rows, n)[tokens_before(rows, r) + p] == (Placed {
            row: r as usize,
            place: p as usize,
            token: rows[r]@[p],
        }),
    decreases n,
{
    placed_rows_count(rows, n - 1);
    placed_rows_count(rows, n);
    if r < n - 1 {
        every_token_is_placed(rows, n - 1, r, p);
    }
}

/// A batch holds as many tokens as its rows.
proof fn placed_rows_count(rows: Seq<Vec<i32>>, n: int)
    ensures
        placed_rows(rows, n).len() == tokens_before(rows, n),
    decreases n,
{
    if n > 0 {
        placed_rows_count(rows, n - 1);
    }
}

/// The tokens that end a generation are those that the vocabulary marks, all of
/// them, in ascending order.
pub proof fn every_marked_token_ends(flags: Seq<bool>, n: int, t: int)
    requires
        0 <= n <= flags.len() <= i32::MAX,
        0 <= t < n,
    ensures
        ends_of(flags, n).contains(t as i32) <==> flags[t],
        forall|i: int, j: int|
            0 <= i < j < ends_of(flags, n).len() ==> #[trigger] ends_of(flags, n)[i]
                < #[trigger] ends_of(flags, n)[j],
    decreases n,
{
    let after = ends_of(flags, n);
    let before = ends_of(flags, n - 1);
    ends_ascend(flags, n - 1);
    ends_ascend(flags, n);
    if t < n - 1 {
        every_marked_token_ends(flags, n - 1, t);
        if before.contains(t as i32) {
            let i = choose|i: int| 0 <= i < before.len() && before[i] == t as i32;
            assert(after[i] == t as i32);
        }
        if after.contains(t as i32) {
            let i = choose|i: int| 0 <= i < after.len() && after[i] == t as i32;
            assert(before[i] == t as i32);
        }
    } else if flags[t] {
        assert(after[before.len() as int] == t as i32);
    } else if after.contains(t as i32) {
        let i = choose|i: int| 0 <= i < after.len() && after[i] == t as i32;
        assert(before[i] < n - 1);
    }
}

/// The tokens that end a generation ascend and lie below the number looked at.
proof fn ends_ascend(flags: Seq<bool>, n: int)
    requires
        n <= flags.len() <= i32::MAX,
    ensures
        forall|i: int| 0 <= i < ends_of(flags, n).len() ==> 0 <= (#[trigger] ends_of(flags, n)[i]) < n,
        forall|i: int, j: int|
            0 <= i < j < ends_of(flags, n).len() ==> #[trigger] ends_of(flags, n)[i]
                < #[trigger] ends_of(flags, n)[j],
    decreases n,
{
    if n > 0 {
        ends_ascend(flags, n - 1);
        let before = ends_of(flags, n - 1);
        let after = ends_of(flags, n);
        assert forall|i: int| 0 <= i < after.len() implies 0 <= (#[trigger] after[i]) < n by {
            if i < before.len() {
                assert(after[i] == before[i]);
            }
        }
        assert forall|i: int, j: int| 0 <= i < j < after.len() implies #[trigger] after[i]
            < #[trigger] after[j] by {
            assert(after[i] == before[i]);
            if j < before.len() {
                assert(after[j] == before[j]);
            }
        }
    }
}

/// A context holds the prompt, what is generated and eight tokens more, and never
/// fewer than 512; a decode takes what the context holds, and never more than 2048.
pub proof fn a_context_holds_the_generation(prompt: u32, new_tokens: u32, n_ctx: u32)
    ensures
        context_tokens(prompt, new_tokens) >= prompt + new_tokens + 8,
        context_tokens(prompt, new_tokens) >= 512,
        context_tokens(prompt, new_tokens) == 512 || context_tokens(prompt, new_tokens) == prompt
            + new_tokens + 8,
        decode_tokens(n_ctx) <= n_ctx && decode_tokens(n_ctx) <= 2048,
        decode_tokens(n_ctx) == n_ctx || decode_tokens(n_ctx) == 2048,
{
}

} // verus!

//! Enum values as text: the header constant without `TURBO_`. A value that the
//! header gives no constant for is its decimal.

use vstd::prelude::*;
use crate::text::{decimal, decimal_of, same};

verus! {

/// Values and their names.
pub type Table = Vec<(u32, String)>;

/// A table with its names as characters.
pub open spec fn table_view(t: Seq<(u32, String)>) -> Seq<(u32, Seq<char>)> {
    Seq::new(t.len(), |i: int| (t[i].0, t[i].1@))
}

/// The name that the first entry of a value gives it, from place `i` on.
pub open spec fn name_in(t: Seq<(u32, Seq<char>)>, v: u32, i: int) -> Option<Seq<char>>
    decreases t.len() - i,
{
    if i < 0 || i >= t.len() {
        None
    } else if t[i].0 == v {
        Some(t[i].1)
    } else {
        name_in(t, v, i + 1)
    }
}

/// The value of the first entry of a name, from place `i` on.
pub open spec fn value_in(t: Seq<(u32, Seq<char>)>, name: Seq<char>, i: int) -> Option<u32>
    decreases t.len() - i,
{
    if i < 0 || i >= t.len() {
        None
    } else if t[i].1 == name {
        Some(t[i].0)
    } else {
        value_in(t, name, i + 1)
    }
}

/// A value as text.
pub open spec fn shown(t: Seq<(u32, Seq<char>)>, v: u32) -> Seq<char> {
    match name_in(t, v, 0) {
        Some(n) => n,
        None => decimal(v as nat),
    }
}

/// A value as text.
pub fn pick(table: &Table, v: u32) -> (r: String)
    ensures
        r@ == shown(table_view(table@), v),
{
    let mut i: usize = 0;
    while i < table.len() && table[i].0 != v
        invariant
            i <= table.len(),
            name_in(table_view(table@), v, i as int) == name_in(table_view(table@), v, 0),
        decreases table.len() - i,
    {
        assert(table_view(table@)[i as int].0 == table@[i as int].0);
        i = i + 1;
    }
    if i < table.len() {
        assert(table_view(table@)[i as int] == (table@[i as int].0, table@[i as int].1@));
        table[i].1.clone()
    } else {
        decimal_of(v as u128)
    }
}

/// The value of a name.
pub fn value_of(table: &Table, name: &str) -> (r: Option<u32>)
    ensures
        r == value_in(table_view(table@), name@, 0),
{
    let mut i: usize = 0;
    while i < table.len() && !same(table[i].1.as_str(), name)
        invariant
            i <= table.len(),
            value_in(table_view(table@), name@, i as int) == value_in(table_view(table@), name@, 0),
        decreases table.len() - i,
    {
        assert(table_view(table@)[i as int].1 == table@[i as int].1@);
        i = i + 1;
    }
    if i < table.len() {
        assert(table_view(table@)[i as int] == (table@[i as int].0, table@[i as int].1@));
        Some(table[i].0)
    } else {
        None
    }
}

/// The names of a table.
pub open spec fn names_in(t: Seq<(u32, Seq<char>)>) -> Seq<Seq<char>> {
    Seq::new(t.len(), |i: int| t[i].1)
}

/// The names of a table.
pub fn names_of(table: &Table) -> (r: Vec<String>)
    ensures
        crate::text::views(r@) == names_in(table_view(table@)),
{
    let mut out: Vec<String> = Vec::new();
    let mut i: usize = 0;
    while i < table.len()
        invariant
            i <= table.len(),
            out.len() == i,
            forall|j: int| 0 <= j < i ==> (#[trigger] out@[j])@ == table@[j].1@,
        decreases table.len() - i,
    {
        out.push(table[i].1.clone());
        i = i + 1;
    }
    proof {
        assert(crate::text::views(out@) =~= names_in(table_view(table@)));
    }
    out
}

/// The values of `truncate`.
pub open spec fn truncate_names() -> Seq<(u32, Seq<char>)> {
    seq![
        (0, "TRUNCATE_MODEL"@),
        (1, "TRUNCATE_NONE"@),
        (2, "TRUNCATE_RIGHT"@),
        (3, "TRUNCATE_LEFT"@),
    ]
}

/// The values of `prompt_role`.
pub open spec fn prompt_names() -> Seq<(u32, Seq<char>)> {
    seq![(0, "PROMPT_NONE"@), (1, "PROMPT_QUERY"@), (2, "PROMPT_DOCUMENT"@)]
}

/// The values of `normalize`.
pub open spec fn normalize_names() -> Seq<(u32, Seq<char>)> {
    seq![(0, "NORMALIZE_MODEL"@), (1, "NORMALIZE_NONE"@), (2, "NORMALIZE_L2"@)]
}

/// The values of `pooling`.
pub open spec fn pooling_names() -> Seq<(u32, Seq<char>)> {
    seq![(0, "POOLING_MODEL"@), (1, "POOLING_MEAN"@), (2, "POOLING_CLS"@), (3, "POOLING_LAST"@)]
}

/// The values of `precision`.
pub open spec fn precision_names() -> Seq<(u32, Seq<char>)> {
    seq![(0, "PRECISION_MODEL"@), (1, "PRECISION_FASTEST"@), (2, "PRECISION_EXACT"@)]
}

/// The values of a capability's status.
pub open spec fn cap_names() -> Seq<(u32, Seq<char>)> {
    seq![(0, "CAP_UNSUPPORTED"@), (1, "CAP_EXPERIMENTAL"@), (2, "CAP_SUPPORTED"@)]
}

/// The values of `truncate`.
pub fn truncate_table() -> (r: Table)
    ensures
        table_view(r@) == truncate_names(),
{
    let mut t: Vec<(u32, String)> = Vec::new();
    t.push((0, "TRUNCATE_MODEL".to_owned()));
    t.push((1, "TRUNCATE_NONE".to_owned()));
    t.push((2, "TRUNCATE_RIGHT".to_owned()));
    t.push((3, "TRUNCATE_LEFT".to_owned()));
    proof {
        assert(table_view(t@) =~= truncate_names());
    }
    t
}

/// The values of `prompt_role`.
pub fn prompt_table() -> (r: Table)
    ensures
        table_view(r@) == prompt_names(),
{
    let mut t: Vec<(u32, String)> = Vec::new();
    t.push((0, "PROMPT_NONE".to_owned()));
    t.push((1, "PROMPT_QUERY".to_owned()));
    t.push((2, "PROMPT_DOCUMENT".to_owned()));
    proof {
        assert(table_view(t@) =~= prompt_names());
    }
    t
}

/// The values of `normalize`.
pub fn normalize_table() -> (r: Table)
    ensures
        table_view(r@) == normalize_names(),
{
    let mut t: Vec<(u32, String)> = Vec::new();
    t.push((0, "NORMALIZE_MODEL".to_owned()));
    t.push((1, "NORMALIZE_NONE".to_owned()));
    t.push((2, "NORMALIZE_L2".to_owned()));
    proof {
        assert(table_view(t@) =~= normalize_names());
    }
    t
}

/// The values of `pooling`.
pub fn pooling_table() -> (r: Table)
    ensures
        table_view(r@) == pooling_names(),
{
    let mut t: Vec<(u32, String)> = Vec::new();
    t.push((0, "POOLING_MODEL".to_owned()));
    t.push((1, "POOLING_MEAN".to_owned()));
    t.push((2, "POOLING_CLS".to_owned()));
    t.push((3, "POOLING_LAST".to_owned()));
    proof {
        assert(table_view(t@) =~= pooling_names());
    }
    t
}

/// The values of `precision`.
pub fn precision_table() -> (r: Table)
    ensures
        table_view(r@) == precision_names(),
{
    let mut t: Vec<(u32, String)> = Vec::new();
    t.push((0, "PRECISION_MODEL".to_owned()));
    t.push((1, "PRECISION_FASTEST".to_owned()));
    t.push((2, "PRECISION_EXACT".to_owned()));
    proof {
        assert(table_view(t@) =~= precision_names());
    }
    t
}

/// The values of a capability's status.
pub fn cap_table() -> (r: Table)
    ensures
        table_view(r@) == cap_names(),
{
    let mut t: Vec<(u32, String)> = Vec::new();
    t.push((0, "CAP_UNSUPPORTED".to_owned()));
    t.push((1, "CAP_EXPERIMENTAL".to_owned()));
    t.push((2, "CAP_SUPPORTED".to_owned()));
    proof {
        assert(table_view(t@) =~= cap_names());
    }
    t
}

/// The pooling as text.
pub fn pooling(v: u32) -> (r: String)
    ensures
        r@ == shown(pooling_names(), v),
{
    pick(&pooling_table(), v)
}

/// The normalization as text.
pub fn normalize(v: u32) -> (r: String)
    ensures
        r@ == shown(normalize_names(), v),
{
    pick(&normalize_table(), v)
}

/// The precision as text.
pub fn precision(v: u32) -> (r: String)
    ensures
        r@ == shown(precision_names(), v),
{
    pick(&precision_table(), v)
}

/// A capability's status as text.
pub fn cap(v: u32) -> (r: String)
    ensures
        r@ == shown(cap_names(), v),
{
    pick(&cap_table(), v)
}

/// The header's constants whose values are set by the library that is linked.
#[derive(Clone, Copy, Debug, PartialEq, Eq, Structural)]
pub struct Constants {
    pub task_embed: u32,
    pub dtype_i32: u32,
    pub dtype_f16: u32,
    pub dtype_bf16: u32,
    pub dtype_f32: u32,
    pub device_cpu: u32,
    pub device_gpu: u32,
    pub device_igpu: u32,
    pub device_npu: u32,
    pub place_host: u32,
    pub place_pinned: u32,
    pub place_device: u32,
    pub place_shared: u32,
    pub stage_unused: u32,
    pub stage_host: u32,
    pub stage_device: u32,
    pub stage_fused: u32,
}

impl Constants {
    /// The tasks.
    pub open spec fn task_names(&self) -> Seq<(u32, Seq<char>)> {
        seq![(self.task_embed, "TASK_EMBED"@)]
    }

    /// The element types.
    pub open spec fn dtype_names(&self) -> Seq<(u32, Seq<char>)> {
        seq![
            (self.dtype_i32, "DTYPE_I32"@),
            (self.dtype_f16, "DTYPE_F16"@),
            (self.dtype_bf16, "DTYPE_BF16"@),
            (self.dtype_f32, "DTYPE_F32"@),
        ]
    }

    /// The kinds of device.
    pub open spec fn device_names(&self) -> Seq<(u32, Seq<char>)> {
        seq![
            (self.device_cpu, "DEVICE_CPU"@),
            (self.device_gpu, "DEVICE_GPU"@),
            (self.device_igpu, "DEVICE_IGPU"@),
            (self.device_npu, "DEVICE_NPU"@),
        ]
    }

    /// The placements.
    pub open spec fn place_names(&self) -> Seq<(u32, Seq<char>)> {
        seq![
            (self.place_host, "PLACE_HOST"@),
            (self.place_pinned, "PLACE_PINNED"@),
            (self.place_device, "PLACE_DEVICE"@),
            (self.place_shared, "PLACE_SHARED"@),
        ]
    }

    /// Where a stage runs.
    pub open spec fn stage_names(&self) -> Seq<(u32, Seq<char>)> {
        seq![
            (self.stage_unused, "STAGE_UNUSED"@),
            (self.stage_host, "STAGE_HOST"@),
            (self.stage_device, "STAGE_DEVICE"@),
            (self.stage_fused, "STAGE_FUSED"@),
        ]
    }

    /// A task as text.
    pub fn task(&self, v: u32) -> (r: String)
        ensures
            r@ == shown(self.task_names(), v),
    {
        let mut t: Vec<(u32, String)> = Vec::new();
        t.push((self.task_embed, "TASK_EMBED".to_owned()));
        proof {
            assert(table_view(t@) =~= self.task_names());
        }
        pick(&t, v)
    }

    /// An element type as text.
    pub fn dtype(&self, v: u32) -> (r: String)
        ensures
            r@ == shown(self.dtype_names(), v),
    {
        let mut t: Vec<(u32, String)> = Vec::new();
        t.push((self.dtype_i32, "DTYPE_I32".to_owned()));
        t.push((self.dtype_f16, "DTYPE_F16".to_owned()));
        t.push((self.dtype_bf16, "DTYPE_BF16".to_owned()));
        t.push((self.dtype_f32, "DTYPE_F32".to_owned()));
        proof {
            assert(table_view(t@) =~= self.dtype_names());
        }
        pick(&t, v)
    }

    /// A kind of device as text.
    pub fn device_kind(&self, v: u32) -> (r: String)
        ensures
            r@ == shown(self.device_names(), v),
    {
        let mut t: Vec<(u32, String)> = Vec::new();
        t.push((self.device_cpu, "DEVICE_CPU".to_owned()));
        t.push((self.device_gpu, "DEVICE_GPU".to_owned()));
        t.push((self.device_igpu, "DEVICE_IGPU".to_owned()));
        t.push((self.device_npu, "DEVICE_NPU".to_owned()));
        proof {
            assert(table_view(t@) =~= self.device_names());
        }
        pick(&t, v)
    }

    /// A placement as text.
    pub fn place(&self, v: u32) -> (r: String)
        ensures
            r@ == shown(self.place_names(), v),
    {
        let mut t: Vec<(u32, String)> = Vec::new();
        t.push((self.place_host, "PLACE_HOST".to_owned()));
        t.push((self.place_pinned, "PLACE_PINNED".to_owned()));
        t.push((self.place_device, "PLACE_DEVICE".to_owned()));
        t.push((self.place_shared, "PLACE_SHARED".to_owned()));
        proof {
            assert(table_view(t@) =~= self.place_names());
        }
        pick(&t, v)
    }

    /// Where a stage runs as text.
    pub fn stage(&self, v: u32) -> (r: String)
        ensures
            r@ == shown(self.stage_names(), v),
    {
        let mut t: Vec<(u32, String)> = Vec::new();
        t.push((self.stage_unused, "STAGE_UNUSED".to_owned()));
        t.push((self.stage_host, "STAGE_HOST".to_owned()));
        t.push((self.stage_device, "STAGE_DEVICE".to_owned()));
        t.push((self.stage_fused, "STAGE_FUSED".to_owned()));
        proof {
            assert(table_view(t@) =~= self.stage_names());
        }
        pick(&t, v)
    }
}

/// The stages of embedding, in order.
pub open spec fn embed_stage_names() -> Seq<Seq<char>> {
    seq![
        "EMBED_STAGE_TOKENIZE"@,
        "EMBED_STAGE_UPLOAD"@,
        "EMBED_STAGE_LOOKUP"@,
        "EMBED_STAGE_ENCODE"@,
        "EMBED_STAGE_POOL"@,
        "EMBED_STAGE_NORMALIZE"@,
        "EMBED_STAGE_DOWNLOAD"@,
    ]
}

/// The stages of embedding, in order.
pub fn embed_stages() -> (r: Vec<String>)
    ensures
        crate::text::views(r@) == embed_stage_names(),
        r.len() == 7,
{
    let mut v: Vec<String> = Vec::new();
    v.push("EMBED_STAGE_TOKENIZE".to_owned());
    v.push("EMBED_STAGE_UPLOAD".to_owned());
    v.push("EMBED_STAGE_LOOKUP".to_owned());
    v.push("EMBED_STAGE_ENCODE".to_owned());
    v.push("EMBED_STAGE_POOL".to_owned());
    v.push("EMBED_STAGE_NORMALIZE".to_owned());
    v.push("EMBED_STAGE_DOWNLOAD".to_owned());
    proof {
        assert(crate::text::views(v@) =~= embed_stage_names());
    }
    v
}

/// Whether no value and no name occurs twice.
pub open spec fn one_to_one(t: Seq<(u32, Seq<char>)>) -> bool {
    forall|i: int, j: int|
        0 <= i < j < t.len() ==> (#[trigger] t[i]).0 != (#[trigger] t[j]).0 && t[i].1 != t[j].1
}

/// In a one-to-one table, an entry's value shows as its name and its name reads
/// back as its value.
pub proof fn names_read_back(t: Seq<(u32, Seq<char>)>, i: int)
    requires
        one_to_one(t),
        0 <= i < t.len(),
    ensures
        shown(t, t[i].0) == t[i].1,
        value_in(t, shown(t, t[i].0), 0) == Some(t[i].0),
{
    found_at(t, i, 0);
}

/// The entry at `i` is the first of its value and of its name.
proof fn found_at(t: Seq<(u32, Seq<char>)>, i: int, from: int)
    requires
        one_to_one(t),
        0 <= from <= i < t.len(),
    ensures
        name_in(t, t[i].0, from) == Some(t[i].1),
        value_in(t, t[i].1, from) == Some(t[i].0),
    decreases i - from,
{
    if from < i {
        assert(t[from].0 != t[i].0 && t[from].1 != t[i].1);
        found_at(t, i, from + 1);
    }
}

/// The tables of the options are one-to-one.
pub proof fn option_names_are_one_to_one()
    ensures
        one_to_one(truncate_names()),
        one_to_one(prompt_names()),
        one_to_one(normalize_names()),
        one_to_one(pooling_names()),
        one_to_one(precision_names()),
{
    reveal_strlit("TRUNCATE_MODEL");
    reveal_strlit("TRUNCATE_NONE");
    reveal_strlit("TRUNCATE_RIGHT");
    reveal_strlit("TRUNCATE_LEFT");
    assert("TRUNCATE_RIGHT"@[9] != "TRUNCATE_MODEL"@[9]);
    reveal_strlit("PROMPT_NONE");
    reveal_strlit("PROMPT_QUERY");
    reveal_strlit("PROMPT_DOCUMENT");
    reveal_strlit("NORMALIZE_MODEL");
    reveal_strlit("NORMALIZE_NONE");
    reveal_strlit("NORMALIZE_L2");
    reveal_strlit("POOLING_MODEL");
    reveal_strlit("POOLING_MEAN");
    reveal_strlit("POOLING_CLS");
    reveal_strlit("POOLING_LAST");
    assert("POOLING_MEAN"@[9] != "POOLING_LAST"@[9]);
    reveal_strlit("PRECISION_MODEL");
    reveal_strlit("PRECISION_FASTEST");
    reveal_strlit("PRECISION_EXACT");
    assert("PRECISION_MODEL"@[10] != "PRECISION_EXACT"@[10]);
    assert("POOLING_MODEL"@.len() == 13 && "POOLING_MEAN"@.len() == 12 && "POOLING_CLS"@.len() == 11
        && "POOLING_LAST"@.len() == 12);
    assert("PROMPT_NONE"@.len() == 11 && "PROMPT_QUERY"@.len() == 12 && "PROMPT_DOCUMENT"@.len()
        == 15);
    assert("NORMALIZE_MODEL"@.len() == 15 && "NORMALIZE_NONE"@.len() == 14 && "NORMALIZE_L2"@.len()
        == 12);
    assert("TRUNCATE_NONE"@.len() != "TRUNCATE_LEFT"@.len() || "TRUNCATE_NONE"@[9]
        != "TRUNCATE_LEFT"@[9]);
}

/// The options' values by their names: 0 is always the model's own.
pub proof fn option_names_have_their_values()
    ensures
        value_in(truncate_names(), "TRUNCATE_MODEL"@, 0) == Some(0u32),
        value_in(truncate_names(), "TRUNCATE_NONE"@, 0) == Some(1u32),
        value_in(truncate_names(), "TRUNCATE_RIGHT"@, 0) == Some(2u32),
        value_in(truncate_names(), "TRUNCATE_LEFT"@, 0) == Some(3u32),
        value_in(prompt_names(), "PROMPT_NONE"@, 0) == Some(0u32),
        value_in(prompt_names(), "PROMPT_QUERY"@, 0) == Some(1u32),
        value_in(prompt_names(), "PROMPT_DOCUMENT"@, 0) == Some(2u32),
        value_in(normalize_names(), "NORMALIZE_MODEL"@, 0) == Some(0u32),
        value_in(normalize_names(), "NORMALIZE_NONE"@, 0) == Some(1u32),
        value_in(normalize_names(), "NORMALIZE_L2"@, 0) == Some(2u32),
        value_in(pooling_names(), "POOLING_MODEL"@, 0) == Some(0u32),
        value_in(pooling_names(), "POOLING_MEAN"@, 0) == Some(1u32),
        value_in(pooling_names(), "POOLING_CLS"@, 0) == Some(2u32),
        value_in(pooling_names(), "POOLING_LAST"@, 0) == Some(3u32),
        value_in(precision_names(), "PRECISION_MODEL"@, 0) == Some(0u32),
        value_in(precision_names(), "PRECISION_FASTEST"@, 0) == Some(1u32),
        value_in(precision_names(), "PRECISION_EXACT"@, 0) == Some(2u32),
        cap_names()[0] == (0u32, "CAP_UNSUPPORTED"@),
        cap_names()[1] == (1u32, "CAP_EXPERIMENTAL"@),
        cap_names()[2] == (2u32, "CAP_SUPPORTED"@),
{
    option_names_are_one_to_one();
    assert(truncate_names()[0].1 == "TRUNCATE_MODEL"@);
    assert(truncate_names()[1].1 == "TRUNCATE_NONE"@);
    assert(truncate_names()[2].1 == "TRUNCATE_RIGHT"@);
    assert(truncate_names()[3].1 == "TRUNCATE_LEFT"@);
    found_at(truncate_names(), 0, 0);
    found_at(truncate_names(), 1, 0);
    found_at(truncate_names(), 2, 0);
    found_at(truncate_names(), 3, 0);
    found_at(prompt_names(), 0, 0);
    found_at(prompt_names(), 1, 0);
    found_at(prompt_names(), 2, 0);
    found_at(normalize_names(), 0, 0);
    found_at(normalize_names(), 1, 0);
    found_at(normalize_names(), 2, 0);
    found_at(pooling_names(), 0, 0);
    found_at(pooling_names(), 1, 0);
    found_at(pooling_names(), 2, 0);
    found_at(pooling_names(), 3, 0);
    found_at(precision_names(), 0, 0);
    found_at(precision_names(), 1, 0);
    found_at(precision_names(), 2, 0);
}

/// A value without a name shows as its number, and a name that is in no table has no value.
pub proof fn what_has_no_name_shows_as_its_number(t: Seq<(u32, Seq<char>)>, v: u32, name: Seq<char>, i: int)
    requires
        0 <= i <= t.len(),
    ensures
        (forall|k: int| i <= k < t.len() ==> (#[trigger] t[k]).0 != v) ==> name_in(t, v, i) is None,
        (forall|k: int| i <= k < t.len() ==> (#[trigger] t[k]).1 != name) ==> value_in(t, name, i) is None,
        (forall|k: int| 0 <= k < t.len() ==> (#[trigger] t[k]).0 != v) && i == 0 ==> shown(t, v) == decimal(
            v as nat,
        ),
    decreases t.len() - i,
{
    if i < t.len() {
        what_has_no_name_shows_as_its_number(t, v, name, i + 1);
        assert(t[i].0 == t[i].0);
    }
}

/// What the library's own numbers are called.
pub proof fn constants_have_their_names(c: Constants)
    ensures
        c.task_names()[0] == (c.task_embed, "TASK_EMBED"@),
        c.dtype_names()[0] == (c.dtype_i32, "DTYPE_I32"@),
        c.dtype_names()[1] == (c.dtype_f16, "DTYPE_F16"@),
        c.dtype_names()[2] == (c.dtype_bf16, "DTYPE_BF16"@),
        c.dtype_names()[3] == (c.dtype_f32, "DTYPE_F32"@),
        c.device_names()[0] == (c.device_cpu, "DEVICE_CPU"@),
        c.device_names()[1] == (c.device_gpu, "DEVICE_GPU"@),
        c.device_names()[2] == (c.device_igpu, "DEVICE_IGPU"@),
        c.device_names()[3] == (c.device_npu, "DEVICE_NPU"@),
        c.place_names()[0] == (c.place_host, "PLACE_HOST"@),
        c.place_names()[1] == (c.place_pinned, "PLACE_PINNED"@),
        c.place_names()[2] == (c.place_device, "PLACE_DEVICE"@),
        c.place_names()[3] == (c.place_shared, "PLACE_SHARED"@),
        c.stage_names()[0] == (c.stage_unused, "STAGE_UNUSED"@),
        c.stage_names()[1] == (c.stage_host, "STAGE_HOST"@),
        c.stage_names()[2] == (c.stage_device, "STAGE_DEVICE"@),
        c.stage_names()[3] == (c.stage_fused, "STAGE_FUSED"@),
        embed_stage_names().len() == 7,
        embed_stage_names()[0] == "EMBED_STAGE_TOKENIZE"@,
        embed_stage_names()[6] == "EMBED_STAGE_DOWNLOAD"@,
{
}

} // verus!

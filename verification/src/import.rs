//! Import a model directory into a bundle.
//!
//! The contract is derived from the model's own files, never from its name.
//! Ambiguous or unsupported inputs fail with a message that names the file and
//! the field; nothing is guessed. Files are read and written outside; the
//! functions here take their text and say what the bundle's manifest holds.

use vstd::prelude::*;
use crate::json::{
    count_member, first_item, flag_member, has_member, inner_text, item_pairs, json_count, json_fault,
    json_first, json_flag, json_has, json_inner, json_members, json_pairs, json_text, members_view,
    object_members, pairs_view, parse_fault, text_member,
};
use crate::bytes::{le_bytes, le_round_trip, pow256, put_le};
use crate::order::{
    ascending, in_order, in_order_unique, lex_antisymmetric, lex_le, lex_le_of, lex_reflexive, lex_total,
    lex_transitive, name_order, number_order, numbered_views, sorted_by_number, strings_of,
};
use crate::text::{
    cat2, cat3, cat4, cat5, chars_of, copy_opt, decimal, decimal_of, ends, ends_with_of, first_at,
    first_at_is_first, holds, join_of, joined, last_at, last_at_bounds, opt_view, parse_unsigned, quote,
    quoted, rsplit_once_of, same, slice_of, split_of, split_on, split_once_of, unsigned_value, views,
};
use crate::types::ModelKind;
use vstd::relations::sorted_by;

verus! {

/// Import parameters.
#[derive(Debug)]
pub struct ImportRequest {
    /// Source model directory (sentence-transformers or Hugging Face layout).
    pub source: String,
    /// Output bundle directory; must not exist.
    pub output: String,
    /// Model identifier; defaults to `config.json` / directory name.
    pub model_id: Option<String>,
    /// Revision to record.
    pub revision: Option<String>,
    /// SPDX license; required.
    pub license: Option<String>,
    /// Task name override.
    pub task: Option<String>,
    /// Kind name override.
    pub kind: Option<String>,
    /// Artifacts as format and path.
    pub artifacts: Vec<(String, String)>,
    /// Build a `static` artifact from a safetensors tensor: path and tensor.
    pub static_from: Option<(String, Option<String>)>,
    /// Matryoshka dimensions.
    pub truncate_dims: Vec<u32>,
    /// Maximum batch to record.
    pub max_batch: u32,
    /// Fixed-shape artifact.
    pub fixed_shape: bool,
    /// Override the sequence limit.
    pub max_seq: Option<u32>,
}

/// Why an import is refused.
#[derive(Debug)]
pub enum Refusal {
    /// For this reason.
    Reason(String),
    /// There is no kind of model of this name.
    UnknownKind(String),
    /// There is no task of this name.
    UnknownTask(String),
}

/// A refusal with its text as characters.
pub enum RefusalView {
    Reason(Seq<char>),
    UnknownKind(Seq<char>),
    UnknownTask(Seq<char>),
}

impl View for Refusal {
    type V = RefusalView;

    open spec fn view(&self) -> RefusalView {
        match self {
            Refusal::Reason(s) => RefusalView::Reason(s@),
            Refusal::UnknownKind(s) => RefusalView::UnknownKind(s@),
            Refusal::UnknownTask(s) => RefusalView::UnknownTask(s@),
        }
    }
}

/// Whether an import can begin: the source is a directory, nothing is
/// overwritten, and there is a license.
pub open spec fn request_verdict(req: ImportRequest, source_is_dir: bool, output_exists: bool) -> Result<
    Seq<char>,
    Seq<char>,
> {
    if !source_is_dir {
        Err("source `"@ + req.source@ + "` is not a directory"@)
    } else if output_exists {
        Err("output `"@ + req.output@ + "` already exists; refusing to overwrite"@)
    } else {
        match req.license {
            None => Err("--license is required (SPDX identifier of the weights)"@),
            Some(l) => Ok(l@),
        }
    }
}

/// The license of an import that can begin.
pub fn check_request(req: &ImportRequest, source_is_dir: bool, output_exists: bool) -> (r: Result<
    String,
    String,
>)
    ensures
        match request_verdict(*req, source_is_dir, output_exists) {
            Ok(l) => r is Ok && r->Ok_0@ == l,
            Err(e) => r is Err && r->Err_0@ == e,
        },
{
    if !source_is_dir {
        return Err(cat3("source `", req.source.as_str(), "` is not a directory"));
    }
    if output_exists {
        return Err(
            cat3("output `", req.output.as_str(), "` already exists; refusing to overwrite"),
        );
    }
    match &req.license {
        None => Err("--license is required (SPDX identifier of the weights)".to_owned()),
        Some(l) => Ok(l.clone()),
    }
}

/// Whether a file's text is JSON, or the parser's message behind its path.
pub fn check_json(path: &str, doc: &str) -> (r: Result<(), String>)
    ensures
        match json_fault(doc@) {
            None => r is Ok,
            Some(e) => r is Err && r->Err_0@ == "parse "@ + path@ + ": "@ + e,
        },
{
    match parse_fault(doc) {
        None => Ok(()),
        Some(e) => Err(cat4("parse ", path, ": ", e.as_str())),
    }
}

/// A string, or the empty one.
pub open spec fn or_empty(s: Option<Seq<char>>) -> Seq<char> {
    match s {
        Some(t) => t,
        None => Seq::empty(),
    }
}

/// The pooling module's directory among the first `n` modules: the last one's
/// whose type ends in `Pooling`.
pub open spec fn pooling_dir(mods: Seq<(Option<Seq<char>>, Option<Seq<char>>)>, n: int) -> Option<
    Seq<char>,
>
    decreases n,
{
    if n <= 0 {
        None
    } else if ends(or_empty(mods[n - 1].0), "Pooling"@) {
        Some(or_empty(mods[n - 1].1))
    } else {
        pooling_dir(mods, n - 1)
    }
}

/// Whether one of the first `n` modules normalizes.
pub open spec fn has_normalize(mods: Seq<(Option<Seq<char>>, Option<Seq<char>>)>, n: int) -> bool
    decreases n,
{
    if n <= 0 {
        false
    } else {
        has_normalize(mods, n - 1) || (!ends(or_empty(mods[n - 1].0), "Pooling"@) && ends(
            or_empty(mods[n - 1].0),
            "Normalize"@,
        ))
    }
}

/// Where the pooling configuration is and whether the model normalizes, from
/// the types and paths of its modules.
pub fn scan_modules(mods: &Vec<(Option<String>, Option<String>)>) -> (r: Result<(String, bool), String>)
    ensures
        match pooling_dir(pairs_view(mods@), mods.len() as int) {
            None => r is Err && r->Err_0@ == "modules.json lists no Pooling module"@,
            Some(d) => r is Ok && r->Ok_0.0@ == d && r->Ok_0.1 == has_normalize(
                pairs_view(mods@),
                mods.len() as int,
            ),
        },
{
    let mut dir: Option<String> = None;
    let mut normalize = false;
    let mut i: usize = 0;
    let ghost all = pairs_view(mods@);
    while i < mods.len()
        invariant
            i <= mods.len(),
            all == pairs_view(mods@),
            opt_view(dir) == pooling_dir(all, i as int),
            normalize == has_normalize(all, i as int),
        decreases mods.len() - i,
    {
        let ty = match &mods[i].0 {
            Some(t) => t.clone(),
            None => String::new(),
        };
        let path = match &mods[i].1 {
            Some(t) => t.clone(),
            None => String::new(),
        };
        proof {
            assert(ty@ == or_empty(all[i as int].0));
            assert(path@ == or_empty(all[i as int].1));
        }
        if ends_with_of(ty.as_str(), "Pooling") {
            dir = Some(path);
        } else if ends_with_of(ty.as_str(), "Normalize") {
            normalize = true;
        }
        i = i + 1;
    }
    match dir {
        None => Err("modules.json lists no Pooling module".to_owned()),
        Some(d) => Ok((d, normalize)),
    }
}

/// Where the pooling configuration is and whether the model normalizes, from
/// the text of `modules.json`.
pub fn read_modules(doc: &str) -> (r: Result<(String, bool), String>)
    ensures
        match json_pairs(doc@, "type"@, "path"@) {
            None => r is Err && r->Err_0@ == "modules.json is not a list"@,
            Some(mods) => match pooling_dir(mods, mods.len() as int) {
                None => r is Err && r->Err_0@ == "modules.json lists no Pooling module"@,
                Some(d) => r is Ok && r->Ok_0.0@ == d && r->Ok_0.1 == has_normalize(
                    mods,
                    mods.len() as int,
                ),
            },
        },
{
    match item_pairs(doc, "type", "path") {
        None => Err("modules.json is not a list".to_owned()),
        Some(mods) => scan_modules(&mods),
    }
}

/// The pooling a mode names.
pub open spec fn pooling_named(mode: Seq<char>) -> Result<Seq<char>, Seq<char>> {
    if mode == "cls"@ {
        Ok("cls"@)
    } else if mode == "mean"@ {
        Ok("mean"@)
    } else if mode == "lasttoken"@ || mode == "last"@ {
        Ok("last"@)
    } else {
        Err("pooling mode `"@ + mode + "` is not supported by the contract (mean, cls, last)"@)
    }
}

/// The pooling a mode names.
pub fn map_pooling(mode: &str) -> (r: Result<String, String>)
    ensures
        match pooling_named(mode@) {
            Ok(p) => r is Ok && r->Ok_0@ == p,
            Err(e) => r is Err && r->Err_0@ == e,
        },
{
    if same(mode, "cls") {
        Ok("cls".to_owned())
    } else if same(mode, "mean") {
        Ok("mean".to_owned())
    } else if same(mode, "lasttoken") || same(mode, "last") {
        Ok("last".to_owned())
    } else {
        Err(
            cat3("pooling mode `", mode, "` is not supported by the contract (mean, cls, last)"),
        )
    }
}

/// A mode that is a pooling of the contract is mapped to itself, `lasttoken` to
/// `last`, and no other mode has a pooling. So the three poolings stay apart.
pub proof fn a_pooling_is_mapped_to_itself(mode: Seq<char>)
    ensures
        mode == "cls"@ || mode == "mean"@ || mode == "last"@ ==> pooling_named(mode) == Ok::<
            Seq<char>,
            Seq<char>,
        >(mode),
        mode == "lasttoken"@ ==> pooling_named(mode) == Ok::<Seq<char>, Seq<char>>("last"@),
        pooling_named(mode) is Ok <==> (mode == "cls"@ || mode == "mean"@ || mode == "last"@ || mode
            == "lasttoken"@),
{
    reveal_strlit("cls");
    reveal_strlit("mean");
    reveal_strlit("last");
    reveal_strlit("lasttoken");
    assert("cls"@[0] == 'c' && "mean"@[0] == 'm' && "last"@[0] == 'l' && "lasttoken"@[0] == 'l');
    assert("last"@.len() == 4 && "lasttoken"@.len() == 9);
}

/// The mode that legacy flag `i` sets.
pub open spec fn legacy_mode(i: int) -> Seq<char> {
    if i == 0 {
        "cls"@
    } else if i == 1 {
        "mean"@
    } else if i == 2 {
        "max"@
    } else if i == 3 {
        "mean_sqrt_len_tokens"@
    } else if i == 4 {
        "weightedmean"@
    } else {
        "lasttoken"@
    }
}

/// The name of legacy flag `i`.
pub open spec fn legacy_flag(i: int) -> Seq<char> {
    if i == 0 {
        "pooling_mode_cls_token"@
    } else if i == 1 {
        "pooling_mode_mean_tokens"@
    } else if i == 2 {
        "pooling_mode_max_tokens"@
    } else if i == 3 {
        "pooling_mode_mean_sqrt_len_tokens"@
    } else if i == 4 {
        "pooling_mode_weightedmean_tokens"@
    } else {
        "pooling_mode_lasttoken"@
    }
}

/// The mode that a legacy flag sets.
fn legacy_mode_of(i: usize) -> (r: &'static str)
    requires
        i < 6,
    ensures
        r@ == legacy_mode(i as int),
{
    if i == 0 {
        "cls"
    } else if i == 1 {
        "mean"
    } else if i == 2 {
        "max"
    } else if i == 3 {
        "mean_sqrt_len_tokens"
    } else if i == 4 {
        "weightedmean"
    } else {
        "lasttoken"
    }
}

/// The name of a legacy flag.
fn legacy_flag_of(i: usize) -> (r: &'static str)
    requires
        i < 6,
    ensures
        r@ == legacy_flag(i as int),
{
    if i == 0 {
        "pooling_mode_cls_token"
    } else if i == 1 {
        "pooling_mode_mean_tokens"
    } else if i == 2 {
        "pooling_mode_max_tokens"
    } else if i == 3 {
        "pooling_mode_mean_sqrt_len_tokens"
    } else if i == 4 {
        "pooling_mode_weightedmean_tokens"
    } else {
        "pooling_mode_lasttoken"
    }
}

/// The modes that the first `n` flags set.
pub open spec fn modes_set(flags: Seq<bool>, n: int) -> Seq<Seq<char>>
    decreases n,
{
    if n <= 0 {
        Seq::empty()
    } else if flags[n - 1] {
        modes_set(flags, n - 1).push(legacy_mode(n - 1))
    } else {
        modes_set(flags, n - 1)
    }
}

/// The pooling of a model and the notes on where it is from.
pub open spec fn derived_pooling(
    path: Seq<char>,
    has_mode: bool,
    mode: Option<Seq<char>>,
    flags: Seq<bool>,
) -> Result<(Seq<char>, Seq<Seq<char>>), Seq<char>> {
    if has_mode {
        match mode {
            None => Err("pooling_mode is not a string (tuples are not supported)"@),
            Some(m) => match pooling_named(m) {
                Err(e) => Err(e),
                Ok(p) => Ok((p, seq!["pooling from "@ + path + " (v6 schema): "@ + m])),
            },
        }
    } else {
        let set = modes_set(flags, flags.len() as int);
        if set.len() > 1 {
            Err(
                path + " sets several pooling modes ("@ + joined(set, ", "@)
                    + "); concatenated pooling is not supported"@,
            )
        } else {
            let m = if set.len() == 0 {
                "mean"@
            } else {
                set[0]
            };
            let first = if set.len() == 0 {
                seq![
                    "no pooling flag set in "@ + path + "; sentence-transformers defaults to mean"@,
                ]
            } else {
                Seq::empty()
            };
            match pooling_named(m) {
                Err(e) => Err(e),
                Ok(p) => Ok((p, first.push("pooling from "@ + path + " (legacy schema): "@ + m))),
            }
        }
    }
}

/// The modes that the flags set.
fn modes_set_of(flags: &Vec<bool>) -> (r: Vec<String>)
    requires
        flags.len() == 6,
    ensures
        views(r@) == modes_set(flags@, 6),
{
    let mut set: Vec<String> = Vec::new();
    let mut i: usize = 0;
    proof {
        assert(views(set@) =~= Seq::empty());
    }
    while i < 6
        invariant
            i <= 6,
            flags.len() == 6,
            views(set@) == modes_set(flags@, i as int),
        decreases 6 - i,
    {
        let ghost before = views(set@);
        if flags[i] {
            set.push(legacy_mode_of(i).to_owned());
            proof {
                assert(views(set@) =~= before.push(legacy_mode(i as int)));
            }
        }
        i = i + 1;
    }
    set
}

/// The pooling of a model, from what its pooling configuration says: the mode
/// of the current schema, or the six flags of the older one, none of which
/// means the mean.
pub fn pooling_of(path: &str, has_mode: bool, mode: &Option<String>, flags: &Vec<bool>) -> (r: Result<
    (String, Vec<String>),
    String,
>)
    requires
        flags.len() == 6,
    ensures
        match derived_pooling(path@, has_mode, opt_view(*mode), flags@) {
            Ok(p) => r is Ok && r->Ok_0.0@ == p.0 && views(r->Ok_0.1@) == p.1,
            Err(e) => r is Err && r->Err_0@ == e,
        },
{
    let mut notes: Vec<String> = Vec::new();
    if has_mode {
        let m = match mode {
            None => return Err("pooling_mode is not a string (tuples are not supported)".to_owned()),
            Some(m) => m,
        };
        return match map_pooling(m.as_str()) {
            Err(e) => Err(e),
            Ok(p) => {
                notes.push(cat4("pooling from ", path, " (v6 schema): ", m.as_str()));
                proof {
                    assert(views(notes@) =~= seq!["pooling from "@ + path@ + " (v6 schema): "@ + m@]);
                }
                Ok((p, notes))
            },
        };
    }
    let set = modes_set_of(flags);
    let ghost modes = views(set@);
    if set.len() > 1 {
        return Err(
            cat4(
                path,
                " sets several pooling modes (",
                join_of(&set, ", ").as_str(),
                "); concatenated pooling is not supported",
            ),
        );
    }
    let m: String = if set.len() == 0 {
        notes.push(
            cat3(
                "no pooling flag set in ",
                path,
                "; sentence-transformers defaults to mean",
            ),
        );
        "mean".to_owned()
    } else {
        set[0].clone()
    };
    proof {
        if set.len() > 0 {
            assert(modes[0] == set@[0]@);
        }
    }
    let ghost before = views(notes@);
    match map_pooling(m.as_str()) {
        Err(e) => Err(e),
        Ok(p) => {
            notes.push(cat4("pooling from ", path, " (legacy schema): ", m.as_str()));
            proof {
                let line = "pooling from "@ + path@ + " (legacy schema): "@ + m@;
                assert(views(notes@) =~= before.push(line));
                if set.len() == 0 {
                    assert(before =~= seq![
                        "no pooling flag set in "@ + path@
                            + "; sentence-transformers defaults to mean"@,
                    ]);
                } else {
                    assert(before =~= Seq::empty());
                }
            }
            Ok((p, notes))
        },
    }
}

/// The flag `i` of a pooling configuration: not set unless it is `true`.
pub open spec fn flag_set(doc: Seq<char>, i: int) -> bool {
    json_flag(doc, legacy_flag(i)) == Some(true)
}

/// The pooling of a model, from the text of its pooling configuration.
pub fn read_pooling(path: &str, doc: &str) -> (r: Result<(String, Vec<String>), String>)
    ensures
        match derived_pooling(
            path@,
            json_has(doc@, "pooling_mode"@),
            json_text(doc@, "pooling_mode"@),
            Seq::new(6, |i: int| flag_set(doc@, i)),
        ) {
            Ok(p) => r is Ok && r->Ok_0.0@ == p.0 && views(r->Ok_0.1@) == p.1,
            Err(e) => r is Err && r->Err_0@ == e,
        },
{
    let mut flags: Vec<bool> = Vec::new();
    let mut i: usize = 0;
    while i < 6
        invariant
            i <= 6,
            flags@ == Seq::new(i as nat, |k: int| flag_set(doc@, k)),
        decreases 6 - i,
    {
        let set = match flag_member(doc, legacy_flag_of(i)) {
            Some(b) => b,
            None => false,
        };
        flags.push(set);
        i = i + 1;
        proof {
            assert(flags@ =~= Seq::new(i as nat, |k: int| flag_set(doc@, k)));
        }
    }
    pooling_of(
        path,
        has_member(doc, "pooling_mode"),
        &text_member(doc, "pooling_mode"),
        &flags,
    )
}

/// The note on normalization.
pub fn normalization_note(normalize: bool) -> (r: String)
    ensures
        r@ == "normalization: "@ + (if normalize { "l2 (Normalize module present)"@ } else { "none"@ }),
{
    if normalize {
        cat2("normalization: ", "l2 (Normalize module present)")
    } else {
        cat2("normalization: ", "none")
    }
}

/// What the normalization of a model is called.
pub open spec fn normalize_name(normalize: bool) -> Seq<char> {
    if normalize {
        "l2"@
    } else {
        "none"@
    }
}

/// Pooling, normalization and the notes on them, from the text of `modules.json` and
/// of the pooling configuration at `path`, where they are there.
pub open spec fn pooling_verdict(modules: Option<Seq<char>>, path: Seq<char>, config: Option<Seq<char>>) -> Result<
    (Option<Seq<char>>, Option<Seq<char>>, Seq<Seq<char>>),
    Seq<char>,
> {
    match modules {
        None => Ok((None, None, seq!["no modules.json; pooling and normalization not derived"@])),
        Some(m) => match json_pairs(m, "type"@, "path"@) {
            None => Err("modules.json is not a list"@),
            Some(mods) => match pooling_dir(mods, mods.len() as int) {
                None => Err("modules.json lists no Pooling module"@),
                Some(_) => match config {
                    None => Err(path + " is missing"@),
                    Some(c) => match derived_pooling(
                        path,
                        json_has(c, "pooling_mode"@),
                        json_text(c, "pooling_mode"@),
                        Seq::new(6, |i: int| flag_set(c, i)),
                    ) {
                        Err(e) => Err(e),
                        Ok(p) => {
                            let normalize = has_normalize(mods, mods.len() as int);
                            Ok(
                                (
                                    Some(p.0),
                                    Some(normalize_name(normalize)),
                                    p.1.push(
                                        "normalization: "@ + (if normalize {
                                            "l2 (Normalize module present)"@
                                        } else {
                                            "none"@
                                        }),
                                    ),
                                ),
                            )
                        },
                    },
                },
            },
        },
    }
}

/// Pooling, normalization and the notes on them.
pub fn derive_pooling(modules: &Option<String>, path: &str, config: &Option<String>) -> (r: Result<
    (Option<String>, Option<String>, Vec<String>),
    String,
>)
    ensures
        match pooling_verdict(opt_view(*modules), path@, opt_view(*config)) {
            Err(e) => r is Err && r->Err_0@ == e,
            Ok(v) => {
                &&& r is Ok
                &&& opt_view(r->Ok_0.0) == v.0
                &&& opt_view(r->Ok_0.1) == v.1
                &&& views(r->Ok_0.2@) == v.2
            },
        },
{
    let doc = match modules {
        None => {
            let mut notes: Vec<String> = Vec::new();
            notes.push("no modules.json; pooling and normalization not derived".to_owned());
            proof {
                assert(views(notes@) =~= seq![
                    "no modules.json; pooling and normalization not derived"@,
                ]);
            }
            return Ok((None, None, notes));
        },
        Some(d) => d,
    };
    let (_, normalize) = match read_modules(doc.as_str()) {
        Err(e) => return Err(e),
        Ok(m) => m,
    };
    let cfg = match config {
        None => return Err(cat2(path, " is missing")),
        Some(c) => c,
    };
    let (pooling, notes) = match read_pooling(path, cfg.as_str()) {
        Err(e) => return Err(e),
        Ok(p) => p,
    };
    let mut notes = notes;
    let ghost before = views(notes@);
    let note = normalization_note(normalize);
    let ghost said = note@;
    notes.push(note);
    proof {
        assert(views(notes@) =~= before.push(said));
    }
    let name = if normalize {
        "l2"
    } else {
        "none"
    };
    Ok((Some(pooling), Some(name.to_owned()), notes))
}

/// What the model's configuration files say.
pub struct Facts {
    pub name_or_path: Option<String>,
    pub dir_name: Option<String>,
    pub normalize: Option<bool>,
    pub max_position_embeddings: Option<u64>,
    pub hidden_size: Option<u64>,
    pub vocab_size: Option<u64>,
    pub model_type: Option<String>,
    pub id2label: Option<Vec<(String, Option<String>)>>,
    pub architecture: Option<String>,
    pub prompts: Option<Vec<(String, Option<String>)>>,
    pub default_prompt: Option<String>,
    pub similarity: Option<String>,
    pub max_seq_length: Option<u64>,
    pub chat_template: Option<String>,
}

/// The view of a list of members that may be absent.
pub open spec fn opt_members(v: Option<Vec<(String, Option<String>)>>) -> Option<
    Seq<(Seq<char>, Option<Seq<char>>)>,
> {
    match v {
        Some(m) => Some(members_view(m@)),
        None => None,
    }
}

/// What a document that may be absent says at a place.
pub open spec fn in_doc<T>(doc: Option<String>, at: spec_fn(Seq<char>) -> Option<T>) -> Option<T> {
    match doc {
        Some(d) => at(d@),
        None => None,
    }
}

impl Facts {
    /// Read the configuration files: `config.json`,
    /// `config_sentence_transformers.json`, `sentence_bert_config.json` and
    /// `tokenizer_config.json`, each where it is there.
    pub fn read(
        hf: &Option<String>,
        st: &Option<String>,
        bert: &Option<String>,
        tok: &Option<String>,
        dir_name: Option<String>,
    ) -> (r: Facts)
        ensures
            opt_view(r.name_or_path) == in_doc(*hf, |d: Seq<char>| json_text(d, "_name_or_path"@)),
            r.dir_name == dir_name,
            r.normalize == in_doc(*hf, |d: Seq<char>| json_flag(d, "normalize"@)),
            r.max_position_embeddings == in_doc(
                *hf,
                |d: Seq<char>| json_count(d, "max_position_embeddings"@),
            ),
            r.hidden_size == in_doc(*hf, |d: Seq<char>| json_count(d, "hidden_size"@)),
            r.vocab_size == in_doc(*hf, |d: Seq<char>| json_count(d, "vocab_size"@)),
            opt_view(r.model_type) == in_doc(*hf, |d: Seq<char>| json_text(d, "model_type"@)),
            opt_members(r.id2label) == in_doc(*hf, |d: Seq<char>| json_members(d, "id2label"@)),
            opt_view(r.architecture) == in_doc(*hf, |d: Seq<char>| json_first(d, "architectures"@)),
            opt_members(r.prompts) == in_doc(*st, |d: Seq<char>| json_members(d, "prompts"@)),
            opt_view(r.default_prompt) == in_doc(
                *st,
                |d: Seq<char>| json_text(d, "default_prompt_name"@),
            ),
            opt_view(r.similarity) == in_doc(
                *st,
                |d: Seq<char>| json_text(d, "similarity_fn_name"@),
            ),
            r.max_seq_length == in_doc(*bert, |d: Seq<char>| json_count(d, "max_seq_length"@)),
            opt_view(r.chat_template) == in_doc(*tok, |d: Seq<char>| json_text(d, "chat_template"@)),
    {
        let mut f = Facts {
            name_or_path: None,
            dir_name,
            normalize: None,
            max_position_embeddings: None,
            hidden_size: None,
            vocab_size: None,
            model_type: None,
            id2label: None,
            architecture: None,
            prompts: None,
            default_prompt: None,
            similarity: None,
            max_seq_length: None,
            chat_template: None,
        };
        if let Some(d) = hf {
            f.name_or_path = text_member(d.as_str(), "_name_or_path");
            f.normalize = flag_member(d.as_str(), "normalize");
            f.max_position_embeddings = count_member(d.as_str(), "max_position_embeddings");
            f.hidden_size = count_member(d.as_str(), "hidden_size");
            f.vocab_size = count_member(d.as_str(), "vocab_size");
            f.model_type = text_member(d.as_str(), "model_type");
            f.id2label = object_members(d.as_str(), "id2label");
            f.architecture = first_item(d.as_str(), "architectures");
        }
        if let Some(d) = st {
            f.prompts = object_members(d.as_str(), "prompts");
            f.default_prompt = text_member(d.as_str(), "default_prompt_name");
            f.similarity = text_member(d.as_str(), "similarity_fn_name");
        }
        if let Some(d) = bert {
            f.max_seq_length = count_member(d.as_str(), "max_seq_length");
        }
        if let Some(d) = tok {
            f.chat_template = text_member(d.as_str(), "chat_template");
        }
        f
    }
}

/// The labels among the first `n` members: those whose name is a number and
/// whose value is a string, with that number.
pub open spec fn numbered_labels(m: Seq<(Seq<char>, Option<Seq<char>>)>, n: int) -> Seq<
    (u32, Seq<char>),
>
    decreases n,
{
    if n <= 0 {
        Seq::empty()
    } else {
        let rest = numbered_labels(m, n - 1);
        match unsigned_value(m[n - 1].0, u32::MAX as nat) {
            Some(k) => match m[n - 1].1 {
                Some(l) => rest.push((k as u32, l)),
                None => rest,
            },
            None => rest,
        }
    }
}

/// The labels of a model, in the order of their numbers.
pub open spec fn label_list(m: Option<Seq<(Seq<char>, Option<Seq<char>>)>>) -> Seq<Seq<char>> {
    match m {
        Some(v) => strings_of(numbered_labels(v, v.len() as int).sort_by(number_order())),
        None => Seq::empty(),
    }
}

/// The labels of a model, in the order of their numbers.
pub fn labels_of(m: &Option<Vec<(String, Option<String>)>>) -> (r: Vec<String>)
    ensures
        views(r@) == label_list(opt_members(*m)),
{
    let v = match m {
        None => {
            let out: Vec<String> = Vec::new();
            proof {
                assert(views(out@) =~= Seq::empty());
            }
            return out;
        },
        Some(v) => v,
    };
    let ghost all = members_view(v@);
    let mut found: Vec<(u32, String)> = Vec::new();
    let mut i: usize = 0;
    proof {
        assert(numbered_views(found@) =~= numbered_labels(all, 0));
    }
    while i < v.len()
        invariant
            i <= v.len(),
            all == members_view(v@),
            numbered_views(found@) == numbered_labels(all, i as int),
        decreases v.len() - i,
    {
        let ghost before = numbered_views(found@);
        proof {
            assert(all[i as int] == (v@[i as int].0@, opt_view(v@[i as int].1)));
        }
        if let Some(k) = parse_unsigned(v[i].0.as_str(), 0xffff_ffff) {
            if let Some(l) = &v[i].1 {
                found.push((k as u32, l.clone()));
                proof {
                    assert(numbered_views(found@) =~= before.push((k as u32, l@)));
                }
            }
        }
        i = i + 1;
    }
    sorted_by_number(&found)
}

/// Pooling and normalization of a static table that has no modules: the mean,
/// and what the configuration must say.
pub open spec fn with_static(
    is_static: bool,
    pooling: Option<Seq<char>>,
    normalize: Option<Seq<char>>,
    declared: Option<bool>,
) -> Result<(Option<Seq<char>>, Option<Seq<char>>, Seq<Seq<char>>), Seq<char>> {
    if is_static && pooling is None {
        match declared {
            None => Err(
                "static model: config.json must declare `normalize` (true/false) so the contract is explicit"@,
            ),
            Some(n) => {
                let name = if n {
                    "l2"@
                } else {
                    "none"@
                };
                Ok(
                    (
                        Some("mean"@),
                        Some(name),
                        seq!["static table: pooling mean, normalize "@ + name],
                    ),
                )
            },
        }
    } else {
        Ok((pooling, normalize, Seq::empty()))
    }
}

/// Prompts while they are read: query, document, notes.
pub struct PromptsView {
    pub query: Seq<char>,
    pub document: Seq<char>,
    pub notes: Seq<Seq<char>>,
}

/// The prompts of the first `n` members; one that is no string is refused, one
/// that is neither for queries nor for documents is noted.
pub open spec fn prompts_read(m: Seq<(Seq<char>, Option<Seq<char>>)>, n: int) -> Result<
    PromptsView,
    Seq<char>,
>
    decreases n,
{
    if n <= 0 {
        Ok(PromptsView { query: Seq::empty(), document: Seq::empty(), notes: Seq::empty() })
    } else {
        match prompts_read(m, n - 1) {
            Err(e) => Err(e),
            Ok(p) => match m[n - 1].1 {
                None => Err("prompts."@ + m[n - 1].0 + " is not a string"@),
                Some(t) => if m[n - 1].0 == "query"@ {
                    Ok(PromptsView { query: t, ..p })
                } else if m[n - 1].0 == "document"@ || m[n - 1].0 == "passage"@ {
                    Ok(PromptsView { document: t, ..p })
                } else {
                    Ok(
                        PromptsView {
                            notes: p.notes.push(
                                "ignored prompt `"@ + m[n - 1].0
                                    + "` (only query/document are in the contract)"@,
                            ),
                            ..p
                        },
                    )
                },
            },
        }
    }
}

/// The prompts of a model, all empty where it has none.
pub open spec fn all_prompts(m: Option<Seq<(Seq<char>, Option<Seq<char>>)>>) -> Result<
    PromptsView,
    Seq<char>,
> {
    match m {
        Some(v) => prompts_read(v, v.len() as int),
        None => prompts_read(Seq::empty(), 0),
    }
}

/// A refused prompt decides the whole.
proof fn prompt_refusal_stays(m: Seq<(Seq<char>, Option<Seq<char>>)>, i: int, n: int)
    requires
        0 <= i <= n,
    ensures
        prompts_read(m, i) is Err ==> prompts_read(m, n) == prompts_read(m, i),
    decreases n,
{
    if i < n {
        prompt_refusal_stays(m, i, n - 1);
    }
}

/// Prompt prefixes by role.
#[derive(Debug)]
pub struct Prompts {
    pub query: String,
    pub document: String,
}

/// The prompts of a model and the notes on those left out.
pub fn prompts_of(m: &Option<Vec<(String, Option<String>)>>) -> (r: Result<
    (Prompts, Vec<String>),
    String,
>)
    ensures
        match all_prompts(opt_members(*m)) {
            Ok(p) => r is Ok && r->Ok_0.0.query@ == p.query && r->Ok_0.0.document@ == p.document
                && views(r->Ok_0.1@) == p.notes,
            Err(e) => r is Err && r->Err_0@ == e,
        },
{
    let mut query = String::new();
    let mut document = String::new();
    let mut notes: Vec<String> = Vec::new();
    proof {
        assert(views(notes@) =~= Seq::empty());
    }
    let v = match m {
        None => return Ok((Prompts { query, document }, notes)),
        Some(v) => v,
    };
    let ghost all = members_view(v@);
    let mut i: usize = 0;
    while i < v.len()
        invariant
            i <= v.len(),
            all == members_view(v@),
            opt_members(*m) == Some(all),
            prompts_read(all, i as int) is Ok,
            ({
                let p = prompts_read(all, i as int)->Ok_0;
                query@ == p.query && document@ == p.document && views(notes@) == p.notes
            }),
        decreases v.len() - i,
    {
        proof {
            prompt_refusal_stays(all, i + 1, v.len() as int);
            assert(all[i as int] == (v@[i as int].0@, opt_view(v@[i as int].1)));
        }
        let k = v[i].0.as_str();
        let t = match &v[i].1 {
            None => return Err(cat3("prompts.", k, " is not a string")),
            Some(t) => t,
        };
        if same(k, "query") {
            query = t.clone();
        } else if same(k, "document") || same(k, "passage") {
            document = t.clone();
        } else {
            let ghost before = views(notes@);
            notes.push(
                cat3("ignored prompt `", k, "` (only query/document are in the contract)"),
            );
            proof {
                assert(views(notes@) =~= before.push(
                    "ignored prompt `"@ + k@ + "` (only query/document are in the contract)"@,
                ));
            }
        }
        i = i + 1;
    }
    Ok((Prompts { query, document }, notes))
}

/// Why a size is refused that a manifest cannot hold.
pub open spec fn too_large(what: Seq<char>, n: u64) -> Seq<char> {
    what + " "@ + decimal(n as nat) + " does not fit 32 bits"@
}

/// A size in 32 bits, or its refusal.
pub open spec fn sized(n: u64, what: Seq<char>) -> Result<u32, Seq<char>> {
    if n > u32::MAX {
        Err(too_large(what, n))
    } else {
        Ok(n as u32)
    }
}

/// A size in 32 bits, or its refusal.
fn size_of_u64(n: u64, what: &str) -> (r: Result<u32, String>)
    ensures
        match sized(n, what@) {
            Err(e) => r is Err && r->Err_0@ == e,
            Ok(v) => r == Ok::<u32, String>(v),
        },
{
    if n > u32::MAX as u64 {
        return Err(cat4(what, " ", decimal_of(n as u128).as_str(), " does not fit 32 bits"));
    }
    Ok(n as u32)
}

/// A size that may be absent, in 32 bits.
pub open spec fn opt_sized(n: Option<u64>, what: Seq<char>) -> Result<Option<u32>, Seq<char>> {
    match n {
        None => Ok(None),
        Some(v) => match sized(v, what) {
            Err(e) => Err(e),
            Ok(k) => Ok(Some(k)),
        },
    }
}

/// A size that may be absent, in 32 bits.
fn opt_size_of(n: Option<u64>, what: &str) -> (r: Result<Option<u32>, String>)
    ensures
        match opt_sized(n, what@) {
            Err(e) => r is Err && r->Err_0@ == e,
            Ok(v) => r == Ok::<Option<u32>, String>(v),
        },
{
    match n {
        None => Ok(None),
        Some(v) => match size_of_u64(v, what) {
            Err(e) => Err(e),
            Ok(k) => Ok(Some(k)),
        },
    }
}

/// The sequence limit: as asked, else that of the sentence encoder, else the
/// number of positions of the model, which is noted.
pub open spec fn sequence_limit(
    asked: Option<u32>,
    encoder: Option<u64>,
    positions: Option<u64>,
) -> Result<(Option<u32>, Seq<Seq<char>>), Seq<char>> {
    match asked {
        Some(n) => Ok((Some(n), Seq::empty())),
        None => match encoder {
            Some(n) => match sized(n, "max_seq_length"@) {
                Err(e) => Err(e),
                Ok(k) => Ok((Some(k), Seq::empty())),
            },
            None => match positions {
                Some(n) => match sized(n, "max_position_embeddings"@) {
                    Err(e) => Err(e),
                    Ok(k) => Ok(
                        (
                            Some(k),
                            seq![
                                "max_seq from config.json max_position_embeddings = "@ + decimal(
                                    n as nat,
                                ),
                            ],
                        ),
                    ),
                },
                None => Ok((None, Seq::empty())),
            },
        },
    }
}

/// The kind of model that a name names.
pub open spec fn kind_named(name: Seq<char>) -> Option<ModelKind> {
    if name == "embedding"@ {
        Some(ModelKind::Embedding)
    } else if name == "reranker"@ {
        Some(ModelKind::Reranker)
    } else if name == "classifier"@ {
        Some(ModelKind::Classifier)
    } else if name == "token_classifier"@ {
        Some(ModelKind::TokenClassifier)
    } else if name == "generative"@ {
        Some(ModelKind::Generative)
    } else if name == "generic"@ {
        Some(ModelKind::Generic)
    } else {
        None
    }
}

/// The kind of model that a name names.
pub fn kind_from_name(name: &str) -> (r: Option<ModelKind>)
    ensures
        r == kind_named(name@),
{
    if same(name, "embedding") {
        Some(ModelKind::Embedding)
    } else if same(name, "reranker") {
        Some(ModelKind::Reranker)
    } else if same(name, "classifier") {
        Some(ModelKind::Classifier)
    } else if same(name, "token_classifier") {
        Some(ModelKind::TokenClassifier)
    } else if same(name, "generative") {
        Some(ModelKind::Generative)
    } else if same(name, "generic") {
        Some(ModelKind::Generic)
    } else {
        None
    }
}

/// The task that a kind of model does.
pub open spec fn task_name(kind: ModelKind) -> Seq<char> {
    match kind {
        ModelKind::Embedding => "embed"@,
        ModelKind::Reranker => "rerank"@,
        ModelKind::Classifier => "classify"@,
        ModelKind::TokenClassifier => "token_classify"@,
        ModelKind::Generative => "generate"@,
        ModelKind::Generic => "run"@,
    }
}

/// Whether a name names a task.
pub open spec fn is_task(name: Seq<char>) -> bool {
    name == "embed"@ || name == "rerank"@ || name == "classify"@ || name == "token_classify"@ || name
        == "generate"@ || name == "run"@
}

/// The task that a kind of model does.
fn task_name_of(kind: ModelKind) -> (r: &'static str)
    ensures
        r@ == task_name(kind),
{
    match kind {
        ModelKind::Embedding => "embed",
        ModelKind::Reranker => "rerank",
        ModelKind::Classifier => "classify",
        ModelKind::TokenClassifier => "token_classify",
        ModelKind::Generative => "generate",
        ModelKind::Generic => "run",
    }
}

/// Whether a name names a task.
fn is_task_of(name: &str) -> (r: bool)
    ensures
        r == is_task(name@),
{
    same(name, "embed") || same(name, "rerank") || same(name, "classify") || same(
        name,
        "token_classify",
    ) || same(name, "generate") || same(name, "run")
}

/// The name of a model's kind: as asked, else what its files show.
pub open spec fn inferred_kind(
    asked: Option<Seq<char>>,
    is_static: bool,
    pooled: bool,
    architecture: Seq<char>,
    labels: nat,
) -> Result<Seq<char>, Seq<char>> {
    match asked {
        Some(k) => Ok(k),
        None => if is_static || pooled {
            Ok("embedding"@)
        } else if ends(architecture, "ForSequenceClassification"@) {
            if labels == 1 {
                Ok("reranker"@)
            } else {
                Ok("classifier"@)
            }
        } else if ends(architecture, "ForTokenClassification"@) {
            Ok("token_classifier"@)
        } else if ends(architecture, "ForCausalLM"@) {
            Ok("generative"@)
        } else {
            Err(
                "cannot infer model kind from architectures "@ + quoted(architecture)
                    + "; pass --kind (embedding, reranker, classifier, token_classifier, generative, generic)"@,
            )
        },
    }
}

/// The name of a model's kind.
pub fn infer_kind(
    asked: &Option<String>,
    is_static: bool,
    pooled: bool,
    architecture: &str,
    labels: usize,
) -> (r: Result<String, String>)
    ensures
        match inferred_kind(opt_view(*asked), is_static, pooled, architecture@, labels as nat) {
            Ok(k) => r is Ok && r->Ok_0@ == k,
            Err(e) => r is Err && r->Err_0@ == e,
        },
{
    if let Some(k) = asked {
        return Ok(k.clone());
    }
    if is_static || pooled {
        return Ok("embedding".to_owned());
    }
    if ends_with_of(architecture, "ForSequenceClassification") {
        return Ok(
            if labels == 1 {
                "reranker".to_owned()
            } else {
                "classifier".to_owned()
            },
        );
    }
    if ends_with_of(architecture, "ForTokenClassification") {
        return Ok("token_classifier".to_owned());
    }
    if ends_with_of(architecture, "ForCausalLM") {
        return Ok("generative".to_owned());
    }
    Err(
        cat3(
            "cannot infer model kind from architectures ",
            quote(architecture).as_str(),
            "; pass --kind (embedding, reranker, classifier, token_classifier, generative, generic)",
        ),
    )
}

/// What the manifest of an import is made from.
#[derive(Debug)]
pub struct StageInputs {
    pub model_id: String,
    pub license: String,
    pub task_name: String,
    pub kind_name: String,
    pub kind: ModelKind,
    pub family: String,
    pub pooling: Option<String>,
    pub normalize: Option<String>,
    pub prompts: Prompts,
    pub similarity_fn: Option<String>,
    pub max_seq: Option<u32>,
    pub hidden: Option<u32>,
    pub vocab_size: u32,
    pub labels: Vec<String>,
    pub chat_template: Option<String>,
    /// Notes about derivation decisions.
    pub notes: Vec<String>,
}

/// `StageInputs` with its texts as characters.
pub struct StageView {
    pub model_id: Seq<char>,
    pub license: Seq<char>,
    pub task_name: Seq<char>,
    pub kind_name: Seq<char>,
    pub kind: ModelKind,
    pub family: Seq<char>,
    pub pooling: Option<Seq<char>>,
    pub normalize: Option<Seq<char>>,
    pub query: Seq<char>,
    pub document: Seq<char>,
    pub similarity_fn: Option<Seq<char>>,
    pub max_seq: Option<u32>,
    pub hidden: Option<u32>,
    pub vocab_size: u32,
    pub labels: Seq<Seq<char>>,
    pub chat_template: Option<Seq<char>>,
    pub notes: Seq<Seq<char>>,
}

impl View for StageInputs {
    type V = StageView;

    open spec fn view(&self) -> StageView {
        StageView {
            model_id: self.model_id@,
            license: self.license@,
            task_name: self.task_name@,
            kind_name: self.kind_name@,
            kind: self.kind,
            family: self.family@,
            pooling: opt_view(self.pooling),
            normalize: opt_view(self.normalize),
            query: self.prompts.query@,
            document: self.prompts.document@,
            similarity_fn: opt_view(self.similarity_fn),
            max_seq: self.max_seq,
            hidden: self.hidden,
            vocab_size: self.vocab_size,
            labels: views(self.labels@),
            chat_template: opt_view(self.chat_template),
            notes: views(self.notes@),
        }
    }
}

/// The first of three that is there.
pub open spec fn first_of(
    a: Option<Seq<char>>,
    b: Option<Seq<char>>,
    c: Option<Seq<char>>,
) -> Option<Seq<char>> {
    match a {
        Some(x) => Some(x),
        None => match b {
            Some(x) => Some(x),
            None => c,
        },
    }
}

/// One note, or none.
pub open spec fn note_if(note: Option<Seq<char>>) -> Seq<Seq<char>> {
    match note {
        Some(n) => seq![n],
        None => Seq::empty(),
    }
}

/// The note on a default prompt.
pub open spec fn default_prompt_note(d: Option<Seq<char>>) -> Option<Seq<char>> {
    match d {
        Some(n) => Some(
            "default_prompt_name `"@ + n + "` is informational; callers choose the role per call"@,
        ),
        None => None,
    }
}

/// The sequence limit with the notes on it, the hidden size and the size of the
/// vocabulary, or the refusal of the first that does not fit.
pub open spec fn sizes_plan(asked: Option<u32>, f: Facts) -> Result<
    (Option<u32>, Seq<Seq<char>>, Option<u32>, u32),
    Seq<char>,
> {
    match sequence_limit(asked, f.max_seq_length, f.max_position_embeddings) {
        Err(e) => Err(e),
        Ok(limit) => match opt_sized(f.hidden_size, "hidden_size"@) {
            Err(e) => Err(e),
            Ok(hidden) => match opt_sized(f.vocab_size, "vocab_size"@) {
                Err(e) => Err(e),
                Ok(v) => Ok(
                    (
                        limit.0,
                        limit.1,
                        hidden,
                        match v {
                            Some(n) => n,
                            None => 0,
                        },
                    ),
                ),
            },
        },
    }
}

/// What the manifest of an import is made from, or why it is refused: from the
/// request, the pooling and normalization that were derived, the notes on
/// them, and what the configuration files say.
pub open spec fn stage_plan(
    req: ImportRequest,
    license: Seq<char>,
    pooling: Option<Seq<char>>,
    normalize: Option<Seq<char>>,
    notes: Seq<Seq<char>>,
    f: Facts,
) -> Result<StageView, RefusalView> {
    match first_of(opt_view(req.model_id), opt_view(f.name_or_path), opt_view(f.dir_name)) {
        None => Err(RefusalView::Reason("cannot determine model_id; pass --model-id"@)),
        Some(model_id) => match with_static(
            req.static_from is Some,
            pooling,
            normalize,
            f.normalize,
        ) {
            Err(e) => Err(RefusalView::Reason(e)),
            Ok(sp) => match all_prompts(opt_members(f.prompts)) {
                Err(e) => Err(RefusalView::Reason(e)),
                Ok(p) => match sizes_plan(req.max_seq, f) {
                    Err(e) => Err(RefusalView::Reason(e)),
                    Ok(sizes) => {
                        let labels = label_list(opt_members(f.id2label));
                        match inferred_kind(
                            opt_view(req.kind),
                            req.static_from is Some,
                            sp.0 is Some,
                            or_empty(opt_view(f.architecture)),
                            labels.len(),
                        ) {
                            Err(e) => Err(RefusalView::Reason(e)),
                            Ok(kind_name) => match kind_named(kind_name) {
                                None => Err(RefusalView::UnknownKind(kind_name)),
                                Some(kind) => {
                                    let task = match req.task {
                                        Some(t) => t@,
                                        None => task_name(kind),
                                    };
                                    if !is_task(task) {
                                        Err(RefusalView::UnknownTask(task))
                                    } else {
                                        Ok(
                                            StageView {
                                                model_id,
                                                license,
                                                task_name: task,
                                                kind_name,
                                                kind,
                                                family: or_empty(opt_view(f.model_type)),
                                                pooling: sp.0,
                                                normalize: sp.1,
                                                query: p.query,
                                                document: p.document,
                                                similarity_fn: opt_view(f.similarity),
                                                max_seq: sizes.0,
                                                hidden: sizes.2,
                                                vocab_size: sizes.3,
                                                labels,
                                                chat_template: opt_view(f.chat_template),
                                                notes: notes + sp.2 + p.notes + note_if(
                                                    default_prompt_note(opt_view(f.default_prompt)),
                                                ) + sizes.1 + seq![
                                                    "kind "@ + kind_name + ", task "@ + task,
                                                ],
                                            },
                                        )
                                    }
                                },
                            },
                        }
                    },
                },
            },
        },
    }
}

/// Append notes.
fn add_notes(out: &mut Vec<String>, more: Vec<String>)
    ensures
        views(final(out)@) == views(old(out)@) + views(more@),
{
    let ghost before = views(out@);
    let mut i: usize = 0;
    proof {
        assert(views(out@) =~= before + views(more@).take(0));
    }
    while i < more.len()
        invariant
            i <= more.len(),
            views(out@) == before + views(more@).take(i as int),
        decreases more.len() - i,
    {
        let ghost mid = views(out@);
        out.push(more[i].clone());
        i = i + 1;
        proof {
            assert(views(out@) =~= mid.push(more@[i - 1]@));
            assert(views(out@) =~= before + views(more@).take(i as int));
        }
    }
    proof {
        assert(views(more@).take(i as int) =~= views(more@));
    }
}

/// Append one note.
fn add_note(out: &mut Vec<String>, note: String)
    ensures
        views(final(out)@) == views(old(out)@) + seq![note@],
{
    let ghost before = views(out@);
    out.push(note);
    proof {
        assert(views(out@) =~= before + seq![note@]);
    }
}

/// Pooling and normalization of a static table that has no modules.
fn with_static_of(
    is_static: bool,
    pooling: Option<String>,
    normalize: Option<String>,
    declared: Option<bool>,
    notes: &mut Vec<String>,
) -> (r: Result<(Option<String>, Option<String>), String>)
    ensures
        match with_static(is_static, opt_view(pooling), opt_view(normalize), declared) {
            Err(e) => r is Err && r->Err_0@ == e,
            Ok(s) => {
                &&& r is Ok
                &&& opt_view(r->Ok_0.0) == s.0
                &&& opt_view(r->Ok_0.1) == s.1
                &&& views(final(notes)@) == views(old(notes)@) + s.2
            },
        },
{
    if is_static && pooling.is_none() {
        let n = match declared {
            None => return Err(
                "static model: config.json must declare `normalize` (true/false) so the contract is explicit".to_owned(),
            ),
            Some(n) => n,
        };
        let name = if n {
            "l2"
        } else {
            "none"
        };
        add_note(notes, cat2("static table: pooling mean, normalize ", name));
        return Ok((Some("mean".to_owned()), Some(name.to_owned())));
    }
    proof {
        assert(views(notes@) + Seq::<Seq<char>>::empty() =~= views(notes@));
    }
    Ok((pooling, normalize))
}

/// The sequence limit.
fn sequence_limit_of(
    asked: Option<u32>,
    encoder: Option<u64>,
    positions: Option<u64>,
    notes: &mut Vec<String>,
) -> (r: Result<Option<u32>, String>)
    ensures
        match sequence_limit(asked, encoder, positions) {
            Err(e) => r is Err && r->Err_0@ == e,
            Ok(l) => r == Ok::<Option<u32>, String>(l.0) && views(final(notes)@) == views(old(notes)@)
                + l.1,
        },
{
    proof {
        assert(views(notes@) + Seq::<Seq<char>>::empty() =~= views(notes@));
    }
    if asked.is_some() {
        return Ok(asked);
    }
    if encoder.is_some() {
        return opt_size_of(encoder, "max_seq_length");
    }
    match positions {
        Some(n) => {
            let k = match size_of_u64(n, "max_position_embeddings") {
                Err(e) => return Err(e),
                Ok(k) => k,
            };
            add_note(
                notes,
                cat2(
                    "max_seq from config.json max_position_embeddings = ",
                    decimal_of(n as u128).as_str(),
                ),
            );
            Ok(Some(k))
        },
        None => Ok(None),
    }
}

/// The model's identifier: as asked, else what its configuration calls it, else
/// the name of its directory.
pub fn model_id_of(req: &ImportRequest, f: &Facts) -> (r: Result<String, String>)
    ensures
        match first_of(opt_view(req.model_id), opt_view(f.name_or_path), opt_view(f.dir_name)) {
            Some(m) => r is Ok && r->Ok_0@ == m,
            None => r is Err && r->Err_0@ == "cannot determine model_id; pass --model-id"@,
        },
{
    match (&req.model_id, &f.name_or_path, &f.dir_name) {
        (Some(m), _, _) => Ok(m.clone()),
        (None, Some(m), _) => Ok(m.clone()),
        (None, None, Some(m)) => Ok(m.clone()),
        (None, None, None) => Err("cannot determine model_id; pass --model-id".to_owned()),
    }
}

/// What the manifest of an import is made from.
pub fn import_plan(
    req: &ImportRequest,
    license: String,
    pooling: Option<String>,
    normalize: Option<String>,
    notes: Vec<String>,
    f: &Facts,
) -> (r: Result<StageInputs, Refusal>)
    ensures
        match stage_plan(
            *req,
            license@,
            opt_view(pooling),
            opt_view(normalize),
            views(notes@),
            *f,
        ) {
            Ok(v) => r is Ok && r->Ok_0@ == v,
            Err(e) => r is Err && r->Err_0@ == e,
        },
{
    let mut notes = notes;
    let model_id = match model_id_of(req, f) {
        Err(e) => return Err(Refusal::Reason(e)),
        Ok(m) => m,
    };
    let is_static = req.static_from.is_some();
    let (pooling, normalize) = match with_static_of(
        is_static,
        pooling,
        normalize,
        f.normalize,
        &mut notes,
    ) {
        Err(e) => return Err(Refusal::Reason(e)),
        Ok(p) => p,
    };
    let (prompts, ignored) = match prompts_of(&f.prompts) {
        Err(e) => return Err(Refusal::Reason(e)),
        Ok(p) => p,
    };
    add_notes(&mut notes, ignored);
    let ghost third = views(notes@);
    match &f.default_prompt {
        Some(d) => {
            add_note(
                &mut notes,
                cat3(
                    "default_prompt_name `",
                    d.as_str(),
                    "` is informational; callers choose the role per call",
                ),
            );
        },
        None => {
            proof {
                assert(third + Seq::<Seq<char>>::empty() =~= third);
            }
        },
    }
    let max_seq = match sequence_limit_of(
        req.max_seq,
        f.max_seq_length,
        f.max_position_embeddings,
        &mut notes,
    ) {
        Err(e) => return Err(Refusal::Reason(e)),
        Ok(n) => n,
    };
    let hidden = match opt_size_of(f.hidden_size, "hidden_size") {
        Err(e) => return Err(Refusal::Reason(e)),
        Ok(n) => n,
    };
    let vocab_size: u32 = match opt_size_of(f.vocab_size, "vocab_size") {
        Err(e) => return Err(Refusal::Reason(e)),
        Ok(Some(n)) => n,
        Ok(None) => 0,
    };
    let labels = labels_of(&f.id2label);
    let architecture = match &f.architecture {
        Some(a) => a.clone(),
        None => String::new(),
    };
    proof {
        assert(views(labels@).len() == labels@.len());
    }
    let kind_name = match infer_kind(
        &req.kind,
        is_static,
        pooling.is_some(),
        architecture.as_str(),
        labels.len(),
    ) {
        Err(e) => return Err(Refusal::Reason(e)),
        Ok(k) => k,
    };
    let kind = match kind_from_name(kind_name.as_str()) {
        None => return Err(Refusal::UnknownKind(kind_name)),
        Some(k) => k,
    };
    let task = match &req.task {
        Some(t) => t.clone(),
        None => task_name_of(kind).to_owned(),
    };
    if !is_task_of(task.as_str()) {
        return Err(Refusal::UnknownTask(task));
    }
    add_note(&mut notes, cat4("kind ", kind_name.as_str(), ", task ", task.as_str()));
    Ok(
        StageInputs {
            model_id,
            license,
            task_name: task,
            kind_name,
            kind,
            family: match &f.model_type {
                Some(t) => t.clone(),
                None => String::new(),
            },
            pooling,
            normalize,
            prompts,
            similarity_fn: copy_opt(&f.similarity),
            max_seq,
            hidden,
            vocab_size,
            labels,
            chat_template: copy_opt(&f.chat_template),
            notes,
        },
    )
}

/// The version of the manifest.
pub const BUNDLE_VERSION: u32 = 2;

/// A file of a bundle.
#[derive(Debug)]
pub struct FileEntry {
    pub path: String,
    pub sha256: String,
    pub provenance: Option<String>,
}

/// A file of a bundle with its texts as characters.
pub struct FileView {
    pub path: Seq<char>,
    pub sha256: Seq<char>,
    pub provenance: Option<Seq<char>>,
}

impl View for FileEntry {
    type V = FileView;

    open spec fn view(&self) -> FileView {
        FileView {
            path: self.path@,
            sha256: self.sha256@,
            provenance: opt_view(self.provenance),
        }
    }
}

/// Files by name, each name once, in the order of the names.
#[derive(Debug)]
pub struct Files {
    entries: Vec<(String, FileEntry)>,
}

impl View for Files {
    type V = Map<Seq<char>, FileView>;

    closed spec fn view(&self) -> Map<Seq<char>, FileView> {
        Map::new(
            |n: Seq<char>| self.has(n),
            |n: Seq<char>| self.entries@[self.place(n)].1@,
        )
    }
}

impl Files {
    /// The names in their order.
    pub closed spec fn names(&self) -> Seq<Seq<char>> {
        Seq::new(self.entries@.len(), |i: int| self.entries@[i].0@)
    }

    /// Whether the names ascend, so that none occurs twice.
    pub closed spec fn wf(&self) -> bool {
        ascending(self.names())
    }

    spec fn has(&self, name: Seq<char>) -> bool {
        exists|i: int| 0 <= i < self.entries.len() && (#[trigger] self.entries@[i]).0@ == name
    }

    spec fn place(&self, name: Seq<char>) -> int {
        choose|i: int| 0 <= i < self.entries.len() && (#[trigger] self.entries@[i]).0@ == name
    }

    proof fn place_is(&self, i: int)
        requires
            self.wf(),
            0 <= i < self.entries.len(),
        ensures
            self.has(self.entries@[i].0@),
            self.place(self.entries@[i].0@) == i,
    {
        let n = self.entries@[i].0@;
        let k = self.place(n);
        assert(self.names()[i] == n);
        assert(self.names()[k] == n);
        if i < k {
            assert(self.names()[i] != self.names()[k]);
        }
        if k < i {
            assert(self.names()[k] != self.names()[i]);
        }
    }

    /// No files.
    pub fn new() -> (r: Files)
        ensures
            r.wf(),
            r@ == Map::<Seq<char>, FileView>::empty(),
            r.names() == Seq::<Seq<char>>::empty(),
    {
        let r = Files { entries: Vec::new() };
        proof {
            assert(r@ =~= Map::<Seq<char>, FileView>::empty());
            assert(r.names() =~= Seq::<Seq<char>>::empty());
        }
        r
    }

    /// Whether there are no files.
    pub fn is_empty(&self) -> (r: bool)
        ensures
            r == (self.names().len() == 0),
    {
        self.entries.len() == 0
    }

    /// Put a file under a name, in place of one that is there.
    pub fn put(&mut self, name: &str, file: FileEntry)
        requires
            old(self).wf(),
        ensures
            final(self).wf(),
            final(self)@ == old(self)@.insert(name@, file@),
    {
        let mut i: usize = 0;
        while i < self.entries.len() && !lex_le_of(name, self.entries[i].0.as_str())
            invariant
                i <= self.entries.len(),
                forall|j: int| 0 <= j < i ==> !lex_le(name@, (#[trigger] self.entries@[j]).0@),
            decreases self.entries.len() - i,
        {
            i = i + 1;
        }
        let ghost before = self.entries@;
        let ghost was = *self;
        let there = i < self.entries.len() && same(self.entries[i].0.as_str(), name);
        if there {
            self.entries.set(i, (name.to_owned(), file));
        } else {
            self.entries.insert(i, (name.to_owned(), file));
        }
        proof {
            let after = self.entries@;
            let now = *self;
            assert(after[i as int].0@ == name@ && after[i as int].1@ == file@);
            if there {
                assert forall|k: int| 0 <= k < after.len() implies (#[trigger] after[k]).0@ == before[k].0@ by {}
                assert(now.names() =~= was.names());
            } else {
                assert forall|k: int| 0 <= k < before.len() implies after[if k < i {
                    k
                } else {
                    k + 1
                }] == #[trigger] before[k] by {}
                assert forall|a: int, b: int| 0 <= a < b < after.len() implies lex_le(
                    #[trigger] now.names()[a],
                    #[trigger] now.names()[b],
                ) && now.names()[a] != now.names()[b] by {
                    let x = if a < i {
                        a
                    } else {
                        a - 1
                    };
                    let y = if b < i {
                        b
                    } else {
                        b - 1
                    };
                    if a != i && b != i {
                        assert(now.names()[a] == was.names()[x]);
                        assert(now.names()[b] == was.names()[y]);
                    } else if b == i {
                        assert(!lex_le(name@, before[a].0@));
                        lex_total(name@, before[a].0@);
                        lex_reflexive(name@);
                    } else {
                        assert(lex_le(name@, before[i as int].0@));
                        assert(before[i as int].0@ != name@);
                        if y > i {
                            assert(was.names()[i as int] == before[i as int].0@);
                            assert(was.names()[y] == before[y].0@);
                            lex_transitive(name@, before[i as int].0@, before[y].0@);
                            if name@ == before[y].0@ {
                                lex_antisymmetric(name@, before[i as int].0@);
                            }
                        }
                    }
                }
            }
            assert(now.wf());
            now.place_is(i as int);
            assert forall|n: Seq<char>| n != name@ implies now.has(n) == was.has(n) && (was.has(n)
                ==> now.entries@[now.place(n)].1@ == was.entries@[was.place(n)].1@) by {
                if was.has(n) {
                    let k = was.place(n);
                    let m = if there || k < i {
                        k
                    } else {
                        k + 1
                    };
                    assert(after[m] == before[k]);
                    now.place_is(m);
                }
                if now.has(n) {
                    let k = now.place(n);
                    let m = if there || k < i {
                        k
                    } else {
                        k - 1
                    };
                    assert(k != i);
                    assert(before[m].0@ == n);
                }
            }
            assert(now@ =~= was@.insert(name@, file@));
        }
    }

    /// The name and file at a place in the order of the names.
    pub fn entry(&self, i: usize) -> (r: (&String, &FileEntry))
        requires
            self.wf(),
            i < self.names().len(),
        ensures
            r.0@ == self.names()[i as int],
            self@.contains_key(r.0@),
            r.1@ == self@[r.0@],
    {
        let e = &self.entries[i];
        proof {
            self.place_is(i as int);
        }
        (&e.0, &e.1)
    }

    /// How many files there are.
    pub fn count(&self) -> (r: usize)
        ensures
            r == self.names().len(),
    {
        self.entries.len()
    }
}

/// The files' names are listed in ascending order, each of them once.
pub proof fn files_are_listed_in_order(f: Files)
    requires
        f.wf(),
    ensures
        ascending(f.names()),
        f.names() == in_order(f.names()),
        forall|n: Seq<char>| #[trigger] f.names().contains(n) <==> f@.contains_key(n),
{
    let v = f.names();
    assert(sorted_by(v, name_order())) by {
        assert forall|i: int, j: int| 0 <= i < j < v.len() implies #[trigger] name_order()(v[i], v[j]) by {
            assert(lex_le(v[i], v[j]));
        }
    }
    in_order_unique(v, v);
    assert forall|n: Seq<char>| #[trigger] v.contains(n) <==> f@.contains_key(n) by {
        if v.contains(n) {
            let i = choose|i: int| 0 <= i < v.len() && v[i] == n;
            assert(f.entries@[i].0@ == n);
        }
        if f@.contains_key(n) {
            let k = f.place(n);
            assert(v[k] == n);
        }
    }
}

/// The tokenizer section of a manifest.
#[derive(Debug)]
pub struct TokenizerSpec {
    pub kind: String,
    pub files: Files,
    pub chat_template: Option<String>,
}

/// A tokenizer whose files were staged.
#[derive(Debug)]
pub struct StagedTokenizer {
    pub kind: String,
    pub files: Files,
}

/// The contract section of a manifest.
#[derive(Debug)]
pub struct Contract {
    pub pooling: Option<String>,
    pub normalize: Option<String>,
    pub max_seq: u32,
    pub dim: u32,
    pub truncate_dims: Vec<u32>,
    pub prompts: Prompts,
    pub similarity_fn: Option<String>,
    pub dtype: Option<String>,
    pub vocab_size: u32,
    pub labels: Vec<String>,
    pub activation: Option<String>,
    pub aggregation: Option<String>,
    pub tagging: Option<String>,
}

/// The limits section of a manifest.
#[derive(Clone, Copy, Debug, PartialEq, Eq, Structural)]
pub struct Limits {
    pub max_batch: u32,
    pub fixed_shape: bool,
}

/// A bundle's manifest.
#[derive(Debug)]
pub struct Manifest {
    pub bundle_version: u32,
    pub model_id: String,
    pub revision: String,
    pub license: String,
    pub task: String,
    pub kind: String,
    pub modality: String,
    pub family: String,
    pub tokenizer: Option<TokenizerSpec>,
    pub contract: Contract,
    pub artifacts: Files,
    pub limits: Limits,
}

impl Contract {
    /// Whether the contract says what was derived, on these dimensions.
    pub open spec fn states(&self, inp: StageView, dims: Seq<u32>, dim: u32, vocab_size: u32) -> bool {
        &&& opt_view(self.pooling) == inp.pooling
        &&& opt_view(self.normalize) == inp.normalize
        &&& self.max_seq == (match inp.max_seq {
            Some(n) => n,
            None => 0,
        })
        &&& self.dim == dim
        &&& self.truncate_dims@ == dims
        &&& self.prompts.query@ == inp.query
        &&& self.prompts.document@ == inp.document
        &&& opt_view(self.similarity_fn) == inp.similarity_fn
        &&& opt_view(self.dtype) == Some("f32"@)
        &&& self.vocab_size == vocab_size
        &&& views(self.labels@) == inp.labels
        &&& opt_view(self.activation) == (match inp.kind {
            ModelKind::Classifier => Some("softmax"@),
            ModelKind::Reranker => Some("sigmoid"@),
            _ => None,
        })
        &&& opt_view(self.aggregation) == (if inp.kind == ModelKind::TokenClassifier {
            Some("simple"@)
        } else {
            None
        })
        &&& opt_view(self.tagging) == (if inp.kind == ModelKind::TokenClassifier {
            Some("BIO"@)
        } else {
            None
        })
    }
}

/// Append the numbers.
fn copy_dims(v: &Vec<u32>) -> (r: Vec<u32>)
    ensures
        r@ == v@,
{
    let mut out: Vec<u32> = Vec::new();
    let mut i: usize = 0;
    while i < v.len()
        invariant
            i <= v.len(),
            out@ == v@.take(i as int),
        decreases v.len() - i,
    {
        out.push(v[i]);
        i = i + 1;
        proof {
            assert(out@ =~= v@.take(i as int));
        }
    }
    proof {
        assert(out@ =~= v@);
    }
    out
}

/// A static table that was written to its file.
#[derive(Debug)]
pub struct StaticTable {
    pub rows: u64,
    pub cols: u64,
    /// The tensor it was read from, and the file that the tensor stands in.
    pub tensor: String,
    pub source: String,
    /// The hash of `static.f32`.
    pub sha256: String,
}

/// The bytes of `static.f32`: the numbers of a table, little-endian, in table order.
pub fn static_bytes(table: &Vec<u32>) -> (r: Vec<u8>)
    ensures
        r.len() == 4 * table.len(),
        forall|i: int|
            0 <= i < table.len() ==> r@.subrange(4 * i, 4 * i + 4) == le_bytes(
                #[trigger] table@[i] as nat,
                4,
            ),
{
    let mut out: Vec<u8> = Vec::new();
    let mut n: usize = 0;
    while n < table.len()
        invariant
            n <= table.len(),
            out.len() == 4 * n,
            forall|i: int|
                0 <= i < n ==> out@.subrange(4 * i, 4 * i + 4) == le_bytes(
                    #[trigger] table@[i] as nat,
                    4,
                ),
        decreases table.len() - n,
    {
        let ghost before = out@;
        put_le(&mut out, table[n] as u64, 4);
        proof {
            let last = le_bytes(table@[n as int] as nat, 4);
            reveal_with_fuel(pow256, 5);
            le_round_trip(table@[n as int] as nat, 4);
            assert(out@ == before + last);
            assert(out@.subrange(4 * n as int, 4 * n + 4) =~= last);
            assert forall|i: int| 0 <= i < n implies out@.subrange(4 * i, 4 * i + 4) == le_bytes(
                #[trigger] table@[i] as nat,
                4,
            ) by {
                assert(out@.subrange(4 * i, 4 * i + 4) =~= before.subrange(4 * i, 4 * i + 4));
            }
        }
        n = n + 1;
    }
    out
}

/// The file entry of a static table.
pub open spec fn static_file(t: StaticTable) -> FileView {
    FileView {
        path: "static.f32"@,
        sha256: t.sha256@,
        provenance: Some(
            "tensor `"@ + t.tensor@ + "` of "@ + t.source@ + " as little-endian f32 ["@ + decimal(
                t.rows as nat,
            ) + ", "@ + decimal(t.cols as nat) + "]"@,
        ),
    }
}

/// The dimension and vocabulary size of a bundle and the note on them, or the
/// refusal: those of its static table, else those of the model's configuration.
pub open spec fn bundle_dims(inp: StageView, table: Option<StaticTable>) -> Result<
    (u32, u32, Option<Seq<char>>),
    Seq<char>,
> {
    let hidden = match inp.hidden {
        Some(n) => n,
        None => 0,
    };
    match table {
        None => Ok((hidden, inp.vocab_size, None)),
        Some(t) => static_plan(hidden, inp.vocab_size, t.rows, t.cols),
    }
}

/// The artifacts of a bundle: those that were copied, and its static table.
pub open spec fn all_artifacts(artifacts: Map<Seq<char>, FileView>, table: Option<StaticTable>) -> Map<
    Seq<char>,
    FileView,
> {
    match table {
        None => artifacts,
        Some(t) => artifacts.insert("static"@, static_file(t)),
    }
}

/// The manifest of an import whose files were staged, with the note on its
/// dimensions; or the refusal of a table that does not fit its vocabulary, or of
/// an import that stages nothing.
pub fn stage(
    req: &ImportRequest,
    inp: StageInputs,
    tokenizer: Option<StagedTokenizer>,
    artifacts: Files,
    table: Option<StaticTable>,
) -> (r: Result<(Manifest, Option<String>), String>)
    requires
        artifacts.wf(),
    ensures
        match bundle_dims(inp@, table) {
            Err(e) => r is Err && r->Err_0@ == e,
            Ok(d) => if artifacts.names().len() == 0 && table is None && tokenizer is None {
                &&& r is Err
                &&& r->Err_0@
                    == "no artifacts and no tokenizer; pass --artifact format=path or --static-from"@
            } else {
                &&& r is Ok
                &&& opt_view(r->Ok_0.1) == d.2
                &&& r->Ok_0.0.bundle_version == BUNDLE_VERSION
                &&& r->Ok_0.0.model_id@ == inp@.model_id
                &&& r->Ok_0.0.revision@ == or_empty(opt_view(req.revision))
                &&& r->Ok_0.0.license@ == inp@.license
                &&& r->Ok_0.0.task@ == inp@.task_name
                &&& r->Ok_0.0.kind@ == inp@.kind_name
                &&& r->Ok_0.0.modality@ == "text"@
                &&& r->Ok_0.0.family@ == inp@.family
                &&& match tokenizer {
                    None => r->Ok_0.0.tokenizer is None,
                    Some(t) => {
                        &&& r->Ok_0.0.tokenizer is Some
                        &&& r->Ok_0.0.tokenizer->Some_0.kind == t.kind
                        &&& r->Ok_0.0.tokenizer->Some_0.files == t.files
                        &&& opt_view(r->Ok_0.0.tokenizer->Some_0.chat_template)
                            == inp@.chat_template
                    },
                }
                &&& r->Ok_0.0.contract.states(inp@, req.truncate_dims@, d.0, d.1)
                &&& r->Ok_0.0.artifacts.wf()
                &&& r->Ok_0.0.artifacts@ == all_artifacts(artifacts@, table)
                &&& r->Ok_0.0.limits == (Limits {
                    max_batch: req.max_batch,
                    fixed_shape: req.fixed_shape,
                })
            },
        },
{
    let hidden: u32 = match inp.hidden {
        Some(n) => n,
        None => 0,
    };
    let mut artifacts = artifacts;
    let (dim, vocab_size, note) = match table {
        None => {
            if artifacts.is_empty() && tokenizer.is_none() {
                return Err(
                    "no artifacts and no tokenizer; pass --artifact format=path or --static-from".to_owned(),
                );
            }
            (hidden, inp.vocab_size, None)
        },
        Some(t) => {
            let d = match static_dims(hidden, inp.vocab_size, t.rows, t.cols) {
                Err(e) => return Err(e),
                Ok(d) => d,
            };
            let first = cat5("tensor `", t.tensor.as_str(), "` of ", t.source.as_str(), " as little-endian f32 [");
            let provenance = cat5(
                first.as_str(),
                decimal_of(t.rows as u128).as_str(),
                ", ",
                decimal_of(t.cols as u128).as_str(),
                "]",
            );
            artifacts.put(
                "static",
                FileEntry {
                    path: "static.f32".to_owned(),
                    sha256: t.sha256,
                    provenance: Some(provenance),
                },
            );
            d
        },
    };
    let tokenizer = match tokenizer {
        None => None,
        Some(t) => Some(
            TokenizerSpec { kind: t.kind, files: t.files, chat_template: inp.chat_template },
        ),
    };
    let tagging = inp.kind == ModelKind::TokenClassifier;
    let contract = Contract {
        pooling: inp.pooling,
        normalize: inp.normalize,
        max_seq: match inp.max_seq {
            Some(n) => n,
            None => 0,
        },
        dim,
        truncate_dims: copy_dims(&req.truncate_dims),
        prompts: inp.prompts,
        similarity_fn: inp.similarity_fn,
        dtype: Some("f32".to_owned()),
        vocab_size,
        labels: inp.labels,
        activation: match inp.kind {
            ModelKind::Classifier => Some("softmax".to_owned()),
            ModelKind::Reranker => Some("sigmoid".to_owned()),
            _ => None,
        },
        aggregation: if tagging {
            Some("simple".to_owned())
        } else {
            None
        },
        tagging: if tagging {
            Some("BIO".to_owned())
        } else {
            None
        },
    };
    Ok(
        (
            Manifest {
                bundle_version: BUNDLE_VERSION,
                model_id: inp.model_id,
                revision: match &req.revision {
                    Some(t) => t.clone(),
                    None => String::new(),
                },
                license: inp.license,
                task: inp.task_name,
                kind: inp.kind_name,
                modality: "text".to_owned(),
                family: inp.family,
                tokenizer,
                contract,
                artifacts,
                limits: Limits { max_batch: req.max_batch, fixed_shape: req.fixed_shape },
            },
            note,
        ),
    )
}

/// The tensor that is taken, or the refusal where several stand and none is asked for.
pub open spec fn tensor_chosen(names: Seq<Seq<char>>, asked: Option<Seq<char>>) -> Result<
    Seq<char>,
    Seq<char>,
> {
    match asked {
        Some(t) => Ok(t),
        None => if names.len() == 1 {
            Ok(names[0])
        } else if names.contains("embeddings"@) {
            Ok("embeddings"@)
        } else {
            Err(
                "safetensors has several tensors ("@ + joined(names, ", "@)
                    + "); name one with path:tensor"@,
            )
        },
    }
}

/// The tensor of a static table: the one that is asked for, else the only one,
/// else the one named `embeddings`.
pub fn choose_tensor(names: &Vec<String>, asked: &Option<String>) -> (r: Result<String, String>)
    ensures
        match tensor_chosen(views(names@), opt_view(*asked)) {
            Ok(t) => r is Ok && r->Ok_0@ == t,
            Err(e) => r is Err && r->Err_0@ == e,
        },
{
    if let Some(t) = asked {
        return Ok(t.clone());
    }
    if names.len() == 1 {
        return Ok(names[0].clone());
    }
    if holds(names, "embeddings") {
        return Ok("embeddings".to_owned());
    }
    Err(
        cat3(
            "safetensors has several tensors (",
            join_of(names, ", ").as_str(),
            "); name one with path:tensor",
        ),
    )
}

/// The dimensions of a bundle with a static table of this shape: the table's,
/// noting a hidden size they override. A vocabulary of another size is refused,
/// and a table that a manifest cannot describe.
pub open spec fn static_plan(hidden: u32, vocab_size: u32, rows: u64, cols: u64) -> Result<
    (u32, u32, Option<Seq<char>>),
    Seq<char>,
> {
    if vocab_size != 0 && vocab_size != rows {
        Err(
            "static table has "@ + decimal(rows as nat) + " rows but the tokenizer vocabulary is "@
                + decimal(vocab_size as nat),
        )
    } else if rows > u32::MAX {
        Err(too_large("static table rows"@, rows))
    } else if cols > u32::MAX {
        Err(too_large("static table dim"@, cols))
    } else {
        Ok(
            (
                cols as u32,
                rows as u32,
                if hidden != 0 && hidden != cols {
                    Some(
                        "static table dim "@ + decimal(cols as nat)
                            + " overrides config.json hidden_size "@ + decimal(hidden as nat),
                    )
                } else {
                    None
                },
            ),
        )
    }
}

/// The dimensions of a bundle with a static table of this shape.
pub fn static_dims(hidden: u32, vocab_size: u32, rows: u64, cols: u64) -> (r: Result<
    (u32, u32, Option<String>),
    String,
>)
    ensures
        match static_plan(hidden, vocab_size, rows, cols) {
            Err(e) => r is Err && r->Err_0@ == e,
            Ok(d) => r is Ok && r->Ok_0.0 == d.0 && r->Ok_0.1 == d.1 && opt_view(r->Ok_0.2) == d.2,
        },
{
    if vocab_size != 0 && vocab_size as u64 != rows {
        return Err(
            cat4(
                "static table has ",
                decimal_of(rows as u128).as_str(),
                " rows but the tokenizer vocabulary is ",
                decimal_of(vocab_size as u128).as_str(),
            ),
        );
    }
    let height = match size_of_u64(rows, "static table rows") {
        Err(e) => return Err(e),
        Ok(n) => n,
    };
    let dim = match size_of_u64(cols, "static table dim") {
        Err(e) => return Err(e),
        Ok(n) => n,
    };
    let note = if hidden != 0 && hidden != dim {
        Some(
            cat4(
                "static table dim ",
                decimal_of(cols as u128).as_str(),
                " overrides config.json hidden_size ",
                decimal_of(hidden as u128).as_str(),
            ),
        )
    } else {
        None
    };
    Ok((dim, height, note))
}

/// The dimensions of a static bundle are those of its table, whatever its
/// configuration says, and a vocabulary of another size is refused.
pub proof fn a_table_gives_its_dimensions(inp: StageView, t: StaticTable)
    ensures
        match bundle_dims(inp, Some(t)) {
            Ok(d) => d.0 == t.cols && d.1 == t.rows && (inp.vocab_size == 0 || inp.vocab_size == t.rows),
            Err(_) => (inp.vocab_size != 0 && inp.vocab_size != t.rows) || t.rows > u32::MAX || t.cols
                > u32::MAX,
        },
{
}

/// The kind of a tokenizer, from its model's type.
pub open spec fn tokenizer_kind(ty: Seq<char>) -> Result<Seq<char>, Seq<char>> {
    if ty == "WordPiece"@ {
        Ok("wordpiece"@)
    } else if ty == "BPE"@ {
        Ok("bpe"@)
    } else if ty == "Unigram"@ {
        Ok("unigram"@)
    } else if ty == "WordLevel"@ {
        Ok("wordlevel"@)
    } else {
        Err("tokenizer.json model type `"@ + ty + "` is not recognized"@)
    }
}

/// The kind of a tokenizer, from its model's type.
pub fn tokenizer_kind_of(ty: &str) -> (r: Result<String, String>)
    ensures
        match tokenizer_kind(ty@) {
            Ok(k) => r is Ok && r->Ok_0@ == k,
            Err(e) => r is Err && r->Err_0@ == e,
        },
{
    if same(ty, "WordPiece") {
        Ok("wordpiece".to_owned())
    } else if same(ty, "BPE") {
        Ok("bpe".to_owned())
    } else if same(ty, "Unigram") {
        Ok("unigram".to_owned())
    } else if same(ty, "WordLevel") {
        Ok("wordlevel".to_owned())
    } else {
        Err(cat3("tokenizer.json model type `", ty, "` is not recognized"))
    }
}

/// The kind of a tokenizer, from the text of `tokenizer.json`.
pub fn detect_tokenizer_kind(doc: &str) -> (r: Result<String, String>)
    ensures
        match tokenizer_kind(or_empty(json_inner(doc@, "model"@, "type"@))) {
            Ok(k) => r is Ok && r->Ok_0@ == k,
            Err(e) => r is Err && r->Err_0@ == e,
        },
{
    let ty = match inner_text(doc, "model", "type") {
        Some(t) => t,
        None => String::new(),
    };
    tokenizer_kind_of(ty.as_str())
}

/// A line of a vocabulary without the carriage returns at its end.
pub open spec fn trimmed(s: Seq<char>) -> Seq<char>
    decreases s.len(),
{
    if s.len() > 0 && s.last() == '\r' {
        trimmed(s.drop_last())
    } else {
        s
    }
}

/// The lines of a text: what stands between its line breaks, without the empty
/// piece behind a last one.
pub open spec fn lines(s: Seq<char>) -> Seq<Seq<char>> {
    let p = split_on(s, '\n');
    if p.len() > 0 && p.last().len() == 0 {
        p.drop_last()
    } else {
        p
    }
}

/// The first `n` tokens of a vocabulary, one per line, or the refusal of the
/// first that is empty or stood before.
pub open spec fn vocabulary(l: Seq<Seq<char>>, path: Seq<char>, n: int) -> Result<
    Seq<Seq<char>>,
    Seq<char>,
>
    decreases n,
{
    if n <= 0 {
        Ok(Seq::empty())
    } else {
        match vocabulary(l, path, n - 1) {
            Err(e) => Err(e),
            Ok(tokens) => {
                let t = trimmed(l[n - 1]);
                if t.len() == 0 {
                    Err(path + ": line "@ + decimal(n as nat) + " is empty"@)
                } else if tokens.contains(t) {
                    Err(path + ": duplicate token `"@ + t + "` at line "@ + decimal(n as nat))
                } else {
                    Ok(tokens.push(t))
                }
            },
        }
    }
}

/// A refused line decides the whole.
proof fn vocabulary_refusal_stays(l: Seq<Seq<char>>, path: Seq<char>, i: int, n: int)
    requires
        0 <= i <= n,
    ensures
        vocabulary(l, path, i) is Err ==> vocabulary(l, path, n) == vocabulary(l, path, i),
    decreases n,
{
    if i < n {
        vocabulary_refusal_stays(l, path, i, n - 1);
    }
}

/// A line without the carriage returns at its end.
fn trimmed_of(s: &str) -> (r: String)
    ensures
        r@ == trimmed(s@),
{
    let c = chars_of(s);
    let mut n: usize = c.len();
    proof {
        assert(c@.take(n as int) =~= c@);
    }
    while n > 0 && c[n - 1] == '\r'
        invariant
            n <= c.len(),
            trimmed(c@.take(n as int)) == trimmed(c@),
        decreases n,
    {
        proof {
            assert(c@.take(n as int).drop_last() =~= c@.take(n - 1));
        }
        n = n - 1;
    }
    let t = slice_of(&c, 0, n);
    proof {
        assert(t@ =~= c@.take(n as int));
    }
    t
}

/// The tokens of a `vocab.txt`; a token's id is its place.
pub fn vocab_tokens(text: &str, path: &str) -> (r: Result<Vec<String>, String>)
    ensures
        match vocabulary(lines(text@), path@, lines(text@).len() as int) {
            Ok(t) => r is Ok && views(r->Ok_0@) == t,
            Err(e) => r is Err && r->Err_0@ == e,
        },
{
    let pieces = split_of(text, '\n');
    let ghost p = views(pieces@);
    let last = pieces.len() - 1;
    let n: usize = if pieces[last].as_str().is_empty() {
        last
    } else {
        pieces.len()
    };
    let ghost l = lines(text@);
    proof {
        assert(p.last() == pieces@[last as int]@);
        assert(l =~= p.take(n as int));
    }
    let mut tokens: Vec<String> = Vec::new();
    let mut i: usize = 0;
    proof {
        assert(views(tokens@) =~= Seq::empty());
    }
    while i < n
        invariant
            i <= n <= pieces.len(),
            p == views(pieces@),
            l == p.take(n as int),
            l == lines(text@),
            vocabulary(l, path@, i as int) == Ok::<Seq<Seq<char>>, Seq<char>>(views(tokens@)),
        decreases n - i,
    {
        proof {
            vocabulary_refusal_stays(l, path@, i + 1, n as int);
            assert(l[i as int] == pieces@[i as int]@);
        }
        let t = trimmed_of(pieces[i].as_str());
        if t.as_str().is_empty() {
            return Err(
                cat4(path, ": line ", decimal_of(i as u128 + 1).as_str(), " is empty"),
            );
        }
        if holds(&tokens, t.as_str()) {
            return Err(
                cat5(
                    path,
                    ": duplicate token `",
                    t.as_str(),
                    "` at line ",
                    decimal_of(i as u128 + 1).as_str(),
                ),
            );
        }
        let ghost before = views(tokens@);
        let ghost token = t@;
        tokens.push(t);
        proof {
            assert(views(tokens@) =~= before.push(token));
        }
        i = i + 1;
    }
    Ok(tokens)
}

/// Where a token stands in a vocabulary; its length if nowhere.
pub open spec fn token_at(tokens: Seq<Seq<char>>, name: Seq<char>, i: int) -> int
    decreases tokens.len() - i,
{
    if 0 <= i < tokens.len() && tokens[i] != name {
        token_at(tokens, name, i + 1)
    } else {
        i
    }
}

/// The id of a special token, or the refusal of a vocabulary without it.
pub fn special_token(tokens: &Vec<String>, name: &str, path: &str) -> (r: Result<usize, String>)
    ensures
        ({
            let at = token_at(views(tokens@), name@, 0);
            if at < tokens.len() {
                r is Ok && r->Ok_0 == at
            } else {
                r is Err && r->Err_0@ == path@ + ": special token "@ + name@ + " is missing"@
            }
        }),
{
    let mut i: usize = 0;
    while i < tokens.len() && !same(tokens[i].as_str(), name)
        invariant
            i <= tokens.len(),
            token_at(views(tokens@), name@, i as int) == token_at(views(tokens@), name@, 0),
        decreases tokens.len() - i,
    {
        assert(views(tokens@)[i as int] == tokens@[i as int]@);
        i = i + 1;
    }
    if i < tokens.len() {
        assert(views(tokens@)[i as int] == tokens@[i as int]@);
        return Ok(i);
    }
    Err(cat4(path, ": special token ", name, " is missing"))
}

/// An artifact argument: a format and a path with `=` between them.
pub open spec fn artifact_parts(a: Seq<char>) -> Result<(Seq<char>, Seq<char>), Seq<char>> {
    let i = first_at(a, '=') as int;
    if 0 < i < a.len() - 1 {
        Ok((a.take(i), a.skip(i + 1)))
    } else {
        Err("--artifact `"@ + a + "` must be FORMAT=PATH"@)
    }
}

/// An artifact argument: a format and a path.
pub fn artifact_arg(a: &str) -> (r: Result<(String, String), String>)
    ensures
        match artifact_parts(a@) {
            Ok(p) => r is Ok && r->Ok_0.0@ == p.0 && r->Ok_0.1@ == p.1,
            Err(e) => r is Err && r->Err_0@ == e,
        },
{
    proof {
        first_at_is_first(a@, '=');
    }
    if let Some((f, p)) = split_once_of(a, '=') {
        if !f.as_str().is_empty() && !p.as_str().is_empty() {
            return Ok((f, p));
        }
    }
    Err(cat3("--artifact `", a, "` must be FORMAT=PATH"))
}

/// A static table argument: a path, and behind the last `:` a tensor, unless
/// what stands there is a part of the path.
pub open spec fn static_parts(s: Seq<char>) -> (Seq<char>, Option<Seq<char>>) {
    let i = last_at(s, ':');
    if i > 0 && !s.skip(i + 1).contains('/') && !s.skip(i + 1).contains('\\') {
        (s.take(i), Some(s.skip(i + 1)))
    } else {
        (s, None)
    }
}

/// Whether a string holds a character.
fn has_char(s: &str, c: char) -> (r: bool)
    ensures
        r == s@.contains(c),
{
    let v = chars_of(s);
    let mut i: usize = 0;
    while i < v.len()
        invariant
            i <= v.len(),
            v@ == s@,
            forall|j: int| 0 <= j < i ==> v@[j] != c,
        decreases v.len() - i,
    {
        if v[i] == c {
            return true;
        }
        i = i + 1;
    }
    false
}

/// A static table argument: a path and the tensor in it.
pub fn static_arg(s: &str) -> (r: (String, Option<String>))
    ensures
        r.0@ == static_parts(s@).0,
        opt_view(r.1) == static_parts(s@).1,
{
    proof {
        last_at_bounds(s@, ':');
    }
    if let Some((p, t)) = rsplit_once_of(s, ':') {
        if !has_char(t.as_str(), '/') && !has_char(t.as_str(), '\\') && !p.as_str().is_empty() {
            return (p, Some(t));
        }
    }
    (s.to_owned(), None)
}

/// No token of an accepted vocabulary occurs twice, so that every token has one id.
pub proof fn vocabulary_is_unique(l: Seq<Seq<char>>, path: Seq<char>, n: int)
    requires
        0 <= n,
        vocabulary(l, path, n) is Ok,
    ensures
        vocabulary(l, path, n)->Ok_0.no_duplicates(),
        vocabulary(l, path, n)->Ok_0.len() == n,
    decreases n,
{
    if n > 0 {
        vocabulary_is_unique(l, path, n - 1);
        let before = vocabulary(l, path, n - 1)->Ok_0;
        let after = vocabulary(l, path, n)->Ok_0;
        assert forall|i: int, j: int| 0 <= i < after.len() && 0 <= j < after.len() && i != j implies after[i]
            != after[j] by {
            if i == n - 1 {
                assert(before.contains(before[j]));
            } else if j == n - 1 {
                assert(before.contains(before[i]));
            } else {
                assert(before[i] != before[j]);
            }
        }
    }
}

/// Every legacy flag is named after the mode that it sets.
pub proof fn a_legacy_flag_is_named_after_its_mode(i: int)
    requires
        0 <= i < 6,
    ensures
        legacy_flag(i).take(13) == "pooling_mode_"@,
        legacy_flag(i).skip(13).take(legacy_mode(i).len() as int) == legacy_mode(i),
        legacy_flag(i) == "pooling_mode_cls_token"@ ==> legacy_mode(i) == "cls"@,
        legacy_flag(i) == "pooling_mode_mean_tokens"@ ==> legacy_mode(i) == "mean"@,
        legacy_flag(i) == "pooling_mode_lasttoken"@ ==> legacy_mode(i) == "lasttoken"@,
{
    reveal_strlit("pooling_mode_");
    reveal_strlit("cls");
    reveal_strlit("mean");
    reveal_strlit("max");
    reveal_strlit("mean_sqrt_len_tokens");
    reveal_strlit("weightedmean");
    reveal_strlit("lasttoken");
    reveal_strlit("pooling_mode_cls_token");
    reveal_strlit("pooling_mode_mean_tokens");
    reveal_strlit("pooling_mode_max_tokens");
    reveal_strlit("pooling_mode_mean_sqrt_len_tokens");
    reveal_strlit("pooling_mode_weightedmean_tokens");
    reveal_strlit("pooling_mode_lasttoken");
    assert(legacy_flag(i).take(13) =~= "pooling_mode_"@);
    assert(legacy_flag(i).skip(13).take(legacy_mode(i).len() as int) =~= legacy_mode(i));
    let (c, m, l) = ("pooling_mode_cls_token"@, "pooling_mode_mean_tokens"@, "pooling_mode_lasttoken"@);
    assert(c.len() == 22 && m.len() == 24 && l.len() == 22 && c[13] == 'c' && l[13] == 'l' && m[14] == 'e');
    assert("pooling_mode_max_tokens"@.len() == 23);
    assert("pooling_mode_mean_sqrt_len_tokens"@.len() == 33);
    assert("pooling_mode_weightedmean_tokens"@.len() == 32);
}

/// The pooling of a model of the older schema. One flag gives its own mode's pooling,
/// no flag the mean, and several are refused; so is a mode without a pooling.
pub proof fn one_flag_gives_its_pooling(path: Seq<char>, flags: Seq<bool>, i: int)
    requires
        flags.len() == 6,
        0 <= i < 6,
    ensures
        ({
            let none = forall|k: int| 0 <= k < 6 ==> !#[trigger] flags[k];
            let only = flags[i] && forall|k: int| 0 <= k < 6 && k != i ==> !#[trigger] flags[k];
            let p = derived_pooling(path, false, None, flags);
            &&& none ==> p is Ok && p->Ok_0.0 == "mean"@
            &&& only && legacy_flag(i) == "pooling_mode_cls_token"@ ==> p is Ok && p->Ok_0.0 == "cls"@
            &&& only && legacy_flag(i) == "pooling_mode_mean_tokens"@ ==> p is Ok && p->Ok_0.0 == "mean"@
            &&& only && legacy_flag(i) == "pooling_mode_lasttoken"@ ==> p is Ok && p->Ok_0.0 == "last"@
            &&& !none && !(exists|k: int|
                0 <= k < 6 && flags[k] && forall|m: int| 0 <= m < 6 && m != k ==> !#[trigger] flags[m])
                ==> p is Err
        }),
{
    reveal_with_fuel(modes_set, 7);
    a_legacy_flag_is_named_after_its_mode(i);
    a_pooling_is_mapped_to_itself("mean"@);
    a_pooling_is_mapped_to_itself("cls"@);
    a_pooling_is_mapped_to_itself("lasttoken"@);
    assert(modes_set(flags, 0).len() == 0);
    let set = modes_set(flags, 6);
    let (a, b, c) = (flags[0], flags[1], flags[2]);
    let (d, e, f) = (flags[3], flags[4], flags[5]);
    if set.len() == 1 {
        let k = if a {
            0
        } else if b {
            1
        } else if c {
            2
        } else if d {
            3
        } else if e {
            4
        } else {
            5int
        };
        assert(flags[k]);
    }
    if flags[i] && forall|k: int| 0 <= k < 6 && k != i ==> !#[trigger] flags[k] {
        assert(set =~= seq![legacy_mode(i)]);
    }
}

/// The pooling of the newer schema is that of the mode it names.
pub proof fn a_named_mode_gives_its_pooling(path: Seq<char>, mode: Option<Seq<char>>, flags: Seq<bool>)
    ensures
        ({
            let p = derived_pooling(path, true, mode, flags);
            &&& mode is None ==> p is Err
            &&& mode == Some("cls"@) ==> p is Ok && p->Ok_0.0 == "cls"@
            &&& mode == Some("mean"@) ==> p is Ok && p->Ok_0.0 == "mean"@
            &&& mode == Some("last"@) || mode == Some("lasttoken"@) ==> p is Ok && p->Ok_0.0 == "last"@
        }),
{
    if mode is Some {
        a_pooling_is_mapped_to_itself(mode->0);
    }
}

/// The pooling of a list of modules is read from the last that pools, and its vectors
/// are normalized where a module says so.
pub proof fn modules_give_pooling_and_normalization(
    mods: Seq<(Option<Seq<char>>, Option<Seq<char>>)>,
    n: int,
)
    requires
        0 <= n <= mods.len(),
    ensures
        pooling_dir(mods, n) is None <==> forall|i: int|
            0 <= i < n ==> !ends(or_empty((#[trigger] mods[i]).0), "Pooling"@),
        forall|i: int|
            0 <= i < n && ends(or_empty((#[trigger] mods[i]).0), "Pooling"@) && (forall|k: int|
                i < k < n ==> !ends(or_empty((#[trigger] mods[k]).0), "Pooling"@)) ==> pooling_dir(mods, n)
                == Some(or_empty(mods[i].1)),
        has_normalize(mods, n) <==> exists|i: int|
            0 <= i < n && ends(or_empty((#[trigger] mods[i]).0), "Normalize"@),
        normalize_name(true) == "l2"@,
        normalize_name(false) == "none"@,
    decreases n,
{
    if n > 0 {
        modules_give_pooling_and_normalization(mods, n - 1);
        let s = or_empty(mods[n - 1].0);
        pooling_does_not_normalize(s);
        if has_normalize(mods, n - 1) {
            let i = choose|i: int| 0 <= i < n - 1 && ends(or_empty((#[trigger] mods[i]).0), "Normalize"@);
            assert(ends(or_empty(mods[i].0), "Normalize"@));
        }
    }
}

/// No type ends in both words.
proof fn pooling_does_not_normalize(s: Seq<char>)
    ensures
        !(ends(s, "Pooling"@) && ends(s, "Normalize"@)),
{
    reveal_strlit("Pooling");
    reveal_strlit("Normalize");
    if ends(s, "Pooling"@) && ends(s, "Normalize"@) {
        assert(s.skip(s.len() - 7)[6] == 'g');
        assert(s.skip(s.len() - 9)[8] == 'e');
        assert(s[s.len() - 1] == 'g' && s[s.len() - 1] == 'e');
    }
}

/// A kind has one name and one task, each its own.
pub proof fn kinds_and_tasks_have_their_names(name: Seq<char>)
    ensures
        kind_named(name) == Some(ModelKind::Embedding) <==> name == "embedding"@,
        kind_named(name) == Some(ModelKind::Reranker) <==> name == "reranker"@,
        kind_named(name) == Some(ModelKind::Classifier) <==> name == "classifier"@,
        kind_named(name) == Some(ModelKind::TokenClassifier) <==> name == "token_classifier"@,
        kind_named(name) == Some(ModelKind::Generative) <==> name == "generative"@,
        kind_named(name) == Some(ModelKind::Generic) <==> name == "generic"@,
        task_name(ModelKind::Embedding) == "embed"@,
        task_name(ModelKind::Reranker) == "rerank"@,
        task_name(ModelKind::Classifier) == "classify"@,
        task_name(ModelKind::TokenClassifier) == "token_classify"@,
        task_name(ModelKind::Generative) == "generate"@,
        task_name(ModelKind::Generic) == "run"@,
        is_task(name) <==> exists|k: ModelKind| #[trigger] task_name(k) == name,
{
    reveal_strlit("embedding");
    reveal_strlit("reranker");
    reveal_strlit("classifier");
    reveal_strlit("token_classifier");
    reveal_strlit("generative");
    reveal_strlit("generic");
    assert("embedding"@[0] == 'e' && "reranker"@[0] == 'r' && "classifier"@[0] == 'c'
        && "token_classifier"@[0] == 't' && "generative"@[0] == 'g' && "generic"@[0] == 'g');
    assert("generative"@.len() == 10 && "generic"@.len() == 7);
    if is_task(name) {
        assert(task_name(ModelKind::Embedding) == name || task_name(ModelKind::Reranker) == name || task_name(
            ModelKind::Classifier,
        ) == name || task_name(ModelKind::TokenClassifier) == name || task_name(ModelKind::Generative)
            == name || task_name(ModelKind::Generic) == name);
    }
}

/// The kind of a model: the one that was asked for; else an embedding model where it is
/// a static table or pools; else what its architecture ends in, a sequence classifier
/// with one label being a reranker.
pub proof fn the_kind_is_asked_for_or_read_off(
    asked: Option<Seq<char>>,
    is_static: bool,
    pooled: bool,
    model: Seq<char>,
    labels: nat,
)
    ensures
        asked matches Some(k) ==> inferred_kind(asked, is_static, pooled, model, labels) == Ok::<
            Seq<char>,
            Seq<char>,
        >(k),
        asked is None && (is_static || pooled) ==> inferred_kind(asked, is_static, pooled, model, labels)
            == Ok::<Seq<char>, Seq<char>>("embedding"@),
        asked is None && !is_static && !pooled ==> {
            &&& inferred_kind(
                asked,
                is_static,
                pooled,
                model + "ForSequenceClassification"@,
                labels,
            ) == Ok::<Seq<char>, Seq<char>>(
                if labels == 1 {
                    "reranker"@
                } else {
                    "classifier"@
                },
            )
            &&& inferred_kind(asked, is_static, pooled, model + "ForTokenClassification"@, labels) == Ok::<
                Seq<char>,
                Seq<char>,
            >("token_classifier"@)
            &&& inferred_kind(asked, is_static, pooled, model + "ForCausalLM"@, labels) == Ok::<
                Seq<char>,
                Seq<char>,
            >("generative"@)
        },
{
    let (s, t, c) = ("ForSequenceClassification"@, "ForTokenClassification"@, "ForCausalLM"@);
    reveal_strlit("ForSequenceClassification");
    reveal_strlit("ForTokenClassification");
    reveal_strlit("ForCausalLM");
    assert((model + s).skip(model.len() as int) =~= s);
    assert((model + t).skip(model.len() as int) =~= t);
    assert((model + c).skip(model.len() as int) =~= c);
    if ends(model + t, s) {
        let w = (model + t).skip((model + t).len() - s.len());
        assert(w[s.len() - 15] == t[t.len() - 15]);
    }
    if ends(model + c, s) {
        let w = (model + c).skip((model + c).len() - s.len());
        assert(w[s.len() - 1] == c[c.len() - 1]);
    }
    if ends(model + c, t) {
        let w = (model + c).skip((model + c).len() - t.len());
        assert(w[t.len() - 1] == c[c.len() - 1]);
    }
}

/// The label of a class is the text under its number: where the members of the map are
/// numbered in some order, the list is the texts in the order of the numbers.
pub proof fn labels_stand_in_the_order_of_their_numbers(
    m: Seq<(Seq<char>, Option<Seq<char>>)>,
    sorted: Seq<(u32, Seq<char>)>,
)
    requires
        sorted.to_multiset() == numbered_labels(m, m.len() as int).to_multiset(),
        forall|i: int, j: int| 0 <= i < j < sorted.len() ==> (#[trigger] sorted[i]).0 < (#[trigger] sorted[j]).0,
    ensures
        label_list(Some(m)).len() == sorted.len(),
        forall|i: int| 0 <= i < sorted.len() ==> #[trigger] label_list(Some(m))[i] == sorted[i].1,
{
    let v = numbered_labels(m, m.len() as int);
    let r = number_order();
    crate::order::number_order_is_total();
    v.lemma_sort_by_ensures(r);
    assert(vstd::relations::sorted_by(sorted, r)) by {
        assert forall|i: int, j: int| 0 <= i < j < sorted.len() implies #[trigger] r(sorted[i], sorted[j]) by {
            assert(sorted[i].0 < sorted[j].0);
        }
    }
    vstd::seq_lib::lemma_sorted_unique(sorted, v.sort_by(r), r);
}

/// A member of the label map counts where its name is a number and its value a text.
pub proof fn a_label_counts_under_its_number(m: Seq<(Seq<char>, Option<Seq<char>>)>, n: int)
    requires
        0 < n <= m.len(),
    ensures
        ({
            let k = unsigned_value(m[n - 1].0, u32::MAX as nat);
            &&& k is Some && m[n - 1].1 is Some ==> numbered_labels(m, n) == numbered_labels(m, n - 1).push(
                (k->0 as u32, m[n - 1].1->0),
            )
            &&& k is None || m[n - 1].1 is None ==> numbered_labels(m, n) == numbered_labels(m, n - 1)
        }),
{
}

/// The prompt of a role is the last that is given under its name: `query` for queries,
/// `document` or `passage` for documents.
pub proof fn prompts_are_those_of_their_roles(m: Seq<(Seq<char>, Option<Seq<char>>)>, n: int, i: int)
    requires
        0 <= i < n <= m.len(),
        prompts_read(m, n) is Ok,
    ensures
        m[i].1 is Some,
        m[i].0 == "query"@ && (forall|k: int| i < k < n ==> (#[trigger] m[k]).0 != "query"@)
            ==> prompts_read(m, n)->Ok_0.query == m[i].1->0,
        (m[i].0 == "document"@ || m[i].0 == "passage"@) && (forall|k: int|
            i < k < n ==> (#[trigger] m[k]).0 != "document"@ && m[k].0 != "passage"@) ==> prompts_read(
            m,
            n,
        )->Ok_0.document == m[i].1->0,
    decreases n,
{
    reveal_strlit("query");
    reveal_strlit("document");
    reveal_strlit("passage");
    assert("query"@[0] == 'q' && "document"@[0] == 'd' && "passage"@[0] == 'p');
    if i < n - 1 {
        prompts_are_those_of_their_roles(m, n - 1, i);
        assert(m[n - 1].0 == m[n - 1].0);
    }
}

/// Without a prompt under its name a role has none.
pub proof fn roles_without_a_prompt_have_none(m: Seq<(Seq<char>, Option<Seq<char>>)>, n: int)
    requires
        0 <= n <= m.len(),
        prompts_read(m, n) is Ok,
    ensures
        (forall|k: int| 0 <= k < n ==> (#[trigger] m[k]).0 != "query"@) ==> prompts_read(m, n)->Ok_0.query.len()
            == 0,
        (forall|k: int| 0 <= k < n ==> (#[trigger] m[k]).0 != "document"@ && m[k].0 != "passage"@)
            ==> prompts_read(m, n)->Ok_0.document.len() == 0,
    decreases n,
{
    if n > 0 {
        roles_without_a_prompt_have_none(m, n - 1);
        assert(m[n - 1].0 == m[n - 1].0);
    }
}

/// A sequence limit is the one asked for, else the tokenizer's, else the model's.
pub proof fn a_limit_is_asked_for_or_read_off(asked: Option<u32>, encoder: Option<u64>, positions: Option<u64>)
    ensures
        ({
            let l = sequence_limit(asked, encoder, positions);
            &&& asked is Some ==> l is Ok && l->Ok_0.0 == asked
            &&& asked is None && encoder is Some ==> (l is Ok <==> encoder->0 <= 0xffff_ffff) && (l is Ok
                ==> l->Ok_0.0 == Some(encoder->0 as u32))
            &&& asked is None && encoder is None && positions is Some ==> (l is Ok <==> positions->0
                <= 0xffff_ffff) && (l is Ok ==> l->Ok_0.0 == Some(positions->0 as u32))
            &&& asked is None && encoder is None && positions is None ==> l is Ok && l->Ok_0.0 is None
        }),
{
}

/// What is staged is what was asked for, and where nothing was, what was read: name,
/// kind, task, pooling, normalization, prompts and labels.
pub proof fn what_is_asked_for_is_staged(
    req: ImportRequest,
    license: Seq<char>,
    pooling: Option<Seq<char>>,
    normalize: Option<Seq<char>>,
    notes: Seq<Seq<char>>,
    f: Facts,
)
    requires
        stage_plan(req, license, pooling, normalize, notes, f) is Ok,
    ensures
        ({
            let s = stage_plan(req, license, pooling, normalize, notes, f)->Ok_0;
            &&& s.license == license
            &&& req.model_id matches Some(m) ==> s.model_id == m@
            &&& req.model_id is None && f.name_or_path is Some ==> s.model_id == f.name_or_path->0@
            &&& req.kind matches Some(k) ==> s.kind_name == k@
            &&& kind_named(s.kind_name) == Some(s.kind)
            &&& req.task matches Some(t) ==> s.task_name == t@
            &&& req.task is None ==> s.task_name == task_name(s.kind)
            &&& req.static_from is None || pooling is Some ==> s.pooling == pooling && s.normalize == normalize
            &&& req.static_from is Some && pooling is None ==> s.pooling == Some("mean"@) && f.normalize is Some
                && s.normalize == Some(
                if f.normalize->0 {
                    "l2"@
                } else {
                    "none"@
                },
            )
            &&& req.max_seq is Some ==> s.max_seq == req.max_seq
            &&& f.hidden_size matches Some(h) ==> s.hidden == Some(h as u32) && h <= 0xffff_ffff
            &&& f.vocab_size matches Some(v) ==> s.vocab_size == v && v <= 0xffff_ffff
            &&& s.labels == label_list(opt_members(f.id2label))
            &&& s.similarity_fn == opt_view(f.similarity)
            &&& s.chat_template == opt_view(f.chat_template)
            &&& req.kind is None && req.static_from is None && pooling is None && s.labels.len() == 1
                ==> s.kind != ModelKind::Classifier
        }),
{
    kinds_and_tasks_have_their_names("reranker"@);
    if stage_plan(req, license, pooling, normalize, notes, f)->Ok_0.kind == ModelKind::Classifier {
        kinds_and_tasks_have_their_names(
            stage_plan(req, license, pooling, normalize, notes, f)->Ok_0.kind_name,
        );
        reveal_strlit("classifier");
        reveal_strlit("reranker");
        reveal_strlit("token_classifier");
        reveal_strlit("generative");
        assert("classifier"@[0] == 'c' && "reranker"@[0] == 'r' && "token_classifier"@[0] == 't'
            && "generative"@[0] == 'g');
    }
}

/// The contract of a bundle says of pooling, normalization, prompts, labels and sizes
/// what was staged. Its activation is its kind's own: the softmax for a classifier, the
/// logistic function for a reranker.
pub proof fn a_contract_says_what_was_staged(c: Contract, inp: StageView, dims: Seq<u32>, dim: u32, vocab: u32)
    requires
        c.states(inp, dims, dim, vocab),
    ensures
        opt_view(c.pooling) == inp.pooling,
        opt_view(c.normalize) == inp.normalize,
        c.prompts.query@ == inp.query,
        c.prompts.document@ == inp.document,
        views(c.labels@) == inp.labels,
        c.dim == dim,
        c.vocab_size == vocab,
        inp.max_seq matches Some(n) ==> c.max_seq == n,
        inp.max_seq is None ==> c.max_seq == 0,
        inp.kind == ModelKind::Classifier ==> opt_view(c.activation) == Some("softmax"@),
        inp.kind == ModelKind::Reranker ==> opt_view(c.activation) == Some("sigmoid"@),
        inp.kind != ModelKind::Classifier && inp.kind != ModelKind::Reranker ==> c.activation is None,
        inp.kind == ModelKind::TokenClassifier <==> opt_view(c.aggregation) == Some("simple"@),
        inp.kind != ModelKind::TokenClassifier ==> c.aggregation is None && c.tagging is None,
{
}

/// A tokenizer is told by its type in lower case.
pub proof fn a_tokenizer_is_its_type_in_lower_case(ty: Seq<char>)
    ensures
        tokenizer_kind(ty) is Ok <==> ty == "WordPiece"@ || ty == "BPE"@ || ty == "Unigram"@ || ty
            == "WordLevel"@,
        tokenizer_kind(ty) matches Ok(k) ==> k.len() == ty.len() && forall|i: int|
            0 <= i < k.len() ==> #[trigger] k[i] == (if 'A' <= ty[i] && ty[i] <= 'Z' {
                (ty[i] as u32 + 32) as char
            } else {
                ty[i]
            }),
{
    reveal_strlit("WordPiece");
    reveal_strlit("wordpiece");
    reveal_strlit("BPE");
    reveal_strlit("bpe");
    reveal_strlit("Unigram");
    reveal_strlit("unigram");
    reveal_strlit("WordLevel");
    reveal_strlit("wordlevel");
}

/// A line loses just the carriage returns at its end.
pub proof fn a_line_loses_its_carriage_returns(s: Seq<char>)
    ensures
        trimmed(s).len() <= s.len(),
        trimmed(s) == s.take(trimmed(s).len() as int),
        trimmed(s).len() > 0 ==> trimmed(s).last() != '\r',
        forall|i: int| trimmed(s).len() <= i < s.len() ==> #[trigger] s[i] == '\r',
    decreases s.len(),
{
    if s.len() > 0 && s.last() == '\r' {
        let t = s.drop_last();
        a_line_loses_its_carriage_returns(t);
        assert(trimmed(s) =~= s.take(trimmed(s).len() as int));
        assert forall|i: int| trimmed(s).len() <= i < s.len() implies #[trigger] s[i] == '\r' by {
            if i < t.len() {
                assert(t[i] == s[i]);
            }
        }
    } else {
        assert(s.take(s.len() as int) =~= s);
    }
}

/// The id of a token is the number of its line. A vocabulary is refused where a line is
/// empty or a token stands twice.
pub proof fn a_token_has_the_number_of_its_line(l: Seq<Seq<char>>, path: Seq<char>, n: int)
    requires
        0 <= n <= l.len(),
    ensures
        vocabulary(l, path, n) matches Ok(t) ==> t.len() == n && forall|i: int|
            0 <= i < n ==> #[trigger] t[i] == trimmed(l[i]) && trimmed(l[i]).len() > 0,
        (forall|i: int| 0 <= i < n ==> trimmed(#[trigger] l[i]).len() > 0) && (forall|i: int, j: int|
            0 <= i < j < n ==> trimmed(#[trigger] l[i]) != trimmed(#[trigger] l[j])) ==> vocabulary(
            l,
            path,
            n,
        ) is Ok,
    decreases n,
{
    if n > 0 {
        a_token_has_the_number_of_its_line(l, path, n - 1);
        let t = trimmed(l[n - 1]);
        if vocabulary(l, path, n - 1) is Ok {
            let tokens = vocabulary(l, path, n - 1)->Ok_0;
            if tokens.contains(t) {
                let i = choose|i: int| 0 <= i < tokens.len() && tokens[i] == t;
                assert(trimmed(l[i]) == trimmed(l[n - 1]));
            }
            if vocabulary(l, path, n) is Ok {
                let all = vocabulary(l, path, n)->Ok_0;
                assert(all == tokens.push(t));
                assert forall|i: int| 0 <= i < n implies #[trigger] all[i] == trimmed(l[i]) && trimmed(
                    l[i],
                ).len() > 0 by {
                    if i < n - 1 {
                        assert(all[i] == tokens[i]);
                    }
                }
            }
        }
    }
}

/// The place of a token is the first that has its name.
pub proof fn a_token_is_found_where_it_first_stands(tokens: Seq<Seq<char>>, name: Seq<char>, i: int)
    requires
        0 <= i <= tokens.len(),
    ensures
        i <= token_at(tokens, name, i) <= tokens.len(),
        token_at(tokens, name, i) < tokens.len() ==> tokens[token_at(tokens, name, i)] == name,
        forall|k: int| i <= k < token_at(tokens, name, i) ==> #[trigger] tokens[k] != name,
    decreases tokens.len() - i,
{
    if i < tokens.len() && tokens[i] != name {
        a_token_is_found_where_it_first_stands(tokens, name, i + 1);
    }
}

/// An artifact argument is a format and a path with `=` between them, and the path may
/// hold more of them.
pub proof fn an_artifact_is_split_at_its_first_equals(format: Seq<char>, path: Seq<char>)
    requires
        !format.contains('='),
    ensures
        format.len() > 0 && path.len() > 0 ==> artifact_parts(format + seq!['='] + path) == Ok::<
            (Seq<char>, Seq<char>),
            Seq<char>,
        >((format, path)),
        format.len() == 0 || path.len() == 0 ==> artifact_parts(format + seq!['='] + path) is Err,
        artifact_parts(format) is Err,
{
    let a = format + seq!['='] + path;
    assert forall|j: int| 0 <= j < format.len() implies a[j] != '=' by {
        assert(a[j] == format[j]);
        assert(format.contains(format[j]));
    }
    crate::text::first_at_unique(a, '=', format.len() as int);
    assert(a.take(format.len() as int) =~= format);
    assert(a.skip(format.len() as int + 1) =~= path);
    assert forall|j: int| 0 <= j < format.len() implies format[j] != '=' by {
        assert(format.contains(format[j]));
    }
    crate::text::first_at_unique(format, '=', format.len() as int);
}

/// A static table argument names the tensor behind its last colon, unless that is part
/// of the path.
pub proof fn a_tensor_is_named_behind_the_last_colon(path: Seq<char>, tensor: Seq<char>)
    requires
        !tensor.contains(':'),
    ensures
        path.len() > 0 && !tensor.contains('/') && !tensor.contains('\\') ==> static_parts(
            path + seq![':'] + tensor,
        ) == (path, Some(tensor)),
        path.len() == 0 || tensor.contains('/') || tensor.contains('\\') ==> static_parts(
            path + seq![':'] + tensor,
        ) == (path + seq![':'] + tensor, None::<Seq<char>>),
        static_parts(tensor) == (tensor, None::<Seq<char>>),
{
    let s = path + seq![':'] + tensor;
    last_colon(path + seq![':'], tensor);
    assert((path + seq![':']).last() == ':');
    assert(s.take(path.len() as int) =~= path);
    assert(s.skip(path.len() as int + 1) =~= tensor);
    last_colon(Seq::empty(), tensor);
    assert(Seq::<char>::empty() + tensor =~= tensor);
}

/// The last colon stands before what has none.
proof fn last_colon(a: Seq<char>, t: Seq<char>)
    requires
        !t.contains(':'),
    ensures
        last_at(a + t, ':') == last_at(a, ':'),
    decreases t.len(),
{
    if t.len() == 0 {
        assert(a + t =~= a);
    } else {
        assert(t.contains(t[t.len() - 1]));
        assert((a + t).drop_last() =~= a + t.drop_last());
        assert forall|c: char| t.drop_last().contains(c) implies t.contains(c) by {
            let i = choose|i: int| 0 <= i < t.drop_last().len() && t.drop_last()[i] == c;
            assert(t[i] == c);
        }
        last_colon(a, t.drop_last());
    }
}

/// An import is begun where its source is a directory, its output is not there yet and
/// the license is given, which is then the bundle's.
pub proof fn an_import_needs_source_output_and_license(req: ImportRequest, is_dir: bool, exists_: bool)
    ensures
        request_verdict(req, is_dir, exists_) is Ok <==> is_dir && !exists_ && req.license is Some,
        request_verdict(req, is_dir, exists_) matches Ok(l) ==> l == req.license->0@,
{
}

/// Pooling and normalization come from the model's modules: without them nothing is
/// derived, and with them the pooling is that of the pooling configuration and the
/// vectors are normalized where a module normalizes and nowhere else. A list without
/// a pooling module, or without its configuration, is refused.
pub proof fn pooling_comes_from_the_modules(
    modules: Seq<char>,
    path: Seq<char>,
    config: Option<Seq<char>>,
    mods: Seq<(Option<Seq<char>>, Option<Seq<char>>)>,
)
    requires
        json_pairs(modules, "type"@, "path"@) == Some(mods),
    ensures
        ({
            let v = pooling_verdict(Some(modules), path, config);
            let pools = exists|i: int| 0 <= i < mods.len() && #[trigger] is_pooling_module(mods[i]);
            let normalizes = exists|i: int|
                0 <= i < mods.len() && #[trigger] is_normalize_module(mods[i]);
            &&& v is Ok ==> pools && config is Some
            &&& v is Ok && normalizes ==> v->Ok_0.1 == Some("l2"@)
            &&& v is Ok && !normalizes ==> v->Ok_0.1 == Some("none"@)
            &&& v is Ok && !json_has(config->0, "pooling_mode"@) ==> v->Ok_0.0 == Some("mean"@)
                || v->Ok_0.0 == Some("cls"@) || v->Ok_0.0 == Some("last"@)
            &&& pools && config is Some && json_has(config->0, "pooling_mode"@) ==> (v is Ok
                <==> json_text(config->0, "pooling_mode"@) is Some && pooling_named(
                json_text(config->0, "pooling_mode"@)->0,
            ) is Ok)
            &&& pools && config is Some && json_has(config->0, "pooling_mode"@) && v is Ok
                ==> pooling_named(json_text(config->0, "pooling_mode"@)->0) == Ok::<
                Seq<char>,
                Seq<char>,
            >(v->Ok_0.0->0)
        }),
        pooling_verdict(None, path, config) is Ok,
        pooling_verdict(None, path, config)->Ok_0.0 is None,
        pooling_verdict(None, path, config)->Ok_0.1 is None,
{
    modules_pool_and_normalize(mods, mods.len() as int);
}

/// Whether a module pools.
pub open spec fn is_pooling_module(m: (Option<Seq<char>>, Option<Seq<char>>)) -> bool {
    m.0 is Some && exists|x: Seq<char>| m.0->0 == #[trigger] (x + "Pooling"@)
}

/// Whether a module normalizes.
pub open spec fn is_normalize_module(m: (Option<Seq<char>>, Option<Seq<char>>)) -> bool {
    m.0 is Some && exists|x: Seq<char>| m.0->0 == #[trigger] (x + "Normalize"@)
}

/// A type ends in a name where the name stands behind something.
proof fn ending_stands_behind(t: Option<Seq<char>>, name: Seq<char>)
    requires
        name.len() > 0,
    ensures
        ends(or_empty(t), name) <==> t is Some && exists|x: Seq<char>| t->0 == #[trigger] (x + name),
{
    let s = or_empty(t);
    if ends(s, name) {
        crate::text::strings_start_and_end_with_their_parts(s, name);
        let x = s.take(s.len() - name.len());
        assert(s == x + name);
    }
    if t is Some && exists|x: Seq<char>| t->0 == #[trigger] (x + name) {
        let x = choose|x: Seq<char>| t->0 == #[trigger] (x + name);
        crate::text::strings_start_and_end_with_their_parts(x, name);
    }
}

/// The modules pool and normalize where one of them does.
proof fn modules_pool_and_normalize(mods: Seq<(Option<Seq<char>>, Option<Seq<char>>)>, n: int)
    requires
        0 <= n <= mods.len(),
    ensures
        pooling_dir(mods, n) is Some <==> exists|i: int|
            0 <= i < n && #[trigger] is_pooling_module(mods[i]),
        has_normalize(mods, n) <==> exists|i: int|
            0 <= i < n && #[trigger] is_normalize_module(mods[i]),
    decreases n,
{
    if n > 0 {
        modules_pool_and_normalize(mods, n - 1);
        reveal_strlit("Pooling");
        reveal_strlit("Normalize");
        let m = mods[n - 1];
        ending_stands_behind(m.0, "Pooling"@);
        ending_stands_behind(m.0, "Normalize"@);
        assert(is_pooling_module(m) <==> ends(or_empty(m.0), "Pooling"@));
        assert(is_normalize_module(m) <==> ends(or_empty(m.0), "Normalize"@));
        if is_pooling_module(m) && is_normalize_module(m) {
            let s = m.0->0;
            let x = choose|x: Seq<char>| s == #[trigger] (x + "Pooling"@);
            let y = choose|y: Seq<char>| s == #[trigger] (y + "Normalize"@);
            assert((x + "Pooling"@).last() == 'g');
            assert((y + "Normalize"@).last() == 'e');
        }
    }
}

/// The lines of a text are what was joined by line breaks, with or without one at
/// the end.
pub proof fn joined_lines_are_read_back(parts: Seq<Seq<char>>)
    requires
        parts.len() > 0,
        parts.last().len() > 0,
        forall|i: int| 0 <= i < parts.len() ==> !(#[trigger] parts[i]).contains('\n'),
    ensures
        lines(joined(parts, seq!['\n'])) == parts,
        lines(joined(parts.push(Seq::empty()), seq!['\n'])) == parts,
{
    crate::text::joined_parts_split_back(parts, '\n');
    let more = parts.push(Seq::empty());
    assert forall|i: int| 0 <= i < more.len() implies !(#[trigger] more[i]).contains('\n') by {
        if i < parts.len() {
            assert(more[i] == parts[i]);
        }
    }
    crate::text::joined_parts_split_back(more, '\n');
    assert(more.drop_last() =~= parts);
}

/// A static table is one artifact more, under its own name and file, and the others
/// stay; without one the artifacts are those that were copied.
pub proof fn a_static_table_is_one_artifact_more(
    artifacts: Map<Seq<char>, FileView>,
    t: StaticTable,
    name: Seq<char>,
)
    ensures
        all_artifacts(artifacts, None) == artifacts,
        all_artifacts(artifacts, Some(t)).dom() == artifacts.dom().insert("static"@),
        name != "static"@ && artifacts.dom().contains(name) ==> all_artifacts(artifacts, Some(t))[name]
            == artifacts[name],
        all_artifacts(artifacts, Some(t))["static"@].path == "static.f32"@,
        all_artifacts(artifacts, Some(t))["static"@].sha256 == t.sha256@,
        all_artifacts(artifacts, Some(t))["static"@].provenance is Some,
{
}

/// A tensor that is asked for is the one that is taken; otherwise it is the only one
/// there, or the one named `embeddings`, and none where several stand without it.
pub proof fn the_tensor_asked_for_is_taken(names: Seq<Seq<char>>, asked: Option<Seq<char>>)
    ensures
        asked matches Some(t) ==> tensor_chosen(names, asked) == Ok::<Seq<char>, Seq<char>>(t),
        names.len() == 1 ==> tensor_chosen(names, None) == Ok::<Seq<char>, Seq<char>>(names[0]),
        names.len() != 1 && names.contains("embeddings"@) ==> tensor_chosen(names, None) == Ok::<
            Seq<char>,
            Seq<char>,
        >("embeddings"@),
        names.len() != 1 && !names.contains("embeddings"@) ==> tensor_chosen(names, None) is Err,
        tensor_chosen(names, None) matches Ok(t) ==> names.contains(t),
{
    if names.len() == 1 {
        assert(names[0] == names[0]);
    }
}

/// A flag is set where the configuration says `true` to its own name, and nowhere
/// else.
pub proof fn a_flag_is_set_by_its_own_name(doc: Seq<char>)
    ensures
        flag_set(doc, 0) <==> json_flag(doc, "pooling_mode_cls_token"@) == Some(true),
        flag_set(doc, 1) <==> json_flag(doc, "pooling_mode_mean_tokens"@) == Some(true),
        flag_set(doc, 2) <==> json_flag(doc, "pooling_mode_max_tokens"@) == Some(true),
        flag_set(doc, 3) <==> json_flag(doc, "pooling_mode_mean_sqrt_len_tokens"@) == Some(true),
        flag_set(doc, 4) <==> json_flag(doc, "pooling_mode_weightedmean_tokens"@) == Some(true),
        flag_set(doc, 5) <==> json_flag(doc, "pooling_mode_lasttoken"@) == Some(true),
{
}

/// Sizes that are told are kept, each as its own; a vocabulary that is not told has
/// size 0. A size over 32 bits is refused by its own name.
pub proof fn sizes_are_kept_as_told(asked: Option<u32>, f: Facts)
    ensures
        sizes_plan(asked, f) matches Ok(p) ==> {
            &&& f.hidden_size is None <==> p.2 is None
            &&& f.hidden_size matches Some(h) ==> p.2->0 == h
            &&& f.vocab_size is None ==> p.3 == 0
            &&& f.vocab_size matches Some(v) ==> p.3 == v
            &&& sequence_limit(asked, f.max_seq_length, f.max_position_embeddings) == Ok::<
                (Option<u32>, Seq<Seq<char>>),
                Seq<char>,
            >((p.0, p.1))
        },
        sequence_limit(asked, f.max_seq_length, f.max_position_embeddings) is Ok ==> {
            &&& f.hidden_size matches Some(h) ==> h > u32::MAX ==> sizes_plan(asked, f) == Err::<
                (Option<u32>, Seq<Seq<char>>, Option<u32>, u32),
                Seq<char>,
            >("hidden_size"@ + " "@ + decimal(h as nat) + " does not fit 32 bits"@)
            &&& (f.hidden_size is None || f.hidden_size->0 <= u32::MAX) ==> (f.vocab_size matches Some(v)
                ==> v > u32::MAX ==> sizes_plan(asked, f) == Err::<
                (Option<u32>, Seq<Seq<char>>, Option<u32>, u32),
                Seq<char>,
            >("vocab_size"@ + " "@ + decimal(v as nat) + " does not fit 32 bits"@))
        },
{
}

} // verus!

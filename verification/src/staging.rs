//! What an import stages: the tokenizer, the artifact files and their names.

use vstd::prelude::*;
use crate::import::{special_token, token_at};
use crate::json::{flag_member, json_flag};
use crate::order::{number_order, numbered_views, sorted_by_number, strings_of};
use crate::text::{cat2, cat3, cat5, opt_view, same, views};

verus! {

/// Where the tokenizer of a bundle comes from.
#[derive(Clone, Copy, Debug, PartialEq, Eq, Structural)]
pub enum TokenizerSource {
    /// The `tokenizer.json` of the model, as it is.
    Shipped,
    /// Built from the model's `vocab.txt`.
    Built { lowercase: bool },
    /// The bundle has none.
    Absent,
}

/// A flag as it is shown.
pub open spec fn flag_text(b: bool) -> Seq<char> {
    if b {
        "true"@
    } else {
        "false"@
    }
}

/// A flag as it is shown.
pub fn flag_text_of(b: bool) -> (r: &'static str)
    ensures
        r@ == flag_text(b),
{
    if b {
        "true"
    } else {
        "false"
    }
}

/// What the text of `tokenizer_config.json` says of casing.
pub fn lowercase_of(config: &Option<String>) -> (r: Option<bool>)
    ensures
        r == (match config {
            Some(d) => json_flag(d@, "do_lower_case"@),
            None => None,
        }),
{
    match config {
        Some(d) => flag_member(d.as_str(), "do_lower_case"),
        None => None,
    }
}

/// Where the tokenizer comes from, or the refusal of a vocabulary of unknown casing.
pub open spec fn source_of(has_tokenizer: bool, has_vocab: bool, lowercase: Option<bool>) -> Result<
    TokenizerSource,
    Seq<char>,
> {
    if has_tokenizer {
        Ok(TokenizerSource::Shipped)
    } else if has_vocab {
        match lowercase {
            Some(lowercase) => Ok(TokenizerSource::Built { lowercase }),
            None => Err(
                "vocab.txt without tokenizer.json needs tokenizer_config.json with do_lower_case"@,
            ),
        }
    } else {
        Ok(TokenizerSource::Absent)
    }
}

/// Where the tokenizer comes from, given which files the model has and what its
/// `tokenizer_config.json` says of casing.
pub fn tokenizer_source(has_tokenizer: bool, has_vocab: bool, lowercase: Option<bool>) -> (r: Result<
    TokenizerSource,
    String,
>)
    ensures
        match source_of(has_tokenizer, has_vocab, lowercase) {
            Ok(s) => r == Ok::<TokenizerSource, String>(s),
            Err(e) => r is Err && r->Err_0@ == e,
        },
{
    if has_tokenizer {
        Ok(TokenizerSource::Shipped)
    } else if has_vocab {
        match lowercase {
            Some(lowercase) => Ok(TokenizerSource::Built { lowercase }),
            None => Err(
                "vocab.txt without tokenizer.json needs tokenizer_config.json with do_lower_case".to_owned(),
            ),
        }
    } else {
        Ok(TokenizerSource::Absent)
    }
}

impl TokenizerSource {
    /// What the manifest says of where the tokenizer comes from.
    pub fn provenance(&self) -> (r: Option<String>)
        ensures
            opt_view(r) == (match self {
                TokenizerSource::Built { lowercase } => Some(
                    "built from vocab.txt, do_lower_case = "@ + flag_text(*lowercase),
                ),
                _ => None,
            }),
    {
        match self {
            TokenizerSource::Built { lowercase } => Some(
                cat2("built from vocab.txt, do_lower_case = ", flag_text_of(*lowercase)),
            ),
            _ => None,
        }
    }

    /// The note of an import with this tokenizer.
    pub fn note(&self) -> (r: Option<String>)
        ensures
            opt_view(r) == (match self {
                TokenizerSource::Shipped => None,
                TokenizerSource::Built { lowercase } => Some(
                    "tokenizer.json built from vocab.txt (lowercase "@ + flag_text(*lowercase) + ")"@,
                ),
                TokenizerSource::Absent => Some(
                    "no tokenizer.json or vocab.txt in the source; the bundle has no tokenizer"@,
                ),
            }),
    {
        match self {
            TokenizerSource::Shipped => None,
            TokenizerSource::Built { lowercase } => Some(
                cat3(
                    "tokenizer.json built from vocab.txt (lowercase ",
                    flag_text_of(*lowercase),
                    ")",
                ),
            ),
            TokenizerSource::Absent => Some(
                "no tokenizer.json or vocab.txt in the source; the bundle has no tokenizer".to_owned(),
            ),
        }
    }
}

/// The ids of the special tokens of a vocabulary.
#[derive(Clone, Copy, Debug, PartialEq, Eq, Structural)]
pub struct SpecialIds {
    pub pad: usize,
    pub unk: usize,
    pub cls: usize,
    pub sep: usize,
    pub mask: usize,
}

/// The first of the special tokens that a vocabulary lacks.
pub open spec fn missing_special(tokens: Seq<Seq<char>>) -> Option<Seq<char>> {
    if token_at(tokens, "[PAD]"@, 0) >= tokens.len() {
        Some("[PAD]"@)
    } else if token_at(tokens, "[UNK]"@, 0) >= tokens.len() {
        Some("[UNK]"@)
    } else if token_at(tokens, "[CLS]"@, 0) >= tokens.len() {
        Some("[CLS]"@)
    } else if token_at(tokens, "[SEP]"@, 0) >= tokens.len() {
        Some("[SEP]"@)
    } else if token_at(tokens, "[MASK]"@, 0) >= tokens.len() {
        Some("[MASK]"@)
    } else {
        None
    }
}

/// The ids of the special tokens, or the refusal of a vocabulary that lacks one.
pub fn special_ids(tokens: &Vec<String>, path: &str) -> (r: Result<SpecialIds, String>)
    ensures
        match missing_special(views(tokens@)) {
            Some(name) => r is Err && r->Err_0@ == path@ + ": special token "@ + name
                + " is missing"@,
            None => {
                &&& r is Ok
                &&& r->Ok_0.pad == token_at(views(tokens@), "[PAD]"@, 0)
                &&& r->Ok_0.unk == token_at(views(tokens@), "[UNK]"@, 0)
                &&& r->Ok_0.cls == token_at(views(tokens@), "[CLS]"@, 0)
                &&& r->Ok_0.sep == token_at(views(tokens@), "[SEP]"@, 0)
                &&& r->Ok_0.mask == token_at(views(tokens@), "[MASK]"@, 0)
            },
        },
{
    let pad = match special_token(tokens, "[PAD]", path) {
        Ok(i) => i,
        Err(e) => return Err(e),
    };
    let unk = match special_token(tokens, "[UNK]", path) {
        Ok(i) => i,
        Err(e) => return Err(e),
    };
    let cls = match special_token(tokens, "[CLS]", path) {
        Ok(i) => i,
        Err(e) => return Err(e),
    };
    let sep = match special_token(tokens, "[SEP]", path) {
        Ok(i) => i,
        Err(e) => return Err(e),
    };
    let mask = match special_token(tokens, "[MASK]", path) {
        Ok(i) => i,
        Err(e) => return Err(e),
    };
    Ok(SpecialIds { pad, unk, cls, sep, mask })
}

/// The names of the special tokens in the order of their ids.
pub fn special_order(ids: SpecialIds) -> (r: Vec<String>)
    requires
        ids.pad <= u32::MAX,
        ids.unk <= u32::MAX,
        ids.cls <= u32::MAX,
        ids.sep <= u32::MAX,
        ids.mask <= u32::MAX,
    ensures
        views(r@) == strings_of(
            seq![
                (ids.pad as u32, "[PAD]"@),
                (ids.unk as u32, "[UNK]"@),
                (ids.cls as u32, "[CLS]"@),
                (ids.sep as u32, "[SEP]"@),
                (ids.mask as u32, "[MASK]"@),
            ].sort_by(number_order()),
        ),
{
    let mut v: Vec<(u32, String)> = Vec::new();
    v.push((ids.pad as u32, "[PAD]".to_owned()));
    v.push((ids.unk as u32, "[UNK]".to_owned()));
    v.push((ids.cls as u32, "[CLS]".to_owned()));
    v.push((ids.sep as u32, "[SEP]".to_owned()));
    v.push((ids.mask as u32, "[MASK]".to_owned()));
    proof {
        assert(numbered_views(v@) =~= seq![
            (ids.pad as u32, "[PAD]"@),
            (ids.unk as u32, "[UNK]"@),
            (ids.cls as u32, "[CLS]"@),
            (ids.sep as u32, "[SEP]"@),
            (ids.mask as u32, "[MASK]"@),
        ]);
    }
    sorted_by_number(&v)
}

/// A file on disk: its path and the last component of it.
#[derive(Debug)]
pub struct NamedPath {
    pub path: String,
    pub name: String,
}

/// An artifact that was asked for, and what is found at its path.
#[derive(Debug)]
pub struct ArtifactFile {
    pub format: String,
    pub path: String,
    /// Whether the path is a file.
    pub is_file: bool,
    /// The last component of the path, if it has one.
    pub name: Option<String>,
    /// The file beside it with the extension `bin`, if there is one.
    pub bin: Option<NamedPath>,
}

/// A file to copy into the bundle.
#[derive(Debug)]
pub struct FileCopy {
    pub format: String,
    pub path: String,
    pub name: String,
    pub provenance: String,
}

/// A file to copy with its texts as characters.
pub struct CopyView {
    pub format: Seq<char>,
    pub path: Seq<char>,
    pub name: Seq<char>,
    pub provenance: Seq<char>,
}

impl View for FileCopy {
    type V = CopyView;

    open spec fn view(&self) -> CopyView {
        CopyView {
            format: self.format@,
            path: self.path@,
            name: self.name@,
            provenance: self.provenance@,
        }
    }
}

/// The files to copy as texts.
pub open spec fn copy_views(v: Seq<FileCopy>) -> Seq<CopyView> {
    Seq::new(v.len(), |i: int| v[i]@)
}

/// Whether a name is in use in the bundle.
pub open spec fn taken(copies: Seq<CopyView>, tokenizer: bool, name: Seq<char>) -> bool {
    (tokenizer && name == "tokenizer.json"@) || exists|i: int|
        0 <= i < copies.len() && (#[trigger] copies[i]).name == name
}

/// The copies with one more, or the refusal of a name that is in use.
pub open spec fn with_copy(
    copies: Seq<CopyView>,
    tokenizer: bool,
    format: Seq<char>,
    path: Seq<char>,
    name: Seq<char>,
) -> Result<Seq<CopyView>, Seq<char>> {
    if taken(copies, tokenizer, name) {
        Err("staging already has `"@ + name + "`; artifact file names must be unique"@)
    } else {
        Ok(copies.push(CopyView { format, path, name, provenance: "copied from "@ + path }))
    }
}

/// The copies with those of one artifact, or its refusal.
pub open spec fn with_artifact(copies: Seq<CopyView>, tokenizer: bool, f: ArtifactFile) -> Result<
    Seq<CopyView>,
    Seq<char>,
> {
    if !f.is_file {
        Err("artifact `"@ + f.format@ + "` path `"@ + f.path@ + "` is not a file"@)
    } else {
        match f.name {
            None => Err("artifact path has no file name"@),
            Some(name) => match with_copy(copies, tokenizer, f.format@, f.path@, name@) {
                Err(e) => Err(e),
                Ok(copies) => if f.format@ != "openvino_ir"@ {
                    Ok(copies)
                } else {
                    match f.bin {
                        None => Err(
                            "openvino_ir artifact `"@ + f.path@ + "` has no sibling .bin"@,
                        ),
                        Some(bin) => with_copy(
                            copies,
                            tokenizer,
                            "openvino_ir_weights"@,
                            bin.path@,
                            bin.name@,
                        ),
                    }
                },
            },
        }
    }
}

/// The copies of the first `n` artifacts, or the first refusal.
pub open spec fn copies_verdict(files: Seq<ArtifactFile>, tokenizer: bool, n: int) -> Result<
    Seq<CopyView>,
    Seq<char>,
>
    decreases n,
{
    if n <= 0 {
        Ok(Seq::empty())
    } else {
        match copies_verdict(files, tokenizer, n - 1) {
            Err(e) => Err(e),
            Ok(copies) => with_artifact(copies, tokenizer, files[n - 1]),
        }
    }
}

/// A refused artifact decides the whole.
proof fn copies_refusal_stays(files: Seq<ArtifactFile>, tokenizer: bool, i: int, n: int)
    requires
        0 <= i <= n,
    ensures
        copies_verdict(files, tokenizer, i) is Err ==> copies_verdict(files, tokenizer, n)
            == copies_verdict(files, tokenizer, i),
    decreases n,
{
    if i < n {
        copies_refusal_stays(files, tokenizer, i, n - 1);
    }
}

/// Add one copy, or refuse a name that is in use.
fn put_copy(copies: &mut Vec<FileCopy>, tokenizer: bool, format: &str, path: &str, name: &str) -> (r: Result<
    (),
    String,
>)
    ensures
        match with_copy(copy_views(old(copies)@), tokenizer, format@, path@, name@) {
            Ok(v) => r is Ok && copy_views(final(copies)@) == v,
            Err(e) => r is Err && r->Err_0@ == e && *final(copies) == *old(copies),
        },
{
    let mut used = tokenizer && same(name, "tokenizer.json");
    let mut i: usize = 0;
    while i < copies.len() && !used
        invariant
            i <= copies.len(),
            *copies == *old(copies),
            used ==> taken(copy_views(copies@), tokenizer, name@),
            !used ==> !(tokenizer && name@ == "tokenizer.json"@) && forall|j: int|
                0 <= j < i ==> (#[trigger] copy_views(copies@)[j]).name != name@,
        decreases copies.len() - i,
    {
        assert(copy_views(copies@)[i as int].name == copies@[i as int].name@);
        used = same(copies[i].name.as_str(), name);
        i = i + 1;
    }
    if used {
        return Err(cat3("staging already has `", name, "`; artifact file names must be unique"));
    }
    let ghost before = copy_views(copies@);
    let c = FileCopy {
        format: format.to_owned(),
        path: path.to_owned(),
        name: name.to_owned(),
        provenance: cat2("copied from ", path),
    };
    let ghost seen = c@;
    copies.push(c);
    proof {
        assert(copy_views(copies@) =~= before.push(seen));
    }
    Ok(())
}

/// Add the copies of one artifact.
fn put_artifact(copies: &mut Vec<FileCopy>, tokenizer: bool, f: &ArtifactFile) -> (r: Result<
    (),
    String,
>)
    ensures
        match with_artifact(copy_views(old(copies)@), tokenizer, *f) {
            Ok(v) => r is Ok && copy_views(final(copies)@) == v,
            Err(e) => r is Err && r->Err_0@ == e,
        },
{
    if !f.is_file {
        return Err(
            cat5("artifact `", f.format.as_str(), "` path `", f.path.as_str(), "` is not a file"),
        );
    }
    let name = match &f.name {
        Some(n) => n,
        None => return Err("artifact path has no file name".to_owned()),
    };
    match put_copy(copies, tokenizer, f.format.as_str(), f.path.as_str(), name.as_str()) {
        Err(e) => return Err(e),
        Ok(()) => {},
    }
    if !same(f.format.as_str(), "openvino_ir") {
        return Ok(());
    }
    match &f.bin {
        None => Err(
            cat3("openvino_ir artifact `", f.path.as_str(), "` has no sibling .bin"),
        ),
        Some(bin) => put_copy(
            copies,
            tokenizer,
            "openvino_ir_weights",
            bin.path.as_str(),
            bin.name.as_str(),
        ),
    }
}

/// The files that an import copies into the bundle, in order, with the names they
/// get there; `tokenizer` says whether `tokenizer.json` is there already.
pub fn plan_copies(files: &Vec<ArtifactFile>, tokenizer: bool) -> (r: Result<Vec<FileCopy>, String>)
    ensures
        match copies_verdict(files@, tokenizer, files.len() as int) {
            Ok(v) => r is Ok && copy_views(r->Ok_0@) == v,
            Err(e) => r is Err && r->Err_0@ == e,
        },
{
    let mut copies: Vec<FileCopy> = Vec::new();
    let mut i: usize = 0;
    proof {
        assert(copy_views(copies@) =~= Seq::empty());
    }
    while i < files.len()
        invariant
            i <= files.len(),
            copies_verdict(files@, tokenizer, i as int) == Ok::<Seq<CopyView>, Seq<char>>(
                copy_views(copies@),
            ),
        decreases files.len() - i,
    {
        proof {
            copies_refusal_stays(files@, tokenizer, i + 1, files.len() as int);
        }
        match put_artifact(&mut copies, tokenizer, &files[i]) {
            Err(e) => return Err(e),
            Ok(()) => {},
        }
        i = i + 1;
    }
    Ok(copies)
}

/// Whether no two copies share a name, and none has the tokenizer's.
pub open spec fn names_differ(copies: Seq<CopyView>, tokenizer: bool) -> bool {
    &&& forall|i: int, j: int|
        0 <= i < j < copies.len() ==> (#[trigger] copies[i]).name != (#[trigger] copies[j]).name
    &&& tokenizer ==> forall|i: int|
        0 <= i < copies.len() ==> (#[trigger] copies[i]).name != "tokenizer.json"@
}

/// No copy of an accepted import overwrites another, nor the tokenizer.
pub proof fn copies_do_not_collide(files: Seq<ArtifactFile>, tokenizer: bool, n: int)
    requires
        0 <= n <= files.len(),
        copies_verdict(files, tokenizer, n) is Ok,
    ensures
        names_differ(copies_verdict(files, tokenizer, n)->Ok_0, tokenizer),
    decreases n,
{
    if n > 0 {
        copies_do_not_collide(files, tokenizer, n - 1);
        let before = copies_verdict(files, tokenizer, n - 1)->Ok_0;
        let f = files[n - 1];
        let mid = with_copy(before, tokenizer, f.format@, f.path@, f.name->0@)->Ok_0;
        assert(names_differ(mid, tokenizer));
    }
}

/// A vocabulary has its special tokens where all five are in it; otherwise the one
/// that is told is missing, and those before it are not.
pub proof fn the_missing_special_token_is_missing(tokens: Seq<Seq<char>>)
    ensures
        missing_special(tokens) is None <==> tokens.contains("[PAD]"@) && tokens.contains("[UNK]"@)
            && tokens.contains("[CLS]"@) && tokens.contains("[SEP]"@) && tokens.contains("[MASK]"@),
        missing_special(tokens) matches Some(m) ==> !tokens.contains(m) && (m == "[PAD]"@ || m
            == "[UNK]"@ || m == "[CLS]"@ || m == "[SEP]"@ || m == "[MASK]"@),
        missing_special(tokens) matches Some(m) ==> {
            &&& m == "[PAD]"@ || tokens.contains("[PAD]"@)
            &&& m == "[PAD]"@ || m == "[UNK]"@ || tokens.contains("[UNK]"@)
            &&& m == "[SEP]"@ || m == "[MASK]"@ ==> tokens.contains("[CLS]"@)
            &&& m == "[MASK]"@ ==> tokens.contains("[SEP]"@)
        },
{
    reveal_strlit("[PAD]");
    reveal_strlit("[UNK]");
    reveal_strlit("[CLS]");
    reveal_strlit("[SEP]");
    reveal_strlit("[MASK]");
    assert("[PAD]"@[1] == 'P' && "[UNK]"@[1] == 'U' && "[CLS]"@[1] == 'C' && "[SEP]"@[1] == 'S'
        && "[MASK]"@[1] == 'M');
    found_where_it_is(tokens, "[PAD]"@);
    found_where_it_is(tokens, "[UNK]"@);
    found_where_it_is(tokens, "[CLS]"@);
    found_where_it_is(tokens, "[SEP]"@);
    found_where_it_is(tokens, "[MASK]"@);
}

/// A token is found in a vocabulary where it is in it.
proof fn found_where_it_is(tokens: Seq<Seq<char>>, name: Seq<char>)
    ensures
        token_at(tokens, name, 0) < tokens.len() <==> tokens.contains(name),
{
    crate::import::a_token_is_found_where_it_first_stands(tokens, name, 0);
    if tokens.contains(name) {
        let k = choose|k: int| 0 <= k < tokens.len() && tokens[k] == name;
        assert(tokens[k] == name);
    }
}

/// A flag is shown as the word it is.
pub proof fn a_flag_is_shown_as_it_is(b: bool)
    ensures
        flag_text(b) == "true"@ <==> b,
        flag_text(b) == "false"@ <==> !b,
{
    reveal_strlit("true");
    reveal_strlit("false");
    assert("true"@[0] == 't' && "false"@[0] == 'f');
}

/// A file is copied under its own name from its own path, and says so; it is
/// refused where the name is in use, by a file before it or by the tokenizer.
pub proof fn a_file_is_copied_under_its_name(
    copies: Seq<CopyView>,
    tokenizer: bool,
    format: Seq<char>,
    path: Seq<char>,
    name: Seq<char>,
    i: int,
)
    ensures
        ({
            let r = with_copy(copies, tokenizer, format, path, name);
            &&& 0 <= i < copies.len() && copies[i].name == name ==> r is Err
            &&& tokenizer && name == "tokenizer.json"@ ==> r is Err
            &&& r matches Ok(v) ==> v.len() == copies.len() + 1 && v.take(copies.len() as int) == copies
                && v.last().format == format && v.last().path == path && v.last().name == name
                && v.last().provenance == "copied from "@ + path
            &&& r is Err ==> (tokenizer && name == "tokenizer.json"@) || exists|k: int|
                0 <= k < copies.len() && (#[trigger] copies[k]).name == name
        }),
{
    let r = with_copy(copies, tokenizer, format, path, name);
    if r is Ok {
        assert(r->Ok_0.take(copies.len() as int) =~= copies);
    }
}

/// Whether a file stands among the copies as it was asked for.
pub open spec fn is_copied(copies: Seq<CopyView>, format: Seq<char>, path: Seq<char>, name: Seq<char>) -> bool {
    exists|i: int|
        0 <= i < copies.len() && (#[trigger] copies[i]).format == format && copies[i].path == path
            && copies[i].name == name
}

/// What was copied stays copied.
proof fn copied_stays(
    copies: Seq<CopyView>,
    more: Seq<CopyView>,
    format: Seq<char>,
    path: Seq<char>,
    name: Seq<char>,
)
    requires
        copies.len() <= more.len(),
        more.take(copies.len() as int) == copies,
        is_copied(copies, format, path, name),
    ensures
        is_copied(more, format, path, name),
{
    let i = choose|i: int|
        0 <= i < copies.len() && (#[trigger] copies[i]).format == format && copies[i].path == path
            && copies[i].name == name;
    assert(more.take(copies.len() as int)[i] == more[i]);
}

/// An artifact is copied behind what is there: itself, and the weights beside it
/// where it is an OpenVINO model.
pub proof fn an_artifact_is_copied_with_its_weights(
    copies: Seq<CopyView>,
    tokenizer: bool,
    f: ArtifactFile,
)
    ensures
        ({
            let r = with_artifact(copies, tokenizer, f);
            let pair = f.format@ == "openvino_ir"@;
            &&& !f.is_file || f.name is None || (pair && f.bin is None) ==> r is Err
            &&& r matches Ok(v) ==> v.len() == copies.len() + (if pair {
                2int
            } else {
                1int
            }) && v.take(copies.len() as int) == copies && v[copies.len() as int].format == f.format@
                && v[copies.len() as int].path == f.path@ && v[copies.len() as int].name
                == f.name->0@ && is_copied(v, f.format@, f.path@, f.name->0@)
            &&& pair ==> (r matches Ok(v) ==> v[copies.len() as int + 1].format
                == "openvino_ir_weights"@ && v[copies.len() as int + 1].path == f.bin->0.path@
                && v[copies.len() as int + 1].name == f.bin->0.name@)
        }),
{
    let r = with_artifact(copies, tokenizer, f);
    if r is Ok {
        let v = r->Ok_0;
        assert(v.take(copies.len() as int) =~= copies);
        assert(v[copies.len() as int].format == f.format@);
    }
}

/// Every artifact that was asked for is copied, whatever comes behind it.
pub proof fn every_artifact_is_copied(files: Seq<ArtifactFile>, tokenizer: bool, n: int, k: int)
    requires
        0 <= k < n,
        copies_verdict(files, tokenizer, n) is Ok,
    ensures
        files[k].is_file && files[k].name is Some,
        is_copied(
            copies_verdict(files, tokenizer, n)->Ok_0,
            files[k].format@,
            files[k].path@,
            files[k].name->0@,
        ),
    decreases n,
{
    let before = copies_verdict(files, tokenizer, n - 1)->Ok_0;
    let after = copies_verdict(files, tokenizer, n)->Ok_0;
    an_artifact_is_copied_with_its_weights(before, tokenizer, files[n - 1]);
    if k < n - 1 {
        every_artifact_is_copied(files, tokenizer, n - 1, k);
        copied_stays(before, after, files[k].format@, files[k].path@, files[k].name->0@);
    }
}

/// A tokenizer that is there is shipped, whatever else is; without one it is built
/// from a vocabulary whose casing is known, and a bundle without either has none.
pub proof fn a_tokenizer_is_shipped_before_it_is_built(
    has_tokenizer: bool,
    has_vocab: bool,
    lowercase: Option<bool>,
)
    ensures
        ({
            let s = source_of(has_tokenizer, has_vocab, lowercase);
            &&& has_tokenizer <==> s is Ok && s->Ok_0 == TokenizerSource::Shipped
            &&& !has_tokenizer && !has_vocab <==> s is Ok && s->Ok_0 == TokenizerSource::Absent
            &&& !has_tokenizer && has_vocab ==> (lowercase matches Some(l) ==> s is Ok && s->Ok_0 == (
            TokenizerSource::Built { lowercase: l }))
            &&& s is Err <==> !has_tokenizer && has_vocab && lowercase is None
        }),
{
}

} // verus!

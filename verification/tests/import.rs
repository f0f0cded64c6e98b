use turbo_serving::import::{
    artifact_arg, check_json, check_request, choose_tensor, detect_tokenizer_kind, import_plan, infer_kind, map_pooling,
    model_id_of, read_modules, read_pooling, stage, static_arg, static_bytes, static_dims, vocab_tokens, Facts,
    FileEntry, Files, ImportRequest, Refusal, StageInputs, StagedTokenizer, StaticTable,
};
use turbo_serving::safetensors::{Entry, SafeTensors};
use turbo_serving::staging::{
    plan_copies, special_ids, special_order, tokenizer_source, ArtifactFile, NamedPath, TokenizerSource,
};
use turbo_serving::types::ModelKind;

const MODULES: &str = r#"[
    {"idx": 0, "name": "0", "path": "", "type": "sentence_transformers.models.Transformer"},
    {"idx": 1, "name": "1", "path": "1_Pooling", "type": "sentence_transformers.models.Pooling"},
    {"idx": 2, "name": "2", "path": "2_Normalize", "type": "sentence_transformers.models.Normalize"}
]"#;
const LEGACY: &str = r#"{"word_embedding_dimension": 384, "pooling_mode_cls_token": false, "pooling_mode_mean_tokens": true, "pooling_mode_max_tokens": false}"#;
const MODE: &str = r#"{"embedding_dimension": 384, "pooling_mode": "mean", "include_prompt": true}"#;
const BERT: &str = r#"{"max_seq_length": 256, "do_lower_case": false}"#;
const SENTENCE: &str =
    r#"{"prompts": {"query": "query: ", "document": "passage: "}, "similarity_fn_name": "cosine"}"#;
const CONFIG: &str = r#"{"model_type": "bert", "hidden_size": 384, "vocab_size": 30522, "max_position_embeddings": 512, "architectures": ["BertModel"]}"#;

fn request() -> ImportRequest {
    ImportRequest {
        source: "src".into(),
        output: "bundle".into(),
        model_id: None,
        revision: None,
        license: Some("Apache-2.0".into()),
        task: None,
        kind: None,
        artifacts: vec![("onnx".into(), "src/model.onnx".into())],
        static_from: None,
        truncate_dims: vec![256, 128],
        max_batch: 16,
        fixed_shape: false,
        max_seq: None,
    }
}

fn facts() -> Facts {
    let s = |t: &str| Some(t.to_string());
    Facts::read(&s(CONFIG), &s(SENTENCE), &s(BERT), &None, Some("src".into()))
}

fn file(path: &str) -> FileEntry {
    FileEntry { path: path.into(), sha256: "0".into(), provenance: None }
}

fn planned(req: &ImportRequest, pooling_doc: &str) -> StageInputs {
    let license = check_request(req, true, false).unwrap();
    let (path, normalize) = read_modules(MODULES).unwrap();
    assert_eq!(path, "1_Pooling");
    assert!(normalize);
    let (pooling, notes) = read_pooling("1_Pooling/config.json", pooling_doc).unwrap();
    import_plan(req, license, Some(pooling), Some("l2".into()), notes, &facts()).unwrap()
}

#[test]
fn imports_sentence_transformers_layout_both_schemas() {
    for pooling in [MODE, LEGACY] {
        let req = request();
        let inp = planned(&req, pooling);
        let mut files = Files::new();
        files.put("tokenizer.json", file("tokenizer.json"));
        let kind = detect_tokenizer_kind(r#"{"model": {"type": "WordPiece"}}"#).unwrap();
        let tokenizer = Some(StagedTokenizer { kind, files });
        let mut artifacts = Files::new();
        artifacts.put("onnx", file("model.onnx"));
        let (m, note) = stage(&req, inp, tokenizer, artifacts, None).unwrap();
        assert_eq!(note, None);
        assert_eq!(m.kind, "embedding");
        assert_eq!(m.contract.pooling.as_deref(), Some("mean"));
        assert_eq!(m.contract.normalize.as_deref(), Some("l2"));
        assert_eq!(m.contract.max_seq, 256);
        assert_eq!(m.contract.dim, 384);
        assert_eq!(m.contract.prompts.query, "query: ");
        assert_eq!(m.contract.truncate_dims, vec![256, 128]);
        assert_eq!(m.tokenizer.as_ref().unwrap().kind, "wordpiece");
        assert_eq!(m.artifacts.entry(0).0, "onnx");
        assert_eq!(m.model_id, "src");
        assert_eq!((m.bundle_version, m.modality.as_str(), m.task.as_str()), (2, "text", "embed"));
        assert_eq!(m.contract.prompts.document, "passage: ");
        assert_eq!(m.contract.vocab_size, 30522);
        assert_eq!(m.limits.max_batch, 16);
    }
}

#[test]
fn refuses_existing_output_and_missing_license() {
    let req = ImportRequest { license: None, ..request() };
    let e = check_request(&req, true, false).unwrap_err();
    assert!(e.contains("--license"));
    let e = check_request(&request(), true, true).unwrap_err();
    assert!(e.contains("already exists"));
}

#[test]
fn ambiguous_legacy_pooling_is_an_error() {
    let doc = r#"{"word_embedding_dimension": 384, "pooling_mode_cls_token": true, "pooling_mode_mean_tokens": true}"#;
    let e = read_pooling("1_Pooling/config.json", doc).unwrap_err();
    assert!(e.contains("several pooling modes"), "{e}");
}

fn table(rows: u64, cols: u64) -> Option<StaticTable> {
    let source = "src/model.safetensors".to_string();
    Some(StaticTable { rows, cols, tensor: "embeddings".into(), source, sha256: "0".into() })
}

fn static_request() -> ImportRequest {
    ImportRequest {
        artifacts: vec![],
        static_from: Some(("src/model.safetensors".into(), None)),
        max_seq: Some(512),
        truncate_dims: vec![],
        ..request()
    }
}

fn static_inputs(config: &str) -> StageInputs {
    let f = Facts::read(&Some(config.to_string()), &None, &None, &None, Some("src".into()));
    import_plan(&static_request(), "MIT".into(), None, None, vec![], &f).unwrap()
}

#[test]
fn static_table_from_safetensors() {
    let entry =
        Entry { name: "embeddings".into(), dtype: "F16".into(), shape: vec![30522, 4], start: 0, end: 30522 * 8 };
    let st = SafeTensors::open(vec![entry], vec![0; 30522 * 8]);
    let name = choose_tensor(&st.names(), &None).unwrap();
    assert_eq!(name, "embeddings");
    assert!(st.is_addressable(&name));
    let (bits, rows, cols) = st.table_f32(&name).unwrap();
    assert_eq!(static_bytes(&bits).len(), 30522 * 4 * 4);
    let inp = static_inputs(r#"{"model_type": "model2vec", "normalize": true}"#);
    let (m, note) = stage(&static_request(), inp, None, Files::new(), table(rows, cols)).unwrap();
    assert_eq!(m.kind, "embedding");
    assert_eq!(m.contract.dim, 4);
    assert_eq!(m.contract.vocab_size, 30522);
    assert_eq!((m.contract.max_seq, note), (512, None));
    let (format, f) = m.artifacts.entry(0);
    assert_eq!((format.as_str(), f.path.as_str()), ("static", "static.f32"));
    assert_eq!(
        f.provenance.as_deref(),
        Some("tensor `embeddings` of src/model.safetensors as little-endian f32 [30522, 4]")
    );
    assert_eq!(static_bytes(&vec![1.0f32.to_bits(), 0x0102_0304]), [0, 0, 0x80, 0x3f, 4, 3, 2, 1]);
}

#[test]
fn a_static_table_gives_the_dimensions() {
    let staged = |config: &str, rows, cols| {
        stage(&static_request(), static_inputs(config), None, Files::new(), table(rows, cols))
            .map(|(m, note)| (m.contract.dim, m.contract.vocab_size, note))
    };
    let (dim, vocab, note) = staged(r#"{"normalize": true, "hidden_size": 384}"#, 9, 4).unwrap();
    assert_eq!((dim, vocab), (4, 9));
    assert_eq!(note.unwrap(), "static table dim 4 overrides config.json hidden_size 384");
    assert_eq!(
        staged(r#"{"normalize": true, "vocab_size": 8}"#, 9, 4).unwrap_err(),
        "static table has 9 rows but the tokenizer vocabulary is 8"
    );
    assert_eq!(
        staged(r#"{"normalize": true}"#, 9, 1 << 32).unwrap_err(),
        "static table dim 4294967296 does not fit 32 bits"
    );
    assert_eq!(static_dims(0, 0, 1 << 32, 4).unwrap_err(), "static table rows 4294967296 does not fit 32 bits");
}

#[test]
fn sizes_that_a_manifest_cannot_hold_are_refused() {
    for (config, said) in [
        (r#"{"hidden_size": 4294967300, "normalize": true}"#, "hidden_size 4294967300 does not fit 32 bits"),
        (r#"{"vocab_size": 4294967300, "normalize": true}"#, "vocab_size 4294967300 does not fit 32 bits"),
    ] {
        let f = Facts::read(&Some(config.to_string()), &None, &None, &None, Some("src".into()));
        let r = import_plan(&static_request(), "MIT".into(), None, None, vec![], &f);
        assert!(matches!(r, Err(Refusal::Reason(s)) if s == said));
    }
    let f = Facts::read(
        &Some(r#"{"max_position_embeddings": 4294967296, "normalize": true}"#.to_string()),
        &None,
        &None,
        &None,
        Some("src".into()),
    );
    let asked = import_plan(&static_request(), "MIT".into(), None, None, vec![], &f).unwrap();
    assert_eq!(asked.max_seq, Some(512));
    let req = ImportRequest { max_seq: None, ..static_request() };
    let r = import_plan(&req, "MIT".into(), None, None, vec![], &f);
    assert!(matches!(r, Err(Refusal::Reason(s)) if s == "max_position_embeddings 4294967296 does not fit 32 bits"));
}

#[test]
fn a_chat_template_goes_with_the_tokenizer() {
    let s = |t: &str| Some(t.to_string());
    let f = Facts::read(&s(CONFIG), &s(SENTENCE), &s(BERT), &s(r#"{"chat_template": "{{ m }}"}"#), s("src"));
    let inp = import_plan(&request(), "MIT".into(), s("mean"), s("l2"), vec![], &f).unwrap();
    let tokenizer = Some(StagedTokenizer { kind: "bpe".into(), files: Files::new() });
    let (m, _) = stage(&request(), inp, tokenizer, Files::new(), None).unwrap();
    assert_eq!(m.tokenizer.unwrap().chat_template.as_deref(), Some("{{ m }}"));
    assert_eq!((m.contract.dim, m.contract.vocab_size), (384, 30522));
}

#[test]
fn tensors_of_a_static_table() {
    let names = |v: &[&str]| v.iter().map(|s| s.to_string()).collect::<Vec<_>>();
    assert_eq!(choose_tensor(&names(&["a", "b"]), &Some("b".into())).unwrap(), "b");
    assert_eq!(choose_tensor(&names(&["a"]), &None).unwrap(), "a");
    assert_eq!(choose_tensor(&names(&["a", "embeddings"]), &None).unwrap(), "embeddings");
    assert_eq!(
        choose_tensor(&names(&["a", "b"]), &None).unwrap_err(),
        "safetensors has several tensors (a, b); name one with path:tensor"
    );
}

#[test]
fn a_bundle_with_nothing_in_it_is_refused() {
    let req = request();
    let inp = planned(&req, MODE);
    assert_eq!(
        stage(&req, inp, None, Files::new(), None).map(|_| ()).unwrap_err(),
        "no artifacts and no tokenizer; pass --artifact format=path or --static-from"
    );
}

#[test]
fn contracts_follow_the_kind() {
    let kind = |k: &str| {
        let req = ImportRequest { kind: Some(k.into()), ..request() };
        let inp = planned(&req, MODE);
        let mut artifacts = Files::new();
        artifacts.put("onnx", file("model.onnx"));
        stage(&req, inp, None, artifacts, None).unwrap().0.contract
    };
    let c = kind("classifier");
    assert_eq!((c.activation.as_deref(), c.aggregation), (Some("softmax"), None));
    assert_eq!(kind("reranker").activation.as_deref(), Some("sigmoid"));
    let c = kind("token_classifier");
    assert_eq!((c.activation, c.aggregation.as_deref(), c.tagging.as_deref()), (None, Some("simple"), Some("BIO")));
    let req = ImportRequest { kind: Some("poet".into()), ..request() };
    let r = import_plan(&req, "MIT".into(), None, None, vec![], &facts());
    assert!(matches!(r, Err(Refusal::UnknownKind(k)) if k == "poet"));
}

#[test]
fn json_that_does_not_parse_names_its_file() {
    assert!(check_json("a.json", "{}").is_ok());
    let e = check_json("a.json", "{").unwrap_err();
    assert!(e.contains("a.json") && e.contains("EOF"), "{e}");
    assert!(read_modules("{}").is_err());
    assert!(map_pooling("median").is_err());
}

#[test]
fn kinds_are_inferred() {
    let none = None;
    assert_eq!(infer_kind(&none, false, true, "", 0).unwrap(), "embedding");
    assert_eq!(infer_kind(&none, true, false, "", 0).unwrap(), "embedding");
    assert_eq!(infer_kind(&Some("reranker".into()), false, true, "", 0).unwrap(), "reranker");
    assert_eq!(turbo_serving::import::kind_from_name("generic"), Some(ModelKind::Generic));
    assert_eq!(turbo_serving::import::kind_from_name("poet"), None);
    let mut f = facts();
    f.dir_name = None;
    let req = request();
    assert_eq!(model_id_of(&req, &f).unwrap_err(), "cannot determine model_id; pass --model-id");
    f.name_or_path = Some("org/m".into());
    assert_eq!(model_id_of(&req, &f).unwrap(), "org/m");
}

#[test]
fn tokenizers_are_shipped_or_built() {
    assert_eq!(tokenizer_source(true, true, None).unwrap(), TokenizerSource::Shipped);
    let t = tokenizer_source(false, true, Some(true)).unwrap();
    assert_eq!(t, TokenizerSource::Built { lowercase: true });
    assert_eq!(t.provenance().unwrap(), "built from vocab.txt, do_lower_case = true");
    assert_eq!(t.note().unwrap(), "tokenizer.json built from vocab.txt (lowercase true)");
    assert_eq!(
        tokenizer_source(false, true, None).unwrap_err(),
        "vocab.txt without tokenizer.json needs tokenizer_config.json with do_lower_case"
    );
    let t = tokenizer_source(false, false, None).unwrap();
    assert_eq!(
        t.note().unwrap(),
        "no tokenizer.json or vocab.txt in the source; the bundle has no tokenizer"
    );
    assert_eq!(
        detect_tokenizer_kind(r#"{"model": {"type": "Magic"}}"#).unwrap_err(),
        "tokenizer.json model type `Magic` is not recognized"
    );
    assert_eq!(detect_tokenizer_kind("{}").unwrap_err(), "tokenizer.json model type `` is not recognized");
    assert_eq!(detect_tokenizer_kind(r#"{"model": {"type": "BPE"}}"#).unwrap(), "bpe");
}

#[test]
fn a_vocabulary_has_one_token_per_line() {
    let t = vocab_tokens("[MASK]\r\n[UNK]\n[CLS]\n[SEP]\n[PAD]\nhello\n", "vocab.txt").unwrap();
    assert_eq!(t, ["[MASK]", "[UNK]", "[CLS]", "[SEP]", "[PAD]", "hello"]);
    let ids = special_ids(&t, "vocab.txt").unwrap();
    assert_eq!((ids.pad, ids.unk, ids.cls, ids.sep, ids.mask), (4, 1, 2, 3, 0));
    assert_eq!(special_order(ids), ["[MASK]", "[UNK]", "[CLS]", "[SEP]", "[PAD]"]);
    assert_eq!(vocab_tokens("a\n\nb", "v").unwrap_err(), "v: line 2 is empty");
    assert_eq!(vocab_tokens("a\nb\na", "v").unwrap_err(), "v: duplicate token `a` at line 3");
    assert!(vocab_tokens("", "v").unwrap().is_empty());
    assert_eq!(special_ids(&vec!["[PAD]".into()], "v").unwrap_err(), "v: special token [UNK] is missing");
}

fn artifact(format: &str, name: &str) -> ArtifactFile {
    ArtifactFile {
        format: format.into(),
        path: format!("src/{name}"),
        is_file: true,
        name: Some(name.into()),
        bin: None,
    }
}

#[test]
fn artifacts_are_copied_under_names_of_their_own() {
    let mut ir = artifact("openvino_ir", "model.xml");
    ir.bin = Some(NamedPath { path: "src/model.bin".into(), name: "model.bin".into() });
    let c = plan_copies(&vec![artifact("onnx", "model.onnx"), ir], true).unwrap();
    let got: Vec<(&str, &str, &str)> =
        c.iter().map(|c| (c.format.as_str(), c.name.as_str(), c.provenance.as_str())).collect();
    assert_eq!(
        got,
        [
            ("onnx", "model.onnx", "copied from src/model.onnx"),
            ("openvino_ir", "model.xml", "copied from src/model.xml"),
            ("openvino_ir_weights", "model.bin", "copied from src/model.bin"),
        ]
    );
    let e = plan_copies(&vec![artifact("openvino_ir", "m.xml")], false).unwrap_err();
    assert_eq!(e, "openvino_ir artifact `src/m.xml` has no sibling .bin");
    let e = plan_copies(&vec![artifact("a", "m"), artifact("b", "m")], false).unwrap_err();
    assert_eq!(e, "staging already has `m`; artifact file names must be unique");
    assert!(plan_copies(&vec![artifact("a", "tokenizer.json")], true).is_err());
    assert!(plan_copies(&vec![artifact("a", "tokenizer.json")], false).is_ok());
    let mut gone = artifact("a", "m");
    gone.is_file = false;
    assert_eq!(plan_copies(&vec![gone], false).unwrap_err(), "artifact `a` path `src/m` is not a file");
}

#[test]
fn arguments_of_the_bundler() {
    assert_eq!(artifact_arg("onnx=a=b").unwrap(), ("onnx".to_string(), "a=b".to_string()));
    for bad in ["onnx", "=x", "onnx="] {
        assert_eq!(artifact_arg(bad).unwrap_err(), format!("--artifact `{bad}` must be FORMAT=PATH"));
    }
    assert_eq!(static_arg("m.safetensors:emb"), ("m.safetensors".to_string(), Some("emb".to_string())));
    assert_eq!(static_arg("m.safetensors"), ("m.safetensors".to_string(), None));
    assert_eq!(static_arg("C:\\m"), ("C:\\m".to_string(), None));
    assert_eq!(static_arg("a:b/c"), ("a:b/c".to_string(), None));
    assert_eq!(static_arg(":t"), (":t".to_string(), None));
}

#[test]
fn files_are_kept_by_name() {
    let mut f = Files::new();
    assert!(f.is_empty());
    f.put("b", file("2"));
    f.put("a", file("1"));
    f.put("c", file("4"));
    f.put("a", file("3"));
    assert_eq!(f.count(), 3);
    let listed: Vec<_> = (0..3).map(|i| (f.entry(i).0.as_str(), f.entry(i).1.path.as_str())).collect();
    assert_eq!(listed, [("a", "3"), ("b", "2"), ("c", "4")]);
}

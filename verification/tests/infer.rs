use turbo_serving::api::{Failure, TURBO_E_INVALID_ARGUMENT, TURBO_E_INVALID_ENUM, TURBO_E_INVALID_SHAPE};
use turbo_serving::infer::{
    options, plan, split_bytes, InferInputTensor, InferParameter, InferRequestedOutputTensor, InferTensorContents,
    ModelInferRequest, Options, ParameterChoice, Real, Rows,
};

use ParameterChoice::{BoolParam, DoubleParam, Int64Param, StringParam, Uint64Param};

fn p(c: ParameterChoice) -> InferParameter {
    InferParameter { parameter_choice: Some(c) }
}

fn one(name: &str, c: ParameterChoice) -> Result<Options, Failure> {
    options(&vec![(name.to_string(), p(c))])
}

fn double(x: f64) -> Real {
    Real { bits: x.to_bits(), shown: x.to_string(), debug: format!("{x:?}") }
}

#[test]
fn every_field_by_its_header_name() {
    let params = vec![
        ("truncate".to_string(), p(StringParam("TRUNCATE_LEFT".into()))),
        ("max_tokens".to_string(), p(Int64Param(4294967295))),
        ("prompt_role".to_string(), p(StringParam("PROMPT_DOCUMENT".into()))),
        ("normalize".to_string(), p(StringParam("NORMALIZE_NONE".into()))),
        ("pooling".to_string(), p(StringParam("POOLING_LAST".into()))),
        ("output_dim".to_string(), p(Int64Param(0))),
    ];
    let o = options(&params).unwrap();
    assert_eq!(
        (o.truncate, o.max_tokens, o.prompt_role, o.normalize, o.pooling, o.output_dim),
        (3, u32::MAX, 2, 1, 3, 0)
    );
    let o = options(&Vec::new()).unwrap();
    assert_eq!((o.truncate, o.max_tokens, o.prompt_role, o.normalize, o.pooling, o.output_dim), (0, 0, 0, 0, 0, 0));
}

#[test]
fn infer_refusals() {
    let e = one("precision", StringParam("PRECISION_EXACT".into())).unwrap_err();
    assert_eq!((e.code, e.field), (TURBO_E_INVALID_ARGUMENT, 0));
    assert!(e.message.contains("precision"), "{e:?}");
    for (name, field, c) in [
        ("truncate", 1, Int64Param(2)),
        ("max_tokens", 2, StringParam("8".into())),
        ("max_tokens", 2, BoolParam(true)),
        ("max_tokens", 2, DoubleParam(double(8.0))),
        ("max_tokens", 2, Uint64Param(8)),
        ("max_tokens", 2, Int64Param(-1)),
        ("max_tokens", 2, Int64Param(4294967296)),
        ("pooling", 5, BoolParam(true)),
        ("output_dim", 6, Int64Param(i64::MIN)),
    ] {
        let e = one(name, c.clone()).unwrap_err();
        assert_eq!((e.code, e.field), (TURBO_E_INVALID_ARGUMENT, field), "{name} {c:?}");
    }
    let e = options(&vec![("pooling".to_string(), InferParameter { parameter_choice: None })]).unwrap_err();
    assert_eq!((e.code, e.field), (TURBO_E_INVALID_ARGUMENT, 5));
    assert_eq!(e.message, "parameter pooling takes a string_param, not no value");
    for (name, s) in [
        ("truncate", "truncate_right"),
        ("truncate", "TURBO_TRUNCATE_RIGHT"),
        ("truncate", "POOLING_MEAN"),
        ("pooling", ""),
        ("normalize", "L2"),
        ("prompt_role", "PROMPT_QUERY "),
    ] {
        let e = one(name, StringParam(s.into())).unwrap_err();
        assert_eq!((e.code, e.field), (TURBO_E_INVALID_ENUM, 0), "{name} {s}");
        assert!(e.message.contains(name) && e.message.contains(&format!("`{s}`")), "{e:?}");
    }
}

#[test]
fn the_least_unknown_parameter_is_refused() {
    let e = options(&vec![
        ("zeta".to_string(), p(Int64Param(1))),
        ("alpha".to_string(), p(Int64Param(1))),
        ("truncate".to_string(), p(Int64Param(1))),
    ])
    .unwrap_err();
    assert_eq!(e.message, "parameter `alpha` is not a field of turbo_embed_options");
    let e = one("max_tokens", Int64Param(-1)).unwrap_err();
    assert_eq!(e.message, "parameter max_tokens: -1 is outside 0 to 4294967295");
    let e = one("pooling", StringParam("x".into())).unwrap_err();
    assert_eq!(
        e.message,
        "parameter pooling: `x` is not one of POOLING_MODEL, POOLING_MEAN, POOLING_CLS, POOLING_LAST"
    );
}

#[test]
fn raw_bytes() {
    let mut b = Vec::new();
    for s in ["", "ab", "caf\u{e9}"] {
        b.extend((s.len() as u32).to_le_bytes());
        b.extend(s.as_bytes());
    }
    let v = split_bytes(&b).unwrap();
    assert_eq!(v.iter().map(|t| t.len()).collect::<Vec<_>>(), [0, 2, 5]);
    assert_eq!(v[2], "caf\u{e9}".as_bytes());
    assert!(split_bytes(&Vec::new()).unwrap().is_empty());
    for bad in [b[..b.len() - 1].to_vec(), vec![1, 0, 0], vec![5, 0, 0, 0, b'a']] {
        assert_eq!(split_bytes(&bad).err().map(|e| e.code), Some(TURBO_E_INVALID_ARGUMENT));
    }
    assert_eq!(
        split_bytes(&vec![5, 0, 0, 0, b'a']).unwrap_err().message,
        "raw `texts` element 0: length 5 with 1 bytes left"
    );
}

fn contents() -> InferTensorContents {
    InferTensorContents {
        bool_contents: vec![],
        int_contents: vec![],
        int64_contents: vec![],
        uint_contents: vec![],
        uint64_contents: vec![],
        fp32_contents: vec![],
        fp64_contents: vec![],
        bytes_contents: vec![],
    }
}

fn request(inputs: Vec<InferInputTensor>, raw: Vec<Vec<u8>>) -> ModelInferRequest {
    ModelInferRequest {
        model_name: "m".into(),
        model_version: String::new(),
        id: "1".into(),
        parameters: vec![],
        inputs,
        outputs: vec![],
        raw_input_contents: raw,
    }
}

fn tensor(name: &str, datatype: &str, shape: &[i64], c: Option<InferTensorContents>) -> InferInputTensor {
    InferInputTensor {
        name: name.into(),
        datatype: datatype.into(),
        shape: shape.to_vec(),
        parameters: vec![],
        contents: c,
    }
}

fn texts(t: &[&str]) -> ModelInferRequest {
    let c = InferTensorContents { bytes_contents: t.iter().map(|s| s.as_bytes().to_vec()).collect(), ..contents() };
    request(vec![tensor("texts", "BYTES", &[t.len() as i64], Some(c))], vec![])
}

fn raw_texts(t: &[&[u8]]) -> ModelInferRequest {
    let mut b = Vec::new();
    for s in t {
        b.extend((s.len() as u32).to_le_bytes());
        b.extend(*s);
    }
    request(vec![tensor("texts", "BYTES", &[t.len() as i64], None)], vec![b])
}

fn token_names(types: bool) -> Vec<&'static str> {
    if types {
        vec!["ids", "mask", "types"]
    } else {
        vec!["ids", "mask"]
    }
}

fn typed_tokens(rows: &[Vec<i32>], types: bool) -> ModelInferRequest {
    let shape = [rows.len() as i64, rows[0].len() as i64];
    let flat: Vec<i32> = rows.iter().flatten().copied().collect();
    let inputs = token_names(types)
        .into_iter()
        .map(|n| tensor(n, "INT32", &shape, Some(InferTensorContents { int_contents: flat.clone(), ..contents() })))
        .collect();
    request(inputs, vec![])
}

fn raw_tokens(rows: &[Vec<i32>], types: bool) -> ModelInferRequest {
    let shape = [rows.len() as i64, rows[0].len() as i64];
    let flat: Vec<u8> = rows.iter().flatten().flat_map(|v| v.to_le_bytes()).collect();
    let n = token_names(types);
    let raw = vec![flat; n.len()];
    request(n.into_iter().map(|n| tensor(n, "INT32", &shape, None)).collect(), raw)
}

#[test]
fn inputs_that_are_refused() {
    let rows = vec![vec![101, 7592, 102]];
    let (arg, shape) = (TURBO_E_INVALID_ARGUMENT, TURBO_E_INVALID_SHAPE);
    let mut cases: Vec<(&str, ModelInferRequest, i32)> = vec![("no inputs", request(vec![], vec![]), arg)];
    let mut r = typed_tokens(&rows, false);
    r.inputs[0].datatype = "INT64".into();
    r.inputs[0].contents = Some(InferTensorContents { int64_contents: vec![101, 7592, 102], ..contents() });
    cases.push(("INT64 ids", r, arg));
    let mut r = texts(&["a"]);
    r.inputs[0].datatype = "STRING".into();
    cases.push(("texts not BYTES", r, arg));
    let mut r = typed_tokens(&rows, false);
    r.inputs.remove(1);
    cases.push(("ids without mask", r, arg));
    let mut r = typed_tokens(&rows, false);
    r.inputs.push(texts(&["a"]).inputs.remove(0));
    cases.push(("texts and ids", r, arg));
    let mut r = typed_tokens(&rows, true);
    r.inputs[2].name = "mask".into();
    cases.push(("a name given twice", r, arg));
    let mut r = texts(&["a"]);
    r.inputs[0].name = "text".into();
    cases.push(("an unknown input", r, arg));
    let mut r = texts(&["a"]);
    r.inputs[0].parameters.push(("x".into(), p(Int64Param(1))));
    cases.push(("input parameters", r, arg));
    let output = |name: &str| InferRequestedOutputTensor { name: name.into(), parameters: vec![] };
    let mut r = texts(&["a"]);
    r.outputs = vec![output("embeddings")];
    cases.push(("an unknown output", r, arg));
    let mut r = texts(&["a"]);
    r.outputs = vec![output("vectors"), output("vectors")];
    cases.push(("vectors twice", r, arg));
    let mut r = texts(&["a"]);
    r.outputs =
        vec![InferRequestedOutputTensor { name: "vectors".into(), parameters: vec![("x".into(), p(Int64Param(1)))] }];
    cases.push(("output parameters", r, arg));
    let mut r = texts(&["a"]);
    r.raw_input_contents = vec![vec![1, 0, 0, 0, b'a']];
    cases.push(("raw and typed", r, arg));
    let mut r = raw_tokens(&rows, false);
    r.raw_input_contents.pop();
    cases.push(("a raw entry short", r, arg));
    let mut r = raw_texts(&[b"a"]);
    r.raw_input_contents[0].push(9);
    cases.push(("malformed raw BYTES", r, arg));
    let mut r = texts(&["a"]);
    r.inputs[0].contents.as_mut().unwrap().int_contents = vec![1];
    cases.push(("texts in int_contents too", r, arg));
    let mut r = typed_tokens(&rows, false);
    r.inputs[1].contents = Some(InferTensorContents { uint_contents: vec![1, 1, 1], ..contents() });
    cases.push(("mask in uint_contents", r, arg));

    let mut r = texts(&["a"]);
    r.inputs[0].shape = vec![1, 1];
    cases.push(("texts of rank 2", r, shape));
    let mut r = typed_tokens(&rows, false);
    r.inputs[0].shape = vec![3];
    cases.push(("ids of rank 1", r, shape));
    let mut r = texts(&["a"]);
    r.inputs[0].shape = vec![-1];
    cases.push(("a negative extent", r, shape));
    let mut r = texts(&["a"]);
    r.inputs[0].shape = vec![1 << 32];
    cases.push(("an extent over uint32_t", r, shape));
    let mut r = texts(&["a"]);
    r.inputs[0].shape = vec![2];
    cases.push(("fewer texts than the shape", r, shape));
    let mut r = raw_texts(&[b"a", b"b"]);
    r.inputs[0].shape = vec![1];
    cases.push(("more raw texts than the shape", r, shape));
    let mut r = typed_tokens(&rows, false);
    r.inputs[1].shape = vec![3, 1];
    cases.push(("mask shaped unlike ids", r, shape));
    let mut r = typed_tokens(&rows, true);
    r.inputs[2].shape = vec![1, 2];
    cases.push(("types shaped unlike ids", r, shape));
    let mut r = typed_tokens(&rows, false);
    r.inputs[0].contents.as_mut().unwrap().int_contents.pop();
    cases.push(("typed ids short", r, shape));
    let mut r = raw_tokens(&rows, false);
    r.raw_input_contents[1].extend([0, 0, 0, 0]);
    cases.push(("raw mask long", r, shape));
    // 4 x batch x seq is 2^64 here, which wraps to 0 in a uint64_t: the empty
    // contents must not pass for it.
    for e in [1i64 << 31, u32::MAX as i64] {
        let mut r = raw_tokens(&rows, false);
        for i in &mut r.inputs {
            i.shape = vec![e, e];
        }
        r.raw_input_contents = vec![vec![], vec![]];
        cases.push(("raw rows past a uint64_t of bytes", r, shape));
    }
    for (what, r, want) in cases {
        let e = plan(&r).map(|_| ()).unwrap_err();
        assert_eq!((e.code, e.field), (want, 0), "{what}: {}", e.message);
    }
}

#[test]
fn a_plan_holds_the_rows_of_its_request() {
    let r = texts(&["a", "bc"]);
    match plan(&r).unwrap().rows {
        Rows::Texts(t) => assert_eq!(t, [b"a".as_slice(), b"bc"]),
        other => panic!("{other:?}"),
    }
    let r = raw_texts(&[b"a", b"bc"]);
    match plan(&r).unwrap().rows {
        Rows::Texts(t) => assert_eq!(t, [b"a".as_slice(), b"bc"]),
        other => panic!("{other:?}"),
    }
    let rows = vec![vec![101, -1, 102], vec![101, 5, 102]];
    let r = typed_tokens(&rows, true);
    match plan(&r).unwrap().rows {
        Rows::Typed { batch, seq, ids, mask, types } => {
            assert_eq!((batch, seq), (2, 3));
            assert_eq!(ids, [101, -1, 102, 101, 5, 102]);
            assert_eq!(mask, ids);
            assert_eq!(types, Some(ids));
        }
        other => panic!("{other:?}"),
    }
    let r = raw_tokens(&rows, false);
    match plan(&r).unwrap().rows {
        Rows::Raw { batch, seq, ids, types, .. } => {
            assert_eq!((batch, seq, ids.len()), (2, 3, 24));
            assert!(types.is_none());
        }
        other => panic!("{other:?}"),
    }
    let mut r = typed_tokens(&rows, false);
    r.inputs.remove(0);
    assert_eq!(
        plan(&r).map(|_| ()).unwrap_err().message,
        "inputs [\"mask\"]: a request gives `texts` alone, or `ids` and `mask` with `types` optional"
    );
}

use turbo_serving::answer::{
    classify_answer, embed_answer, generate_answer, generation_inputs, infer, label_of, prompt_conversation,
    rerank_answer, respond, run_answer, tag_answer, RunOutput, Work,
};
use turbo_serving::engine::Collected;
use turbo_serving::error::{Class, Error, Field};
use turbo_serving::ggml::FinishReason;
use turbo_serving::infer::Real;
use turbo_serving::oip::{
    classify_options, datatype_of, dtype_of, elements, embed_options, extensions, generate_desc, model_meta, pack,
    rerank_options, texts, unpack, Data, InferRequest, Number, Param, Params, Reading, ServedModel, Tensor,
    MODEL_VERSION, SERVER_NAME,
};
use turbo_serving::types::{Aggregation, DType, ModelKind, Normalize, Placement, Pooling, Task, Truncate};

fn double(x: f64) -> Real {
    Real { bits: x.to_bits(), shown: x.to_string(), debug: format!("{x:?}") }
}

fn params(p: Vec<(&str, Param)>) -> Params {
    p.into_iter().map(|(k, v)| (k.to_string(), v)).collect()
}

fn s(t: &str) -> Param {
    Param::Str(t.into())
}

fn tensor(name: &str, items: &[&str]) -> Tensor {
    Tensor {
        name: name.into(),
        datatype: "BYTES".into(),
        shape: vec![items.len() as i64],
        data: Data::Bytes(items.iter().map(|s| s.as_bytes().to_vec()).collect()),
        parameters: vec![],
    }
}

fn request(inputs: Vec<Tensor>, p: Params) -> InferRequest {
    InferRequest { id: "r1".into(), parameters: p, inputs, outputs: vec![] }
}

fn served(kind: ModelKind) -> ServedModel {
    ServedModel {
        name: "embed".into(),
        kind,
        task: if kind == ModelKind::TokenClassifier { Task::TokenClassify } else { Task::Embed },
        dim: 8,
        labels: vec!["a".into(), "b".into(), "c".into()],
        inputs: vec![("x".into(), DType::F32, vec![-1, -1])],
        outputs: vec![("y".into(), DType::F32, vec![-1, -1])],
        model_id: "turbo/mock-embedding".into(),
        revision: "mock".into(),
        max_seq: 16,
        max_batch: 8,
        served_max_seq: 16,
        served_max_batch: 8,
        device: "Mock accelerator".into(),
        provider_id: "mock".into(),
        pooling: Some(Pooling::Mean),
        normalize: Some(Normalize::L2),
    }
}

#[test]
fn metadata_names_the_tensors_of_every_kind() {
    type T = Vec<(&'static str, &'static str, Vec<i64>)>;
    let cases: Vec<(ModelKind, T, T)> = vec![
        (
            ModelKind::Embedding,
            vec![("text", "BYTES", vec![-1])],
            vec![("embeddings", "FP32", vec![-1, 8])],
        ),
        (
            ModelKind::Reranker,
            vec![("query", "BYTES", vec![1]), ("documents", "BYTES", vec![-1])],
            vec![("scores", "FP32", vec![-1]), ("sorted", "INT32", vec![-1])],
        ),
        (
            ModelKind::Classifier,
            vec![("text", "BYTES", vec![-1])],
            vec![("scores", "FP32", vec![-1, 3]), ("labels", "BYTES", vec![3])],
        ),
        (
            ModelKind::TokenClassifier,
            vec![("text", "BYTES", vec![-1])],
            vec![("spans", "BYTES", vec![-1]), ("labels", "BYTES", vec![3])],
        ),
        (
            ModelKind::Generative,
            vec![("prompt", "BYTES", vec![1]), ("messages", "BYTES", vec![-1])],
            vec![("text", "BYTES", vec![1])],
        ),
        (ModelKind::Generic, vec![("x", "FP32", vec![-1, -1])], vec![("y", "FP32", vec![-1, -1])]),
    ];
    for (kind, inputs, outputs) in cases {
        let m = model_meta(&served(kind));
        assert_eq!(m.name, "embed");
        assert_eq!(m.versions, ["1"]);
        assert_eq!(m.platform, "mock");
        for (t, (n, d, sh)) in m.inputs.iter().zip(&inputs).chain(m.outputs.iter().zip(&outputs)) {
            assert_eq!((t.name.as_str(), t.datatype.as_str(), &t.shape), (*n, *d, sh), "{kind:?}");
        }
        assert_eq!((m.inputs.len(), m.outputs.len()), (inputs.len(), outputs.len()));
    }
}

#[test]
fn metadata_properties_report_the_bundle_and_the_device() {
    let m = model_meta(&served(ModelKind::Embedding));
    let want = [
        ("device", "Mock accelerator"),
        ("kind", "Embedding"),
        ("max_batch", "8"),
        ("max_seq", "16"),
        ("model_id", "turbo/mock-embedding"),
        ("normalize", "l2"),
        ("pooling", "mean"),
        ("provider", "mock"),
        ("revision", "mock"),
        ("served_max_batch", "8"),
        ("served_max_seq", "16"),
        ("task", "embed"),
    ];
    let got: Vec<(&str, &str)> = m.properties.iter().map(|(k, v)| (k.as_str(), v.as_str())).collect();
    assert_eq!(got, want);
    let mut other = served(ModelKind::TokenClassifier);
    other.pooling = None;
    other.normalize = None;
    let m = model_meta(&other);
    assert_eq!(m.properties.len(), 10);
    assert_eq!(m.properties[9], ("task".to_string(), "tokenclassify".to_string()));
    assert_eq!(extensions(), ["turbo_parameters"]);
    assert_eq!((SERVER_NAME, MODEL_VERSION), ("turbo-inferstream", "1"));
}

#[test]
fn options_come_from_parameters() {
    let o = embed_options(&params(vec![
        ("max_tokens", Param::Int(7)),
        ("normalize", Param::Bool(false)),
        ("output_dim", s("4")),
        ("pooling", s("CLS")),
        ("truncate", s("left")),
    ]))
    .unwrap();
    assert_eq!((o.truncate, o.max_tokens, o.output_dim), (Truncate::Left, 7, 4));
    assert_eq!((o.normalize, o.pooling), (Normalize::Off, Pooling::Cls));
    let e = embed_options(&params(vec![("pooling", s("sideways"))])).unwrap_err();
    assert_eq!((e.class, e.field), (Class::BadRequest, Field::EmbedPooling));
    let e = embed_options(&params(vec![("max_tokens", Param::Int(-1))])).unwrap_err();
    assert_eq!(e.message, "parameter `max_tokens` must be a non-negative integer, not Int(-1)");
    let e = embed_options(&params(vec![("max_tokens", Param::Double(double(1.0)))])).unwrap_err();
    assert_eq!(e.message, "parameter `max_tokens` must be a non-negative integer, not Double(1.0)");
    let e = embed_options(&params(vec![("max_tokens", Param::Uint(1 << 40))])).unwrap_err();
    assert_eq!(e.message, "parameter `max_tokens` must be a non-negative integer, not Uint(1099511627776)");
    let e = embed_options(&params(vec![("output_dim", s("x"))])).unwrap_err();
    assert_eq!((e.field, e.message.as_str()), (
        Field::EmbedOutputDim,
        "parameter `output_dim` `x`: invalid digit found in string"
    ));
    let o = rerank_options(&params(vec![("raw_scores", s("1")), ("top_n", Param::Uint(2))])).unwrap();
    assert_eq!((o.top_n, o.return_sorted, o.raw_scores), (2, true, true));
    let e = rerank_options(&params(vec![("raw_scores", s("yes"))])).unwrap_err();
    assert_eq!(e.message, "parameter `raw_scores` `yes` is not true or false");
    let e = rerank_options(&params(vec![("raw_scores", Param::Uint(1))])).unwrap_err();
    assert_eq!(e.message, "parameter `raw_scores` must be a boolean, not Uint(1)");
    let o = classify_options(&params(vec![("aggregation", s("max")), ("raw_scores", Param::Int(3))])).unwrap();
    assert_eq!((o.aggregation, o.raw_scores), (Aggregation::Max, true));
}

#[test]
fn a_generation_comes_from_parameters() {
    let readings = vec![Reading { text: "0.5".into(), value: Ok(0.5f32.to_bits()) }];
    let g = generate_desc(
        &params(vec![
            ("max_new_tokens", Param::Int(4)),
            ("seed", s("18446744073709551615")),
            ("stop", s("a\u{1f}\u{1f}b")),
            ("temperature", s("0.5")),
            ("top_p", Param::Double(double(0.9))),
        ]),
        &readings,
    )
    .unwrap();
    assert_eq!((g.max_new_tokens, g.min_new_tokens, g.top_k), (Some(4), None, None));
    assert_eq!(g.temperature, Some(Number::Single(0.5f32.to_bits())));
    assert_eq!(g.top_p, Some(Number::Double(0.9f64.to_bits())));
    assert_eq!(g.seed, Some(u64::MAX));
    assert_eq!(g.stop, ["a", "b"]);
    let none = vec![];
    assert_eq!(generate_desc(&params(vec![("stop", s("\u{1f}"))]), &none).unwrap().stop, ["\u{1f}"]);
    assert!(generate_desc(&vec![], &none).unwrap().stop.is_empty());
    let e = generate_desc(&params(vec![("temperature", s("hot"))]), &none).unwrap_err();
    assert_eq!((e.field, e.message.as_str()), (
        Field::GenerateTemperature,
        "parameter `temperature` `hot`: invalid float literal"
    ));
    let e = generate_desc(&params(vec![("top_p", Param::Bool(true))]), &none).unwrap_err();
    assert_eq!(e.message, "parameter `top_p` must be a number, not Bool(true)");
    let e = generate_desc(&params(vec![("seed", s("-1"))]), &none).unwrap_err();
    assert_eq!((e.field, e.message.as_str()), (Field::GenerateSeed, "seed `-1`: invalid digit found in string"));
    let e = generate_desc(&params(vec![("seed", Param::Int(-1))]), &none).unwrap_err();
    assert_eq!(e.message, "seed must be a non-negative integer, not Int(-1)");
}

#[test]
fn texts_are_the_strings_of_a_tensor() {
    assert_eq!(texts(&tensor("text", &["a", "caf\u{e9}"])).unwrap(), ["a", "caf\u{e9}"]);
    let mut t = tensor("text", &["a", "b"]);
    t.shape = vec![3];
    assert_eq!(
        texts(&t).unwrap_err().message,
        "input `text` declares shape [3] (3 elements) but carries 2 strings"
    );
    t.shape = vec![];
    assert!(texts(&t).is_ok());
    t.shape = vec![1, 2];
    assert!(texts(&t).is_ok());
    t.datatype = "FP32".into();
    assert_eq!(texts(&t).unwrap_err().message, "input `text` must be datatype BYTES, not FP32");
    t.datatype = "BYTES".into();
    t.data = Data::Bool(vec![true]);
    assert_eq!(texts(&t).unwrap_err().message, "input `text` is declared BYTES but carries BOOL");
    t.data = Data::Bytes(vec![b"ok".to_vec(), vec![0xff]]);
    assert_eq!(
        texts(&t).unwrap_err().message,
        "input `text`[1] is not UTF-8: invalid utf-8 sequence of 1 bytes from index 0"
    );
    assert_eq!(elements(&vec![2, -3, 4]), Some(-24));
    assert_eq!(elements(&vec![]), Some(1));
    assert_eq!(elements(&vec![1 << 32, 1 << 32]), None);
    let mut t = tensor("text", &[]);
    t.shape = vec![1 << 32, 1 << 32];
    assert_eq!(
        texts(&t).unwrap_err().message,
        "input `text` declares shape [4294967296, 4294967296], which has more elements than can be counted"
    );
}

#[test]
fn contents_pack_and_unpack_as_they_were() {
    let bits = |v: &[f32]| v.iter().map(|x| x.to_bits()).collect::<Vec<u32>>();
    let b = pack(&Data::Fp32(bits(&[1.0, -2.0])), DType::F32, "x").unwrap();
    assert_eq!(b, [1.0f32, -2.0].iter().flat_map(|x| x.to_le_bytes()).collect::<Vec<u8>>());
    match unpack(&b, DType::F32).unwrap() {
        Data::Fp32(v) => assert_eq!(v, bits(&[1.0, -2.0])),
        other => panic!("{other:?}"),
    }
    let b = pack(&Data::Int32(vec![-1, i32::MIN, 7]), DType::I32, "x").unwrap();
    match unpack(&b, DType::I32).unwrap() {
        Data::Int32(v) => assert_eq!(v, [-1, i32::MIN, 7]),
        other => panic!("{other:?}"),
    }
    let b = pack(&Data::Int64(vec![-1, i64::MIN]), DType::I64, "x").unwrap();
    match unpack(&b, DType::I64).unwrap() {
        Data::Int64(v) => assert_eq!(v, [-1, i64::MIN]),
        other => panic!("{other:?}"),
    }
    let b = pack(&Data::Bool(vec![true, false]), DType::Bool, "x").unwrap();
    assert_eq!(b, [1, 0]);
    match unpack(&vec![0, 9], DType::Bool).unwrap() {
        Data::Bool(v) => assert_eq!(v, [false, true]),
        other => panic!("{other:?}"),
    }
    let e = pack(&Data::Bytes(vec![]), DType::Bytes, "x").unwrap_err();
    assert_eq!(e.message, "input `x`: BYTES inputs are not bound to generic models");
    let e = pack(&Data::Bool(vec![]), DType::F32, "x").unwrap_err();
    assert_eq!(e.message, "input `x` is declared FP32 but carries BOOL");
    let e = unpack(&vec![], DType::F16).unwrap_err();
    assert_eq!(
        (e.class, e.message.as_str()),
        (Class::UnsupportedDtype, "output dtype F16 is not carried as typed contents by this server")
    );
    assert_eq!(dtype_of("INT64").unwrap(), DType::I64);
    assert_eq!(
        dtype_of("FP16").unwrap_err().message,
        "datatype `FP16` is not carried by this server (BOOL, UINT32, UINT64, INT32, INT64, FP32, FP64, BYTES)"
    );
    assert_eq!(datatype_of(DType::BF16), "BF16");
}

fn work(kind: ModelKind, req: &InferRequest) -> Result<Work, Error> {
    infer(kind, req, &vec![])
}

#[test]
fn a_request_becomes_the_work_of_its_kind() {
    match work(ModelKind::Embedding, &request(vec![tensor("text", &["a"])], vec![])).unwrap() {
        Work::Embed(t, _) => assert_eq!(t, ["a"]),
        other => panic!("{other:?}"),
    }
    let e = work(ModelKind::Embedding, &request(vec![tensor("texts", &["a"])], vec![])).unwrap_err();
    assert_eq!(e.message, "input `text` is missing; inputs given: texts");
    let r = request(vec![tensor("query", &["q"]), tensor("documents", &["x", "y"])], params(vec![("top_n", Param::Int(1))]));
    match work(ModelKind::Reranker, &r).unwrap() {
        Work::Rerank(q, d, o) => {
            assert_eq!((q.as_str(), d.len(), o.top_n), ("q", 2, 1));
        }
        other => panic!("{other:?}"),
    }
    let e = work(ModelKind::Reranker, &request(vec![tensor("query", &["q", "r"])], vec![])).unwrap_err();
    assert_eq!(e.message, "input `query` must hold one string, not 2");
    assert!(matches!(
        work(ModelKind::Classifier, &request(vec![tensor("text", &["a"])], vec![])).unwrap(),
        Work::Classify(..)
    ));
    assert!(matches!(
        work(ModelKind::TokenClassifier, &request(vec![tensor("text", &["a"])], vec![])).unwrap(),
        Work::TokenClassify(..)
    ));
    match work(ModelKind::Generative, &request(vec![tensor("prompt", &["hello"])], vec![])).unwrap() {
        Work::Prompt(p, _) => assert_eq!(prompt_conversation(&p), [("user".to_string(), "hello".to_string())]),
        other => panic!("{other:?}"),
    }
    match work(ModelKind::Generative, &request(vec![tensor("messages", &["{}", "x"])], vec![])).unwrap() {
        Work::Turns(t) => assert_eq!(t, ["{}", "x"]),
        other => panic!("{other:?}"),
    }
    let x = Tensor {
        name: "x".into(),
        datatype: "FP32".into(),
        shape: vec![1, 2],
        data: Data::Fp32(vec![1.0f32.to_bits(), 2.0f32.to_bits()]),
        parameters: vec![],
    };
    let p = params(vec![("scale", Param::Double(double(2.0))), ("turbo_internal_x", Param::Bool(true))]);
    match work(ModelKind::Generic, &request(vec![x], p)).unwrap() {
        Work::Run(i, p) => {
            assert_eq!((i[0].name.as_str(), i[0].dtype, i[0].shape.as_slice()), ("x", DType::F32, &[1, 2][..]));
            assert_eq!(i[0].bytes.len(), 8);
            assert_eq!(p, [("scale".to_string(), "2".to_string())]);
        }
        other => panic!("{other:?}"),
    }
    let mut x = tensor("x", &[]);
    x.datatype = "INT32".into();
    x.shape = vec![-1];
    assert_eq!(
        work(ModelKind::Generic, &request(vec![x], vec![])).unwrap_err().message,
        "input `x` has a negative extent"
    );
}

#[test]
fn turns_that_cannot_be_read_are_refused_before_the_settings() {
    let turns = vec![Ok(("user".to_string(), "hi".to_string())), Err("expected value".to_string())];
    let bad = params(vec![("seed", Param::Int(-1))]);
    let e = generation_inputs(&turns, &bad, &vec![]).unwrap_err();
    assert_eq!(e.message, "input `messages`[1] is not a {\"role\", \"content\"} object: expected value");
    let turns = vec![Ok(("user".to_string(), "hi".to_string()))];
    assert!(generation_inputs(&turns, &bad, &vec![]).is_err());
    let (c, g) = generation_inputs(&turns, &vec![], &vec![]).unwrap();
    assert_eq!(c, [("user".to_string(), "hi".to_string())]);
    assert_eq!(g.seed, None);
}

fn names(t: &[Tensor]) -> Vec<&str> {
    t.iter().map(|t| t.name.as_str()).collect()
}

#[test]
fn answers_carry_the_tensors_of_their_kind() {
    let a = embed_answer(2, &vec![vec![1, 2], vec![3, 4]], 2, double(1.5), Placement::Host, Some(9));
    assert_eq!(names(&a.outputs), ["embeddings"]);
    assert_eq!(a.outputs[0].shape, [2, 2]);
    assert!(matches!(&a.outputs[0].data, Data::Fp32(v) if *v == [1, 2, 3, 4]));
    let keys: Vec<&str> = a.parameters.iter().map(|(k, _)| k.as_str()).collect();
    assert_eq!(keys, ["device_ms", "placement", "prompt_tokens"]);
    assert_eq!(a.parameters[1].1.as_str(), "Host");
    let a = embed_answer(0, &vec![], 2, double(1.5), Placement::Device, None);
    assert_eq!(a.parameters.len(), 2);
    let a = rerank_answer(vec![5, 6, 7], vec![2, 0], double(0.0));
    assert_eq!((a.outputs[0].shape.as_slice(), a.outputs[1].shape.as_slice()), (&[3][..], &[2][..]));
    let labels = vec!["negative".to_string(), "positive".to_string()];
    let a = classify_answer(&vec![vec![1, 2]], &labels, double(0.0));
    assert_eq!(a.outputs[0].shape, [1, 2]);
    assert!(matches!(&a.outputs[1].data, Data::Bytes(v) if v[1] == b"positive"));
    let a = tag_answer(vec![b"{}".to_vec()], &labels, double(0.0));
    assert_eq!(names(&a.outputs), ["spans", "labels"]);
    assert_eq!((label_of(&labels, 1), label_of(&labels, 2)), ("positive".to_string(), "2".to_string()));
    let c = Collected {
        text: "hi".into(),
        prompt_tokens: 3,
        generated_tokens: 4,
        finish: Some(FinishReason::Length),
    };
    let a = generate_answer(&c);
    let shown: Vec<(String, String)> = a.parameters.iter().map(|(k, v)| (k.clone(), v.as_str())).collect();
    let want = [("finish_reason", "length"), ("generated_tokens", "4"), ("prompt_tokens", "3")];
    assert_eq!(shown, want.map(|(a, b)| (a.to_string(), b.to_string())));
    let o = RunOutput { name: "y".into(), dtype: DType::I32, shape: vec![1], bytes: vec![255, 255, 255, 255] };
    let a = run_answer(&vec![o], double(0.0)).unwrap();
    assert_eq!(a.outputs[0].datatype, "INT32");
    assert!(matches!(&a.outputs[0].data, Data::Int32(v) if *v == [-1]));
    let o = RunOutput { name: "y".into(), dtype: DType::U8, shape: vec![1], bytes: vec![1] };
    assert_eq!(run_answer(&vec![o], double(0.0)).unwrap_err().class, Class::UnsupportedDtype);
}

#[test]
fn a_response_has_the_outputs_that_were_asked_for() {
    let labels = vec!["a".to_string()];
    let answer = || classify_answer(&vec![vec![1]], &labels, double(0.0));
    let mut r = request(vec![], vec![]);
    let all = respond("classify", &r, answer()).unwrap();
    assert_eq!(names(&all.outputs), ["scores", "labels"]);
    assert_eq!((all.model_name.as_str(), all.model_version.as_str(), all.id.as_str()), ("classify", "1", "r1"));
    r.outputs = vec!["labels".into()];
    assert_eq!(names(&respond("classify", &r, answer()).unwrap().outputs), ["labels"]);
    r.outputs = vec!["labels".into(), "logits".into()];
    let e = respond("classify", &r, answer()).unwrap_err();
    assert_eq!(e.message, "requested output `logits` is not produced; outputs: scores, labels");
}

use turbo_serving::engine::{Collected, Piece};
use turbo_serving::error::{Class, Field};
use turbo_serving::ggml::FinishReason;
use turbo_serving::http::{
    base64_of, chat_chunk, chat_desc, chat_id, check_route, check_version, classify_route, classify_route_options,
    data_from_json, embeddings_options, finish_name, hex_of, info, json_shape, labels_best_first, params_from_json,
    primary, ranked_documents, request_from_json, rerank_route_options, rest_extensions, span_word, usage, wants_base64, ChatRequest,
    InfoModel, Input, JsonElement, JsonInferRequest, JsonTensor, JsonValue, ModelType, Stop,
};
use turbo_serving::oip::{Data, Number, Param};
use turbo_serving::types::{Aggregation, ModelKind, Normalize, Pooling, PromptRole, Truncate};

#[test]
fn the_rest_binding_names_its_extensions() {
    assert_eq!(rest_extensions(), ["turbo_parameters", "turbo_stream_infer", "turbo_model_repository"]);
    assert!(check_version("1").is_ok());
    assert_eq!(check_version("").unwrap_err().class, Class::NotFound);
}

#[test]
fn base64_of_known_bytes() {
    for (bytes, want) in [
        ("", ""),
        ("f", "Zg=="),
        ("fo", "Zm8="),
        ("foo", "Zm9v"),
        ("foob", "Zm9vYg=="),
        ("fooba", "Zm9vYmE="),
        ("foobar", "Zm9vYmFy"),
    ] {
        assert_eq!(base64_of(&bytes.as_bytes().to_vec()), want);
    }
    assert_eq!(base64_of(&vec![0xfb, 0xff, 0xbf]), "+/+/");
    assert_eq!(base64_of(&1.0f32.to_le_bytes().to_vec()), "AACAPw==");
}

fn element() -> JsonElement {
    JsonElement { text: None, int: None, uint: None, flag: None, double: None, single: None }
}

fn number(n: i64) -> JsonElement {
    JsonElement {
        int: Some(n),
        uint: u64::try_from(n).ok(),
        double: Some((n as f64).to_bits()),
        single: Some((n as f32).to_bits()),
        ..element()
    }
}

#[test]
fn json_elements_are_read_as_their_datatype() {
    let t = JsonElement { text: Some("caf\u{e9}".into()), ..element() };
    match data_from_json("text", "BYTES", &vec![t]).unwrap() {
        Data::Bytes(v) => assert_eq!(v, ["caf\u{e9}".as_bytes().to_vec()]),
        other => panic!("{other:?}"),
    }
    match data_from_json("x", "FP32", &vec![number(2)]).unwrap() {
        Data::Fp32(v) => assert_eq!(v, [2.0f32.to_bits()]),
        other => panic!("{other:?}"),
    }
    match data_from_json("x", "INT8", &vec![number(-2)]).unwrap() {
        Data::Int32(v) => assert_eq!(v, [-2]),
        other => panic!("{other:?}"),
    }
    for (datatype, e, what) in [
        ("BYTES", number(42), "a string"),
        ("FP32", element(), "a number"),
        ("FP64", element(), "a number"),
        ("INT32", number(1 << 31), "a 32-bit integer"),
        ("INT64", element(), "an integer"),
        ("UINT32", number(-1), "a 32-bit unsigned integer"),
        ("UINT16", number(1 << 32), "a 32-bit unsigned integer"),
        ("UINT64", number(-1), "an unsigned integer"),
        ("BOOL", number(1), "a boolean"),
    ] {
        let err = data_from_json("x", datatype, &vec![e]).unwrap_err();
        assert_eq!(err.message, format!("input `x`: data[0] is not {what}"), "{datatype}");
    }
    let e = data_from_json("x", "FP16", &vec![number(1)]).unwrap_err();
    assert_eq!(e.message, "input `x`: datatype `FP16` is not carried by the JSON binding");
    assert_eq!(json_shape(&vec![], 3), [3]);
    assert_eq!(json_shape(&vec![1, 3], 3), [1, 3]);
}

#[test]
fn json_values_are_parameters() {
    let p = params_from_json(&vec![
        ("a".to_string(), JsonValue::Int(-1)),
        ("b".to_string(), JsonValue::Text("s".into())),
    ])
    .unwrap();
    assert!(matches!(p[0].1, Param::Int(-1)));
    let e = params_from_json(&vec![("k".to_string(), JsonValue::Other("null".into()))]).unwrap_err();
    assert_eq!(e.message, "parameter `k` must be a boolean, number or string, not null");
}

#[test]
fn routes_need_their_kind() {
    assert!(check_route("m", ModelKind::Embedding, ModelKind::Embedding).is_ok());
    let e = check_route("chat", ModelKind::Generative, ModelKind::Embedding).unwrap_err();
    assert_eq!(e.message, "model `chat` is Generative; this route needs Embedding");
    assert!(!classify_route("m", ModelKind::Classifier).unwrap());
    assert!(classify_route("m", ModelKind::TokenClassifier).unwrap());
    let e = classify_route("embed", ModelKind::Embedding).unwrap_err();
    assert_eq!(e.message, "model `embed` is Embedding; /v1/classify needs a classifier or token classifier");
    assert!(!wants_base64(&None).unwrap());
    assert!(wants_base64(&Some("base64".into())).unwrap());
    assert_eq!(
        wants_base64(&Some("utf7".into())).unwrap_err().message,
        "encoding_format `utf7` is not float or base64"
    );
    assert_eq!(Input::One("a".into()).into_vec(), ["a"]);
    assert_eq!(Input::Many(vec!["a".into(), "b".into()]).into_vec(), ["a", "b"]);
}

#[test]
fn route_options() {
    let s = |t: &str| Some(t.to_string());
    let o = embeddings_options(&s("right"), &s("query"), &s("none"), Some(4)).unwrap();
    assert_eq!((o.truncate, o.prompt_role, o.normalize, o.output_dim), (
        Truncate::Right,
        PromptRole::Query,
        Normalize::Off,
        4
    ));
    assert_eq!(embeddings_options(&None, &None, &None, None).unwrap().output_dim, 0);
    assert!(embeddings_options(&s("x"), &s("y"), &None, None).unwrap_err().message.starts_with("truncate"));
    let o = rerank_route_options(&None, Some(2), true).unwrap();
    assert_eq!((o.top_n, o.return_sorted, o.raw_scores), (2, true, true));
    let o = classify_route_options(&None, &s("first"), false).unwrap();
    assert_eq!(o.aggregation, Aggregation::First);
    assert_eq!(classify_route_options(&None, &s("x"), false).unwrap_err().field, Field::ClassifyAggregation);
}

fn chat() -> ChatRequest {
    ChatRequest {
        max_tokens: Some(4),
        max_completion_tokens: None,
        temperature: Some(0.5f32.to_bits()),
        top_p: None,
        top_k: None,
        seed: Some(7),
        stop: Some(Stop::One("END".into())),
        n: None,
    }
}

#[test]
fn a_chat_asks_for_one_choice() {
    let d = chat_desc(&chat()).unwrap();
    assert_eq!((d.max_new_tokens, d.seed, d.temperature), (Some(4), Some(7), Some(Number::Single(0.5f32.to_bits()))));
    assert_eq!(d.stop, ["END"]);
    let d = chat_desc(&ChatRequest {
        max_completion_tokens: Some(9),
        stop: Some(Stop::Many(vec!["a".into(), "b".into()])),
        n: Some(1),
        ..chat()
    })
    .unwrap();
    assert_eq!((d.max_new_tokens, d.stop.len()), (Some(9), 2));
    let e = chat_desc(&ChatRequest { n: Some(2), ..chat() }).unwrap_err();
    assert_eq!((e.field, e.message.as_str()), (
        Field::GenerateSequences,
        "n 2 is not served; one choice per request"
    ));
    assert_eq!(chat_id(0xabc, 31), "chatcmpl-abc-1f");
    assert_eq!(hex_of(0), "0");
    assert_eq!(hex_of(u64::MAX), "ffffffffffffffff");
}

#[test]
fn a_stream_sends_the_role_first_and_the_finish_last() {
    let p = |text: &str, done| Piece {
        text: text.into(),
        done,
        finish_reason: FinishReason::Eos,
        prompt_tokens: 3,
        generated_tokens: 4,
    };
    let c = chat_chunk(&p("hi", false), false);
    assert!(c.role && !c.last && c.finish_reason.is_none() && c.usage.is_none());
    assert_eq!(c.content.as_deref(), Some("hi"));
    let c = chat_chunk(&p("", true), true);
    assert!(!c.role && c.last && c.content.is_none());
    assert_eq!(c.finish_reason.as_deref(), Some("stop"));
    assert_eq!(c.usage, Some(usage(3, 4)));
    assert_eq!(usage(3, 4).total_tokens, 7);
    assert_eq!(finish_name(FinishReason::Running), "none");
    assert_eq!(finish_name(FinishReason::Length), "length");
    assert_eq!(finish_name(FinishReason::Cancelled), "cancelled");
}

#[test]
fn a_span_names_the_text_between_its_offsets() {
    let text = "Ada liebt K\u{f6}ln";
    assert_eq!(span_word(text, 0, 3), "Ada");
    assert_eq!(span_word(text, 10, 15), "K\u{f6}ln");
    assert_eq!(span_word(text, 10, 12), "", "a cut character");
    assert_eq!(span_word(text, 10, 99), "");
    assert_eq!(span_word(text, 3, 2), "");
    assert_eq!(span_word(text, 15, 15), "");
}

#[test]
fn results_come_best_first() {
    let scores = vec![0.5f32.to_bits(), 2.0f32.to_bits()];
    let docs = vec!["a".to_string(), "b".to_string()];
    let r = ranked_documents(&vec![1, 0], &scores, &docs, true);
    assert_eq!((r[0].index, r[0].score, r[0].document.as_deref()), (1, 2.0f32.to_bits(), Some("b")));
    assert!(ranked_documents(&vec![1], &scores, &docs, false)[0].document.is_none());
    let labels = vec!["neg".to_string(), "pos".to_string()];
    assert_eq!(labels_best_first(&scores, &labels)[0], ("pos".to_string(), 2.0f32.to_bits()));
}

#[test]
fn info_tells_of_the_first_embedding_model() {
    let m = |kind, id: &str| InfoModel {
        name: format!("{id}-name"),
        kind,
        model_id: id.into(),
        revision: "r".into(),
        dtype: None,
        pooling: Some(Pooling::Mean),
        labels: vec!["no".into(), "yes".into()],
        provider: "mock".into(),
        device: "CPU".into(),
        max_seq: 16,
        max_batch: 8,
    };
    let v = vec![m(ModelKind::Generative, "chat"), m(ModelKind::Embedding, "embed")];
    assert_eq!(primary(&v), 1);
    let i = info(&v);
    assert_eq!((i.model_id.as_str(), i.model_dtype.as_str()), ("embed", "float32"));
    assert_eq!((i.max_input_length, i.max_batch_tokens, i.max_client_batch_size), (16, 128, 8));
    assert!(matches!(&i.model_type, ModelType::Embedding(Some(p)) if p == "mean"));
    assert_eq!(i.docker_label, None);
    let names: Vec<_> = i.models.iter().map(|e| (e.name.as_str(), e.kind.as_str(), e.max_batch)).collect();
    assert_eq!(names, [("chat-name", "Generative", 8), ("embed-name", "Embedding", 8)]);
    let e = &i.models[1];
    assert_eq!((e.model_id.as_str(), e.provider.as_str(), e.device.as_str()), ("embed", "mock", "CPU"));
    assert_eq!((e.max_seq, e.truncate_default.as_str()), (16, "model"));

    let numbered = [("0".to_string(), "no".to_string()), ("1".to_string(), "yes".to_string())];
    let i = info(&vec![m(ModelKind::Reranker, "r")]);
    assert_eq!(i.model_id, "r");
    assert!(matches!(i.model_type, ModelType::Reranker(l) if l == numbered));
    let i = info(&vec![m(ModelKind::Generative, "g")]);
    assert!(matches!(i.model_type, ModelType::Other(k) if k == "generative"));
}

fn tensor(shape: &[i64], data: Vec<JsonElement>, parameters: Vec<(String, JsonValue)>) -> JsonTensor {
    JsonTensor { name: "ids".into(), datatype: "INT32".into(), shape: shape.to_vec(), data, parameters }
}

#[test]
fn a_json_request_becomes_the_shared_one() {
    let r = request_from_json(JsonInferRequest {
        id: "42".into(),
        parameters: vec![("raw".into(), JsonValue::Bool(true))],
        inputs: vec![tensor(&[], vec![number(7), number(8)], vec![]), tensor(&[1, 1], vec![number(9)], vec![])],
        outputs: vec!["scores".into()],
    })
    .unwrap();
    assert_eq!((r.id.as_str(), r.outputs.len(), r.inputs.len()), ("42", 1, 2));
    assert_eq!(r.inputs[0].shape, [2], "no extents: one of the elements");
    assert_eq!(r.inputs[1].shape, [1, 1]);
    assert!(matches!(&r.inputs[1].data, Data::Int32(v) if *v == [9]));
    assert!(matches!(r.parameters[0].1, Param::Bool(true)));
    // An input's data is read before its parameters, and the inputs before the request's.
    let odd = || vec![("p".to_string(), JsonValue::Other("null".into()))];
    let ask = |inputs| JsonInferRequest { id: String::new(), parameters: odd(), inputs, outputs: vec![] };
    let e = request_from_json(ask(vec![tensor(&[1], vec![element()], odd())])).unwrap_err();
    assert!(e.message.starts_with("input `ids`: data[0] is not "), "{}", e.message);
    let e = request_from_json(ask(vec![tensor(&[1], vec![number(1)], vec![])])).unwrap_err();
    assert_eq!(e.message, "parameter `p` must be a boolean, number or string, not null");
}

#[test]
fn streamed_chunks_join_to_the_collected_text() {
    let piece = |text: &str, done| Piece {
        text: text.into(),
        done,
        finish_reason: FinishReason::Stop,
        prompt_tokens: 3,
        generated_tokens: 2,
    };
    let pieces = vec![piece("Hel", false), piece("", false), piece("lo", true)];
    let chunks: Vec<_> = pieces.iter().enumerate().map(|(i, p)| chat_chunk(p, i > 0)).collect();
    let joined: String = chunks.iter().filter_map(|c| c.content.clone()).collect();
    assert_eq!(joined, Collected::of(&pieces).text);
    assert_eq!(joined, "Hello");
    assert!(chunks[0].role && !chunks[1].role && chunks[2].last);
}

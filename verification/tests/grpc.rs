use turbo_serving::engine::Piece;
use turbo_serving::error::Class;
use turbo_serving::ggml::FinishReason;
use turbo_serving::grpc::{
    check_version, contents_of, data_from, params_from, params_to, piece_response, raw_to_data, repository_index,
    request_from, requested_name, response_to_proto, RepositoryModel,
};
use turbo_serving::infer::{
    InferInputTensor, InferParameter, InferRequestedOutputTensor, InferTensorContents, ModelInferRequest,
    ParameterChoice, Real,
};
use turbo_serving::oip::{Data, Param};
use turbo_serving::types::ModelKind;

fn contents() -> InferTensorContents {
    InferTensorContents {
        bool_contents: vec![],
        int_contents: vec![],
        int64_contents: vec![],
        uint_contents: vec![],
        uint64_contents: vec![],
        fp32_contents: vec![],
        fp64_contents: vec![],
        bytes_contents: vec![],
    }
}

fn input(datatype: &str, shape: &[i64], c: Option<InferTensorContents>) -> InferInputTensor {
    InferInputTensor { name: "x".into(), datatype: datatype.into(), shape: shape.to_vec(), parameters: vec![], contents: c }
}

#[test]
fn raw_numbers_are_little_endian() {
    let b: Vec<u8> = [1.0f32, 2.0, 3.0].iter().flat_map(|v| v.to_le_bytes()).collect();
    match raw_to_data("x", "FP32", &b, 3).unwrap() {
        Data::Fp32(v) => assert_eq!(v, [1.0f32, 2.0, 3.0].map(f32::to_bits)),
        other => panic!("{other:?}"),
    }
    // A negative count is not checked.
    assert!(raw_to_data("x", "FP32", &b, -1).is_ok());
    assert_eq!(
        raw_to_data("x", "FP32", &b, 2).unwrap_err().message,
        "input `x`: 12 raw bytes do not hold 2 elements of 4 bytes"
    );
    assert_eq!(
        raw_to_data("x", "INT64", &b, -1).unwrap_err().message,
        "input `x`: 12 raw bytes do not hold -1 elements of 8 bytes"
    );
    match raw_to_data("x", "INT32", &vec![255; 4], 1).unwrap() {
        Data::Int32(v) => assert_eq!(v, [-1]),
        other => panic!("{other:?}"),
    }
    match raw_to_data("x", "BOOL", &vec![0, 2], 9).unwrap() {
        Data::Bool(v) => assert_eq!(v, [false, true]),
        other => panic!("{other:?}"),
    }
    assert_eq!(
        raw_to_data("x", "FP16", &vec![], 0).unwrap_err().message,
        "input `x`: datatype `FP16` is not carried in raw form by this server"
    );
}

#[test]
fn raw_strings_stand_behind_their_lengths() {
    let mut raw = Vec::new();
    for t in ["hello world", "", "goodbye"] {
        raw.extend_from_slice(&(t.len() as u32).to_le_bytes());
        raw.extend_from_slice(t.as_bytes());
    }
    match raw_to_data("text", "BYTES", &raw, 3).unwrap() {
        Data::Bytes(v) => assert_eq!(v, [b"hello world".to_vec(), vec![], b"goodbye".to_vec()]),
        other => panic!("{other:?}"),
    }
    assert_eq!(
        raw_to_data("text", "BYTES", &raw, 2).unwrap_err().message,
        "input `text`: raw BYTES content holds 3 strings but the shape declares 2"
    );
    assert_eq!(
        raw_to_data("text", "BYTES", &vec![1, 0], 1).unwrap_err().message,
        "input `text`: raw BYTES content ends inside a length prefix"
    );
    assert_eq!(
        raw_to_data("text", "BYTES", &vec![9, 0, 0, 0, 1], 1).unwrap_err().message,
        "input `text`: raw BYTES element of 9 bytes runs past the content"
    );
}

#[test]
fn contents_are_typed_or_raw_not_both() {
    let c = InferTensorContents { int_contents: vec![-7], ..contents() };
    match data_from(&input("INT16", &[1], Some(c)), None).unwrap() {
        Data::Int32(v) => assert_eq!(v, [-7]),
        other => panic!("{other:?}"),
    }
    let e = data_from(&input("INT32", &[1], None), None).unwrap_err();
    assert_eq!(e.message, "input `x` has no contents");
    let e = data_from(&input("INT32", &[1], Some(contents())), Some(&vec![0; 4])).unwrap_err();
    assert_eq!(e.message, "input `x` has both contents and raw_input_contents; the protocol allows one");
    let e = data_from(&input("FP16", &[1], Some(contents())), None).unwrap_err();
    assert_eq!(e.message, "input `x`: datatype `FP16` is not carried in contents");
    assert!(data_from(&input("INT32", &[2, 1], None), Some(&vec![0; 8])).is_ok());
}

#[test]
fn parameters_stand_in_name_order() {
    let p = |c| InferParameter { parameter_choice: c };
    let map = vec![
        ("zeta".to_string(), p(Some(ParameterChoice::Int64Param(1)))),
        ("none".to_string(), p(None)),
        ("alpha".to_string(), p(Some(ParameterChoice::StringParam("s".into())))),
        ("mid".to_string(), p(Some(ParameterChoice::BoolParam(true)))),
    ];
    let out = params_from(&map);
    let keys: Vec<&str> = out.iter().map(|(k, _)| k.as_str()).collect();
    assert_eq!(keys, ["alpha", "mid", "zeta"]);
    assert!(matches!(&out[0].1, Param::Str(s) if s == "s"));
    let back = params_to(&out);
    assert!(matches!(&back[2].1.parameter_choice, Some(ParameterChoice::Int64Param(1))));
    assert_eq!(back.len(), 3);
}

#[test]
fn a_message_becomes_the_shared_request() {
    let mut r = ModelInferRequest {
        model_name: "m".into(),
        model_version: String::new(),
        id: "7".into(),
        parameters: vec![],
        inputs: vec![input("FP32", &[1], None)],
        outputs: vec![InferRequestedOutputTensor { name: "y".into(), parameters: vec![] }],
        raw_input_contents: vec![vec![0, 0, 128, 63]],
    };
    let got = request_from(&r).unwrap();
    assert_eq!((got.id.as_str(), got.outputs[0].as_str(), got.inputs[0].name.as_str()), ("7", "y", "x"));
    assert!(matches!(&got.inputs[0].data, Data::Fp32(v) if *v == [1.0f32.to_bits()]));
    r.raw_input_contents.push(vec![]);
    assert_eq!(request_from(&r).unwrap_err().message, "raw_input_contents has 2 entries for 1 inputs");
}

#[test]
fn only_the_one_version_is_served() {
    assert!(check_version("").is_ok());
    assert!(check_version("1").is_ok());
    let e = check_version("2").unwrap_err();
    assert_eq!(e.class, Class::NotFound);
    assert_eq!(e.message, "model version `2` does not exist; this server serves version 1");
}

#[test]
fn data_goes_out_in_its_own_field() {
    let c = contents_of(&Data::Int64(vec![-5]));
    assert_eq!(c.int64_contents, [-5]);
    assert!(c.int_contents.is_empty() && c.bytes_contents.is_empty());
    match data_from(&input("INT64", &[1], Some(c)), None).unwrap() {
        Data::Int64(v) => assert_eq!(v, [-5]),
        other => panic!("{other:?}"),
    }
}

#[test]
fn a_streamed_piece_tells_its_counts_with_the_last() {
    let p = |done| Piece {
        text: "hi".into(),
        done,
        finish_reason: FinishReason::Eos,
        prompt_tokens: 3,
        generated_tokens: 4,
    };
    let r = piece_response("chat", "9", &p(false));
    assert!(r.parameters.is_empty());
    assert_eq!((r.model_name.as_str(), r.id.as_str()), ("chat", "9"));
    let r = piece_response("chat", "9", &p(true));
    assert_eq!(r.parameters[0].1.as_str(), "eos");
    let m = response_to_proto(&r);
    assert_eq!((m.model_name.as_str(), m.model_version.as_str(), m.id.as_str()), ("chat", "1", "9"));
    assert_eq!(m.parameters.len(), r.parameters.len());
    assert_eq!(m.parameters[0].0, r.parameters[0].0);
    assert!(m.raw_output_contents.is_empty());
    assert_eq!(m.outputs.len(), 1);
    assert_eq!(m.outputs[0].name, "text");
    assert_eq!(m.outputs[0].contents.bytes_contents, [b"hi".to_vec()]);
}

#[test]
fn the_index_lists_every_served_model() {
    let v = repository_index(vec![RepositoryModel {
        name: "tiny".into(),
        bundle: "/bundles/tiny".into(),
        provider: "mock".into(),
        device: "CPU".into(),
        kind: ModelKind::Embedding,
    }]);
    assert_eq!(v.len(), 1);
    let m = &v[0];
    assert_eq!((m.name.as_str(), m.version.as_str(), m.state.as_str(), m.reason.as_str()), ("tiny", "1", "READY", ""));
    assert_eq!((m.bundle.as_str(), m.provider.as_str(), m.device.as_str()), ("/bundles/tiny", "mock", "CPU"));
    assert_eq!(m.kind, "Embedding");
    assert_eq!(requested_name(""), None);
    assert_eq!(requested_name("tiny"), Some("tiny".to_string()));
}

#[test]
fn a_number_keeps_its_texts() {
    let d = Real { bits: 1.5f64.to_bits(), shown: "1.5".into(), debug: "1.5".into() };
    let map = vec![(
        "scale".to_string(),
        InferParameter { parameter_choice: Some(ParameterChoice::DoubleParam(d)) },
    )];
    let p = params_from(&map);
    assert_eq!(p[0].1.as_str(), "1.5");
}

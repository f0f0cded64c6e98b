use turbo_serving::api::Failure;
use turbo_serving::config::{Device, ModelConfig};
use turbo_serving::infer::{InferInputTensor, InferParameter, ModelInferRequest, ParameterChoice, Rows};
use turbo_serving::names::Constants;
use turbo_serving::serve::{
    copy_rows, datatype, fits, input_tensors, int64, is_mapped, load_failure, output_extents, output_tensors, properties,
    result_parameters, LibraryCapability, LibraryDeviceInfo, LibraryModelInfo, LibrarySessionInfo, Loaded, Pool,
    ResultInfo, Served, State, Step, SERVER_NAME,
};

fn constants() -> Constants {
    Constants {
        task_embed: 1,
        dtype_i32: 10,
        dtype_f16: 11,
        dtype_bf16: 12,
        dtype_f32: 13,
        device_cpu: 20,
        device_gpu: 21,
        device_igpu: 22,
        device_npu: 23,
        place_host: 30,
        place_pinned: 31,
        place_device: 32,
        place_shared: 33,
        stage_unused: 40,
        stage_host: 41,
        stage_device: 42,
        stage_fused: 43,
    }
}

#[test]
fn a_pool_gives_each_session_to_one_holder() {
    let mut p = Pool::new(2);
    assert_eq!(p.take().unwrap(), 0);
    assert_eq!(p.take().unwrap(), 1);
    let e = p.take().unwrap_err();
    assert_eq!((e.code, e.field), (769, 0));
    assert_eq!(e.message, "all 2 sessions of the model are held");
    p.give_back(0);
    assert_eq!(p.take().unwrap(), 0);
    p.give_back(1);
    p.give_back(0);
    assert_eq!(p.take().unwrap(), 0);
}

fn state(loaded: bool) -> State {
    let config = ModelConfig::parse("bundle=b/tiny,device=3,sessions=2").unwrap();
    let loaded = if loaded {
        Some(Loaded { revision: "1".into(), device: 3, max_batch: 64, max_seq: 64 })
    } else {
        None
    };
    State { models: vec![Served { name: "tiny".into(), config, loaded }] }
}

fn raw_request(rows: usize, cols: usize) -> ModelInferRequest {
    let t = |name: &str| InferInputTensor {
        name: name.into(),
        datatype: "INT32".into(),
        shape: vec![rows as i64, cols as i64],
        parameters: vec![],
        contents: None,
    };
    ModelInferRequest {
        model_name: "tiny".into(),
        model_version: "1".into(),
        id: String::new(),
        parameters: vec![],
        inputs: vec![t("ids"), t("mask")],
        outputs: vec![],
        raw_input_contents: vec![vec![0; rows * cols * 4]; 2],
    }
}

#[test]
fn a_model_is_ready_once_it_is_loaded_and_in_its_version() {
    let s = state(false);
    assert!(!s.server_ready());
    assert!(!s.model_ready("tiny", "7").unwrap());
    let e = s.ready("tiny", "").unwrap_err();
    assert_eq!((e.code, e.message.as_str()), (261, "model tiny is not loaded yet"));
    let e = s.model_ready("nope", "").unwrap_err();
    assert_eq!((e.code, e.message.as_str()), (1280, "no model nope is served here"));
    let s = state(true);
    assert!(s.server_ready());
    assert!(s.model_ready("tiny", "").unwrap());
    assert!(s.model_ready("tiny", "1").unwrap());
    let e = s.ready("tiny", "2").unwrap_err();
    assert_eq!((e.code, e.message.as_str()), (1280, "model tiny has version 1, not 2"));
    assert!(State { models: vec![] }.server_ready());
}

#[test]
fn an_oversized_raw_request_is_refused_before_a_session_is_taken() {
    let s = state(true);
    assert_eq!(s.accept(&raw_request(64, 64)).unwrap().0, 0);
    for (rows, cols) in [(65, 3), (1, 65)] {
        let r = raw_request(rows, cols);
        let e = s.accept(&r).map(|_| ()).unwrap_err();
        assert_eq!(e.code, 771);
        assert!(e.message.contains("max_batch 64"), "{}", e.message);
    }
    let e = fits(64, 64, 65, 3).unwrap_err();
    assert_eq!(e.message, "token rows [65, 3] are over the session's max_batch 64 or max_seq 64");
    // A request is read before its room is.
    let mut r = raw_request(65, 3);
    r.parameters.push((
        "precision".into(),
        InferParameter { parameter_choice: Some(ParameterChoice::StringParam("PRECISION_EXACT".into())) },
    ));
    assert_eq!(s.accept(&r).map(|_| ()).unwrap_err().code, 256);
    let mut r = raw_request(1, 1);
    r.model_name = "Tiny".into();
    assert_eq!(s.accept(&r).map(|_| ()).unwrap_err().code, 1280);
}

#[test]
fn loading_makes_each_session_with_its_three_buffers() {
    let s = state(false);
    let contexts = vec![];
    let mut step = s.begin_load(false, &contexts);
    let mut seen = Vec::new();
    while step != Step::Finished {
        seen.push(step);
        step = s.next_load(&contexts, 9, step);
    }
    assert_eq!(seen[0], Step::CreateRuntime);
    assert_eq!(seen[1], Step::CreateContext { model: 0, device: 3 });
    assert_eq!(seen[2], Step::LoadModel { model: 0, device: 3 });
    let sessions = seen.iter().filter(|s| matches!(s, Step::CreateSession { .. })).count();
    let buffers = seen.iter().filter(|s| matches!(s, Step::Alloc { .. })).count();
    assert_eq!((sessions, buffers), (2, 6));
    assert_eq!(seen[seen.len() - 1], Step::Publish { model: 0, device: 3 });
    // A context that is there is used, and a loaded model is left alone.
    assert_eq!(s.begin_load(true, &vec![3]), Step::LoadModel { model: 0, device: 3 });
    assert_eq!(state(true).begin_load(true, &vec![]), Step::Finished);
    // A device that is selected is the runtime's.
    let mut s = state(false);
    s.models[0].config.device = Device::Select;
    let step = s.begin_load(true, &vec![]);
    assert_eq!(step, Step::Select { model: 0 });
    assert_eq!(s.next_load(&vec![], 9, step), Step::CreateContext { model: 0, device: 9 });
}

#[test]
fn a_load_failure_names_the_call_the_status_the_field_and_the_message() {
    let s = state(false);
    let e = load_failure(&s, Step::LoadModel { model: 0, device: 3 }, &Failure::new(1280, 0, "gone".into()));
    assert_eq!(e, "model tiny: turbo_model_load: TURBO_E_BUNDLE_NOT_FOUND: gone");
    let step = Step::CreateSession { model: 0, device: 3, made: 0 };
    let e = load_failure(&s, step, &Failure::new(513, 2, "65".into()));
    assert_eq!(e, "model tiny: turbo_session_create: TURBO_E_UNSUPPORTED_OPTION field 2 (max_seq): 65");
    let e = load_failure(&s, Step::CreateRuntime, &Failure::new(1026, 0, "no".into()));
    assert_eq!(e, "model -: turbo_runtime_create: TURBO_E_RUNTIME: no");
}

#[test]
fn raw_rows_become_little_endian_words() {
    let mut b = Vec::new();
    for v in [101i32, -1, i32::MIN, 7] {
        b.extend(v.to_le_bytes());
    }
    b.push(9);
    assert_eq!(copy_rows(&b), [101, -1, i32::MIN, 7]);
}

fn buffer(s: &str) -> Vec<u8> {
    let mut b = s.as_bytes().to_vec();
    b.resize(16, 0);
    b
}

#[test]
fn a_result_tells_its_fields_and_its_stages() {
    let c = constants();
    let mut i = ResultInfo {
        task: 1,
        batch: 2,
        dim: 32,
        dtype: 13,
        compute_dtype: 11,
        placement: 30,
        device: 0,
        bytes: u64::MAX,
        h2d_bytes: 0,
        d2h_bytes: 0,
        host_allocs: 1,
        device_allocs: 2,
        backend: buffer("cpu"),
        arch: buffer("x86"),
        runtime_version: buffer("1"),
        manifest_sha256: buffer("m"),
        artifact_sha256: buffer("a"),
        tokenizer_sha256: buffer("t"),
        stage_count: 2,
        stage: vec![41, 40, 42, 0, 0, 0, 0],
    };
    let p = result_parameters(&c, &i);
    let get = |k: &str| match &p.iter().find(|(n, _)| n == k).unwrap().1.parameter_choice {
        Some(ParameterChoice::StringParam(s)) => s.clone(),
        Some(ParameterChoice::Int64Param(n)) => n.to_string(),
        other => panic!("{other:?}"),
    };
    assert_eq!(p.len(), 21);
    assert_eq!(get("task"), "TASK_EMBED");
    assert_eq!(get("dtype"), "DTYPE_F32");
    assert_eq!(get("compute_dtype"), "DTYPE_F16");
    assert_eq!(get("placement"), "PLACE_HOST");
    assert_eq!(get("bytes"), i64::MAX.to_string());
    assert_eq!(get("backend"), "cpu");
    assert_eq!(get("stage.EMBED_STAGE_TOKENIZE"), "STAGE_HOST");
    assert_eq!(get("stage.EMBED_STAGE_UPLOAD"), "STAGE_UNUSED");
    i.stage_count = 99;
    assert_eq!(result_parameters(&c, &i).len(), 26);
    i.task = 2;
    assert_eq!(result_parameters(&c, &i).len(), 19);
    assert_eq!(output_extents(&i), [2, 32]);
    assert!(is_mapped(&c, 31) && is_mapped(&c, 33) && !is_mapped(&c, 32));
    assert_eq!(datatype(&c, 12).unwrap(), "BF16");
    let e = datatype(&c, 5).unwrap_err();
    assert_eq!((e.code, e.message.as_str()), (1536, "the result's dtype 5 has no datatype in the protocol"));
    let s = state(true);
    let req = ModelInferRequest { id: "42".into(), ..raw_request(2, 3) };
    let a = s.respond(0, &req, &c, &i).unwrap();
    assert_eq!((a.model_name.as_str(), a.model_version.as_str(), a.id.as_str()), ("tiny", "1", "42"));
    assert_eq!((a.output.name.as_str(), a.output.datatype.as_str()), ("vectors", "FP32"));
    assert_eq!((a.output.shape, a.parameters.len()), (vec![2, 32], 19));
    i.dtype = 5;
    assert_eq!(s.respond(0, &req, &c, &i).unwrap_err().code, 1536);
    match int64(i128::MIN).parameter_choice {
        Some(ParameterChoice::Int64Param(n)) => assert_eq!(n, i64::MIN),
        other => panic!("{other:?}"),
    }
}

#[test]
fn a_model_has_every_property_once() {
    let mi = LibraryModelInfo {
        task: 1,
        dim: 32,
        pooling: 1,
        normalize: 2,
        max_seq: 64,
        max_batch: 64,
        dtype: 13,
        model_id: buffer("id"),
        revision: buffer("1"),
        manifest_sha256: buffer("m"),
        artifact_sha256: buffer("a"),
        tokenizer_sha256: buffer("t"),
        prefix_query: buffer("query: "),
        prefix_document: buffer(""),
        output_dims_count: 9,
        output_dims: vec![16, 8],
    };
    let si = LibrarySessionInfo { max_batch: 64, max_seq: 64, precision: 0, compute_dtype: 13 };
    let di = LibraryDeviceInfo {
        kind: 20,
        ordinal: 0,
        unified_memory: 1,
        memory_total: 5,
        arch: buffer("x86"),
        name: buffer("n"),
        vendor: buffer("v"),
        backend: buffer("cpu"),
        runtime_version: buffer("r"),
        driver_version: buffer("d"),
    };
    let ca = LibraryCapability {
        status: 2,
        dtype: 13,
        options_honored: 63,
        cosine_floor: "0.999".into(),
        speed_ratio: "1".into(),
        benchmark: buffer("b"),
        reason: buffer(""),
    };
    let p = properties(&constants(), &mi, &si, &di, &ca);
    let get = |k: &str| p.iter().find(|(n, _)| n == k).unwrap().1.as_str();
    assert_eq!(p.len(), 37);
    let mut keys: Vec<&String> = p.iter().map(|(k, _)| k).collect();
    keys.sort();
    keys.dedup();
    assert_eq!(keys.len(), 37);
    assert_eq!(get("model_info.task"), "TASK_EMBED");
    assert_eq!(get("model_info.dim"), "32");
    assert_eq!(get("model_info.pooling"), "POOLING_MEAN");
    assert_eq!(get("model_info.normalize"), "NORMALIZE_L2");
    assert_eq!(get("model_info.prefix_query"), "query: ");
    assert_eq!(get("model_info.output_dims"), "16,8");
    assert_eq!(get("session_info.precision"), "PRECISION_MODEL");
    assert_eq!(get("device_info.kind"), "DEVICE_CPU");
    assert_eq!(get("capability.status"), "CAP_SUPPORTED");
    assert_eq!(get("capability.cosine_floor"), "0.999");
}

#[test]
fn the_tensors_of_the_embedding_server() {
    let t: Vec<(String, String, Vec<i64>)> =
        input_tensors().into_iter().map(|t| (t.name, t.datatype, t.shape)).collect();
    let st = |a: &str, b: &str, c: &[i64]| (a.to_string(), b.to_string(), c.to_vec());
    assert_eq!(
        t,
        [
            st("texts", "BYTES", &[-1]),
            st("ids", "INT32", &[-1, -1]),
            st("mask", "INT32", &[-1, -1]),
            st("types", "INT32", &[-1, -1])
        ]
    );
    let o = output_tensors();
    assert_eq!((o[0].name.as_str(), o[0].datatype.as_str(), o[0].shape.as_slice()), ("vectors", "FP32", &[-1, -1][..]));
    assert_eq!(SERVER_NAME, "turboembed");
}

#[test]
fn a_ready_model_says_what_it_is() {
    let props = || Ok(vec![("model_info.dim".to_string(), "32".to_string())]);
    let m = state(true).model_metadata("tiny", "", props()).unwrap();
    assert_eq!((m.name.as_str(), m.platform.as_str(), m.versions), ("tiny", "", vec!["1".to_string()]));
    assert_eq!((m.inputs.len(), m.outputs.len(), m.properties.len()), (4, 1, 1));
    let s = state(true);
    assert_eq!(s.model_metadata("tiny", "2", props()).unwrap_err().message, "model tiny has version 1, not 2");
    assert_eq!(s.model_metadata("other", "", props()).unwrap_err().message, "no model other is served here");
    assert_eq!(
        state(false).model_metadata("tiny", "", props()).unwrap_err().message,
        "model tiny is not loaded yet"
    );
    let e = s.model_metadata("tiny", "1", Err(Failure { code: 1026, field: 0, message: "gone".into() })).unwrap_err();
    assert_eq!(e.message, "gone");
}

#[test]
fn a_request_is_refused_before_the_sessions_are_looked_at() {
    let s = state(true);
    let mut pools = vec![Pool::new(1)];
    let fine = raw_request(2, 3);
    let (model, plan, session) = s.begin_infer(&mut pools, &fine).unwrap();
    assert_eq!((model, session), (0, 0));
    assert!(matches!(plan.rows, Rows::Raw { batch: 2, seq: 3, .. }));
    // Every session is held: an oversized request is still told that it is too large.
    assert_eq!(s.begin_infer(&mut pools, &raw_request(65, 3)).map(|_| ()).unwrap_err().code, 771);
    let e = s.begin_infer(&mut pools, &fine).map(|_| ()).unwrap_err();
    assert_eq!((e.code, e.message.as_str()), (769, "all 1 sessions of the model are held"));
    pools[0].give_back(session);
    assert_eq!(s.begin_infer(&mut pools, &fine).unwrap().2, 0);
}

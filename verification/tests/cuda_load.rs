use turbo_serving::cuda::{
    load_model, Contract, CudaModel, Elem, ElementType, Graph, Kind, Port, Sections, TensorFacts,
    TokenizerSection,
};
use turbo_serving::error::{Class, Error};
use turbo_serving::types::{BundleNames, ModelKind, Normalize, Pooling};
use turbo_serving::wordpiece::{Vocab, WORDPIECE_OK};

fn contract() -> Contract {
    Contract {
        text: true,
        kind: ModelKind::Embedding,
        dim: 384,
        pooling: Ok(Some(Pooling::Mean)),
        normalize: Ok(Some(Normalize::L2)),
        activation: None,
        labels: vec![],
        aggregation: Ok(None),
    }
}

fn sections(tokenizer: Option<TokenizerSection>) -> Sections {
    Sections {
        max_seq: 0,
        max_batch: 8,
        vocab_size: 30522,
        tokenizer,
        names: BundleNames {
            model_id: "m".into(),
            revision: "r".into(),
            tokenizer_sha256: "t".into(),
            prefix_query: "q: ".into(),
            prefix_document: String::new(),
        },
    }
}

fn wordpiece() -> Option<TokenizerSection> {
    Some(TokenizerSection { kind: "wordpiece".into(), path: Some("tokenizer.json".into()) })
}

fn vocab() -> Result<Vocab, Error> {
    Vocab::load(WORDPIECE_OK, true, 101, 102, 0, "tokenizer.json")
}

fn port(name: &str, ty: ElementType, shown: &str, dims: &[i64]) -> Port {
    Port { name: name.into(), tensor: Some(TensorFacts { ty, shown: shown.into(), dims: dims.to_vec() }) }
}

fn graph(width: i64) -> Graph {
    Graph {
        inputs: vec![
            port("input_ids", ElementType::Int64, "Int64", &[-1, -1]),
            port("attention_mask", ElementType::Int64, "Int64", &[-1, -1]),
        ],
        outputs: vec![port("last_hidden_state", ElementType::Float32, "Float32", &[-1, -1, width])],
    }
}

fn refusal(r: Result<CudaModel, Error>) -> Error {
    r.err().expect("a refusal")
}

#[test]
fn an_embedding_bundle_loads() {
    let m = load_model(contract(), sections(wordpiece()), Ok(()), vocab(), Ok(graph(384))).ok().unwrap();
    assert_eq!((m.plan.kind, m.plan.width, m.plan.normalize), (Kind::Embedding, 384, true));
    assert_eq!(m.inputs.elem, Some(Elem::I64));
    assert!(!m.inputs.types);
    assert_eq!(m.output, "last_hidden_state");
    assert_eq!((m.info.max_seq, m.info.max_batch, m.info.vocab_size), (512, 8, 30522));
    assert_eq!((m.info.dim, m.info.model_id.as_str()), (384, "m"));
    // A width is compared by its lower 32 bits.
    assert!(load_model(contract(), sections(wordpiece()), Ok(()), vocab(), Ok(graph(4294967680))).is_ok());
    assert!(load_model(contract(), sections(wordpiece()), Ok(()), vocab(), Ok(graph(4294967681))).is_err());
}

#[test]
fn the_first_fault_of_a_load_is_reported() {
    let bad = || Err(Error::say(Class::NotFound, "no such file"));
    let e = refusal(load_model(
        Contract { text: false, ..contract() },
        sections(None),
        bad(),
        vocab(),
        Ok(graph(384)),
    ));
    assert_eq!((e.class, e.message.as_str()), (Class::UnsupportedModality, "cuda provider serves text bundles only"));
    let e = refusal(load_model(contract(), sections(None), bad(), vocab(), Ok(graph(384))));
    assert_eq!((e.class, e.message.as_str()), (Class::NotFound, "no such file"));
    let e = refusal(load_model(contract(), sections(None), Ok(()), vocab(), Ok(graph(384))));
    assert_eq!(e.message, "bundle has no tokenizer section; the cuda provider tokenizes natively");
    let other = Some(TokenizerSection { kind: "bpe".into(), path: Some("tokenizer.json".into()) });
    assert!(load_model(contract(), sections(other), Ok(()), vocab(), Ok(graph(384))).is_err());
    let pathless = Some(TokenizerSection { kind: "wordpiece".into(), path: None });
    let e = refusal(load_model(contract(), sections(pathless), Ok(()), vocab(), Ok(graph(384))));
    assert_eq!(e.message, "bundle has no tokenizer.json; the cuda provider tokenizes natively");
    let e = refusal(load_model(
        contract(),
        sections(wordpiece()),
        Ok(()),
        Vocab::load(WORDPIECE_OK, true, -1, 102, 0, "tokenizer.json"),
        Ok(graph(384)),
    ));
    assert_eq!(e.class, Class::BundleInvalid);
    let e = refusal(load_model(
        contract(),
        sections(wordpiece()),
        Ok(()),
        vocab(),
        Err(Error::say(Class::Internal, "session")),
    ));
    assert_eq!(e.message, "session");
    let mut g = graph(384);
    g.inputs.pop();
    let e = refusal(load_model(contract(), sections(wordpiece()), Ok(()), vocab(), Ok(g)));
    assert_eq!(e.message, "model must have input_ids and attention_mask inputs");
    let mut g = graph(384);
    g.outputs.push(port("pooler", ElementType::Float32, "Float32", &[-1, 384]));
    let e = refusal(load_model(contract(), sections(wordpiece()), Ok(()), vocab(), Ok(g)));
    assert_eq!(e.message, "model must have exactly one output; `m` has 2");
    assert!(load_model(contract(), sections(wordpiece()), Ok(()), vocab(), Ok(graph(768))).is_err());
}

use turbo_serving::error::{Class, Error};
use turbo_serving::ggml::{load_model, Contract, GgmlModel, Gguf};
use turbo_serving::types::{BundleNames, DeviceKind, ModelKind, Normalize, Pooling, StagePlacement, Task};

fn contract(kind: ModelKind) -> Contract {
    Contract {
        kind,
        max_seq: 0,
        max_batch: 0,
        dim: 384,
        pooling: Ok(Some(Pooling::Mean)),
        normalize: Ok(Some(Normalize::L2)),
    }
}

fn names() -> BundleNames {
    BundleNames {
        model_id: "m".into(),
        revision: "r".into(),
        tokenizer_sha256: String::new(),
        prefix_query: String::new(),
        prefix_document: String::new(),
    }
}

const FILE: Gguf = Gguf { n_ctx_train: 2048, n_embd: 384, n_vocab: 32000 };

fn load(c: Contract, file: Result<Gguf, Error>, template: Result<(), Error>) -> Result<GgmlModel, Error> {
    load_model(c, Ok(()), file, template, DeviceKind::Gpu, names())
}

#[test]
fn generative_and_embedding_models_load() {
    let m = load(contract(ModelKind::Embedding), Ok(FILE), Err(Error::say(Class::Internal, "unused"))).unwrap();
    assert_eq!((m.info.task, m.info.dim, m.info.max_seq, m.info.max_batch), (Task::Embed, 384, 2048, 32));
    assert_eq!(m.info.stages.pool, StagePlacement::Device);
    assert!(m.plan.embed.unwrap().normalize);
    let m = load(contract(ModelKind::Generative), Ok(FILE), Ok(())).unwrap();
    assert_eq!((m.info.task, m.info.dim, m.info.max_batch, m.info.vocab_size), (Task::Generate, 0, 1, 32000));
    assert!(m.plan.embed.is_none());
}

#[test]
fn a_model_that_does_not_fit_its_contract_is_refused() {
    let no = |s: &str| -> Error { Error::say(Class::BundleInvalid, s) };
    let e = load_model(contract(ModelKind::Reranker), Err(no("a")), Err(no("f")), Ok(()), DeviceKind::Cpu, names())
        .unwrap_err();
    assert_eq!(e.message, "ggml provider serves generative and embedding bundles, not Reranker");
    let e = load_model(contract(ModelKind::Embedding), Err(no("a")), Err(no("f")), Ok(()), DeviceKind::Cpu, names())
        .unwrap_err();
    assert_eq!(e.message, "a");
    assert_eq!(load(contract(ModelKind::Embedding), Err(no("f")), Ok(())).unwrap_err().message, "f");
    let long = Contract { max_seq: 4096, ..contract(ModelKind::Generative) };
    assert_eq!(
        load(long, Ok(FILE), Err(no("t"))).unwrap_err().message,
        "contract.max_seq 4096 exceeds the model's training context 2048"
    );
    assert_eq!(load(contract(ModelKind::Generative), Ok(FILE), Err(no("t"))).unwrap_err().message, "t");
    let c = Contract { pooling: Ok(None), ..contract(ModelKind::Embedding) };
    assert_eq!(load(c, Ok(FILE), Ok(())).unwrap_err().message, "embedding bundle must declare contract.pooling");
    let c = Contract { normalize: Ok(None), ..contract(ModelKind::Embedding) };
    assert_eq!(load(c, Ok(FILE), Ok(())).unwrap_err().message, "embedding bundle must declare contract.normalize");
    let c = Contract { dim: 0, ..contract(ModelKind::Embedding) };
    assert_eq!(load(c, Ok(FILE), Ok(())).unwrap_err().message, "embedding bundle must declare contract.dim");
    let c = Contract { dim: 768, ..contract(ModelKind::Embedding) };
    assert_eq!(
        load(c, Ok(FILE), Ok(())).unwrap_err().message,
        "GGUF embedding width 384 does not match contract.dim 768"
    );
}

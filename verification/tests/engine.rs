use turbo_serving::engine::{
    after_piece, check_embeddings, check_engine, check_input_bytes, check_labels, check_rerank, check_scores,
    check_texts, choose_bucket, chunks, default_buckets, lease, load_buckets, longest, longest_pair, max_batch, max_seq,
    output_width, parse_aggregation, parse_normalize, parse_pooling, parse_prompt_role, parse_truncate, prefix, rank,
    read_f32, require_f32, rerank_lease, run_lease, served_name_of, spans_by_row, split_rows, text_lease, total_tokens,
    truncating, AfterPiece, Bucket, Collected, Piece, Registry, ServedModel, Span,
};
use turbo_serving::error::{Class, Error, Field};
use turbo_serving::ggml::FinishReason;
use turbo_serving::types::{Aggregation, DType, ModelKind, Normalize, Pooling, PromptRole, Truncate};

fn b(batch: u32, seq: u32) -> Bucket {
    Bucket { batch, seq }
}

#[test]
fn the_smallest_bucket_that_fits_serves_a_request() {
    let v = vec![b(1, 16), b(8, 16), b(1, 64), b(8, 64)];
    let pick = |rows, seq| choose_bucket("m", &v, rows, seq, false).unwrap();
    assert_eq!(pick(1, Some(10)), 0);
    assert_eq!(pick(2, Some(16)), 1);
    assert_eq!(pick(1, Some(17)), 2);
    assert_eq!(pick(3, Some(17)), 3);
    // More rows than any bucket has: the widest, and of equals the shorter.
    assert_eq!(pick(20, Some(3)), 1);
    assert_eq!(pick(20, Some(20)), 3);
    // An unknown length needs the longest.
    assert_eq!(pick(1, None), 2);
    // Equal buckets: the first where all rows fit, the last where they do not.
    let twins = vec![b(4, 8), b(4, 8)];
    assert_eq!(choose_bucket("m", &twins, 4, Some(8), false).unwrap(), 0);
    assert_eq!(choose_bucket("m", &twins, 5, Some(8), false).unwrap(), 1);
}

#[test]
fn a_text_longer_than_the_longest_bucket_is_refused_unless_it_may_be_cut() {
    let v = vec![b(1, 16)];
    let e = choose_bucket("tok", &v, 1, Some(18), false).unwrap_err();
    assert_eq!((e.class, e.field), (Class::Capacity, Field::EmbedTruncate));
    assert_eq!(
        e.message,
        "an input needs 18 tokens but the longest session of model `tok` holds 16; set truncate to right or left to cut it, or shorten it"
    );
    assert_eq!(choose_bucket("tok", &v, 1, Some(18), true).unwrap(), 0);
    let e = choose_bucket("chat", &vec![], 1, None, false).unwrap_err();
    assert_eq!(e.message, "model `chat` serves no sessions (generative model)");
    assert!(truncating(Truncate::Left) && truncating(Truncate::Right));
    assert!(!truncating(Truncate::Model) && !truncating(Truncate::Off));
}

#[test]
fn buckets_of_a_model() {
    assert_eq!(default_buckets(8, 16), [b(1, 16), b(8, 16)]);
    assert_eq!(default_buckets(32, 16), [b(1, 16), b(8, 16), b(32, 16)]);
    assert_eq!(default_buckets(3, 16), [b(1, 16), b(3, 16)]);
    assert_eq!(default_buckets(1, 16), [b(1, 16)]);
    let v = load_buckets("m", &vec![b(8, 16), b(1, 16), b(4, 8)], ModelKind::Embedding, 8, 16).unwrap();
    assert_eq!(v, [b(4, 8), b(1, 16), b(8, 16)]);
    assert_eq!((max_seq(&v, 99), max_batch(&v, 99)), (16, 8));
    assert_eq!((max_seq(&vec![], 99), max_batch(&vec![], 98)), (99, 98));
    for (shape, shown) in [(b(16, 16), "16x16"), (b(1, 64), "1x64")] {
        let e = load_buckets("embed", &vec![shape], ModelKind::Embedding, 8, 16).unwrap_err();
        assert_eq!(e.message, format!("model `embed`: bucket {shown} exceeds the model's limits 8x16"));
    }
    assert!(load_buckets("chat", &vec![b(16, 16)], ModelKind::Generative, 8, 16).unwrap().is_empty());
}

#[test]
fn a_registry_keeps_its_names_in_order_each_once() {
    let mut r = Registry::new();
    assert!(r.is_empty());
    assert_eq!(r.load_model("embed").unwrap(), 0);
    assert_eq!(r.load_model("rerank-2").unwrap(), 1);
    assert_eq!(r.load_model("chat").unwrap(), 0);
    assert_eq!(r.names(), ["chat", "embed", "rerank-2"]);
    let e = r.load_model("embed").unwrap_err();
    assert_eq!(e.class, Class::BadRequest);
    assert_eq!(e.message, "a model named `embed` is already served; give the new one a `name=`");
    assert_eq!(r.model("embed").unwrap(), 1);
    assert_eq!(r.unload("rerank-2").unwrap(), 2);
    let e = r.model("rerank-2").unwrap_err();
    assert_eq!((e.class, e.message.as_str()), (Class::NotFound, "no model named `rerank-2`; served: chat, embed"));
    let e = r.unload("nope").unwrap_err();
    assert_eq!(e.message, "no model named `nope` to unload");
    assert_eq!(r.names(), ["chat", "embed"]);
}

#[test]
fn a_model_is_named_by_its_identifier() {
    assert_eq!(served_name_of(&Some("x".into()), "a/b"), "x");
    assert_eq!(served_name_of(&None, "turbo/mock-embedding"), "mock-embedding");
    assert_eq!(served_name_of(&None, "plain"), "plain");
    assert_eq!(served_name_of(&None, "a/"), "a/");
}

#[test]
fn options_are_read_in_any_case() {
    let s = |t: &str| Some(t.to_string());
    assert_eq!(parse_truncate(&None).unwrap(), Truncate::Model);
    assert_eq!(parse_truncate(&s("FALSE")).unwrap(), Truncate::Off);
    assert_eq!(parse_truncate(&s("true")).unwrap(), Truncate::Right);
    assert_eq!(parse_truncate(&s("Left")).unwrap(), Truncate::Left);
    let e = parse_truncate(&s("Up")).unwrap_err();
    assert_eq!((e.class, e.field), (Class::BadRequest, Field::EmbedTruncate));
    assert_eq!(e.message, "truncate `up` is not model, none, right or left");
    assert_eq!(parse_prompt_role(&s("passage")).unwrap(), PromptRole::Document);
    assert_eq!(parse_prompt_role(&s("x")).unwrap_err().message, "prompt_role `x` is not none, query or document");
    assert_eq!(parse_normalize(&s("L2")).unwrap(), Normalize::L2);
    assert_eq!(parse_normalize(&s("x")).unwrap_err().message, "normalize `x` is not model, none or l2");
    assert_eq!(parse_pooling(&s("cls")).unwrap(), Pooling::Cls);
    assert_eq!(parse_pooling(&s("sideways")).unwrap_err().message, "pooling `sideways` is not model, mean, cls or last");
    assert_eq!(parse_aggregation(&s("first")).unwrap(), Aggregation::First);
    assert_eq!(
        parse_aggregation(&s("x")).unwrap_err().message,
        "aggregation `x` is not model, none, simple, first or max"
    );
    assert_eq!(prefix(PromptRole::Query, "query: ", "passage: "), "query: ");
    assert_eq!(prefix(PromptRole::Off, "query: ", "passage: "), "");
}

fn model(kind: ModelKind) -> ServedModel {
    ServedModel { name: "m".into(), kind, dim: 8, buckets: vec![b(1, 16), b(2, 16)] }
}

#[test]
fn a_request_wider_than_every_bucket_goes_through_in_chunks_in_order() {
    let m = model(ModelKind::Embedding);
    let l = lease(&m, 5, Some(10), false).unwrap();
    assert_eq!(l.bucket, 1);
    assert_eq!(l.chunks, [(0, 2), (2, 4), (4, 5)]);
    assert_eq!(chunks(0, 3), []);
    assert_eq!(chunks(3, 3), [(0, 3)]);
}

#[test]
fn a_task_is_checked_then_validated_then_counted() {
    let m = model(ModelKind::Embedding);
    let counts = |c: Vec<u32>| Ok(Some(c));
    let l = text_lease(&m, ModelKind::Embedding, 2, Truncate::Model, Ok(()), counts(vec![4, 9])).unwrap();
    assert_eq!(l.chunks, [(0, 2)]);
    let said = |s: &str| Err(Error::plain(Class::UnsupportedOption, s.into()));
    let e = text_lease(&m, ModelKind::Embedding, 0, Truncate::Model, said("v"), Ok(None)).unwrap_err();
    assert_eq!(e.message, "input has no texts");
    let e = text_lease(&m, ModelKind::Classifier, 1, Truncate::Model, said("v"), Ok(None)).unwrap_err();
    assert_eq!(e.message, "model `m` is Embedding, not a classifier");
    let e = text_lease(&m, ModelKind::Embedding, 1, Truncate::Model, said("v"), Ok(None)).unwrap_err();
    assert_eq!(e.message, "v");
    let e = text_lease(&m, ModelKind::Embedding, 1, Truncate::Model, Ok(()), counts(vec![17])).unwrap_err();
    assert_eq!(e.class, Class::Capacity);
    assert!(text_lease(&m, ModelKind::Embedding, 1, Truncate::Left, Ok(()), counts(vec![17])).is_ok());
    let m = model(ModelKind::Reranker);
    let e = rerank_lease(&m, 3, 9, Truncate::Model, Ok(()), Ok(None)).unwrap_err();
    assert_eq!((e.field, e.message.as_str()), (Field::RerankTopN, "top_n 9 exceeds the 3 documents"));
    let e = rerank_lease(&m, 2, 0, Truncate::Model, Ok(()), Ok(Some((9, vec![8, 3])))).unwrap_err();
    assert!(e.message.starts_with("an input needs 17 tokens"), "{}", e.message);
    assert!(rerank_lease(&m, 2, 0, Truncate::Model, Ok(()), Ok(Some((9, vec![7, 3])))).is_ok());
    assert_eq!(run_lease(&model(ModelKind::Generic)).unwrap().chunks, [(0, 1)]);
    assert_eq!(run_lease(&m).unwrap_err().message, "model `m` is Reranker, not a generic RUN model");
    let e = check_texts("chat", ModelKind::Generative, ModelKind::Generative, 0).unwrap_err();
    assert_eq!(e.message, "messages is empty");
    assert_eq!(check_rerank("m", ModelKind::Reranker, 0, 0).unwrap_err().message, "documents is empty");
}

#[test]
fn results_are_checked_against_what_was_asked() {
    assert!(check_embeddings(2, 8, 2, 8).is_ok());
    assert_eq!(
        check_embeddings(2, 7, 3, 8).unwrap_err().message,
        "provider returned a [2, 7] result for 3 rows of width 8"
    );
    assert_eq!(check_scores(2, 3).unwrap_err().message, "provider returned 2 scores for 3 documents");
    assert_eq!(
        check_labels(1, 2, 1, 3).unwrap_err().message,
        "provider returned a [1, 2] result for 1 texts and 3 labels"
    );
    assert_eq!(
        require_f32(DType::F16, "scores").unwrap_err().message,
        "the server reads f32 scores; the provider returned F16"
    );
    let bytes: Vec<u8> = [1.0f32, -2.5].iter().flat_map(|x| x.to_le_bytes()).collect();
    let v = read_f32(&bytes, 8).unwrap();
    assert_eq!(v.iter().map(|b| f32::from_bits(*b)).collect::<Vec<_>>(), [1.0, -2.5]);
    assert_eq!(read_f32(&bytes, 4).unwrap_err().message, "result read gave 4 bytes for 8 expected");
    assert_eq!(split_rows(&vec![1, 2, 3, 4, 5, 6], 3, 2), [vec![1, 2, 3], vec![4, 5, 6]]);
    assert_eq!(
        check_input_bytes("x", 12, 24).unwrap_err().message,
        "input `x` has 12 bytes of data but its shape and datatype need 24"
    );
    assert_eq!((output_width(0, 8), output_width(4, 8)), (8, 4));
    assert_eq!(longest(&vec![3, 9, 4]), 9);
    assert_eq!(longest_pair(2, &vec![3, 9]), 11);
    assert_eq!(total_tokens(&vec![3, 9, 4]), 16);
}

#[test]
fn documents_are_ranked_best_first_over_all_chunks() {
    let scores: Vec<u32> = [0.5f32, -1.0, 2.0, 0.5].iter().map(|x| x.to_bits()).collect();
    assert_eq!(rank(&scores, 0), [2, 0, 3, 1]);
    assert_eq!(rank(&scores, 2), [2, 0]);
    assert_eq!(rank(&scores, 9), [2, 0, 3, 1]);
}

#[test]
fn spans_go_to_their_rows() {
    let s = |row, label| Span { row, byte_start: 0, byte_end: 1, label, score: 0 };
    let rows = spans_by_row(&vec![s(1, 7), s(0, 8), s(1, 9)], 3).unwrap();
    assert_eq!(rows[0], [s(0, 8)]);
    assert_eq!(rows[1], [s(1, 7), s(1, 9)]);
    assert!(rows[2].is_empty());
    let e = spans_by_row(&vec![s(3, 7)], 3).unwrap_err();
    assert_eq!((e.class, e.message.as_str()), (Class::Internal, "provider reported a span on row 3 of 3"));
}

#[test]
fn a_server_needs_its_providers_and_a_model() {
    assert!(check_engine(&None, 1).is_ok());
    assert_eq!(check_engine(&None, 0).unwrap_err().message, "no models configured; pass --model or --config");
    let f = Some(("lib.so".to_string(), "no such file".to_string()));
    assert_eq!(check_engine(&f, 1).unwrap_err().message, "provider `lib.so` failed: no such file");
}

#[test]
fn pieces_join_to_the_whole_text() {
    let p = |text: &str, done, n| Piece {
        text: text.into(),
        done,
        finish_reason: if done { FinishReason::Length } else { FinishReason::Running },
        prompt_tokens: 5,
        generated_tokens: n,
    };
    let c = Collected::of(&vec![p("he", false, 1), p("llo", false, 2), p("", true, 3)]);
    assert_eq!((c.text.as_str(), c.prompt_tokens, c.generated_tokens), ("hello", 5, 3));
    assert_eq!(c.finish, Some(FinishReason::Length));
    assert_eq!(Collected::of(&vec![p("he", false, 1)]).finish, None);
    assert_eq!(after_piece(true, false), AfterPiece::Step);
    assert_eq!(after_piece(true, true), AfterPiece::End);
    assert_eq!(after_piece(false, true), AfterPiece::Cancel);
}

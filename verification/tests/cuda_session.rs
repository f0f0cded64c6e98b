use turbo_serving::cuda::{Activation, Elem, Kind, Plan};
use turbo_serving::cuda_session::{check_session, Launch, Packed, Row, Session, Written};
use turbo_serving::error::Class;
use turbo_serving::spans::{entity_of, row_spans, token_label};
use turbo_serving::types::{
    Aggregation, ClassifyOptions, EmbedOptions, Pooling, RerankOptions, TokenBatch, Truncate,
};
use turbo_serving::wordpiece::{
    TextWords, Vocab, WordSpan, WORDPIECE_ERR_INVALID_ARGUMENT, WORDPIECE_OK,
};

fn session(kind: Kind) -> Session {
    let plan = Plan {
        kind,
        pool: Pooling::Mean,
        normalize: true,
        activation: Activation::Raw,
        width: 8,
        aggregation: Aggregation::Simple,
    };
    Session::new(plan, Elem::I64, true, 4, 64)
}

fn vocab() -> Vocab {
    Vocab::load(WORDPIECE_OK, true, 101, 102, 0, "t").unwrap()
}

#[test]
fn cuda_session_stats_count_uploads_per_run_and_never_read_embeddings_back() {
    let mut s = session(Kind::Embedding);
    assert_eq!((s.runs, s.h2d, s.d2h), (0, 0, 0));
    assert!(s.input_bytes() > 0);
    assert!(s.check_run().is_err());
    s.write_text(&vocab(), &vec![], &vec![vec![5, 6, 7]], &EmbedOptions::defaults()).unwrap();
    assert_eq!(s.written, Written::Embed);
    assert_eq!(s.rows[0].ids[..6], [101, 5, 6, 7, 102, 0]);
    assert_eq!(s.lengths[0], 5);
    assert_eq!(s.used_seq, 8, "rounded up to a multiple of eight");
    let u = s.upload();
    assert_eq!(u.ids, [101, 5, 6, 7, 102, 0, 0, 0]);
    assert_eq!(u.mask, [1, 1, 1, 1, 1, 0, 0, 0]);
    assert_eq!(u.bytes, 3 * 8 * 8);
    s.count_run();
    assert_eq!((s.runs, s.h2d, s.d2h), (1, 192, 0));
    s.write_text(&vocab(), &vec![], &vec![vec![8, 9]], &EmbedOptions::defaults()).unwrap();
    s.upload();
    s.count_run();
    assert_eq!((s.runs, s.h2d, s.d2h), (2, 384, 0), "each run uploads its rows again");
    assert_eq!(s.output_shape(), [1, 8]);
    assert!(check_session(0, 8).is_err());
}

#[test]
fn more_texts_than_rows_are_refused() {
    let mut s = session(Kind::Embedding);
    let texts = vec![vec![5]; 5];
    let e = s.write_text(&vocab(), &vec![], &texts, &EmbedOptions::defaults()).unwrap_err();
    assert_eq!(e.class, Class::Capacity);
    let e = s.check_text(1, &EmbedOptions { max_tokens: 65, ..EmbedOptions::defaults() }).unwrap_err();
    assert_eq!(e.class, Class::Capacity);
}

#[test]
fn token_rows_are_compacted_and_padded() {
    let mut s = session(Kind::Embedding);
    let b = TokenBatch {
        batch: 1,
        seq: 3,
        row_stride: 3,
        ids: vec![101, 9, 102],
        mask: vec![1, 1, 1],
        types: None,
    };
    s.write_tokens(&vocab(), &b).unwrap();
    assert_eq!(s.rows[0].ids[..4], [101, 9, 102, 0]);
    assert_eq!(s.lengths[0], 3);
}

#[test]
fn documents_are_sorted_where_it_is_asked_for() {
    let mut s = session(Kind::Reranker);
    s.ropts = RerankOptions { return_sorted: true, top_n: 1, ..RerankOptions::defaults() };
    let scores: Vec<u32> = [0.1f32, 0.9].iter().map(|x| x.to_bits()).collect();
    s.n_rows = 2;
    s.written = Written::Pairs;
    assert_eq!(s.sorted(&scores), Some((vec![1, 0], 1)));
    s.ropts = RerankOptions::defaults();
    assert_eq!(s.sorted(&scores), None);
}

#[test]
fn spans_join_the_words_of_an_entity() {
    let bits = |v: &[f32]| v.iter().map(|x| x.to_bits()).collect::<Vec<u32>>();
    assert_eq!(token_label(&bits(&[0.1, 0.9, 0.9])).0, 1);
    assert_eq!(entity_of("B-PER"), "PER");
    assert_eq!(entity_of("I-LOC"), "LOC");
    let labels: Vec<String> = ["O", "B-PER", "I-PER"].iter().map(|s| s.to_string()).collect();
    let w = |start, end, first| WordSpan { start, end, first_token: first, n_tokens: 1 };
    let words = vec![w(0, 3, 1), w(4, 12, 2), w(13, 18, 3)];
    let columns = vec![
        bits(&[1.0, 0.0, 0.0]),
        bits(&[0.0, 0.8, 0.0]),
        bits(&[0.0, 0.0, 0.6]),
        bits(&[0.9, 0.0, 0.0]),
        bits(&[1.0, 0.0, 0.0]),
    ];
    let g = row_spans(0, &words, &columns, &labels, Aggregation::Simple);
    assert_eq!(g.len(), 1);
    assert_eq!((g[0].byte_start, g[0].byte_end, g[0].label), (0, 12, 1));
    assert_eq!(g[0].scores, bits(&[0.8, 0.6]));
}

#[test]
fn what_the_graph_gave_is_checked_before_it_is_used() {
    let mut s = session(Kind::Embedding);
    assert_eq!(s.begin_run().unwrap_err().message, "no inputs written");
    s.write_text(&vocab(), &vec![], &vec![vec![5, 6, 7]], &EmbedOptions::defaults()).unwrap();
    assert!(s.begin_run().is_ok());
    assert_eq!(s.execute("out", &None, true).unwrap_err().message, "output `out` missing from the run");
    assert_eq!(
        s.execute("out", &Some(vec![1, 8]), true).unwrap_err().message,
        "model output shape [1, 8] does not match the expected [1, 8, 8]"
    );
    assert_eq!(s.execute("out", &Some(vec![1, 8, 8]), false).unwrap_err().class, Class::Runtime);
    assert_eq!(
        s.execute("out", &Some(vec![1, 8, 8]), true).unwrap(),
        Launch::Pool { mode: 0, normalize: true, out_dim: 8 }
    );
    // What a run reads back is counted once, and again in the next run.
    assert!(s.read_back(32) && !s.read_back(32));
    assert_eq!(s.d2h, 32);
    s.begin_run().unwrap();
    assert!(s.read_back(32));
    assert_eq!(s.d2h, 64);
}

#[test]
fn the_spans_of_every_row_are_found() {
    let plan = Plan { width: 3, ..session(Kind::TokenClassifier).plan };
    let mut s = Session::new(plan, Elem::I64, true, 2, 4);
    let words = vec![
        TextWords { bytes: b"Ada Love".to_vec(), counts: vec![1, 1] },
        TextWords { bytes: b"Bo".to_vec(), counts: vec![1] },
    ];
    s.write_text_classify(&vocab(), &vec![vec![5, 6], vec![7]], &words, &ClassifyOptions::defaults()).unwrap();
    let w = |start, end, first| WordSpan { start, end, first_token: first, n_tokens: 1 };
    assert_eq!(s.words, [vec![w(0, 3, 1), w(4, 8, 2)], vec![w(0, 2, 1)]]);
    assert_eq!(s.used_seq, 4, "token classifiers keep the session's width");
    let (o, b, i) = ([1.0f32, 0.0, 0.0], [0.0, 0.8, 0.0], [0.0, 0.0, 0.6]);
    let probs: Vec<u32> = [o, b, i, o, o, i, o, o].iter().flatten().map(|x| x.to_bits()).collect();
    let labels: Vec<String> = ["O", "B-PER", "I-PER"].iter().map(|s| s.to_string()).collect();
    let g = s.aggregate_spans(&probs, &labels);
    let got: Vec<_> = g.iter().map(|g| (g.row, g.byte_start, g.byte_end, g.label, g.scores.len())).collect();
    assert_eq!(got, [(0, 0, 8, 1, 2), (1, 0, 2, 2, 1)]);
}

#[test]
fn a_refused_write_leaves_the_words_it_reached() {
    let plan = Plan { width: 3, ..session(Kind::TokenClassifier).plan };
    let mut s = Session::new(plan, Elem::I64, true, 3, 4);
    let one = |t: &str| TextWords { bytes: t.as_bytes().to_vec(), counts: vec![1] };
    let opts = ClassifyOptions { truncate: Truncate::Off, ..ClassifyOptions::defaults() };
    s.write_text_classify(&vocab(), &vec![vec![5], vec![6], vec![7]], &vec![one("a"), one("b"), one("c")], &opts)
        .unwrap();
    let w = |end| WordSpan { start: 0, end, first_token: 1, n_tokens: 1 };
    assert_eq!(s.words, [vec![w(1)], vec![w(1)], vec![w(1)]]);
    // The second text is too long: the first row's words are new, the second's are gone,
    // the third's stay, and what was written before is still what is run.
    let long = TextWords { bytes: b"long".to_vec(), counts: vec![3] };
    let e = s
        .write_text_classify(&vocab(), &vec![vec![8], vec![1, 2, 3], vec![9]], &vec![one("abcd"), long, one("z")], &opts)
        .unwrap_err();
    assert_eq!(e.class, Class::Capacity);
    assert_eq!(s.words, [vec![w(4)], vec![], vec![w(1)]]);
    assert_eq!((s.rows[0].ids[1], s.rows[1].ids[1], s.rows[2].ids[1]), (8, 6, 7));
    assert_eq!((s.n_rows, s.written == Written::Classify), (3, true));
}

#[test]
fn a_refused_pair_ends_its_write() {
    let mut s = Session::new(session(Kind::Reranker).plan, Elem::I64, true, 3, 4);
    let pair = |id: i32, status: i32| Packed {
        row: Row { ids: vec![101, id, 102, 0], mask: vec![1, 1, 1, 0], types: vec![0; 4] },
        status,
    };
    s.write_pairs(vec![pair(5, WORDPIECE_OK), pair(6, WORDPIECE_OK)], &RerankOptions::defaults()).unwrap();
    assert_eq!((s.n_rows, s.written == Written::Pairs, s.lengths[1]), (2, true, 3));
    let rows = vec![pair(7, WORDPIECE_OK), pair(8, WORDPIECE_ERR_INVALID_ARGUMENT), pair(9, WORDPIECE_OK)];
    let e = s.write_pairs(rows, &RerankOptions::defaults()).unwrap_err();
    assert_eq!(
        (e.class, e.message.as_str()),
        (
            Class::Capacity,
            "query/document pair does not fit the budget of 4 tokens with truncation NONE, or is not valid UTF-8"
        )
    );
    assert_eq!((s.rows[0].ids[1], s.rows[1].ids[1], s.rows[2].ids[1]), (7, 8, 0));
    assert_eq!((s.n_rows, s.lengths[0], s.lengths[1], s.lengths[2]), (2, 3, 3, 0));
    let e = s.write_pairs(vec![pair(7, 9)], &RerankOptions::defaults()).unwrap_err();
    assert_eq!(e.message, "wordpiece pair packing failed with status 9");
}

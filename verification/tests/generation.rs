use turbo_serving::error::Class;
use turbo_serving::ggml::{
    check_context, check_generation, check_prompt_tokens, check_session, cut_row_of, embed_shape_of, fresh_seed, live_row_of,
    prefill_chunks, Chunk, EmbedContract, EmbedSession, FinishReason, GenerateDesc, Generation, Next, Plan,
    StructuredKind, Tokens,
};
use turbo_serving::stop::{drain_decodable, Held, Pushed};
use turbo_serving::types::{EmbedOptions, Pooling, Truncate};

fn desc() -> GenerateDesc {
    GenerateDesc {
        n_sequences: 0,
        n_tools: 0,
        structured_kind: StructuredKind::Free,
        structured: String::new(),
        max_new_tokens: 3,
        min_new_tokens: 0,
        stop: vec![],
        stop_tokens: vec![],
        logprobs: 0,
        echo: false,
        seed: Some(7),
        temperature: 0,
        top_k: 0,
        top_p: 0,
        min_p: 0,
        repeat_penalty: 0,
        presence_penalty: 0,
        frequency_penalty: 0,
        logit_bias: vec![],
    }
}

fn chunk() -> Chunk {
    Chunk {
        text: vec![],
        tokens: vec![],
        prompt_tokens: 0,
        generated_tokens: 0,
        done: false,
        finish_reason: FinishReason::Running,
    }
}

/// Run a generation whose tokens have these pieces; the text and why it stopped.
fn generate(desc: GenerateDesc, pieces: &[&str]) -> (String, FinishReason, u32) {
    let plan = Plan::from_desc(desc, 100, 5).map_err(|e| e.message).expect("a plan");
    let mut g = Generation::new(&plan, 64);
    g.prefilled(b"prompt".to_vec(), 4);
    let mut text = Vec::new();
    let mut i = 0;
    loop {
        let mut c = chunk();
        let mut next = g.begin_step(&mut c).expect("a step");
        while !matches!(next, Next::Finished) {
            next = match next {
                Next::Sample { .. } => {
                    let eog = i >= pieces.len();
                    g.take_token(if eog { 99 } else { i as i32 }, eog, &mut c)
                }
                Next::Piece => {
                    i += 1;
                    g.take_piece(&pieces[i - 1].as_bytes().to_vec(), false, &mut c)
                }
                Next::Decode { .. } => {
                    if g.decoded(&mut c) {
                        Next::Finished
                    } else {
                        break;
                    }
                }
                Next::Finished => Next::Finished,
            };
        }
        text.extend_from_slice(&c.text);
        if c.done {
            return (String::from_utf8(text).unwrap(), c.finish_reason, c.generated_tokens);
        }
    }
}

#[test]
fn a_generation_stops_at_its_budget() {
    let (text, why, n) = generate(desc(), &["a", "b", "c", "d"]);
    assert_eq!((text.as_str(), why, n), ("abc", FinishReason::Length, 3));
}

#[test]
fn a_generation_stops_at_an_end_token() {
    let (text, why, _) = generate(GenerateDesc { max_new_tokens: 9, ..desc() }, &["a", "b"]);
    assert_eq!((text.as_str(), why), ("ab", FinishReason::Eos));
}

#[test]
fn a_generation_stops_before_its_stop_string() {
    let d = GenerateDesc { max_new_tokens: 9, stop: vec![b"END".to_vec()], ..desc() };
    let (text, why, _) = generate(d, &["one E", "ND two", "three"]);
    assert_eq!((text.as_str(), why), ("one ", FinishReason::Stop));
    let d = GenerateDesc { max_new_tokens: 2, stop: vec![b"END".to_vec()], ..desc() };
    let (text, why, _) = generate(d, &["one E", "N two"]);
    assert_eq!((text.as_str(), why), ("one EN two", FinishReason::Length));
}

#[test]
fn text_goes_out_as_soon_as_it_cannot_begin_a_stop_string() {
    let plan = Plan::from_desc(GenerateDesc { max_new_tokens: 9, stop: vec![b"END".to_vec()], ..desc() }, 100, 5)
        .map_err(|e| e.message)
        .unwrap();
    let mut g = Generation::new(&plan, 64);
    g.prefilled(b"prompt".to_vec(), 4);
    let mut step = |piece: &str| {
        let mut c = chunk();
        g.begin_step(&mut c).map_err(|e| e.message).unwrap();
        g.take_token(1, false, &mut c);
        g.take_piece(&piece.as_bytes().to_vec(), false, &mut c);
        String::from_utf8(c.text).unwrap()
    };
    assert_eq!(step("hello"), "hel");
    assert_eq!(step(" w"), "lo");
    assert_eq!(step("caf\u{e9}"), " wcaf");
    assert_eq!(step("x"), "");
    assert_eq!(step("y"), "\u{e9}");
}

#[test]
fn a_second_prompt_runs_the_same_plan() {
    let plan = Plan::from_desc(GenerateDesc { max_new_tokens: 2, stop: vec![b"END".to_vec()], ..desc() }, 100, 5)
        .map_err(|e| e.message)
        .unwrap();
    let mut g = Generation::new(&plan, 64);
    for _ in 0..2 {
        g.prefilled(b"prompt".to_vec(), 4);
        let mut text = Vec::new();
        for piece in ["ab", "END"] {
            let mut c = chunk();
            assert!(matches!(g.begin_step(&mut c), Ok(Next::Sample { .. })));
            assert_eq!(g.take_token(1, false, &mut c), Next::Piece);
            g.take_piece(&piece.as_bytes().to_vec(), false, &mut c);
            text.extend_from_slice(&c.text);
        }
        assert_eq!(text, b"ab");
        let e = g.begin_step(&mut chunk()).unwrap_err();
        assert_eq!(e.message, "generation already finished");
    }
}

#[test]
fn cutting_bytes_differently_gives_the_same_text() {
    let bytes = [b'a', 0xc3, 0xa9, 0xff, 0xf0, 0x90, 0x80, b'b', 0xe2, 0x82, 0xac, 0xc0, 0x80, 0xe2, 0x82];
    let want = String::from_utf8_lossy(&bytes).into_owned();
    for size in 1..=bytes.len() {
        let mut pending = Vec::new();
        let mut text = Vec::new();
        for piece in bytes.chunks(size) {
            pending.extend_from_slice(piece);
            text.extend(drain_decodable(&mut pending, false));
        }
        text.extend(drain_decodable(&mut pending, true));
        assert!(pending.is_empty());
        assert_eq!(String::from_utf8(text).unwrap(), want, "in pieces of {size}");
    }
}

#[test]
fn characters_wait_until_they_are_whole() {
    let mut pending = vec![b'a', 0xc3];
    assert_eq!(drain_decodable(&mut pending, false), b"a");
    assert_eq!(pending, [0xc3]);
    pending.push(0xa9);
    assert_eq!(drain_decodable(&mut pending, false), "\u{e9}".as_bytes());
    pending = vec![0xff, b'b', 0xc3];
    assert_eq!(drain_decodable(&mut pending, true), "\u{fffd}b\u{fffd}".as_bytes());
    assert!(pending.is_empty());
    let mut h = Held::new(vec![b"stop".to_vec()]);
    match h.push(&b"xst".to_vec()) {
        Pushed::Text(t) => assert!(b"xst".starts_with(&t)),
        Pushed::Stopped(_) => panic!("no stop string yet"),
    }
    match h.push(&b"op".to_vec()) {
        Pushed::Stopped(_) => {}
        Pushed::Text(_) => panic!("the stop string is whole"),
    }
}

#[test]
fn prompts_are_decoded_in_chunks() {
    assert_eq!(prefill_chunks(5, 64).unwrap(), [(0, 5)]);
    assert_eq!(prefill_chunks(3000, 4096).unwrap(), [(0, 2048), (2048, 3000)]);
    assert!(prefill_chunks(0, 64).is_err());
    assert!(prefill_chunks(64, 64).is_err());
    assert_eq!(fresh_seed(0xffff_ffff), 0xffff_fffe);
    let e = check_prompt_tokens(&vec![1, -2], 10).unwrap_err();
    assert_eq!(e.message, "prompt token -2 is outside the vocabulary of 10");
    assert!(check_prompt_tokens(&vec![1, 9], 10).is_ok());
}

#[test]
fn sessions_and_generations_need_their_model() {
    assert!(check_session("m", true, 1, 2).is_ok());
    assert_eq!(
        check_session("m", false, 1, 2).unwrap_err().message,
        "model `m` is generative; create a generation, not a session"
    );
    assert_eq!(
        check_session("m", true, 0, 2).unwrap_err().message,
        "session needs max_batch >= 1 and max_seq >= 2"
    );
    assert_eq!(
        check_generation("m", false).unwrap_err().message,
        "model `m` is an embedding model; create a session, not a generation"
    );
}

#[test]
fn embedding_rows_are_cut_to_their_budget() {
    let t = Tokens { ids: vec![101, 1, 2, 3, 102], last_is_special: true };
    let r = cut_row_of(0, &t, "", Truncate::Right, 4).unwrap();
    assert_eq!((r.len(), r[0], r[3]), (4, 101, 102));
    assert_eq!(cut_row_of(0, &t, "", Truncate::Off, 4).unwrap_err().class, Class::Capacity);
    assert_eq!(live_row_of(0, &vec![1, 2, 0], &vec![1, 1, 0], &None).unwrap(), [1, 2]);
    assert!(embed_shape_of(2, 16).is_ok());
    let c = EmbedContract { pool: Pooling::Mean, normalize: true, dim: 8 };
    let mut s = EmbedSession::new(c, 2, 16).map_err(|e| e.message).unwrap();
    assert!(s.check_run().is_err(), "nothing is written");
    s.write_text(
        &vec![t, Tokens { ids: vec![101, 102], last_is_special: true }],
        "",
        &EmbedOptions::defaults(),
    )
    .unwrap();
    assert!(s.check_run().is_ok());
    assert_eq!((s.output_dim(), s.normalizes(), s.n_rows), (8, true, 2));
    assert_eq!(s.next_group(0).unwrap(), 2);
    // A refused row is left empty, and the rows behind it stay.
    let e = s
        .write_text(
            &vec![
                Tokens { ids: vec![101; 17], last_is_special: true },
                Tokens { ids: vec![101, 9, 102], last_is_special: true },
            ],
            "",
            &EmbedOptions { truncate: Truncate::Off, ..EmbedOptions::defaults() },
        )
        .unwrap_err();
    assert_eq!(e.class, Class::Capacity);
    assert!(s.rows[0].is_empty());
    assert_eq!((s.rows[1].as_slice(), s.n_rows), ([101, 102].as_slice(), 2));
}

#[test]
fn a_context_that_is_too_small_is_refused() {
    assert!(check_context(128, 128, 2, 64).is_ok());
    assert_eq!(
        check_context(64, 128, 2, 64).unwrap_err().message,
        "llama.cpp created an embedding context of 64 tokens; 128 (2 rows of 64) are needed"
    );
}

#[test]
fn a_row_that_does_not_fit_the_model_is_refused() {
    let c = EmbedContract { pool: Pooling::Mean, normalize: true, dim: 3 };
    let mut s = EmbedSession::new(c, 2, 8).map_err(|e| e.message).expect("a session");
    s.opts = EmbedOptions { output_dim: 2, ..EmbedOptions::defaults() };
    assert_eq!(s.take_row(1, &vec![7, 8, 9]).unwrap(), [7, 8]);
    assert_eq!(
        s.take_row(1, &vec![7, 8]).unwrap_err().message,
        "llama.cpp returned 2 values for row 1, expected 3"
    );
    assert!(s.check_norm(0, false).is_ok());
    assert_eq!(
        s.check_norm(0, true).unwrap_err().message,
        "row 0 pooled to a zero vector, which cannot be L2-normalized as the contract promises"
    );
}

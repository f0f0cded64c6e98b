use turbo_serving::error::{Class, Error};
use turbo_serving::static_session::StaticSession;
use turbo_serving::static_table::{
    check_vocabulary, load_model, picked_of, read_table, table_row, StaticContract, StaticProvider,
};
use turbo_serving::types::{BundleNames, EmbedOptions, Normalize, PromptRole, Task, TokenBatch, Truncate};

#[test]
fn a_table_is_as_large_as_its_contract() {
    let bytes: Vec<u8> = [1.0f32, 2.0, 3.0, 4.0].iter().flat_map(|x| x.to_le_bytes()).collect();
    let t = read_table(2, 2, &bytes, "static.f32").unwrap();
    assert_eq!(table_row(&t, 1), [3.0f32.to_bits(), 4.0f32.to_bits()]);
    assert_eq!(read_table(2, 4, &bytes, "static.f32").map(|_| ()).unwrap_err().class, Class::BundleIntegrity);
    let nan: Vec<u8> = f32::NAN.to_le_bytes().to_vec();
    assert_eq!(read_table(1, 1, &nan, "static.f32").map(|_| ()).unwrap_err().class, Class::BundleIntegrity);
    assert!(check_vocabulary(5, 6).is_err());
    let p = StaticProvider::new();
    assert!(p.offers(0, Task::Embed, true) && !p.offers(1, Task::Embed, true));
    assert!(p.check_device(0).is_ok());
    assert_eq!(p.check_device(1).unwrap_err().message, "static provider has no device ordinal 1");
}

#[test]
fn the_order_of_tokens_does_not_matter() {
    let ones = vec![1, 1];
    let mut a = picked_of(&vec![7, 9], &ones, 10).unwrap();
    let mut b = picked_of(&vec![9, 7], &ones, 10).unwrap();
    assert_eq!(a, [7, 9]);
    a.sort();
    b.sort();
    assert_eq!(a, b);
    assert!(picked_of(&vec![3, 4], &vec![0, 0], 10).unwrap().is_empty(), "no tokens pick no rows");
    let e = picked_of(&vec![10], &vec![1], 10).unwrap_err();
    assert_eq!(e.message, "token id 10 is outside the table of 10 rows");
}

#[test]
fn a_session_averages_the_rows_that_were_written() {
    let mut s = StaticSession::new(2, 4, 8, 10, Some(Normalize::L2));
    let b = TokenBatch {
        batch: 2,
        seq: 3,
        row_stride: 3,
        ids: vec![5, 6, 7, 8, 9, 1],
        mask: vec![1, 0, 1, 1, 1, 0],
        types: None,
    };
    s.write_tokens(&b);
    assert_eq!(s.lengths, [2, 2]);
    let r = s.run().unwrap();
    assert_eq!(r.rows, [vec![5, 7], vec![8, 9]]);
    assert_eq!((r.width, r.normalize, s.runs), (8, true, 1));
    let opts = EmbedOptions { output_dim: 4, normalize: Normalize::Off, ..EmbedOptions::defaults() };
    let e = s.write_text(1, opts);
    assert_eq!((e.max_tokens, e.truncate, e.prompt_role), (4, Truncate::Model, PromptRole::Off));
    assert!(!e.add_special_tokens);
    let r = s.run().unwrap();
    assert_eq!((r.rows.len(), r.width, r.normalize), (1, 4, false));
    let mut s = StaticSession::new(1, 1, 8, 10, None);
    s.write_tokens(&TokenBatch {
        batch: 1,
        seq: 1,
        row_stride: 1,
        ids: vec![-3],
        mask: vec![1],
        types: None,
    });
    assert_eq!(s.run().unwrap_err().message, "token id -3 is outside the table of 10 rows");
    assert_eq!(s.runs, 0);
    assert_eq!(s.input_bytes(), 8);
}

fn contract(dim: u32) -> StaticContract {
    StaticContract {
        dim,
        vocab_size: 3,
        max_seq: 0,
        max_batch: 0,
        normalize: Ok(Some(Normalize::L2)),
        names: BundleNames {
            model_id: "static-test".into(),
            revision: String::new(),
            tokenizer_sha256: String::new(),
            prefix_query: String::new(),
            prefix_document: String::new(),
        },
    }
}

fn table(dim: usize) -> Vec<u8> {
    (0..3 * dim).flat_map(|i| (i as f32).to_le_bytes()).collect()
}

#[test]
fn rejects_bundles_that_do_not_fit() {
    let m = load_model(contract(8), Ok(table(8)), "static.f32", Ok(3)).unwrap();
    assert_eq!((m.info.dim, m.info.max_seq, m.info.max_batch), (8, 512, 64));
    assert_eq!(table_row(&m.table, 2)[0], 16.0f32.to_bits());
    // The table was written for 8 dimensions and the contract says 16.
    let e = load_model(contract(16), Ok(table(8)), "static.f32", Ok(3)).unwrap_err();
    assert_eq!(e.class, Class::BundleIntegrity);
    assert_eq!(e.message, "static table `static.f32` is 96 bytes; contract vocab_size 3 x dim 16 needs 192");
    let e = load_model(contract(8), Ok(table(8)), "static.f32", Ok(4)).unwrap_err();
    assert_eq!(e.message, "tokenizer vocabulary is 4 but the static table has 3 rows");
    // The extents come before the file, the file before the tokenizer.
    let lost = || Err(Error::say(Class::BundleNotFound, "gone"));
    let e = load_model(contract(0), lost(), "static.f32", Ok(3)).unwrap_err();
    assert_eq!(e.class, Class::BundleInvalid);
    let e = load_model(contract(8), lost(), "static.f32", Err(Error::say(Class::Internal, "t"))).unwrap_err();
    assert_eq!(e.message, "gone");
    let c = StaticContract { normalize: Err(Error::say(Class::BundleInvalid, "n")), ..contract(8) };
    assert_eq!(load_model(c, Ok(table(8)), "static.f32", Ok(3)).unwrap_err().message, "n");
}

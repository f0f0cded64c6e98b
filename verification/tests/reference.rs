use turbo_serving::reference::{
    batch_room, batch_size, batch_tokens, check_cell, check_hidden, check_inputs, context_size, cut_rows, embed_context,
    embed_note, end_tokens, generate_note, gguf_plan, live_tokens, median, memory_bytes, named_gpu, onnx_note, onnx_plan,
    pooled_places, prompt_tokens, read_gpu, trim_of, Fixed, Placed, Pool,
};

#[test]
fn a_gpu_is_what_its_driver_says() {
    let g = read_gpu("NVIDIA GeForce RTX 4080 SUPER, 580.65, 16376\n").unwrap();
    assert_eq!((g.name.as_str(), g.driver.as_str(), g.memory_mib), ("NVIDIA GeForce RTX 4080 SUPER", "580.65", 16376));
    assert_eq!(memory_bytes(g.memory_mib), 16376 * 1024 * 1024);
    assert_eq!(read_gpu("Orin, 540.4, [N/A]").unwrap().memory_mib, 0);
    assert_eq!(read_gpu("Orin").unwrap().memory_mib, 0);
    assert_eq!(
        read_gpu("x, y, lots").unwrap_err(),
        "nvidia-smi memory.total `x, y, lots`: invalid digit found in string"
    );
    let g = named_gpu("", &Some("B70".into())).unwrap();
    assert_eq!((g.name.as_str(), g.driver.as_str(), g.memory_mib), ("B70", "", 0));
    assert_eq!(named_gpu("x, y, lots", &None).unwrap().memory_mib, 0);
    assert_eq!(named_gpu("", &None).unwrap_err(), "no nvidia-smi on this machine; pass --device-name");
    assert_eq!(trim_of(" \t a b \u{3000}"), "a b");
}

#[test]
fn an_onnx_benchmark_takes_mean_and_cls() {
    let onnx = Some("m.onnx".to_string());
    let names = vec!["gguf".to_string()];
    let p = onnx_plan(&onnx, &names, "cls", "").unwrap();
    assert_eq!((p.onnx.as_str(), p.pool, p.normalize), ("m.onnx", Pool::Cls, false));
    assert_eq!(
        onnx_plan(&None, &names, "cls", "").unwrap_err(),
        "the token dump names no `onnx` artifact; artifacts: [\"gguf\"]"
    );
    assert_eq!(
        onnx_plan(&onnx, &names, "last", "").unwrap_err(),
        "pooling `last` is not implemented by this reference (mean, cls)"
    );
    assert_eq!(onnx_plan(&onnx, &names, "mean", "l1").unwrap_err(), "normalize `l1` is not l2 or none");
    let n = |v: &[&str]| v.iter().map(|s| s.to_string()).collect::<Vec<_>>();
    assert!(check_inputs(&n(&["input_ids", "attention_mask", "token_type_ids"])).unwrap());
    assert!(!check_inputs(&n(&["input_ids", "attention_mask"])).unwrap());
    assert_eq!(
        check_inputs(&n(&["input_ids"])).unwrap_err(),
        "model has no `attention_mask` input; inputs: [\"input_ids\"]"
    );
    assert!(check_cell(2, 3, 6, 6).is_ok());
    assert_eq!(check_cell(2, 3, 6, 5).unwrap_err(), "cell 2x3: ids/mask hold 6 and 5 elements");
    assert_eq!(check_hidden(&vec![2, 3, 384], 2, 3).unwrap(), 384);
    assert_eq!(check_hidden(&vec![2, 384], 2, 3).unwrap_err(), "output shape [2, 384] is not [2, 3, hidden]");
    assert_eq!(pooled_places(&vec![1, 1, 0, 1, 0, 1], 1, 3), [0, 2]);
    assert_eq!(live_tokens(&vec![3, 4]), 7);
    assert!(onnx_note("t.json", Pool::Mean, true).ends_with("host-side mean pooling and l2 normalization; no session counters"));
}

#[test]
fn a_gguf_benchmark_tokenizes_its_texts() {
    let g = Some("m.gguf".to_string());
    assert_eq!(gguf_plan(&g, "last", "l2").unwrap().pool, Pool::Last);
    assert_eq!(gguf_plan(&None, "last", "l2").unwrap_err(), "the token dump names no `gguf` artifact");
    assert_eq!(gguf_plan(&g, "max", "l2").unwrap_err(), "pooling `max` is not mean, cls or last");
    let rows = cut_rows(&vec![vec![1, 2, 3], vec![4]], 2);
    assert_eq!(rows, [vec![1, 2], vec![4]]);
    let p = |row, place, token| Placed { row, place, token };
    assert_eq!(batch_tokens(&rows), [p(0, 0, 1), p(0, 1, 2), p(1, 0, 4)]);
}

#[test]
fn a_generation_of_fixed_length() {
    assert_eq!(context_size(10, 128), 512);
    assert_eq!(context_size(1000, 128), 1136);
    assert_eq!((batch_size(512), batch_size(4096)), (512, 2048));
    assert_eq!(end_tokens(&vec![false, true, true]).unwrap(), [1, 2]);
    assert_eq!(end_tokens(&vec![false]).unwrap_err(), "the vocabulary marks no end-of-generation token");
    let mut g = Fixed::new(5, 3);
    let mut at = Vec::new();
    let mut n = 0;
    while g.wants() {
        n += 1;
        at.push(g.sampled_one());
    }
    assert_eq!(n, 3);
    assert_eq!(at, [Some(5), Some(6), None]);
    assert_eq!(median(&vec![9, 1, 5]), 5);
    assert_eq!(median(&vec![4, 3]), 4);
}

#[test]
fn a_prompt_is_decoded_with_the_logits_of_its_last_token() {
    assert_eq!(prompt_tokens(&vec![7, 8, 9]), [(0, 7, false), (1, 8, false), (2, 9, true)]);
    assert!(prompt_tokens(&vec![]).is_empty());
    assert_eq!((embed_context(8, 128), embed_context(65536, 65537)), (1024, 65536));
    assert_eq!(batch_room(&vec![]), 1);
    assert_eq!(batch_room(&batch_tokens(&vec![vec![1, 2], vec![3]])), 3);
    assert!(generate_note("r.json").ends_with("on the prompt of r.json; bundle identity copied from that receipt"));
    assert!(embed_note("t.json").ends_with("the texts of t.json; bundle identity copied from that dump"));
}

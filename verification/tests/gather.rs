use turbo_serving::engine::Span;
use turbo_serving::error::Class;
use turbo_serving::gather::{Classified, Embedded, Output, Reranked, Tagged};
use turbo_serving::types::{DType, Placement};

fn bytes(v: &[f32]) -> Vec<u8> {
    v.iter().flat_map(|x| x.to_le_bytes()).collect()
}

fn bits(v: &[f32]) -> Vec<u32> {
    v.iter().map(|x| x.to_bits()).collect()
}

fn output(shape: &[u64]) -> Output {
    Output { dtype: DType::F32, placement: Placement::Device, shape: shape.to_vec() }
}

#[test]
fn vectors_of_all_chunks_keep_the_order_of_the_texts() {
    let mut e = Embedded::new(2, Some(9));
    assert_eq!(e.placement, Placement::Host);
    e.check(&output(&[2, 2]), 2).unwrap();
    let b = bytes(&[1.0, 2.0, 3.0, 4.0]);
    e.take(2, &b, b.len()).unwrap();
    e.check(&output(&[1, 2]), 1).unwrap();
    let b = bytes(&[5.0, 6.0]);
    e.take(1, &b, b.len()).unwrap();
    assert_eq!(e.vectors, [bits(&[1.0, 2.0]), bits(&[3.0, 4.0]), bits(&[5.0, 6.0])]);
    assert_eq!((e.dim, e.placement, e.tokens), (2, Placement::Device, Some(9)));
}

#[test]
fn a_result_of_another_shape_is_refused() {
    let mut e = Embedded::new(2, None);
    let r = e.check(&output(&[2, 3]), 2).unwrap_err();
    assert_eq!(r.class, Class::Internal);
    assert_eq!(r.message, "provider returned a [2, 3] result for 2 rows of width 2");
    let r = e.check(&Output { dtype: DType::F16, ..output(&[2, 2]) }, 2).unwrap_err();
    assert_eq!(r.class, Class::UnsupportedDtype);
    assert_eq!(r.message, "the server reads f32 embeddings; the provider returned F16");
    let r = e.take(1, &bytes(&[1.0, 2.0]), 4).unwrap_err();
    assert_eq!(r.message, "result read gave 4 bytes for 8 expected");
    assert!(e.vectors.is_empty());
    let r = Reranked::check(&output(&[3]), 2).unwrap_err();
    assert_eq!(r.message, "provider returned 3 scores for 2 documents");
    let c = Classified::new(vec!["a".into(), "b".into()]);
    let r = c.check(&output(&[1, 3]), 1).unwrap_err();
    assert_eq!(r.message, "provider returned a [1, 3] result for 1 texts and 2 labels");
}

#[test]
fn a_request_wider_than_a_bucket_is_one_ranking() {
    let mut r = Reranked::new();
    Reranked::check(&output(&[2]), 2).unwrap();
    let b = bytes(&[0.2, 0.9]);
    r.take(&b, b.len()).unwrap();
    let b = bytes(&[0.5]);
    r.take(&b, b.len()).unwrap();
    assert_eq!(r.scores, bits(&[0.2, 0.9, 0.5]));
    assert_eq!(r.sorted(0), [1, 2, 0]);
    assert_eq!(r.sorted(2), [1, 2]);
    let mut whole = Reranked::new();
    let b = bytes(&[0.2, 0.9, 0.5]);
    whole.take(&b, b.len()).unwrap();
    assert_eq!(whole.scores, r.scores);
}

#[test]
fn label_scores_and_spans_are_gathered_by_text() {
    let mut c = Classified::new(vec!["a".into(), "b".into()]);
    c.check(&output(&[1, 2]), 1).unwrap();
    let b = bytes(&[0.25, 0.75]);
    c.take(1, &b, b.len()).unwrap();
    c.take(1, &b, b.len()).unwrap();
    assert_eq!(c.scores, [bits(&[0.25, 0.75]), bits(&[0.25, 0.75])]);
    let span = |row, label| Span { row, byte_start: 0, byte_end: 1, label, score: 0 };
    let mut t = Tagged::new(vec!["O".into()]);
    t.take(2, &vec![span(1, 0), span(1, 1)]).unwrap();
    t.take(1, &vec![span(0, 2)]).unwrap();
    assert_eq!(t.spans.iter().map(Vec::len).collect::<Vec<_>>(), [0, 2, 1]);
    assert_eq!(t.spans[2][0].label, 2);
    let e = t.take(1, &vec![span(1, 0)]).unwrap_err();
    assert_eq!(e.message, "provider reported a span on row 1 of 1");
    assert_eq!(t.spans.len(), 3);
}

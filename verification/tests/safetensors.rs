use turbo_serving::safetensors::{f16_to_f32, fits_of, header_len, Entry, SafeTensors};

fn half(h: u16) -> f32 {
    f32::from_bits(f16_to_f32(h))
}

#[test]
fn half_conversion() {
    assert_eq!(half(0x3c00), 1.0);
    assert_eq!(half(0xc000), -2.0);
    assert_eq!(half(0x0000), 0.0);
    assert!((half(0x3555) - 0.333_25).abs() < 1e-4);
    assert!(half(0x7c00).is_infinite());
    assert!((half(0x0001) - 5.960_464_5e-8).abs() < 1e-12);
}

fn entry(name: &str, dtype: &str, shape: &[u64], end: u64) -> Entry {
    Entry { name: name.into(), dtype: dtype.into(), shape: shape.to_vec(), start: 0, end }
}

#[test]
fn parses_a_small_file() {
    let mut data = Vec::new();
    for v in [1.0f32, 2.0, 3.0, 4.0, 5.0, 6.0] {
        data.extend_from_slice(&v.to_le_bytes());
    }
    let st = SafeTensors::open(vec![entry("__metadata__", "", &[], 0), entry("embeddings", "F32", &[2, 3], 24)], data);
    assert_eq!(st.names(), ["embeddings"]);
    let (vals, rows, cols) = st.table_f32("embeddings").unwrap();
    assert_eq!([rows, cols], [2, 3]);
    let vals: Vec<f32> = vals.into_iter().map(f32::from_bits).collect();
    assert_eq!(vals, vec![1.0, 2.0, 3.0, 4.0, 5.0, 6.0]);
    assert!(st.table_f32("nope").unwrap_err().contains("available: embeddings"));
}

#[test]
fn a_tensor_that_does_not_fit_is_refused() {
    let st = SafeTensors::open(
        vec![
            entry("cube", "F32", &[1, 2, 3], 24),
            entry("far", "F32", &[2, 3], 999),
            entry("half", "F16", &[1, 2], 4),
            entry("odd", "I8", &[1, 4], 4),
            entry("short", "BF16", &[2, 3], 4),
        ],
        vec![0x00, 0x3c, 0x00, 0xc0],
    );
    assert!(["cube", "far", "half", "odd", "short", "nope"].iter().all(|n| st.is_addressable(n)));
    assert_eq!(st.table_f32("cube").unwrap_err(), "tensor `cube` has shape [1, 2, 3]; expected 2-D");
    assert_eq!(st.table_f32("far").unwrap_err(), "tensor `far` offsets 0..999 exceed the data section");
    assert_eq!(st.table_f32("short").unwrap_err(), "tensor `short` has 4 bytes, expected 12");
    assert_eq!(
        st.table_f32("odd").unwrap_err(),
        "tensor `odd` dtype I8 is not supported; use F32, F16, or BF16"
    );
    let (v, _, _) = st.table_f32("half").unwrap();
    assert_eq!(v, [1.0f32.to_bits(), (-2.0f32).to_bits()]);
    let brain = SafeTensors::open(vec![entry("b", "BF16", &[1, 1], 2)], vec![0x80, 0x3f]);
    assert_eq!(brain.table_f32("b").unwrap().0, [1.0f32.to_bits()]);
    assert!(!fits_of(&vec![u64::MAX, 2]));
    assert_eq!(header_len(&24u64.to_le_bytes().to_vec()).unwrap(), 24);
    assert_eq!(
        header_len(&(1u64 << 40).to_le_bytes().to_vec()).unwrap_err(),
        "safetensors header of 1099511627776 bytes is implausibly large"
    );
}

#[test]
fn an_oversized_tensor_does_not_shut_out_another() {
    let st = SafeTensors::open(
        vec![entry("vast", "F32", &[u64::MAX, 2], 4), entry("b", "BF16", &[1, 1], 2), entry("a", "F16", &[1, 1], 2)],
        vec![0x80, 0x3f],
    );
    assert_eq!(st.names(), ["a", "b", "vast"]);
    assert!(!st.is_addressable("vast"));
    assert!(st.is_addressable("b"));
    assert_eq!(st.table_f32("b").unwrap(), (vec![1.0f32.to_bits()], 1, 1));
}

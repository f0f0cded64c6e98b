use turbo_serving::api::{
    field, status_name, text_count, Failure, TURBO_E_BUSY, TURBO_E_UNSUPPORTED_OPTION, TURBO_OK,
};
use turbo_serving::names::{
    cap, normalize, pick, pooling, pooling_table, precision, value_of, Constants,
};
use turbo_serving::status::{
    describe, embed_options, grpc_code, number_of, plain, session_desc, to_status, too_large, Code,
};

/// Every code that the header defines, and the gRPC code of each.
#[test]
fn every_header_code_maps_as_the_table_says() {
    let table: &[(&str, i32, Code)] = &[
        ("TURBO_OK", 0, Code::Success),
        ("TURBO_E_INVALID_ARGUMENT", 256, Code::InvalidArgument),
        ("TURBO_E_INVALID_STRUCT_SIZE", 257, Code::Internal),
        ("TURBO_E_INVALID_UTF8", 258, Code::InvalidArgument),
        ("TURBO_E_INVALID_HANDLE", 259, Code::Internal),
        ("TURBO_E_INVALID_SHAPE", 260, Code::InvalidArgument),
        ("TURBO_E_INVALID_STATE", 261, Code::FailedPrecondition),
        ("TURBO_E_INVALID_ENUM", 262, Code::InvalidArgument),
        ("TURBO_E_UNSUPPORTED", 512, Code::Unimplemented),
        ("TURBO_E_UNSUPPORTED_OPTION", 513, Code::Unimplemented),
        ("TURBO_E_UNSUPPORTED_TASK", 514, Code::Unimplemented),
        ("TURBO_E_OUT_OF_MEMORY", 768, Code::ResourceExhausted),
        ("TURBO_E_BUSY", 769, Code::Unavailable),
        ("TURBO_E_CAPACITY", 771, Code::OutOfRange),
        ("TURBO_E_DEVICE_NOT_FOUND", 1024, Code::FailedPrecondition),
        ("TURBO_E_DEVICE_UNAVAILABLE", 1025, Code::Unavailable),
        ("TURBO_E_RUNTIME", 1026, Code::Internal),
        ("TURBO_E_BUNDLE_NOT_FOUND", 1280, Code::NotFound),
        ("TURBO_E_BUNDLE_INVALID", 1281, Code::FailedPrecondition),
        ("TURBO_E_BUNDLE_INTEGRITY", 1282, Code::DataLoss),
        ("TURBO_E_BUNDLE_NO_ARTIFACT", 1283, Code::FailedPrecondition),
        ("TURBO_E_INTERNAL", 1536, Code::Internal),
        ("TURBO_E_PANIC", 1537, Code::Internal),
    ];
    for (name, code, want) in table {
        assert_eq!(grpc_code(*code), *want, "{name}");
        assert_eq!(&status_name(*code), name, "turbo_status_name({code})");
    }
    // A code the table does not have.
    for code in [1, 255, 263, 770, 1284, 1538, -1, i32::MAX] {
        assert_eq!(grpc_code(code), Code::Unknown, "{code}");
        assert_eq!(status_name(code), "TURBO_E_UNKNOWN");
    }
    assert_eq!(grpc_code(TURBO_OK), Code::Success);
}

#[test]
fn messages_and_trailing_metadata() {
    let s = to_status(&Failure::new(TURBO_E_UNSUPPORTED_OPTION, 6, "no such width".into()), &embed_options());
    assert_eq!(s.code, Code::Unimplemented);
    assert_eq!(s.message, "TURBO_E_UNSUPPORTED_OPTION field 6 (output_dim): no such width");
    assert_eq!(s.turbo_code, "513");
    assert_eq!(s.turbo_field, "6");
    let s = to_status(&Failure::new(TURBO_E_BUSY, 0, "held".into()), &embed_options());
    assert_eq!(s.message, "TURBO_E_BUSY: held");
    assert_eq!(s.turbo_field, "0");
    let s = to_status(&Failure::new(4242, 0, "odd".into()), &embed_options());
    assert_eq!(s.code, Code::Unknown);
    assert_eq!(s.message, "TURBO_E_UNKNOWN: odd");
    assert_eq!(s.turbo_code, "4242");
    let f = Failure::new(TURBO_E_UNSUPPORTED_OPTION, 3, "not in F16".into());
    assert_eq!(describe(&f, &session_desc()), "TURBO_E_UNSUPPORTED_OPTION field 3 (precision): not in F16");
}

#[test]
fn a_field_without_a_name_is_its_number() {
    let f = Failure::new(-7, 9, "odd".into());
    assert_eq!(plain(&f).message, "TURBO_E_UNKNOWN field 9: odd");
    assert_eq!(plain(&f).turbo_code, "-7");
    assert_eq!(describe(&f, &session_desc()), "TURBO_E_UNKNOWN field 9: odd");
}

#[test]
fn an_out_of_range_of_the_transport_is_resource_exhausted() {
    let status = |s: &str| Some(s.to_string());
    assert_eq!(number_of(Code::OutOfRange), 11);
    assert_eq!(too_large(&status("11"), false), Some(8));
    assert_eq!(too_large(&status("11"), true), None);
    assert_eq!(too_large(&status("5"), false), None);
    assert_eq!(too_large(&None, false), None);
}

#[test]
fn a_fixed_buffer_is_text_up_to_its_zero() {
    assert_eq!(field(&b"cpu\0\0\0".to_vec()), "cpu");
    assert_eq!(field(&b"full".to_vec()), "full");
    assert_eq!(field(&vec![b'a', 0xff, b'b', 0, b'c']), "a\u{fffd}b");
    assert_eq!(field(&vec![0]), "");
}

#[test]
fn values_show_as_their_constants_and_read_back() {
    assert_eq!(pooling(3), "POOLING_LAST");
    assert_eq!(pooling(9), "9");
    assert_eq!(normalize(2), "NORMALIZE_L2");
    assert_eq!(precision(1), "PRECISION_FASTEST");
    assert_eq!(cap(2), "CAP_SUPPORTED");
    let t = pooling_table();
    for v in 0..4 {
        assert_eq!(value_of(&t, &pick(&t, v)), Some(v));
    }
    assert_eq!(value_of(&t, "pooling_last"), None);
    let c = Constants {
        task_embed: 1,
        dtype_i32: 10,
        dtype_f16: 11,
        dtype_bf16: 12,
        dtype_f32: 13,
        device_cpu: 20,
        device_gpu: 21,
        device_igpu: 22,
        device_npu: 23,
        place_host: 30,
        place_pinned: 31,
        place_device: 32,
        place_shared: 33,
        stage_unused: 40,
        stage_host: 41,
        stage_device: 42,
        stage_fused: 43,
    };
    assert_eq!(c.task(1), "TASK_EMBED");
    assert_eq!(c.dtype(13), "DTYPE_F32");
    assert_eq!(c.device_kind(20), "DEVICE_CPU");
    assert_eq!(c.place(33), "PLACE_SHARED");
    assert_eq!(c.stage(44), "44");
}

#[test]
fn a_count_of_texts_fits_the_interface() {
    assert_eq!(text_count(65).unwrap(), 65);
    assert_eq!(text_count(usize::MAX).unwrap_err().message, "more texts than a uint32_t holds");
}

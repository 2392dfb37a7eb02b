use tensor_packer::codec::{
    check_tensor_type, decode, encode, len_matches, plan_encode, strip_namespace, CodecError,
    EncodePlan,
};
use tensor_packer::dtype::{dtype_from_name, dtype_from_wire_tag, Dtype};

fn push_str(out: &mut Vec<u8>, s: &str) {
    assert!(s.len() < 32);
    out.push(0xa0 + s.len() as u8);
    out.extend_from_slice(s.as_bytes());
}

fn push_small_uint(out: &mut Vec<u8>, v: u64) {
    if v < 128 {
        out.push(v as u8);
    } else {
        assert!(v < 256);
        out.push(0xcc);
        out.push(v as u8);
    }
}

fn push_small_array<T: Copy + Into<u64>>(out: &mut Vec<u8>, items: &[T]) {
    if items.len() < 16 {
        out.push(0x90 + items.len() as u8);
    } else {
        assert!(items.len() < 0x10000);
        out.push(0xdc);
        out.extend_from_slice(&(items.len() as u16).to_be_bytes());
    }
    for &i in items {
        push_small_uint(out, i.into());
    }
}

/// An envelope written out by hand, fields in the usual order.
fn envelope(marker: bool, data: &[u8], tag: &str, shape: &[u8], original: &str) -> Vec<u8> {
    let mut out = vec![0x85];
    push_str(&mut out, "__torch_tensor__");
    out.push(if marker { 0xc3 } else { 0xc2 });
    push_str(&mut out, "data");
    push_small_array(&mut out, data);
    push_str(&mut out, "dtype");
    push_str(&mut out, tag);
    push_str(&mut out, "shape");
    push_small_array(&mut out, shape);
    push_str(&mut out, "original_dtype");
    push_str(&mut out, original);
    out
}

fn f32_bytes(values: &[f32]) -> Vec<u8> {
    values.iter().flat_map(|v| v.to_le_bytes()).collect()
}

#[test]
fn encode_float32_matrix_example() {
    let data = f32_bytes(&[1.0, 2.0, 3.0, 4.0, 5.0, 6.0]);
    assert_eq!(data.len(), 24);
    let bytes = encode(Dtype::Float32, data.clone(), b"<f4", vec![2, 3]).unwrap();
    assert_eq!(bytes, envelope(true, &data, "<f4", &[2, 3], "float32"));
    let d = decode(&bytes).unwrap();
    assert!(d.marker);
    assert_eq!(d.data, data);
    assert_eq!(d.wire_dtype, Dtype::Float32);
    assert_eq!(d.shape, vec![2, 3]);
    assert_eq!(d.original_dtype, Dtype::Float32);
    assert_eq!(d.narrow_target(), None);
}

#[test]
fn round_trip_native_types_and_shapes() {
    let cases: Vec<(Dtype, &[u8], Vec<u64>)> = vec![
        (Dtype::Bool, b"|b1", vec![3]),
        (Dtype::UInt8, b"|u1", vec![2, 2]),
        (Dtype::Int8, b"|i1", vec![]),
        (Dtype::Int16, b"<i2", vec![1, 3]),
        (Dtype::Int32, b"<i4", vec![0, 3]),
        (Dtype::Int64, b"<i8", vec![2]),
        (Dtype::Float16, b"<f2", vec![4]),
        (Dtype::Float32, b"<f4", vec![]),
        (Dtype::Float64, b"<f8", vec![1, 1, 1]),
        (Dtype::Complex64, b"<c8", vec![2]),
        (Dtype::Complex128, b"<c16", vec![1]),
    ];
    for (dt, tag, shape) in cases {
        let n: u64 = shape.iter().product::<u64>() * dt.itemsize_exec() as u64;
        let data: Vec<u8> = (0..n).map(|i| (i * 37 % 256) as u8).collect();
        let bytes = encode(dt, data.clone(), tag, shape.clone()).unwrap();
        let d = decode(&bytes).unwrap();
        assert_eq!(d.data, data);
        assert_eq!(d.shape, shape);
        assert_eq!(d.wire_dtype, dt);
        assert_eq!(d.original_dtype, dt);
        assert_eq!(d.narrow_target(), None);
    }
}

#[test]
fn round_trip_scalar() {
    let data = f32_bytes(&[7.5]);
    let bytes = encode(Dtype::Float32, data.clone(), b"<f4", vec![]).unwrap();
    let d = decode(&bytes).unwrap();
    assert_eq!(d.shape, Vec::<u64>::new());
    assert_eq!(d.data, data);
}

#[test]
fn round_trip_zero_length_dimension() {
    let bytes = encode(Dtype::Int64, vec![], b"<i8", vec![4, 0, 2]).unwrap();
    let d = decode(&bytes).unwrap();
    assert_eq!(d.shape, vec![4, 0, 2]);
    assert!(d.data.is_empty());
}

#[test]
fn round_trip_long_buffer_and_large_dimension() {
    let data: Vec<u8> = (0..70000u32).map(|i| (i % 251) as u8).collect();
    let bytes = encode(Dtype::UInt8, data.clone(), b"|u1", vec![70000]).unwrap();
    let d = decode(&bytes).unwrap();
    assert_eq!(d.data, data);
    assert_eq!(d.shape, vec![70000]);
}

#[test]
fn widened_round_trip() {
    let plan = plan_encode(b"cpu", b"torch.bfloat16").unwrap();
    assert_eq!(
        plan,
        EncodePlan { to_host: false, original: Dtype::BFloat16, cast_to: Some(Dtype::Float32) }
    );
    let data = f32_bytes(&[1.0, -2.5]);
    let bytes = encode(Dtype::BFloat16, data.clone(), b"<f4", vec![2]).unwrap();
    assert_eq!(bytes, envelope(true, &data, "<f4", &[2], "bfloat16"));
    let d = decode(&bytes).unwrap();
    assert_eq!(d.wire_dtype, Dtype::Float32);
    assert_eq!(d.original_dtype, Dtype::BFloat16);
    assert_eq!(d.narrow_target(), Some(Dtype::BFloat16));
    assert_eq!(d.data, data);
}

#[test]
fn non_tensor_input_is_rejected() {
    match check_tensor_type(b"ndarray") {
        Err(CodecError::TypeMismatch { actual_type }) => assert_eq!(actual_type, b"ndarray".to_vec()),
        other => panic!("unexpected {:?}", other),
    }
    assert!(check_tensor_type(b"Tensor").is_ok());
    assert!(check_tensor_type(b"tensor").is_err());
}

#[test]
fn truncated_envelope_fails_decoding() {
    let data = f32_bytes(&[1.0, 2.0, 3.0, 4.0, 5.0, 6.0]);
    let mut bytes = encode(Dtype::Float32, data, b"<f4", vec![2, 3]).unwrap();
    bytes.pop();
    assert!(matches!(decode(&bytes), Err(CodecError::DecodingError)));
}

#[test]
fn size_mismatch_is_reported() {
    let data = vec![0u8; 16];
    let bytes = envelope(true, &data, "<f4", &[2, 3], "float32");
    match decode(&bytes) {
        Err(CodecError::ShapeMismatch { shape, dtype, actual_len }) => {
            assert_eq!(shape, vec![2, 3]);
            assert_eq!(dtype, Dtype::Float32);
            assert_eq!(actual_len, 16);
        }
        other => panic!("unexpected {:?}", other),
    }
    assert!(matches!(
        encode(Dtype::Float32, data, b"<f4", vec![2, 3]),
        Err(CodecError::ShapeMismatch { actual_len: 16, .. })
    ));
}

#[test]
fn fields_may_come_in_any_order() {
    let mut out = vec![0x85];
    push_str(&mut out, "shape");
    push_small_array::<u8>(&mut out, &[2]);
    push_str(&mut out, "original_dtype");
    push_str(&mut out, "int8");
    push_str(&mut out, "data");
    push_small_array::<u8>(&mut out, &[200, 5]);
    push_str(&mut out, "__torch_tensor__");
    out.push(0xc3);
    push_str(&mut out, "dtype");
    push_str(&mut out, "|i1");
    let d = decode(&out).unwrap();
    assert_eq!(d.data, vec![200, 5]);
    assert_eq!(d.original_dtype, Dtype::Int8);
}

#[test]
fn long_string_forms_are_read() {
    let mut out = vec![0x85];
    push_str(&mut out, "__torch_tensor__");
    out.push(0xc2);
    push_str(&mut out, "data");
    push_small_array::<u8>(&mut out, &[1]);
    push_str(&mut out, "dtype");
    out.extend_from_slice(&[0xd9, 3]);
    out.extend_from_slice(b"|b1");
    push_str(&mut out, "shape");
    out.extend_from_slice(&[0xdc, 0, 1, 0xcd, 0, 1]);
    push_str(&mut out, "original_dtype");
    push_str(&mut out, "bool");
    let d = decode(&out).unwrap();
    assert!(!d.marker);
    assert_eq!(d.shape, vec![1]);
    assert_eq!(d.wire_dtype, Dtype::Bool);
}

#[test]
fn malformed_envelopes_fail_decoding() {
    let good = envelope(true, &[1, 2], "|u1", &[2], "uint8");
    assert!(decode(&good).is_ok());
    assert!(matches!(decode(&[]), Err(CodecError::DecodingError)));
    let mut trailing = good.clone();
    trailing.push(0);
    assert!(matches!(decode(&trailing), Err(CodecError::DecodingError)));
    let mut duplicate = vec![0x85];
    for _ in 0..2 {
        push_str(&mut duplicate, "data");
        push_small_array::<u8>(&mut duplicate, &[1]);
    }
    push_str(&mut duplicate, "dtype");
    push_str(&mut duplicate, "|u1");
    push_str(&mut duplicate, "shape");
    push_small_array::<u8>(&mut duplicate, &[1]);
    push_str(&mut duplicate, "original_dtype");
    push_str(&mut duplicate, "uint8");
    assert!(matches!(decode(&duplicate), Err(CodecError::DecodingError)));
    let mut wrong_type = good.clone();
    wrong_type[18] = 0x01;
    assert!(matches!(decode(&wrong_type), Err(CodecError::DecodingError)));
    let mut big_item = vec![0x85];
    push_str(&mut big_item, "__torch_tensor__");
    big_item.push(0xc3);
    push_str(&mut big_item, "data");
    big_item.extend_from_slice(&[0x91, 0xcd, 1, 0]);
    push_str(&mut big_item, "dtype");
    push_str(&mut big_item, "|u1");
    push_str(&mut big_item, "shape");
    push_small_array::<u8>(&mut big_item, &[1]);
    push_str(&mut big_item, "original_dtype");
    push_str(&mut big_item, "uint8");
    assert!(matches!(decode(&big_item), Err(CodecError::DecodingError)));
}

#[test]
fn unknown_types_are_unsupported() {
    match decode(&envelope(true, &[1], "|x1", &[1], "uint8")) {
        Err(CodecError::UnsupportedDtype { name }) => assert_eq!(name, b"|x1".to_vec()),
        other => panic!("unexpected {:?}", other),
    }
    match decode(&envelope(true, &[1], "|u1", &[1], "qint8")) {
        Err(CodecError::UnsupportedDtype { name }) => assert_eq!(name, b"qint8".to_vec()),
        other => panic!("unexpected {:?}", other),
    }
    assert!(matches!(
        decode(&envelope(true, &[0, 0, 0, 0], "<f4", &[1], "int32")),
        Err(CodecError::UnsupportedDtype { .. })
    ));
    match plan_encode(b"cpu", b"torch.qint8") {
        Err(CodecError::UnsupportedDtype { name }) => assert_eq!(name, b"qint8".to_vec()),
        other => panic!("unexpected {:?}", other),
    }
    assert!(matches!(
        encode(Dtype::Int32, vec![0; 4], b"<f4", vec![1]),
        Err(CodecError::UnsupportedDtype { .. })
    ));
    assert!(matches!(
        encode(Dtype::Int32, vec![0; 4], b"<q4", vec![1]),
        Err(CodecError::UnsupportedDtype { .. })
    ));
}

#[test]
fn plan_moves_to_host_and_keeps_native_types() {
    let plan = plan_encode(b"cuda", b"torch.int64").unwrap();
    assert_eq!(plan, EncodePlan { to_host: true, original: Dtype::Int64, cast_to: None });
    let plan = plan_encode(b"cpu", b"float16").unwrap();
    assert_eq!(plan, EncodePlan { to_host: false, original: Dtype::Float16, cast_to: None });
}

#[test]
fn namespace_prefix_is_stripped() {
    assert_eq!(strip_namespace(b"torch.float32"), b"float32".to_vec());
    assert_eq!(strip_namespace(b"float32"), b"float32".to_vec());
    assert_eq!(strip_namespace(b"torch"), b"torch".to_vec());
}

#[test]
fn dtype_table_lookups() {
    assert_eq!(dtype_from_name(b"complex128"), Some(Dtype::Complex128));
    assert_eq!(dtype_from_name(b"float8"), None);
    assert_eq!(dtype_from_wire_tag(b"<c16"), Some(Dtype::Complex128));
    assert_eq!(dtype_from_wire_tag(b""), None);
    assert_eq!(Dtype::BFloat16.wire_type_for(), Dtype::Float32);
    assert_eq!(Dtype::Int16.wire_type_for(), Dtype::Int16);
    assert_eq!(Dtype::Complex128.itemsize_exec(), 16);
    assert_eq!(Dtype::BFloat16.name_bytes(), b"bfloat16".to_vec());
}

#[test]
fn length_check_handles_overflowing_shapes() {
    assert!(len_matches(&[1 << 63, 1 << 63, 0], Dtype::Float64, 0));
    assert!(!len_matches(&[1 << 32, 1 << 32], Dtype::UInt8, 0));
    assert!(len_matches(&[], Dtype::Complex64, 8));
    assert!(len_matches(&[2, 3], Dtype::Float32, 24));
    assert!(!len_matches(&[2, 3], Dtype::Float32, 16));
}

#[test]
fn envelope_matches_rmp_serde_values() {
    let data: Vec<u8> = (0..300u32).map(|i| (i * 13 % 256) as u8).collect();
    let shape: Vec<u64> = vec![300];
    let bytes = encode(Dtype::UInt8, data.clone(), b"|u1", shape.clone()).unwrap();
    let mut expected = vec![0x85u8];
    expected.extend(rmp_serde::to_vec("__torch_tensor__").unwrap());
    expected.extend(rmp_serde::to_vec(&true).unwrap());
    expected.extend(rmp_serde::to_vec("data").unwrap());
    expected.extend(rmp_serde::to_vec(&data).unwrap());
    expected.extend(rmp_serde::to_vec("dtype").unwrap());
    expected.extend(rmp_serde::to_vec("|u1").unwrap());
    expected.extend(rmp_serde::to_vec("shape").unwrap());
    expected.extend(rmp_serde::to_vec(&shape).unwrap());
    expected.extend(rmp_serde::to_vec("original_dtype").unwrap());
    expected.extend(rmp_serde::to_vec("uint8").unwrap());
    assert_eq!(bytes, expected);
}

#[test]
fn rmp_serde_reads_the_envelope_keys() {
    let bytes = encode(Dtype::Float64, vec![0; 8], b"<f8", vec![1]).unwrap();
    let map: std::collections::BTreeMap<String, serde::de::IgnoredAny> =
        rmp_serde::from_slice(&bytes).unwrap();
    let keys: Vec<&str> = map.keys().map(|k| k.as_str()).collect();
    assert_eq!(keys, vec!["__torch_tensor__", "data", "dtype", "original_dtype", "shape"]);
}

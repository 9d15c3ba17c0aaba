use ggrs::network::compression::{decode, delta_decode, delta_encode, encode, rle_decodable, DecodeError};

#[test]
fn test_encode_decode() {
    let ref_input = vec![0, 0, 0, 1];
    let inp0: Vec<u8> = vec![0, 0, 1, 0];
    let inp1: Vec<u8> = vec![0, 0, 1, 1];
    let inp2: Vec<u8> = vec![0, 1, 0, 0];
    let inp3: Vec<u8> = vec![0, 1, 0, 1];
    let inp4: Vec<u8> = vec![0, 1, 1, 0];

    let pend_inp = vec![inp0, inp1, inp2, inp3, inp4];

    let encoded = encode(&ref_input, &pend_inp);
    let decoded = decode(&ref_input, &encoded).unwrap();

    assert!(pend_inp == decoded);
}

#[test]
fn test_encode_decode_identical_to_reference() {
    let reference = vec![1, 2, 3, 4];
    let inputs = vec![reference.clone(), reference.clone()];
    let encoded = encode(&reference, &inputs);
    let decoded = decode(&reference, &encoded).unwrap();
    assert_eq!(decoded, inputs);
}

#[test]
fn test_encode_decode_single_input() {
    let reference = vec![0u8; 4];
    let inputs = vec![vec![1u8, 2, 3, 4]];
    let encoded = encode(&reference, &inputs);
    let decoded = decode(&reference, &encoded).unwrap();
    assert_eq!(decoded, inputs);
}

#[test]
fn test_encode_decode_all_zeros() {
    let reference = vec![0u8; 4];
    let inputs = vec![vec![0u8; 4], vec![0u8; 4], vec![0u8; 4]];
    let encoded = encode(&reference, &inputs);
    let decoded = decode(&reference, &encoded).unwrap();
    assert_eq!(decoded, inputs);
}

#[test]
fn test_encode_decode_variable_size() {
    // simulate an enum whose variants serialize to different sizes
    let reference = vec![0u8; 1];
    let inputs = vec![
        vec![1u8],                // 1 byte variant
        vec![2u8, 10, 20],        // 3 byte variant
        vec![1u8],                // back to 1 byte
        vec![3u8, 1, 2, 3, 4, 5], // 6 byte variant
    ];
    let encoded = encode(&reference, &inputs);
    let decoded = decode(&reference, &encoded).unwrap();
    assert_eq!(decoded, inputs);
}

#[test]
fn test_encode_decode_empty_inputs() {
    let reference = vec![1u8, 2, 3, 4];
    let inputs: Vec<Vec<u8>> = vec![];
    let encoded = encode(&reference, &inputs);
    let decoded = decode(&reference, &encoded).unwrap();
    assert_eq!(decoded, inputs);
}

#[test]
fn test_encode_decode_input_shorter_than_reference() {
    let reference = vec![1u8, 2, 3, 4];
    let inputs = vec![vec![0u8, 1], vec![5u8, 6, 7, 8]];
    let encoded = encode(&reference, &inputs);
    let decoded = decode(&reference, &encoded).unwrap();
    assert_eq!(decoded, inputs);
}

#[test]
fn test_encode_decode_input_size_alternating() {
    // each input is delta-encoded against the previous input, not the reference
    let reference = vec![0u8; 2];
    let inputs = vec![
        vec![1u8, 2, 3, 4, 5, 6],
        vec![7u8, 8],
        vec![9u8, 10, 11, 12, 13, 14],
        vec![15u8, 16],
    ];
    let encoded = encode(&reference, &inputs);
    let decoded = decode(&reference, &encoded).unwrap();
    assert_eq!(decoded, inputs);
}

#[test]
fn test_decode_garbage_bytes_never_panics() {
    let reference = vec![0u8; 4];
    // each garbage payload is run-length encoded first, so the run-length layer succeeds and
    // the delta layer receives the raw garbage
    let cases: &[&[u8]] = &[
        &[],
        &[0xFF],
        &[0x00, 0x00],
        &[0xFF, 0xFF, 0xFF, 0xFF],
        &[0x01, 0x00, 0x00],
        &[0x00, 0x01, 0x00],
    ];
    for &garbage in cases {
        let rle_encoded = bitfield_rle::encode(garbage.to_vec());
        let _ = decode(&reference, &rle_encoded);
    }
}

#[test]
fn test_decode_truncated_length_prefix_returns_error() {
    let reference = vec![0u8; 4];
    // only 1 byte: not enough for a length prefix
    let bad_data = bitfield_rle::encode(vec![0x01]);
    assert!(decode(&reference, &bad_data).is_err());
}

#[test]
fn test_decode_truncated_input_data_returns_error() {
    let reference = vec![0u8; 4];
    // length prefix says 10 bytes but only 2 follow
    let mut raw = vec![];
    raw.extend_from_slice(&10u16.to_le_bytes());
    raw.extend_from_slice(&[0x01, 0x02]);
    let bad_data = bitfield_rle::encode(raw);
    assert!(decode(&reference, &bad_data).is_err());
}

#[test]
fn delta_layer_prefixes_lengths_and_xors_with_the_previous_input() {
    let reference = vec![1u8, 2];
    let inputs = vec![vec![1u8, 3], vec![0u8]];
    let encoded = delta_encode(&reference, &inputs);
    // [len 2][1^1, 3^2] [len 1][0^1]
    assert_eq!(encoded, vec![2u8, 0, 0, 1, 1, 0, 1]);
    assert_eq!(delta_decode(&reference, &encoded).unwrap(), inputs);
}

#[test]
fn delta_decode_reports_each_error() {
    assert_eq!(delta_decode(&[0u8], &[5u8]), Err(DecodeError::TruncatedLengthPrefix));
    assert_eq!(delta_decode(&[0u8], &[3u8, 0, 1]), Err(DecodeError::TruncatedInputData));
    assert_eq!(delta_decode(&[0u8], &[]), Ok(vec![]));
}

#[test]
fn encode_differs_from_its_delta_bytes_only_by_run_length_coding() {
    let reference = vec![0u8; 4];
    let inputs = vec![vec![0u8; 4]; 3];
    let encoded = encode(&reference, &inputs);
    assert_eq!(encoded, bitfield_rle::encode(delta_encode(&reference, &inputs)));
    assert!(rle_decodable(&encoded));
}

#[test]
fn unreadable_run_header_is_refused_before_decoding() {
    // a run header whose varint never ends
    assert!(!rle_decodable(&[0x80u8]));
    assert!(rle_decodable(&[0x04u8]));
}

#[test]
fn literal_run_past_the_end_is_a_run_length_error() {
    // a literal run announcing two bytes where none follow
    assert_eq!(decode(&[0u8; 4], &[0x04u8]), Err(DecodeError::Rle));
}

#[test]
fn decode_error_messages() {
    assert_eq!(DecodeError::Rle.message(), "invalid run-length encoding");
    assert_eq!(DecodeError::TruncatedLengthPrefix.message(), "truncated length prefix");
    assert_eq!(DecodeError::TruncatedInputData.message(), "truncated input data");
}

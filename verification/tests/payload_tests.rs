use config_cell_gen::GenError;
use config_cell_gen::WITNESS_SIZE_LIMIT;
use config_cell_gen::bytesutil::{prepend_length, u32_to_le};
use config_cell_gen::hexfmt::{hex_of_bytes, decode_hex_line};
use config_cell_gen::witness::{PayloadSource, build_config_payload, action_witness_bytes, format_record};
use config_cell_gen::sections::{Section, char_set_payload, record_key_namespace_payload, generate_manifest, join_records};

#[test]
fn u32_le_encoding() {
    assert_eq!(u32_to_le(0x12345678), vec![0x78, 0x56, 0x34, 0x12]);
    assert_eq!(u32_to_le(0), vec![0, 0, 0, 0]);
}

#[test]
fn length_prefix_framing() {
    assert_eq!(prepend_length(vec![1, 2, 3]), vec![3, 0, 0, 0, 1, 2, 3]);
    assert_eq!(prepend_length(Vec::new()), vec![0, 0, 0, 0]);
}

#[test]
fn hex_encoding_not_identity() {
    assert_eq!(hex_of_bytes(&vec![0xab, 0x01, 0xff]), "ab01ff");
    assert_eq!(hex_of_bytes(&Vec::new()), "");
}

#[test]
fn hex_decoding_mixed_case() {
    assert_eq!(decode_hex_line(&b"0a1B".to_vec()), Ok(vec![0x0a, 0x1b]));
    assert_eq!(decode_hex_line(&b"xyz1".to_vec()), Err(GenError::DecodeError));
    assert_eq!(decode_hex_line(&b"abc".to_vec()), Err(GenError::DecodeError));
}

#[test]
fn content_hash_matches_payload_bytes() {
    let payload = b"some configuration payload".to_vec();
    let p = build_config_payload(7, PayloadSource::Raw(payload.clone())).unwrap();
    let recomputed = ckb_hash::blake2b_256(&payload).to_vec();
    assert_eq!(p.content_hash, recomputed);
    assert_eq!(&p.entity_witness[4..], payload.as_slice());
    assert_eq!(&p.entity_witness[..4], &[7, 0, 0, 0]);
}

#[test]
fn entity_and_raw_modes_wrap_identically() {
    let bytes = vec![9u8; 64];
    let a = build_config_payload(3, PayloadSource::Entity(bytes.clone())).unwrap();
    let b = build_config_payload(3, PayloadSource::Raw(bytes)).unwrap();
    assert_eq!(a.content_hash, b.content_hash);
    assert_eq!(a.entity_witness, b.entity_witness);
    assert_eq!(a.action_witness, b.action_witness);
}

#[test]
fn witness_at_limit_succeeds_one_over_fails() {
    let at_limit = vec![0u8; WITNESS_SIZE_LIMIT - 4];
    let p = build_config_payload(1, PayloadSource::Raw(at_limit)).unwrap();
    assert_eq!(p.entity_witness.len(), WITNESS_SIZE_LIMIT);
    let over = vec![0u8; WITNESS_SIZE_LIMIT - 3];
    assert_eq!(
        build_config_payload(1, PayloadSource::Raw(over)),
        Err(GenError::OversizedWitness)
    );
}

#[test]
fn action_witness_is_framed_config_tag() {
    let expected = vec![6, 0, 0, 0, b'c', b'o', b'n', b'f', b'i', b'g'];
    assert_eq!(action_witness_bytes(), expected);
}

#[test]
fn record_text_four_hex_fields() {
    let p = build_config_payload(1, PayloadSource::Raw(Vec::new())).unwrap();
    let hash_hex = faster_hex::hex_string(&ckb_hash::blake2b_256(&[] as &[u8]));
    let expected = format!("0x01000000 0x{} 0x06000000636f6e666967 0x01000000", hash_hex);
    assert_eq!(format_record(&p), expected);
}

#[test]
fn char_set_payload_layout() {
    let chars = vec![b"a".to_vec(), b"b".to_vec(), b"c".to_vec()];
    let p = char_set_payload(11, 1, &chars).unwrap();
    let payload = &p.entity_witness[4..];
    // one status byte plus a zero-terminated entry per character
    assert_eq!(payload.len(), 4 + 1 + 3 * 2);
    assert_eq!(payload, &[7, 0, 0, 0, 1, b'a', 0, b'b', 0, b'c', 0]);
}

#[test]
fn char_set_payload_multibyte_chars() {
    let chars = vec!["😂".as_bytes().to_vec(), b"0".to_vec()];
    let p = char_set_payload(12, 0, &chars).unwrap();
    let payload = &p.entity_witness[4..];
    let raw_len = 1 + (4 + 1) + (1 + 1);
    assert_eq!(payload.len(), 4 + raw_len);
    assert_eq!(&payload[..5], &[raw_len as u8, 0, 0, 0, 0]);
}

#[test]
fn record_keys_sorted_and_order_independent() {
    let a = record_key_namespace_payload(5, vec![b"ttl".to_vec(), b"address".to_vec()]).unwrap();
    let b = record_key_namespace_payload(5, vec![b"address".to_vec(), b"ttl".to_vec()]).unwrap();
    assert_eq!(a.entity_witness, b.entity_witness);
    let payload = &a.entity_witness[4..];
    let mut expected = vec![12, 0, 0, 0];
    expected.extend(b"address");
    expected.push(0);
    expected.extend(b"ttl");
    expected.push(0);
    assert_eq!(payload, expected.as_slice());
}

#[test]
fn manifest_joins_records_with_commas() {
    let sections = vec![
        Section { type_tag: 1, source: PayloadSource::Raw(vec![1]) },
        Section { type_tag: 2, source: PayloadSource::Raw(vec![2]) },
    ];
    let line = generate_manifest(sections).unwrap();
    let p1 = build_config_payload(1, PayloadSource::Raw(vec![1])).unwrap();
    let p2 = build_config_payload(2, PayloadSource::Raw(vec![2])).unwrap();
    let expected = format!("{},{}", format_record(&p1), format_record(&p2));
    assert_eq!(line, expected);
    assert_eq!(line.matches(',').count(), 1);
    for record in line.split(',') {
        assert_eq!(record.split(' ').count(), 4);
        for field in record.split(' ') {
            assert!(field.starts_with("0x"));
        }
    }
}

#[test]
fn manifest_aborts_on_oversized_section() {
    let sections = vec![
        Section { type_tag: 1, source: PayloadSource::Raw(vec![1]) },
        Section { type_tag: 2, source: PayloadSource::Raw(vec![0u8; WITNESS_SIZE_LIMIT]) },
    ];
    assert_eq!(generate_manifest(sections), Err(GenError::OversizedWitness));
}

#[test]
fn join_records_empty_and_single() {
    assert_eq!(join_records(&Vec::new()), "");
    assert_eq!(join_records(&vec!["one".to_string()]), "one");
}

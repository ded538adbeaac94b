use config_cell_gen::ACCOUNT_ID_LENGTH;
use config_cell_gen::GenError;
use config_cell_gen::bloom::{BloomFilter, contains_exported};
use config_cell_gen::hashing::account_fingerprint;
use config_cell_gen::shard::{assign_shards, preserved_account_records};
use config_cell_gen::sections::unavailable_account_payload;

#[test]
fn fingerprint_is_digest_prefix() {
    let account = b"example.bit".to_vec();
    let fp = account_fingerprint(&account);
    assert_eq!(fp.len(), ACCOUNT_ID_LENGTH);
    let digest = ckb_hash::blake2b_256(&account);
    assert_eq!(fp.as_slice(), &digest[..ACCOUNT_ID_LENGTH]);
}

#[test]
fn bloom_filter_export_length() {
    let bf = BloomFilter::new(10, 2);
    assert_eq!(bf.export_bit_u8().len(), 2);
    let bf8 = BloomFilter::new(8, 1);
    assert_eq!(bf8.export_bit_u8().len(), 1);
}

#[test]
fn bloom_filter_scenario_three_names() {
    let mut bf = BloomFilter::new(1438, 10);
    bf.insert(&b"google".to_vec());
    bf.insert(&b"apple".to_vec());
    bf.insert(&b"microsoft".to_vec());
    let exported = bf.export_bit_u8();
    assert_eq!(exported.len(), 180);
    for item in [&b"google"[..], &b"apple"[..], &b"microsoft"[..]] {
        assert!(contains_exported(&exported, 1438, 10, &item.to_vec()));
    }
    // at least one probed bit was set, so the vector is not all zero
    assert!(exported.iter().any(|b| *b != 0));
}

#[test]
fn bloom_filter_insertion_order_does_not_matter() {
    let items: Vec<Vec<u8>> = ["google", "apple", "microsoft", "qq", "ali", "baidu"]
        .iter()
        .map(|s| s.as_bytes().to_vec())
        .collect();
    let mut forward = BloomFilter::new(1438, 10);
    for item in items.iter() {
        forward.insert(item);
    }
    let mut backward = BloomFilter::new(1438, 10);
    for item in items.iter().rev() {
        backward.insert(item);
    }
    assert_eq!(forward.export_bit_u8(), backward.export_bit_u8());
}

#[test]
fn bloom_filter_no_false_negatives_many_items() {
    let items: Vec<Vec<u8>> = (0..50u32).map(|n| n.to_le_bytes().to_vec()).collect();
    let mut bf = BloomFilter::new(701, 7);
    for item in items.iter() {
        bf.insert(item);
    }
    let exported = bf.export_bit_u8();
    for item in items.iter() {
        assert!(contains_exported(&exported, 701, 7, item));
    }
}

#[test]
fn shards_sorted_by_first_byte_modulo() {
    // three fixed-length entries; shard index is first byte mod 2
    let fp_a = vec![4u8; ACCOUNT_ID_LENGTH];
    let fp_b = vec![2u8; ACCOUNT_ID_LENGTH];
    let fp_c = {
        let mut v = vec![0u8; ACCOUNT_ID_LENGTH];
        v[0] = 2;
        v[1] = 9;
        v
    };
    let fp_d = vec![3u8; ACCOUNT_ID_LENGTH];
    let input = vec![fp_a.clone(), fp_b.clone(), fp_c.clone(), fp_d.clone()];
    let shards = assign_shards(input.clone(), 2);
    assert_eq!(shards.len(), 2);
    // even first bytes, ascending byte-wise
    assert_eq!(shards[0], vec![fp_b.clone(), fp_c.clone(), fp_a.clone()]);
    assert_eq!(shards[1], vec![fp_d.clone()]);
    // a different input order gives identical shards
    let reversed: Vec<Vec<u8>> = input.into_iter().rev().collect();
    assert_eq!(assign_shards(reversed, 2), shards);
}

#[test]
fn preserved_records_deterministic_across_input_order() {
    let accounts = vec![b"google".to_vec(), b"apple".to_vec(), b"microsoft".to_vec()];
    let shuffled = vec![b"microsoft".to_vec(), b"google".to_vec(), b"apple".to_vec()];
    let a = preserved_account_records(&accounts, 10000, 20, 1000).unwrap();
    let b = preserved_account_records(&shuffled, 10000, 20, 1000).unwrap();
    assert_eq!(a.len(), 20);
    assert_eq!(a, b);
    for (i, payload) in a.iter().enumerate() {
        assert_eq!(payload.type_tag, 10000 + i as u32);
        // each shard buffer is its member count times the fingerprint length,
        // framed by that byte count
        let body = &payload.entity_witness[4..];
        let count = u32::from_le_bytes([body[0], body[1], body[2], body[3]]) as usize;
        assert_eq!(body.len(), 4 + count);
        assert_eq!(count % ACCOUNT_ID_LENGTH, 0);
    }
}

#[test]
fn shard_over_capacity_aborts_at_capacity_succeeds() {
    // both names land in some shard; with a per-shard limit of zero the
    // non-empty shard must abort, with a limit of one per shard it fits
    let accounts = vec![b"alpha".to_vec()];
    assert!(matches!(
        preserved_account_records(&accounts, 10000, 20, 0),
        Err(GenError::ShardCapacityExceeded)
    ));
    assert!(preserved_account_records(&accounts, 10000, 20, 1).is_ok());
}

#[test]
fn unavailable_accounts_sorted_and_order_independent() {
    let line_high = b"ff00000000000000000000000000000000000000000000000000000000000000".to_vec();
    let line_low = b"0100000000000000000000000000000000000000000000000000000000000000".to_vec();
    let a = unavailable_account_payload(9, &vec![line_high.clone(), line_low.clone()]).unwrap();
    let b = unavailable_account_payload(9, &vec![line_low.clone(), line_high.clone()]).unwrap();
    assert_eq!(a, b);
    let body = &a.entity_witness[4..];
    assert_eq!(body.len(), 4 + 2 * ACCOUNT_ID_LENGTH);
    assert_eq!(&body[..4], &[40, 0, 0, 0]);
    assert_eq!(body[4], 0x01);
    assert_eq!(body[4 + ACCOUNT_ID_LENGTH], 0xff);
}

#[test]
fn unavailable_accounts_reject_bad_lines() {
    let bad_hex = b"zz00".to_vec();
    assert!(matches!(
        unavailable_account_payload(9, &vec![bad_hex]),
        Err(GenError::DecodeError)
    ));
    let too_short = b"0102".to_vec();
    assert!(matches!(
        unavailable_account_payload(9, &vec![too_short]),
        Err(GenError::DecodeError)
    ));
}

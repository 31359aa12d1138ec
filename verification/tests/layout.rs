use sha2::{Digest, Sha256};
use zk_mail_monitor::error::SubmissionError;
use zk_mail_monitor::layout::{
    decode, encode, ProofRecord, LENGTH_PREFIX_LEN, MAX_PROOF_LEN, RECORD_OVERHEAD,
    SCHEMA_TAG, SCHEMA_TAG_LEN, SLOT_CAPACITY,
};

fn record(proof: Vec<u8>, event_type: u8, timestamp: i64) -> ProofRecord {
    ProofRecord { proof, event_type, timestamp }
}

#[test]
fn the_layout_reserves_533_bytes() {
    assert_eq!(SCHEMA_TAG_LEN, 8);
    assert_eq!(LENGTH_PREFIX_LEN, 4);
    assert_eq!(MAX_PROOF_LEN, 512);
    assert_eq!(RECORD_OVERHEAD, 21);
    assert_eq!(SLOT_CAPACITY, 533);
    assert_eq!(SLOT_CAPACITY, RECORD_OVERHEAD + MAX_PROOF_LEN);
}

#[test]
fn the_schema_tag_is_the_hash_of_the_account_name() {
    let digest = Sha256::digest(b"account:ProofRecord");
    assert_eq!(&SCHEMA_TAG[..], &digest[..8]);
}

#[test]
fn the_empty_record_has_no_proof_and_zero_fields() {
    assert_eq!(ProofRecord::empty(), record(vec![], 0, 0));
}

#[test]
fn encode_writes_tag_length_proof_event_and_time() {
    let bytes = encode(&record(vec![0x01, 0x02], 1, 0x0102_0304_0506_0708)).unwrap();
    let expected: Vec<u8> = vec![
        237, 59, 155, 172, 204, 117, 87, 44, // tag
        2, 0, 0, 0, // length
        1, 2, // proof
        1, // event type
        8, 7, 6, 5, 4, 3, 2, 1, // timestamp
    ];
    assert_eq!(bytes, expected);
}

#[test]
fn encode_writes_the_empty_record_as_tag_and_zeros() {
    let bytes = encode(&ProofRecord::empty()).unwrap();
    let mut expected = SCHEMA_TAG.to_vec();
    expected.extend_from_slice(&[0u8; 13]);
    assert_eq!(bytes, expected);
    assert_eq!(bytes.len(), RECORD_OVERHEAD);
}

#[test]
fn encode_writes_a_negative_time_in_twos_complement() {
    let bytes = encode(&record(vec![], 7, -2)).unwrap();
    assert_eq!(&bytes[12..], &[7, 0xfe, 0xff, 0xff, 0xff, 0xff, 0xff, 0xff, 0xff]);
}

#[test]
fn encode_agrees_with_borsh_field_by_field() {
    for (proof, event_type, timestamp) in [
        (vec![], 0u8, 0i64),
        (vec![1, 2], 1, 1_700_000_000),
        (vec![0xff; 300], 255, -1),
        (vec![7; 512], 9, i64::MIN),
        ((0..=255).collect::<Vec<u8>>(), 3, i64::MAX),
    ] {
        let mut expected = SCHEMA_TAG.to_vec();
        expected.extend(borsh::to_vec(&proof).unwrap());
        expected.extend(borsh::to_vec(&event_type).unwrap());
        expected.extend(borsh::to_vec(&timestamp).unwrap());
        assert_eq!(encode(&record(proof, event_type, timestamp)).unwrap(), expected);
    }
}

#[test]
fn decode_agrees_with_borsh_field_by_field() {
    let bytes = encode(&record(vec![5, 6, 7], 4, -99)).unwrap();
    let decoded = decode(&bytes).unwrap();
    let body = &bytes[8..];
    let proof: Vec<u8> = borsh::from_slice(&body[..7]).unwrap();
    let event_type: u8 = borsh::from_slice(&body[7..8]).unwrap();
    let timestamp: i64 = borsh::from_slice(&body[8..]).unwrap();
    assert_eq!(decoded, record(proof, event_type, timestamp));
}

#[test]
fn encode_takes_a_proof_of_the_longest_length() {
    let bytes = encode(&record(vec![0xab; 512], 1, 1)).unwrap();
    assert_eq!(bytes.len(), SLOT_CAPACITY);
    assert_eq!(&bytes[8..12], &[0, 2, 0, 0]);
}

#[test]
fn encode_refuses_a_proof_over_the_limit() {
    assert_eq!(encode(&record(vec![0; 513], 1, 1)), Err(SubmissionError::PayloadTooLarge));
    assert_eq!(encode(&record(vec![0xff; 600], 2, 1)), Err(SubmissionError::PayloadTooLarge));
}

#[test]
fn encode_then_decode_gives_the_record_back() {
    for given in [
        ProofRecord::empty(),
        record(vec![1, 2], 1, 1_700_000_000),
        record(vec![0; 1], 0, -1),
        record(vec![0xff; 511], 255, i64::MAX),
        record(vec![0x5a; 512], 128, i64::MIN),
        record((0..200).collect(), 17, 42),
    ] {
        let bytes = encode(&given).unwrap();
        assert_eq!(bytes.len(), RECORD_OVERHEAD + given.proof.len());
        assert_eq!(decode(&bytes), Ok(given));
    }
}

#[test]
fn decode_ignores_what_follows_the_record() {
    let given = record(vec![1, 2, 3], 9, 77);
    let mut bytes = encode(&given).unwrap();
    bytes.extend_from_slice(&[0xee; 40]);
    assert_eq!(decode(&bytes), Ok(given));
}

#[test]
fn decode_then_encode_gives_the_leading_bytes_back() {
    let mut bytes = encode(&record(vec![4, 5, 6, 7], 2, 1234)).unwrap();
    let used = bytes.len();
    bytes.extend_from_slice(&[1, 2, 3]);
    let decoded = decode(&bytes).unwrap();
    assert_eq!(encode(&decoded).unwrap(), bytes[..used].to_vec());
}

#[test]
fn decode_refuses_bytes_too_short_for_tag_and_length() {
    assert_eq!(decode(&[]), Err(SubmissionError::CorruptRecord));
    assert_eq!(decode(&SCHEMA_TAG), Err(SubmissionError::CorruptRecord));
    let mut bytes = SCHEMA_TAG.to_vec();
    bytes.extend_from_slice(&[0, 0, 0]);
    assert_eq!(decode(&bytes), Err(SubmissionError::CorruptRecord));
}

#[test]
fn decode_refuses_a_wrong_tag() {
    let mut bytes = encode(&record(vec![1, 2], 1, 5)).unwrap();
    bytes[0] ^= 1;
    assert_eq!(decode(&bytes), Err(SubmissionError::CorruptRecord));
    let mut bytes = encode(&record(vec![1, 2], 1, 5)).unwrap();
    bytes[7] = 0;
    assert_eq!(decode(&bytes), Err(SubmissionError::CorruptRecord));
    assert_eq!(decode(&[0u8; 533]), Err(SubmissionError::CorruptRecord));
}

#[test]
fn decode_refuses_a_declared_length_over_the_limit() {
    let mut bytes = SCHEMA_TAG.to_vec();
    bytes.extend_from_slice(&513u32.to_le_bytes());
    bytes.extend_from_slice(&[0u8; 600]);
    assert_eq!(decode(&bytes), Err(SubmissionError::CorruptRecord));
    let mut bytes = SCHEMA_TAG.to_vec();
    bytes.extend_from_slice(&[0, 0, 0, 1]);
    bytes.extend_from_slice(&[0u8; 600]);
    assert_eq!(decode(&bytes), Err(SubmissionError::CorruptRecord));
}

#[test]
fn decode_refuses_fields_cut_short() {
    let bytes = encode(&record(vec![1, 2, 3], 1, 5)).unwrap();
    for cut in 12..bytes.len() {
        assert_eq!(decode(&bytes[..cut]), Err(SubmissionError::CorruptRecord));
    }
    assert!(decode(&bytes).is_ok());
}

#[test]
fn decode_reads_the_longest_record_from_a_full_slot() {
    let given = record(vec![0x11; 512], 3, 9);
    let bytes = encode(&given).unwrap();
    assert_eq!(bytes.len(), 533);
    assert_eq!(decode(&bytes), Ok(given));
}

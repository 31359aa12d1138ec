use zk_mail_monitor::bytes::{
    push_bytes, push_le_u32, push_le_u64, push_zeros, read_le_u32, read_le_u64, same_bytes,
    signed_of, unsigned_of,
};

#[test]
fn push_le_u32_writes_least_significant_byte_first() {
    let mut out = vec![9u8];
    push_le_u32(&mut out, 0x0403_0201);
    assert_eq!(out, vec![9, 1, 2, 3, 4]);
}

#[test]
fn push_le_u32_agrees_with_std() {
    for value in [0u32, 1, 255, 256, 512, 65_535, 65_536, 0x00ff_ffff, 0x0100_0000, u32::MAX] {
        let mut out = Vec::new();
        push_le_u32(&mut out, value);
        assert_eq!(out, value.to_le_bytes().to_vec());
    }
}

#[test]
fn push_le_u64_agrees_with_std() {
    for value in [0u64, 1, 0xffff_ffff, 0x1_0000_0000, 0x0807_0605_0403_0201, u64::MAX] {
        let mut out = Vec::new();
        push_le_u64(&mut out, value);
        assert_eq!(out, value.to_le_bytes().to_vec());
    }
}

#[test]
fn read_le_u32_reads_at_an_offset() {
    let bytes = [0xaa, 0x01, 0x02, 0x03, 0x04, 0xbb];
    assert_eq!(read_le_u32(&bytes, 1), 0x0403_0201);
    assert_eq!(read_le_u32(&bytes, 0), 0x0302_01aa);
    assert_eq!(read_le_u32(&[255, 255, 255, 255], 0), u32::MAX);
}

#[test]
fn read_le_u64_reads_at_an_offset() {
    let bytes = [0xaa, 1, 2, 3, 4, 5, 6, 7, 8, 0xbb];
    assert_eq!(read_le_u64(&bytes, 1), 0x0807_0605_0403_0201);
    assert_eq!(read_le_u64(&[255; 8], 0), u64::MAX);
}

#[test]
fn reading_gives_back_what_was_pushed() {
    for value in [0u64, 7, 1_700_000_000, u64::MAX - 1] {
        let mut out = vec![0u8; 3];
        push_le_u64(&mut out, value);
        assert_eq!(read_le_u64(&out, 3), value);
    }
}

#[test]
fn unsigned_of_is_the_twos_complement_pattern() {
    assert_eq!(unsigned_of(0), 0);
    assert_eq!(unsigned_of(1), 1);
    assert_eq!(unsigned_of(i64::MAX), 0x7fff_ffff_ffff_ffff);
    assert_eq!(unsigned_of(-1), u64::MAX);
    assert_eq!(unsigned_of(-2), u64::MAX - 1);
    assert_eq!(unsigned_of(i64::MIN), 0x8000_0000_0000_0000);
}

#[test]
fn signed_of_is_the_twos_complement_pattern() {
    assert_eq!(signed_of(0), 0);
    assert_eq!(signed_of(0x7fff_ffff_ffff_ffff), i64::MAX);
    assert_eq!(signed_of(0x8000_0000_0000_0000), i64::MIN);
    assert_eq!(signed_of(u64::MAX), -1);
}

#[test]
fn signed_and_unsigned_convert_back_and_forth() {
    for value in [i64::MIN, -1_700_000_000, -1, 0, 1, 1_700_000_000, i64::MAX] {
        assert_eq!(signed_of(unsigned_of(value)), value);
        assert_eq!(unsigned_of(value), value as u64);
    }
}

#[test]
fn same_bytes_compares_length_and_content() {
    assert!(same_bytes(&[], &[]));
    assert!(same_bytes(&[1, 2, 3], &[1, 2, 3]));
    assert!(!same_bytes(&[1, 2, 3], &[1, 2]));
    assert!(!same_bytes(&[1, 2], &[1, 2, 3]));
    assert!(!same_bytes(&[1, 2, 3], &[1, 2, 4]));
    assert!(!same_bytes(&[0, 2, 3], &[1, 2, 3]));
}

#[test]
fn push_bytes_appends_in_order() {
    let mut out = vec![1u8, 2];
    push_bytes(&mut out, &[3, 4, 5]);
    push_bytes(&mut out, &[]);
    assert_eq!(out, vec![1, 2, 3, 4, 5]);
}

#[test]
fn push_zeros_appends_that_many_zeros() {
    let mut out = vec![7u8];
    push_zeros(&mut out, 3);
    push_zeros(&mut out, 0);
    assert_eq!(out, vec![7, 0, 0, 0]);
}

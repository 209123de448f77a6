use bifrost::utils::u8vec::{extract_u64_head, prepend_u64};

#[test]
fn prepend_writes_little_endian() {
    assert_eq!(prepend_u64(0x0102, vec![9, 8]), vec![2, 1, 0, 0, 0, 0, 0, 0, 9, 8]);
}

#[test]
fn extract_reads_little_endian() {
    let (n, rest) = extract_u64_head(vec![1, 0, 0, 0, 0, 0, 0, 0x80, 5]);
    assert_eq!(n, 0x8000_0000_0000_0001);
    assert_eq!(rest, vec![5]);
}

#[test]
fn prepend_then_extract_round_trip() {
    for n in [0u64, 1, 7, u64::MAX, 0xdead_beef] {
        let (m, rest) = extract_u64_head(prepend_u64(n, vec![3, 4, 5]));
        assert_eq!(m, n);
        assert_eq!(rest, vec![3, 4, 5]);
    }
}

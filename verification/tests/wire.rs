use clipd::wire::{get_be, put_be, MAGIC, MAX_PAYLOAD_LEN};

#[test]
fn constants_are_those_of_the_protocol() {
    assert_eq!(MAGIC, 149);
    assert_eq!(MAX_PAYLOAD_LEN, 10 * 1024 * 1024);
}

#[test]
fn put_be_writes_most_significant_byte_first() {
    let mut out = vec![0xAA];
    put_be(&mut out, 0x0102_0304_0506_0708, 8);
    assert_eq!(out, vec![0xAA, 1, 2, 3, 4, 5, 6, 7, 8]);
}

#[test]
fn put_be_keeps_the_low_bytes_when_narrow() {
    let mut out = Vec::new();
    put_be(&mut out, 0x0102_0304_0506_0708, 2);
    assert_eq!(out, vec![7, 8]);
    let mut none = vec![9];
    put_be(&mut none, 77, 0);
    assert_eq!(none, vec![9]);
}

#[test]
fn put_be_of_small_and_large_numbers() {
    let mut out = Vec::new();
    put_be(&mut out, 5, 8);
    assert_eq!(out, vec![0, 0, 0, 0, 0, 0, 0, 5]);
    let mut top = Vec::new();
    put_be(&mut top, u64::MAX, 8);
    assert_eq!(top, vec![255; 8]);
    let mut cap = Vec::new();
    put_be(&mut cap, MAX_PAYLOAD_LEN, 8);
    assert_eq!(cap, vec![0, 0, 0, 0, 0, 0xA0, 0, 0]);
}

#[test]
fn get_be_reads_most_significant_byte_first() {
    assert_eq!(get_be(&[1, 2, 3, 4, 5, 6, 7, 8]), 0x0102_0304_0506_0708);
    assert_eq!(get_be(&[0x80, 0, 0, 0, 0, 0, 0, 0]), 1u64 << 63);
    assert_eq!(get_be(&[255; 8]), u64::MAX);
    assert_eq!(get_be(&[1, 0]), 256);
    assert_eq!(get_be(&[]), 0);
}

#[test]
fn get_be_undoes_put_be() {
    for x in [0u64, 1, 255, 256, 10_485_760, 10_485_761, 1 << 63, u64::MAX] {
        let mut out = Vec::new();
        put_be(&mut out, x, 8);
        assert_eq!(out, x.to_be_bytes().to_vec());
        assert_eq!(get_be(&out), x);
    }
}

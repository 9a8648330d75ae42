use protoss_rust::ec_operations::{concatenate_vectors, get_bit_length};

#[test]
fn concatenates_in_order() {
    let a: &[u8] = &[1, 2];
    let b: &[u8] = &[];
    let c: &[u8] = &[3];
    assert_eq!(concatenate_vectors(&[a, b, c]), vec![1, 2, 3]);
}

#[test]
fn concatenates_nothing() {
    assert_eq!(concatenate_vectors(&[]), Vec::<u8>::new());
}

#[test]
fn bit_length_of_nothing_and_zeros() {
    assert_eq!(get_bit_length(&[]), 0);
    assert_eq!(get_bit_length(&[0, 0, 0]), 0);
}

#[test]
fn bit_length_of_single_bytes() {
    assert_eq!(get_bit_length(&[1]), 1);
    assert_eq!(get_bit_length(&[0x7F]), 7);
    assert_eq!(get_bit_length(&[0x80]), 8);
    assert_eq!(get_bit_length(&[0xFF]), 8);
}

#[test]
fn bit_length_skips_leading_zero_bytes() {
    assert_eq!(get_bit_length(&[0, 0x01, 0x00]), 9);
    assert_eq!(get_bit_length(&[0, 0, 0x10, 0xAB, 0xCD]), 21);
    assert_eq!(get_bit_length(&[0xFF; 32]), 256);
}

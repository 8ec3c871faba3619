use local_transport::wire::{decode_be, encode_be};

#[test]
fn encodes_most_significant_byte_first() {
    assert_eq!(encode_be(0x0102_0304, 4), vec![1, 2, 3, 4]);
    assert_eq!(encode_be(300, 8), vec![0, 0, 0, 0, 0, 0, 1, 44]);
    assert_eq!(encode_be(u64::MAX, 8), vec![255; 8]);
}

#[test]
fn encoding_keeps_the_low_bytes_of_a_value_that_does_not_fit() {
    assert_eq!(encode_be(0x1_0000_0001, 4), vec![0, 0, 0, 1]);
    assert_eq!(encode_be(7, 0), Vec::<u8>::new());
}

#[test]
fn decodes_most_significant_byte_first() {
    assert_eq!(decode_be(&[1, 2, 3, 4]), 0x0102_0304);
    assert_eq!(decode_be(&[0, 0, 0, 0, 0, 0, 1, 44]), 300);
    assert_eq!(decode_be(&[]), 0);
    assert_eq!(decode_be(&[255; 8]), u64::MAX);
}

#[test]
fn decoding_what_was_encoded_gives_the_value_back() {
    for v in [0u64, 1, 255, 256, 65_535, 0xdead_beef, u64::MAX - 1] {
        assert_eq!(decode_be(&encode_be(v, 8)), v);
    }
    for v in [0u64, 9, 0xffff_ffff] {
        assert_eq!(decode_be(&encode_be(v, 4)), v);
    }
}

#[test]
fn encoding_what_was_decoded_gives_the_bytes_back() {
    let bytes = [9u8, 0, 128, 77];
    assert_eq!(encode_be(decode_be(&bytes), 4), bytes.to_vec());
}

use apres::stream::{from_twos_complement, get_variable_length_number, pop_n};
use apres::varlen::to_variable_length_bytes;

#[test]
fn apres_controller_test_variable_length_conversion() {
    let mut test_cases = vec![
        (0, vec![0]),
        (127, vec![0x7F]),
        (128, vec![0x81, 0x00]),
        (2097151, vec![0xFF, 0xFF, 0x7F]),
    ];
    let mut output_vector;
    let mut output_n;
    for (input_number, expected_vector) in test_cases.iter_mut() {
        output_vector = to_variable_length_bytes(*input_number);
        assert_eq!(output_vector.as_slice(), expected_vector.as_slice());

        expected_vector.reverse();
        output_n = get_variable_length_number(expected_vector);
        assert_eq!(*input_number, output_n as usize);
    }
}

#[test]
fn test_pop_n_reads_tail_first() {
    let mut bytes = vec![0x01, 0x02, 0x03];
    assert_eq!(pop_n(&mut bytes, 2), 0x0302);
    assert_eq!(bytes, vec![0x01]);

    let mut short = vec![0xAA];
    assert_eq!(pop_n(&mut short, 4), 0xAA000000);
    assert!(short.is_empty());
}

#[test]
fn test_from_twos_complement_negation() {
    // The magnitude of a two's-complement negative is (value - 1) XOR
    // (2^bits - 1).
    assert_eq!(from_twos_complement(1, 3), 0b111);
    assert_eq!(from_twos_complement(8, 3), 0);
    // An eight-bit -3 is stored as 253 and reads back as 3, and conversely.
    assert_eq!(from_twos_complement(3, 8), 253);
    assert_eq!(from_twos_complement(253, 8), 3);
    assert_eq!(from_twos_complement(1, 0), 0);
}

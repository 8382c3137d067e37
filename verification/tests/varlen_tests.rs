use apres::varlen::{get_variable_length_number, to_variable_length_bytes};

#[test]
fn tests_test_variable_length_conversion() {
    let mut test_cases = vec![
        (0, vec![0]),
        (127, vec![0x7F]),
        (128, vec![0x81, 0x00]),
        (2097151, vec![0xFF, 0xFF, 0x7F]),
    ];
    let mut output_vector;
    let mut output_n;
    for (input_number, expected_vector) in test_cases.iter_mut() {
        output_vector = to_variable_length_bytes(*input_number);
        assert_eq!(output_vector.as_slice(), expected_vector.as_slice());

        output_n = get_variable_length_number(expected_vector);
        assert_eq!(*input_number, output_n as usize);
    }
}

#[test]
fn test_read_fixed_width_values() {
    let bytes = vec![0x00, 0x01, 0x02, 0x03, 0xFF];
    assert_eq!(apres::varlen::read_fixed_width(&bytes, 0, 4), 0x00010203);
    assert_eq!(apres::varlen::read_fixed_width(&bytes, 3, 2), 0x03FF);
    assert_eq!(apres::varlen::read_fixed_width(&bytes, 4, 1), 0xFF);
    assert_eq!(apres::varlen::read_fixed_width(&bytes, 2, 0), 0);
}

#[test]
fn test_varlen_consumes_exactly_one_quantity() {
    let mut bytes = vec![0x81, 0x00, 0x42];
    let n = get_variable_length_number(&mut bytes);
    assert_eq!(n, 128);
    assert_eq!(bytes, vec![0x42]);
}

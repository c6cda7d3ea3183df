use ldpc::code::{Edge, LinearCode};
use ldpc::matrix::BinaryMatrix;
use ldpc::vector::BinaryVector;

#[test]
fn edges_of_hamming_code() {
    let code = LinearCode::hamming_code();
    let edges = code.edges();

    assert_eq!(edges[0], Edge { bit: 3, check: 0 });
    assert_eq!(edges[1], Edge { bit: 4, check: 0 });
    assert_eq!(edges[2], Edge { bit: 5, check: 0 });
    assert_eq!(edges[3], Edge { bit: 6, check: 0 });

    assert_eq!(edges[4], Edge { bit: 1, check: 1 });
    assert_eq!(edges[5], Edge { bit: 2, check: 1 });
    assert_eq!(edges[6], Edge { bit: 5, check: 1 });
    assert_eq!(edges[7], Edge { bit: 6, check: 1 });

    assert_eq!(edges[8], Edge { bit: 0, check: 2 });
    assert_eq!(edges[9], Edge { bit: 2, check: 2 });
    assert_eq!(edges[10], Edge { bit: 4, check: 2 });
    assert_eq!(edges[11], Edge { bit: 6, check: 2 });

    assert_eq!(edges.len(), 12);
}

#[test]
fn repetition_code_has_expected_shape() {
    let matrix = BinaryMatrix::new(3, vec![vec![0, 1], vec![1, 2]]);
    let code = LinearCode::from_parity_check_matrix(matrix);

    assert_eq!(code.block_size(), 3);
    assert_eq!(code.dimension(), 1);
    assert_eq!(code.minimal_distance(), Some(3));
    assert!(code.has_same_codespace_as(&LinearCode::repetition_code(3)));
}

#[test]
fn code_from_generator_matrix_matches_code_from_parity_check_matrix() {
    let parity_check_matrix = BinaryMatrix::new(
        7,
        vec![vec![0, 1, 2, 4], vec![0, 1, 3, 5], vec![0, 2, 3, 6]],
    );
    let generator_matrix = BinaryMatrix::new(
        7,
        vec![vec![0, 4, 5, 6], vec![1, 4, 5], vec![2, 4, 6], vec![3, 5, 6]],
    );

    let code_from_parity = LinearCode::from_parity_check_matrix(parity_check_matrix);
    let code_from_generator = LinearCode::from_generator_matrix(generator_matrix);

    assert!(code_from_parity.has_same_codespace_as(&code_from_generator));
    assert!(code_from_generator.has_same_codespace_as(&code_from_parity));
}

#[test]
fn hamming_code_dimension_and_distance() {
    let code = LinearCode::hamming_code();
    assert_eq!(code.dimension(), 4);
    assert_eq!(code.minimal_distance(), Some(3));
}

#[test]
fn generators_satisfy_every_check() {
    let codes = vec![
        LinearCode::hamming_code(),
        LinearCode::repetition_code(5),
        LinearCode::from_parity_check_matrix(BinaryMatrix::new(
            4,
            vec![vec![0, 1], vec![0, 3], vec![1, 2]],
        )),
    ];
    for code in &codes {
        assert!(code
            .parity_check_matrix()
            .mul_transposed(code.generator_matrix())
            .is_zero());
    }
}

#[test]
fn syndrome_of_hamming_code_message() {
    let parity_check_matrix = BinaryMatrix::new(
        7,
        vec![vec![0, 1, 2, 4], vec![0, 1, 3, 5], vec![0, 2, 3, 6]],
    );
    let hamming_code = LinearCode::from_parity_check_matrix(parity_check_matrix);

    let message = BinaryVector::new(7, vec![0, 2, 4]);
    let syndrome = BinaryVector::new(3, vec![0, 1]);
    assert_eq!(hamming_code.syndrome_of(&message), syndrome);

    let error = BinaryVector::new(7, vec![0, 2, 4]);
    let codeword = BinaryVector::new(7, vec![2, 3, 4, 5]);
    assert!(!hamming_code.has_codeword(&error));
    assert!(hamming_code.has_codeword(&codeword));
}

#[test]
fn sampled_regular_code_is_regular() {
    let code = LinearCode::random_regular_code()
        .block_size(20)
        .number_of_checks(15)
        .bit_degree(3)
        .check_degree(4)
        .sample_with(123)
        .unwrap();

    assert_eq!(code.block_size(), 20);
    assert_eq!(code.number_of_checks(), 15);
    let mut ones = 0;
    for c in 0..15 {
        assert_eq!(code.check(c).unwrap().weight(), 4);
        ones += code.check(c).unwrap().weight();
    }
    assert_eq!(ones, 60);
    for b in 0..20 {
        assert_eq!(code.checks_adjacent_to_bit(b).unwrap().weight(), 3);
    }
}

#[test]
fn infeasible_regular_code_parameters_are_rejected() {
    let result = LinearCode::random_regular_code()
        .block_size(5)
        .number_of_checks(3)
        .bit_degree(3)
        .check_degree(3)
        .sample_with(123);
    assert!(result.is_err());
}

#[test]
fn code_from_checks_with_zero_rows() {
    let matrix = BinaryMatrix::new(4, vec![vec![], vec![0, 1], vec![]]);
    let code = LinearCode::from_parity_check_matrix(matrix);
    assert_eq!(code.block_size(), 4);
    assert_eq!(code.number_of_checks(), 3);
    assert_eq!(code.number_of_generators(), 3);
    for j in 0..3 {
        assert!(code.has_codeword(code.generator(j).unwrap()));
    }
}

#[test]
fn degree_zero_regular_code_samples() {
    let code = LinearCode::random_regular_code()
        .block_size(4)
        .number_of_checks(2)
        .bit_degree(0)
        .check_degree(0)
        .sample_with(7)
        .unwrap();
    assert_eq!(code.block_size(), 4);
    assert_eq!(code.number_of_checks(), 2);
    assert_eq!(code.number_of_generators(), 4);
}

#[test]
fn empty_code_is_a_placeholder() {
    let code = LinearCode::empty();
    assert_eq!(code.block_size(), 0);
    assert_eq!(code.number_of_checks(), 0);
    assert_eq!(code.number_of_generators(), 0);
}

#[test]
fn minimal_distance_of_codeless_code() {
    let matrix = BinaryMatrix::new(2, vec![vec![0], vec![1]]);
    let code = LinearCode::from_parity_check_matrix(matrix);
    assert_eq!(code.number_of_generators(), 0);
    assert_eq!(code.minimal_distance(), None);
}

use ldpc::code::LinearCode;
use ldpc::css::{Css, CssOperator, Pauli};
use ldpc::css_code::{CssCode, CssError};
use ldpc::decoder::{FlipDecoder, SyndromeDecoder};
use ldpc::matrix::BinaryMatrix;
use ldpc::vector::BinaryVector;

#[test]
fn codes_should_have_same_length() {
    let small = LinearCode::repetition_code(3);
    let large = LinearCode::repetition_code(30);
    let css = CssCode::try_new(&small, &large);
    assert_eq!(css, Err(CssError::DifferentXandZLength(3, 30)));
}

#[test]
fn codes_should_be_orthogonal() {
    let code = LinearCode::repetition_code(3);
    let css = CssCode::try_new(&code, &code);
    assert_eq!(css, Err(CssError::NonOrthogonalCodes));
}

#[test]
fn syndrome_steane_code() {
    let code = CssCode::steane_code();
    let error = CssOperator::from_paulis(7, vec![0, 3, 6], vec![Pauli::X, Pauli::Y, Pauli::Z]);
    let expected = Css::new(BinaryVector::new(3, vec![1, 2]), BinaryVector::new(3, vec![0, 2]));
    assert_eq!(code.syndrome_of(&error), expected);
}

#[test]
fn syndrome_shor_code() {
    let code = CssCode::shor_code();
    let error = CssOperator::from_paulis(9, vec![0, 3, 6], vec![Pauli::X, Pauli::Y, Pauli::Z]);
    let expected = Css::new(BinaryVector::new(2, vec![0]), BinaryVector::new(6, vec![0, 2]));
    assert_eq!(code.syndrome_of(&error), expected);
}

#[test]
fn hypergraph_product_of_repetition_codes() {
    let repetition_code = LinearCode::repetition_code(3);
    let surface_code = CssCode::hypergraph_product(&repetition_code, &repetition_code);

    let repetition_checks = repetition_code.parity_check_matrix();
    assert_eq!(
        repetition_checks,
        &BinaryMatrix::new(3, vec![vec![0, 1], vec![0, 2]])
    );

    let expected_x_stabilizers = BinaryMatrix::new(
        13,
        vec![
            vec![0, 1, 9, 11],
            vec![0, 2, 10, 12],
            vec![3, 4, 9],
            vec![3, 5, 10],
            vec![6, 7, 11],
            vec![6, 8, 12],
        ],
    );
    assert_eq!(surface_code.x_stabs_binary(), &expected_x_stabilizers);

    let expected_z_stabilizers = BinaryMatrix::new(
        13,
        vec![
            vec![0, 3, 9, 10],
            vec![1, 4, 9],
            vec![2, 5, 10],
            vec![0, 6, 11, 12],
            vec![1, 7, 11],
            vec![2, 8, 12],
        ],
    );
    assert_eq!(surface_code.z_stabs_binary(), &expected_z_stabilizers);
}

#[test]
fn surface_code_has_expected_logicals() {
    let repetition_code = LinearCode::repetition_code(3);
    let surface_code = CssCode::hypergraph_product(&repetition_code, &repetition_code);
    assert_eq!(surface_code.len(), 13);

    let logical_x = CssOperator::from_paulis(13, vec![0, 3, 6], vec![Pauli::X, Pauli::X, Pauli::X]);
    assert!(surface_code.has_logical(&logical_x));

    let logical_z = CssOperator::from_paulis(13, vec![0, 1, 2], vec![Pauli::Z, Pauli::Z, Pauli::Z]);
    assert!(surface_code.has_logical(&logical_z));
}

#[test]
fn shor_code_has_expected_logicals() {
    let code = CssCode::shor_code();
    assert_eq!(code.x_logicals_binary(), &BinaryMatrix::new(9, vec![vec![0, 1, 2]]));
    assert_eq!(code.z_logicals_binary(), &BinaryMatrix::new(9, vec![vec![0, 3, 6]]));

    let logicals = code.logicals();
    assert_eq!(logicals.len(), 2);
    assert_eq!(logicals[0].x, BinaryVector::new(9, vec![0, 1, 2]));
    assert!(logicals[0].z.is_zero());
    assert_eq!(logicals[1].z, BinaryVector::new(9, vec![0, 3, 6]));
    assert!(logicals[1].x.is_zero());
}

#[test]
fn shor_code_stabilizer_membership() {
    let code = CssCode::shor_code();

    let stabilizer = CssOperator::from_paulis(
        9,
        vec![0, 1, 2, 3, 4, 5],
        vec![Pauli::X, Pauli::X, Pauli::X, Pauli::X, Pauli::Y, Pauli::Y],
    );
    assert!(code.has_stabilizer(&stabilizer));

    let operator = CssOperator::from_paulis(
        9,
        vec![0, 1, 2, 3, 4, 6],
        vec![Pauli::X, Pauli::X, Pauli::X, Pauli::X, Pauli::Y, Pauli::Z],
    );
    assert!(!code.has_stabilizer(&operator));

    let logical = CssOperator::from_paulis(9, vec![0, 3, 6], vec![Pauli::Z, Pauli::Z, Pauli::Z]);
    assert!(code.has_logical(&logical));
    assert!(!code.has_stabilizer(&logical));
}

#[test]
fn steane_code_stabilizers_as_operators() {
    let code = CssCode::steane_code();
    let stabilizers = code.stabilizers();
    assert_eq!(stabilizers.len(), 6);
    assert_eq!(stabilizers[0].x, BinaryVector::new(7, vec![3, 4, 5, 6]));
    assert!(stabilizers[0].z.is_zero());
    assert_eq!(stabilizers[3].z, BinaryVector::new(7, vec![3, 4, 5, 6]));
    assert!(stabilizers[3].x.is_zero());
}

#[test]
fn css_flip_decoder_returns_zero_correction_for_trivial_syndrome() {
    let hamming = LinearCode::hamming_code();
    let decoder = Css::new(FlipDecoder::new(hamming.clone()), FlipDecoder::new(hamming));
    let syndrome = Css::new(BinaryVector::zeros(3), BinaryVector::zeros(3));
    let correction = decoder.correction_for(&syndrome);
    assert!(correction.x.is_zero());
    assert!(correction.z.is_zero());
}

#[test]
fn css_flip_decoder_corrects_single_qubit_error_on_steane_code() {
    let code = CssCode::steane_code();
    let hamming = LinearCode::hamming_code();
    let decoder = Css::new(FlipDecoder::new(hamming.clone()), FlipDecoder::new(hamming));

    let error = CssOperator::from_paulis(7, vec![0], vec![Pauli::X]);
    let syndrome = code.syndrome_of(&error);
    let correction = decoder.correction_for(&syndrome);
    assert_eq!(correction.x, BinaryVector::new(7, vec![0]));
    assert!(correction.z.is_zero());
}

#[test]
fn css_container_combinators() {
    let pair = Css::new(1usize, 2usize);
    let swapped = pair.clone().swap_xz();
    assert_eq!(swapped.x, 2);
    assert_eq!(swapped.z, 1);

    let referenced = pair.as_ref();
    assert_eq!(*referenced.x, 1);
    assert_eq!(*referenced.z, 2);

    let zipped = pair.clone().pair(Css::new(3usize, 4usize));
    assert_eq!(zipped.x, (1, 3));
    assert_eq!(zipped.z, (2, 4));

    let total = pair.combine_with(|x: usize, z: usize| x + z);
    assert_eq!(total, 3);
}

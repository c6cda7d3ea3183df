use ldpc::code::LinearCode;
use ldpc::css::Css;
use ldpc::css_code::from_linear_codes;
use ldpc::matrix::BinaryMatrix;

fn assert_commutations(
    logicals: &Css<BinaryMatrix>,
    x_checks: &BinaryMatrix,
    z_checks: &BinaryMatrix,
) {
    // X logicals commute with the Z-type checks and conversely.
    assert_logicals_commute_with_stabilizers(&logicals.x, z_checks);
    assert_logicals_commute_with_stabilizers(&logicals.z, x_checks);
    assert_anticommuting_logical_pairs(&logicals.x, &logicals.z);
}

fn assert_logicals_commute_with_stabilizers(logicals: &BinaryMatrix, stabilizers: &BinaryMatrix) {
    assert!(logicals.mul_transposed(stabilizers).is_zero());
}

fn assert_anticommuting_logical_pairs(x_logicals: &BinaryMatrix, z_logicals: &BinaryMatrix) {
    assert_eq!(
        x_logicals.mul_transposed(z_logicals),
        BinaryMatrix::identity(x_logicals.number_of_rows())
    );
}

#[test]
fn logicals_steane_code() {
    let hamming = LinearCode::hamming_code();
    let logicals = from_linear_codes(&hamming, &hamming);
    assert_commutations(&logicals, hamming.parity_check_matrix(), hamming.parity_check_matrix());
}

#[test]
fn logicals_shor_code() {
    let x_code = LinearCode::from_parity_check_matrix(BinaryMatrix::new(
        9,
        vec![
            vec![0, 1],
            vec![1, 2],
            vec![3, 4],
            vec![4, 5],
            vec![6, 7],
            vec![7, 8],
        ],
    ));
    let z_code = LinearCode::from_parity_check_matrix(BinaryMatrix::new(
        9,
        vec![vec![0, 1, 2, 3, 4, 5], vec![3, 4, 5, 6, 7, 8]],
    ));
    let logicals = from_linear_codes(&x_code, &z_code);
    assert_commutations(
        &logicals,
        x_code.parity_check_matrix(),
        z_code.parity_check_matrix(),
    );
}

#[test]
fn random_hypergraph_product() {
    let code = LinearCode::random_regular_code()
        .num_bits(25)
        .num_checks(15)
        .bit_degree(3)
        .check_degree(5)
        .sample_with(99)
        .unwrap();
    let logicals = from_linear_codes(&code, &code);
    assert_commutations(&logicals, code.parity_check_matrix(), code.parity_check_matrix());
}

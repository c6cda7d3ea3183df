use ldpc::css_code::CssCode;
use ldpc::decoder::ErasureDecoder;
use ldpc::erasure::CssErasureDecoder;
use ldpc::vector::BinaryVector;

fn recovery_probability(decoder: &CssErasureDecoder, erasure: &BinaryVector) -> f64 {
    1.0 / 2.0_f64.powi(decoder.failure_exponent(erasure) as i32)
}

#[test]
fn erasure_failures_in_shor_code() {
    let code = CssCode::shor_code();
    let decoder = CssErasureDecoder::new(&code);

    let erasure = BinaryVector::new(9, vec![0, 4, 8]);
    let error_basis = decoder.error_basis(&erasure);
    assert_eq!(decoder.num_bad_x_errors(&error_basis), 0);
    assert_eq!(decoder.num_bad_z_errors(&error_basis), 1);
    assert_eq!(recovery_probability(&decoder, &erasure), 0.5);
    assert!(!decoder.is_recoverable(&erasure));

    let erasure = BinaryVector::new(9, vec![0, 1, 2]);
    let error_basis = decoder.error_basis(&erasure);
    assert_eq!(decoder.num_bad_x_errors(&error_basis), 1);
    assert_eq!(decoder.num_bad_z_errors(&error_basis), 0);
    assert_eq!(recovery_probability(&decoder, &erasure), 0.5);
}

#[test]
fn erasure_successes_in_shor_code() {
    let code = CssCode::shor_code();
    let decoder = CssErasureDecoder::new(&code);

    let erasure = BinaryVector::new(9, vec![0, 1, 3, 4]);
    let error_basis = decoder.error_basis(&erasure);
    assert_eq!(decoder.num_bad_x_errors(&error_basis), 0);
    assert_eq!(decoder.num_bad_z_errors(&error_basis), 0);
    assert_eq!(recovery_probability(&decoder, &erasure), 1.0);
    assert!(decoder.is_recoverable(&erasure));

    let erasure = BinaryVector::new(9, vec![0, 6, 7]);
    let error_basis = decoder.error_basis(&erasure);
    assert_eq!(decoder.num_bad_x_errors(&error_basis), 0);
    assert_eq!(decoder.num_bad_z_errors(&error_basis), 0);
    assert_eq!(recovery_probability(&decoder, &erasure), 1.0);
}

#[test]
fn empty_erasure_in_shor_code() {
    let code = CssCode::shor_code();
    let decoder = CssErasureDecoder::new(&code);

    let erasure = BinaryVector::new(9, vec![]);
    let error_basis = decoder.error_basis(&erasure);
    assert_eq!(decoder.num_bad_x_errors(&error_basis), 0);
    assert_eq!(decoder.num_bad_z_errors(&error_basis), 0);
    assert_eq!(recovery_probability(&decoder, &erasure), 1.0);
}

#[test]
fn erasure_failures_in_steane_code() {
    let code = CssCode::steane_code();
    let decoder = CssErasureDecoder::new(&code);

    let erasure = BinaryVector::new(7, vec![0, 1, 2]);
    let error_basis = decoder.error_basis(&erasure);
    assert_eq!(decoder.num_bad_x_errors(&error_basis), 1);
    assert_eq!(decoder.num_bad_z_errors(&error_basis), 1);
    assert_eq!(recovery_probability(&decoder, &erasure), 0.25);

    let erasure = BinaryVector::new(7, vec![0, 3, 4, 5]);
    let error_basis = decoder.error_basis(&erasure);
    assert_eq!(decoder.num_bad_x_errors(&error_basis), 1);
    assert_eq!(decoder.num_bad_z_errors(&error_basis), 1);
    assert_eq!(recovery_probability(&decoder, &erasure), 0.25);
}

#[test]
fn erasure_failures_in_toric_code() {
    let code = CssCode::toric_code(3);
    let decoder = CssErasureDecoder::new(&code);

    let erasure = BinaryVector::new(18, vec![0, 1, 2]);
    let error_basis = decoder.error_basis(&erasure);
    assert_eq!(decoder.num_bad_x_errors(&error_basis), 0);
    assert_eq!(decoder.num_bad_z_errors(&error_basis), 1);
    assert_eq!(recovery_probability(&decoder, &erasure), 0.5);

    let erasure = BinaryVector::new(18, vec![9, 10, 11]);
    let error_basis = decoder.error_basis(&erasure);
    assert_eq!(decoder.num_bad_x_errors(&error_basis), 1);
    assert_eq!(decoder.num_bad_z_errors(&error_basis), 0);
    assert_eq!(recovery_probability(&decoder, &erasure), 0.5);

    let erasure = BinaryVector::new(18, vec![1, 4, 6, 7, 8, 9, 12, 15]);
    let error_basis = decoder.error_basis(&erasure);
    assert_eq!(decoder.num_bad_x_errors(&error_basis), 1);
    assert_eq!(decoder.num_bad_z_errors(&error_basis), 2);
    assert_eq!(recovery_probability(&decoder, &erasure), 0.125);

    let erasure = BinaryVector::new(18, vec![1, 4, 6, 7, 8, 9, 10, 11, 12, 15]);
    let error_basis = decoder.error_basis(&erasure);
    assert_eq!(decoder.num_bad_x_errors(&error_basis), 2);
    assert_eq!(decoder.num_bad_z_errors(&error_basis), 2);
    assert_eq!(recovery_probability(&decoder, &erasure), 0.0625);
}

#[test]
fn erasure_successes_in_toric_code() {
    let code = CssCode::toric_code(3);
    let decoder = CssErasureDecoder::new(&code);

    let erasure = BinaryVector::new(18, vec![0, 1]);
    let error_basis = decoder.error_basis(&erasure);
    assert_eq!(decoder.num_bad_x_errors(&error_basis), 0);
    assert_eq!(decoder.num_bad_z_errors(&error_basis), 0);
    assert_eq!(recovery_probability(&decoder, &erasure), 1.0);

    let erasure = BinaryVector::new(18, vec![0, 1, 3, 4, 9, 10, 12, 13]);
    let error_basis = decoder.error_basis(&erasure);
    assert_eq!(decoder.num_bad_x_errors(&error_basis), 0);
    assert_eq!(decoder.num_bad_z_errors(&error_basis), 0);
    assert_eq!(recovery_probability(&decoder, &erasure), 1.0);
}

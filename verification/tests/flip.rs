use ldpc::code::LinearCode;
use ldpc::decoder::{FlipDecoder, LinearDecoder, SyndromeDecoder};
use ldpc::vector::BinaryVector;

#[test]
fn flip_no_error_for_hamming_code() {
    let code = LinearCode::hamming_code();
    let decoder = FlipDecoder::new(code);
    let error = BinaryVector::new(7, Vec::new());
    assert_eq!(decoder.decode(&error), BinaryVector::zeros(7));
}

#[test]
fn flip_flipping_first_bit_for_hamming_code() {
    let code = LinearCode::hamming_code();
    let decoder = FlipDecoder::new(code);
    let codeword = BinaryVector::new(7, vec![0, 1, 2]);
    let error = BinaryVector::new(7, vec![0]);
    let corrupted = codeword.xor_with(&error);
    assert_eq!(decoder.decode(&corrupted), codeword);
}

#[test]
fn flip_flipping_third_bit_for_hamming_code() {
    let code = LinearCode::hamming_code();
    let decoder = FlipDecoder::new(&code);
    let codeword = BinaryVector::new(7, vec![3, 4, 5, 6]);
    let error = BinaryVector::new(7, vec![2]);
    let corrupted = codeword.xor_with(&error);
    let expected = BinaryVector::new(7, (0..7).collect());
    assert_eq!(decoder.decode(&corrupted), expected);
}

#[test]
fn flip_flipping_first_and_third_bit_for_hamming_code() {
    let code = LinearCode::hamming_code();
    let decoder = FlipDecoder::new(&code);
    let codeword = BinaryVector::new(7, vec![0, 2, 4, 6]);
    let error = BinaryVector::new(7, vec![0, 2]);
    let corrupted = codeword.xor_with(&error);
    let expected = BinaryVector::new(7, vec![1, 4, 6]);
    assert_eq!(decoder.decode(&corrupted), expected);
}

#[test]
fn flip_recovers_single_bit_errors_at_leading_positions() {
    let code = LinearCode::hamming_code();
    let decoder = FlipDecoder::new(&code);
    let codewords = vec![
        BinaryVector::zeros(7),
        BinaryVector::new(7, vec![0, 1, 2]),
        BinaryVector::new(7, vec![3, 4, 5, 6]),
        BinaryVector::new(7, vec![0, 2, 4, 6]),
    ];
    for codeword in &codewords {
        for p in [0, 1, 3] {
            let error = BinaryVector::new(7, vec![p]);
            let corrupted = codeword.xor_with(&error);
            assert_eq!(&decoder.decode(&corrupted), codeword);
        }
    }
}

#[test]
fn flip_returns_codeword_for_every_single_bit_error() {
    let code = LinearCode::hamming_code();
    let decoder = FlipDecoder::new(&code);
    for p in 0..7 {
        let error = BinaryVector::new(7, vec![p]);
        let decoded = decoder.decode(&error);
        assert!(code.has_codeword(&decoded));
    }
}

#[test]
fn flip_leaves_codewords_unchanged() {
    let code = LinearCode::hamming_code();
    let decoder = FlipDecoder::new(&code);
    let codewords = vec![
        BinaryVector::zeros(7),
        BinaryVector::new(7, vec![0, 1, 2]),
        BinaryVector::new(7, vec![3, 4, 5, 6]),
        BinaryVector::new(7, vec![0, 2, 4, 6]),
    ];
    for codeword in &codewords {
        assert!(code.has_codeword(codeword));
        assert_eq!(&decoder.decode(codeword), codeword);
    }
}

#[test]
fn flip_decoder_through_trait_interfaces() {
    let code = LinearCode::hamming_code();
    let decoder = FlipDecoder::new(code);

    let error = BinaryVector::new(7, vec![0]);
    let decoded = <FlipDecoder<LinearCode> as LinearDecoder>::decode(&decoder, &error);
    assert_eq!(decoded, BinaryVector::zeros(7));

    let syndrome = decoder.code.syndrome_of(&error);
    let correction = decoder.correction_for(&syndrome);
    assert_eq!(correction, error);
}

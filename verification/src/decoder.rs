//! Decoder interfaces and the greedy bit-flip decoder.
//!
//! The flip decoder repeatedly flips the first bit for which a strict
//! majority of the adjacent checks is unsatisfied. Every such flip strictly
//! lowers the number of unsatisfied checks, so the loop terminates; this
//! file proves it.

use vstd::prelude::*;

use crate::code::{hamming_check_matrix, LinearCode};
use crate::matrix::mat_vec_mul;
use crate::vector::{
    bits_of, common_ones, is_zero_bits, lemma_common_sym, lemma_common_with_zero, lemma_dot_unit,
    lemma_dot_xor, lemma_ones_xor, ones, unit_bits, xor_bits, BinaryVector,
};

verus! {

/// A decoder that turns a syndrome into a correction.
pub trait SyndromeDecoder<Syndrome, Correction: View> {
    /// The syndromes the decoder accepts.
    spec fn valid_syndrome(&self, syndrome: Syndrome) -> bool;

    /// The correction returned for a syndrome, as a mathematical value.
    spec fn correction_spec(&self, syndrome: Syndrome) -> Correction::V;

    /// Computes the correction for the given syndrome.
    fn correction_for(&self, syndrome: Syndrome) -> (r: Correction)
        requires
            self.valid_syndrome(syndrome),
        ensures
            r@ == self.correction_spec(syndrome),
    ;
}

/// A decoder over a classical binary code: syndromes and corrections are
/// binary vectors.
pub trait ClassicalSyndromeDecoder<'a>: SyndromeDecoder<&'a BinaryVector, BinaryVector> {

}

/// A decoder that maps a received message to the nearest codeword it can
/// find.
pub trait LinearDecoder {
    /// The messages the decoder accepts.
    spec fn valid_message(&self, message: &BinaryVector) -> bool;

    /// The decoded word, as a mathematical value.
    spec fn decode_spec(&self, message: &BinaryVector) -> Seq<bool>;

    /// Decodes the given message.
    fn decode(&self, message: &BinaryVector) -> (r: BinaryVector)
        requires
            self.valid_message(message),
        ensures
            r@ == self.decode_spec(message),
    ;
}

/// A decoder that decides whether an erasure pattern is recoverable.
pub trait ErasureDecoder {
    /// The erasures the decoder accepts.
    spec fn valid_erasure(&self, erasure: &BinaryVector) -> bool;

    /// Whether the erasure is recoverable, as a mathematical value.
    spec fn recoverable_spec(&self, erasure: &BinaryVector) -> bool;

    /// Decides whether the erasure is recoverable.
    fn is_recoverable(&self, erasure: &BinaryVector) -> (r: bool)
        requires
            self.valid_erasure(erasure),
        ensures
            r == self.recoverable_spec(erasure),
    ;
}

/// Whether flipping a bit with these adjacent checks lowers the number of
/// unsatisfied checks: a strict majority of them is unsatisfied.
pub open spec fn flippable(adj_row: Seq<bool>, syndrome: Seq<bool>) -> bool {
    adj_row.len() == syndrome.len() && 2 * common_ones(adj_row, syndrome) > ones(adj_row)
}

/// The first flippable bit at or after `b`, if any.
pub open spec fn first_flippable_from(adj: Seq<Seq<bool>>, syndrome: Seq<bool>, b: int) -> Option<
    int,
>
    decreases adj.len() - b,
{
    if b < 0 || b >= adj.len() {
        None
    } else if flippable(adj[b], syndrome) {
        Some(b)
    } else {
        first_flippable_from(adj, syndrome, b + 1)
    }
}

/// An optional index, widened to a mathematical integer.
pub open spec fn found_bit(o: Option<usize>) -> Option<int> {
    match o {
        Some(x) => Some(x as int),
        None => None,
    }
}

/// A found bit is in range, flippable, and the first such bit.
pub proof fn lemma_first_flippable(adj: Seq<Seq<bool>>, syndrome: Seq<bool>, b: int)
    requires
        0 <= b,
    ensures
        match first_flippable_from(adj, syndrome, b) {
            Some(f) => b <= f < adj.len() && flippable(adj[f], syndrome),
            None => forall|x: int| b <= x < adj.len() ==> !flippable(#[trigger] adj[x], syndrome),
        },
    decreases adj.len() - b,
{
    if b < adj.len() && !flippable(adj[b], syndrome) {
        lemma_first_flippable(adj, syndrome, b + 1);
    }
}

/// Flipping a flippable bit strictly lowers the syndrome weight.
pub proof fn lemma_flip_decreases(adj_row: Seq<bool>, syndrome: Seq<bool>)
    requires
        flippable(adj_row, syndrome),
    ensures
        ones(xor_bits(syndrome, adj_row)) < ones(syndrome),
{
    lemma_ones_xor(syndrome, adj_row);
    lemma_common_sym(syndrome, adj_row);
}

/// The correction the greedy bit-flip decoder computes for a syndrome:
/// while some bit sees a strict majority of its checks unsatisfied, the
/// first such bit is flipped and the syndrome updated with its adjacent
/// checks.
pub open spec fn flip_correction(adj: Seq<Seq<bool>>, syndrome: Seq<bool>) -> Seq<bool>
    decreases ones(syndrome),
    via flip_correction_decreases
{
    match first_flippable_from(adj, syndrome, 0) {
        None => Seq::new(adj.len(), |i: int| false),
        Some(b) => xor_bits(
            unit_bits(adj.len(), b),
            flip_correction(adj, xor_bits(syndrome, adj[b])),
        ),
    }
}

#[via_fn]
proof fn flip_correction_decreases(adj: Seq<Seq<bool>>, syndrome: Seq<bool>) {
    lemma_first_flippable(adj, syndrome, 0);
    match first_flippable_from(adj, syndrome, 0) {
        Some(b) => {
            lemma_flip_decreases(adj[b], syndrome);
        },
        None => {},
    }
}

/// The correction has one bit per matrix row.
pub proof fn lemma_flip_correction_len(adj: Seq<Seq<bool>>, syndrome: Seq<bool>)
    ensures
        flip_correction(adj, syndrome).len() == adj.len(),
    decreases ones(syndrome),
{
    lemma_first_flippable(adj, syndrome, 0);
    match first_flippable_from(adj, syndrome, 0) {
        Some(b) => {
            lemma_flip_decreases(adj[b], syndrome);
            lemma_flip_correction_len(adj, xor_bits(syndrome, adj[b]));
        },
        None => {},
    }
}

/// On a zero syndrome no bit is flippable, so the correction is zero: a
/// word with a trivial syndrome is left unchanged.
pub proof fn lemma_flip_correction_of_zero(adj: Seq<Seq<bool>>, syndrome: Seq<bool>)
    requires
        is_zero_bits(syndrome),
        forall|b: int| 0 <= b < adj.len() ==> (#[trigger] adj[b]).len() == syndrome.len(),
    ensures
        is_zero_bits(flip_correction(adj, syndrome)),
    decreases ones(syndrome),
{
    assert forall|b: int| 0 <= b < adj.len() implies !flippable(#[trigger] adj[b], syndrome) by {
        lemma_common_with_zero(adj[b], syndrome);
    }
    lemma_no_flippable_gives_none(adj, syndrome, 0);
}

/// When no bit is flippable, the search finds none.
proof fn lemma_no_flippable_gives_none(adj: Seq<Seq<bool>>, syndrome: Seq<bool>, b: int)
    requires
        0 <= b,
        forall|x: int| 0 <= x < adj.len() ==> !flippable(#[trigger] adj[x], syndrome),
    ensures
        first_flippable_from(adj, syndrome, b) is None,
    decreases adj.len() - b,
{
    if b < adj.len() {
        lemma_no_flippable_gives_none(adj, syndrome, b + 1);
    }
}

/// The greedy bit-flip decoder over a linear code.
#[derive(Debug)]
pub struct FlipDecoder<Code> {
    pub code: Code,
}

impl<Code> FlipDecoder<Code> {
    /// Creates a flip decoder for the given code.
    pub fn new(code: Code) -> (r: Self)
        ensures
            r.code == code,
    {
        FlipDecoder { code }
    }
}

/// Finds the first bit for which a strict majority of the adjacent checks
/// is unsatisfied under the given syndrome.
fn flip_find(code: &LinearCode, syndrome: &BinaryVector) -> (r: Option<usize>)
    requires
        code.wf(),
        syndrome@.len() == code.number_of_checks_spec(),
    ensures
        found_bit(r) == first_flippable_from(code.bit_adjacencies@, syndrome@, 0),
{
    let ghost adj = code.bit_adjacencies@;
    let n = code.bit_adjacencies.number_of_rows();
    let mut b: usize = 0;
    while b < n
        invariant
            code.wf(),
            syndrome@.len() == code.number_of_checks_spec(),
            adj == code.bit_adjacencies@,
            n == adj.len(),
            b <= n,
            first_flippable_from(adj, syndrome@, 0) == first_flippable_from(adj, syndrome@, b as int),
        decreases n - b,
    {
        let row = match code.bit_adjacencies.row(b) {
            Some(row) => row,
            None => { unreached() },
        };
        let w = row.weight();
        let u = row.common_count(syndrome);
        proof {
            vstd::arithmetic::div_mod::lemma_fundamental_div_mod(w as int, 2);
        }
        if u > w / 2 {
            assert(flippable(adj[b as int], syndrome@));
            return Some(b);
        }
        assert(!flippable(adj[b as int], syndrome@));
        b += 1;
    }
    None
}

/// Computes the greedy bit-flip correction for a syndrome, flipping bits
/// until none sees a strict majority of unsatisfied checks.
fn flip_correction_for(code: &LinearCode, syndrome: &BinaryVector) -> (r: BinaryVector)
    requires
        code.wf(),
        syndrome@.len() == code.number_of_checks_spec(),
    ensures
        r@ == flip_correction(code.bit_adjacencies@, syndrome@),
        r@.len() == code.block_size_spec(),
{
    let ghost adj = code.bit_adjacencies@;
    let block = code.block_size();
    let mut syn = syndrome.clone();
    let mut corr = BinaryVector::zeros(block);
    proof {
        lemma_flip_correction_len(adj, syn@);
        assert(xor_bits(corr@, flip_correction(adj, syn@)) =~= flip_correction(adj, syn@));
    }
    let mut found = flip_find(code, &syn);
    while found.is_some()
        invariant
            code.wf(),
            adj == code.bit_adjacencies@,
            block == code.block_size_spec(),
            syn@.len() == code.number_of_checks_spec(),
            corr@.len() == block,
            found_bit(found) == first_flippable_from(adj, syn@, 0),
            xor_bits(corr@, flip_correction(adj, syn@)) == flip_correction(adj, syndrome@),
        decreases ones(syn@),
    {
        let ghost old_syn = syn@;
        let ghost old_corr = corr@;
        let b = match found {
            Some(b) => b,
            None => { unreached() },
        };
        proof {
            lemma_first_flippable(adj, old_syn, 0);
        }
        let row = match code.bit_adjacencies.row(b) {
            Some(row) => row,
            None => { unreached() },
        };
        let mut unit_positions: Vec<usize> = Vec::new();
        unit_positions.push(b);
        let unit = BinaryVector::new(block, unit_positions);
        corr = corr.xor_with(&unit);
        syn = syn.xor_with(row);
        proof {
            lemma_flip_decreases(adj[b as int], old_syn);
            lemma_flip_correction_len(adj, syn@);
            lemma_flip_correction_len(adj, old_syn);
            // Unfold one step of the greedy correction.
            assert(flip_correction(adj, old_syn) == xor_bits(
                unit_bits(adj.len(), b as int),
                flip_correction(adj, syn@),
            ));
            assert(unit@ == bits_of(block as nat, seq![b]));
            assert forall|j: int| 0 <= j < block implies unit@[j] == (j == b as int) by {
                let ghost positions = seq![b];
                if j == b as int {
                    assert(positions[0] == b);
                    assert(positions.contains(j as usize));
                } else {
                    if positions.contains(j as usize) {
                        let w = choose|w: int|
                            0 <= w < positions.len() && positions[w] == j as usize;
                        assert(w == 0);
                        assert(false);
                    }
                }
            }
            assert(unit@ =~= unit_bits(adj.len(), b as int));
            assert(block as nat == adj.len());
            // Re-associate the accumulated flips.
            assert(xor_bits(corr@, flip_correction(adj, syn@)) =~= xor_bits(
                old_corr,
                xor_bits(unit@, flip_correction(adj, syn@)),
            ));
        }
        found = flip_find(code, &syn);
    }
    proof {
        lemma_first_flippable(adj, syn@, 0);
        lemma_flip_correction_len(adj, syn@);
        assert(flip_correction(adj, syn@) =~= Seq::new(adj.len(), |i: int| false));
        assert(xor_bits(corr@, flip_correction(adj, syn@)) =~= corr@);
    }
    corr
}

/// Decodes a message with the greedy bit-flip decoder: the correction for
/// its syndrome is added to the message.
fn flip_decode(code: &LinearCode, message: &BinaryVector) -> (r: BinaryVector)
    requires
        code.wf(),
        message@.len() == code.block_size_spec(),
    ensures
        r@ == xor_bits(
            message@,
            flip_correction(code.bit_adjacencies@, mat_vec_mul(code.parity_check_matrix@, message@)),
        ),
{
    let syndrome = code.syndrome_of(message);
    let correction = flip_correction_for(code, &syndrome);
    message.xor_with(&correction)
}

impl FlipDecoder<LinearCode> {
    /// Decodes a message: flips bits greedily until every bit sees a
    /// majority of satisfied checks, and returns the corrected word.
    pub fn decode(&self, message: &BinaryVector) -> (r: BinaryVector)
        requires
            self.code.wf(),
            message@.len() == self.code.block_size_spec(),
        ensures
            r@ == xor_bits(
                message@,
                flip_correction(
                    self.code.bit_adjacencies@,
                    mat_vec_mul(self.code.parity_check_matrix@, message@),
                ),
            ),
    {
        flip_decode(&self.code, message)
    }
}

impl<'c> FlipDecoder<&'c LinearCode> {
    /// Decodes a message: flips bits greedily until every bit sees a
    /// majority of satisfied checks, and returns the corrected word.
    pub fn decode(&self, message: &BinaryVector) -> (r: BinaryVector)
        requires
            self.code.wf(),
            message@.len() == self.code.block_size_spec(),
        ensures
            r@ == xor_bits(
                message@,
                flip_correction(
                    self.code.bit_adjacencies@,
                    mat_vec_mul(self.code.parity_check_matrix@, message@),
                ),
            ),
    {
        flip_decode(self.code, message)
    }
}

impl<'a> SyndromeDecoder<&'a BinaryVector, BinaryVector> for FlipDecoder<LinearCode> {
    open spec fn valid_syndrome(&self, syndrome: &'a BinaryVector) -> bool {
        self.code.wf() && syndrome@.len() == self.code.number_of_checks_spec()
    }

    open spec fn correction_spec(&self, syndrome: &'a BinaryVector) -> Seq<bool> {
        flip_correction(self.code.bit_adjacencies@, syndrome@)
    }

    fn correction_for(&self, syndrome: &'a BinaryVector) -> (r: BinaryVector) {
        flip_correction_for(&self.code, syndrome)
    }
}

impl<'a> ClassicalSyndromeDecoder<'a> for FlipDecoder<LinearCode> {

}

impl LinearDecoder for FlipDecoder<LinearCode> {
    open spec fn valid_message(&self, message: &BinaryVector) -> bool {
        self.code.wf() && message@.len() == self.code.block_size_spec()
    }

    open spec fn decode_spec(&self, message: &BinaryVector) -> Seq<bool> {
        xor_bits(
            message@,
            flip_correction(
                self.code.bit_adjacencies@,
                mat_vec_mul(self.code.parity_check_matrix@, message@),
            ),
        )
    }

    fn decode(&self, message: &BinaryVector) -> (r: BinaryVector) {
        flip_decode(&self.code, message)
    }
}

/// A word with a zero syndrome decodes to itself: the greedy bit-flip
/// decoder returns a zero correction on an already valid codeword.
pub proof fn lemma_flip_decode_fixes_codewords(code: LinearCode, message: Seq<bool>)
    requires
        code.wf(),
        message.len() == code.block_size_spec(),
        is_zero_bits(mat_vec_mul(code.parity_check_matrix@, message)),
    ensures
        xor_bits(
            message,
            flip_correction(code.bit_adjacencies@, mat_vec_mul(code.parity_check_matrix@, message)),
        ) == message,
{
    let syndrome = mat_vec_mul(code.parity_check_matrix@, message);
    lemma_flip_correction_of_zero(code.bit_adjacencies@, syndrome);
    lemma_flip_correction_len(code.bit_adjacencies@, syndrome);
    assert(xor_bits(message, flip_correction(code.bit_adjacencies@, syndrome)) =~= message);
}

/// On the Hamming code the greedy bit-flip decoder recovers a single-bit
/// error exactly at positions 0, 1 and 3: there the flipped bit is the
/// first the scan finds with an unsatisfied majority under its own
/// syndrome, so one flip clears it. At the remaining positions an earlier
/// bit is flipped first and a different codeword of the same coset comes
/// back — position 2 is such an input, as the migrated tests show — so
/// exact recovery cannot be stated for every position.
pub proof fn lemma_flip_recovers_hamming_single_errors(
    code: LinearCode,
    message: Seq<bool>,
    p: int,
)
    requires
        code.wf(),
        code.parity_check_matrix@ == hamming_check_matrix(),
        message.len() == 7,
        is_zero_bits(mat_vec_mul(code.parity_check_matrix@, message)),
        p == 0 || p == 1 || p == 3,
    ensures
        xor_bits(
            xor_bits(message, unit_bits(7, p)),
            flip_correction(
                code.bit_adjacencies@,
                mat_vec_mul(code.parity_check_matrix@, xor_bits(message, unit_bits(7, p))),
            ),
        ) == message,
{
    reveal_with_fuel(crate::vector::common_ones, 5);
    reveal_with_fuel(crate::vector::ones, 5);
    let h = hamming_check_matrix();
    let adj = code.bit_adjacencies@;
    assert(adj.len() == 7);
    assert(forall|b: int| 0 <= b < 7 ==> (#[trigger] adj[b]).len() == 3);
    assert forall|b: int, c: int| 0 <= b < 7 && 0 <= c < 3 implies #[trigger] adj[b][c]
        == h[c][b] by {}
    assert(adj[0] =~= seq![false, false, true]);
    assert(adj[1] =~= seq![false, true, false]);
    assert(adj[2] =~= seq![false, true, true]);
    assert(adj[3] =~= seq![true, false, false]);
    let corrupted = xor_bits(message, unit_bits(7, p));
    let s = mat_vec_mul(code.parity_check_matrix@, corrupted);
    assert forall|c: int| 0 <= c < 3 implies s[c] == h[c][p] by {
        lemma_dot_xor(h[c], message, unit_bits(7, p));
        lemma_dot_unit(h[c], p);
        assert(!mat_vec_mul(code.parity_check_matrix@, message)[c]);
    }
    assert(s =~= adj[p]);
    // The first flippable bit under this syndrome is the flipped one.
    if p == 0 {
        assert(flippable(adj[0], s));
        assert(first_flippable_from(adj, s, 0) == Some(0int));
    } else if p == 1 {
        assert(!flippable(adj[0], s));
        assert(flippable(adj[1], s));
        assert(first_flippable_from(adj, s, 1) == Some(1int));
        assert(first_flippable_from(adj, s, 0) == Some(1int));
    } else {
        assert(!flippable(adj[0], s));
        assert(!flippable(adj[1], s));
        assert(!flippable(adj[2], s));
        assert(flippable(adj[3], s));
        assert(first_flippable_from(adj, s, 3) == Some(3int));
        assert(first_flippable_from(adj, s, 2) == Some(3int));
        assert(first_flippable_from(adj, s, 1) == Some(3int));
        assert(first_flippable_from(adj, s, 0) == Some(3int));
    }
    // One flip clears the syndrome, so the correction is that one bit.
    let cleared = xor_bits(s, adj[p]);
    assert(is_zero_bits(cleared));
    lemma_flip_correction_of_zero(adj, cleared);
    lemma_flip_correction_len(adj, cleared);
    assert(flip_correction(adj, s) == xor_bits(unit_bits(7, p), flip_correction(adj, cleared)));
    assert(flip_correction(adj, s) =~= unit_bits(7, p));
    assert(xor_bits(corrupted, unit_bits(7, p)) =~= message);
}

} // verus!

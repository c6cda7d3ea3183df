//! The erasure decoder for CSS codes: a rank argument decides whether an
//! erasure pattern supports an undetectable logical error.

use vstd::prelude::*;

use crate::backend::rank_of;
use crate::css_code::CssCode;
use crate::decoder::ErasureDecoder;
use crate::matrix::{mat_vec_mul, BinaryMatrix};
use crate::vector::{lemma_support, support, unit_bits, BinaryVector};

verus! {

/// The single-qubit errors an erasure admits: one unit row per erased
/// position, in increasing order.
pub open spec fn erasure_basis(length: nat, erasure: Seq<bool>) -> Seq<Seq<bool>> {
    support(erasure).map_values(|p: usize| unit_bits(length, p as int))
}

/// The syndromes of a family of errors under a stabilizer matrix, one row
/// per error.
pub open spec fn syndromes_of_errors(stabs: Seq<Seq<bool>>, errors: Seq<Seq<bool>>) -> Seq<
    Seq<bool>,
> {
    errors.map_values(|e: Seq<bool>| mat_vec_mul(stabs, e))
}

/// The syndrome of each error extended with its action on the logical
/// operators.
pub open spec fn extended_syndromes(
    stabs: Seq<Seq<bool>>,
    logicals: Seq<Seq<bool>>,
    errors: Seq<Seq<bool>>,
) -> Seq<Seq<bool>> {
    errors.map_values(|e: Seq<bool>| mat_vec_mul(stabs, e) + mat_vec_mul(logicals, e))
}

/// How many more independent rows the extended syndromes have: each extra
/// one is an error the syndrome cannot see but the logicals can.
pub open spec fn bad_error_count(
    stabs: Seq<Seq<bool>>,
    logicals: Seq<Seq<bool>>,
    errors: Seq<Seq<bool>>,
) -> nat {
    let syndrome_rank = rank_of(stabs.len(), syndromes_of_errors(stabs, errors));
    let total_rank = rank_of(
        stabs.len() + logicals.len(),
        extended_syndromes(stabs, logicals, errors),
    );
    if total_rank >= syndrome_rank {
        (total_rank - syndrome_rank) as nat
    } else {
        0
    }
}

/// Decides recoverability of qubit erasures for a CSS code by comparing
/// the rank of the syndromes of the erased qubits with the rank of those
/// syndromes extended by their action on the logical operators.
#[derive(Debug, Clone)]
pub struct CssErasureDecoder<'c> {
    pub code: &'c CssCode,
}

/// Computes the number of independent undetectable logical errors among
/// the given errors, for one stabilizer type.
fn num_bad_errors(errors: &BinaryMatrix, stabs: &BinaryMatrix, logicals: &BinaryMatrix) -> (r:
    usize)
    requires
        errors.wf(),
        stabs.wf(),
        logicals.wf(),
        stabs.cols() == errors.cols(),
        logicals.cols() == errors.cols(),
        stabs@.len() + logicals@.len() <= usize::MAX,
    ensures
        r == bad_error_count(stabs@, logicals@, errors@),
        r <= errors@.len(),
{
    let mut syndrome_rows: Vec<BinaryVector> = Vec::new();
    let mut total_rows: Vec<BinaryVector> = Vec::new();
    let mut k: usize = 0;
    let n_syndrome = stabs.number_of_rows();
    let n_total = stabs.number_of_rows() + logicals.number_of_rows();
    while k < errors.number_of_rows()
        invariant
            errors.wf(),
            stabs.wf(),
            logicals.wf(),
            stabs.cols() == errors.cols(),
            logicals.cols() == errors.cols(),
            n_syndrome == stabs@.len(),
            n_total == stabs@.len() + logicals@.len(),
            k <= errors@.len(),
            syndrome_rows@.len() == k,
            total_rows@.len() == k,
            forall|i: int|
                0 <= i < k ==> (#[trigger] syndrome_rows@[i])@ == mat_vec_mul(stabs@, errors@[i]),
            forall|i: int|
                0 <= i < k ==> (#[trigger] total_rows@[i])@ == mat_vec_mul(stabs@, errors@[i])
                    + mat_vec_mul(logicals@, errors@[i]),
        decreases errors@.len() - k,
    {
        let error = match errors.row(k) {
            Some(row) => row,
            None => { unreached() },
        };
        let syndrome = stabs.mul_vec(error);
        let logical_part = logicals.mul_vec(error);
        total_rows.push(syndrome.concat_with(&logical_part));
        syndrome_rows.push(syndrome);
        k += 1;
    }
    let syndrome_matrix = BinaryMatrix::from_vectors(n_syndrome, syndrome_rows);
    let total_matrix = BinaryMatrix::from_vectors(n_total, total_rows);
    proof {
        assert(syndrome_matrix@ =~~= syndromes_of_errors(stabs@, errors@));
        assert(total_matrix@ =~~= extended_syndromes(stabs@, logicals@, errors@));
    }
    let syndrome_rank = syndrome_matrix.rank();
    let total_rank = total_matrix.rank();
    if total_rank >= syndrome_rank {
        total_rank - syndrome_rank
    } else {
        0
    }
}

impl<'c> CssErasureDecoder<'c> {
    /// Creates an erasure decoder for the given code.
    pub fn new(code: &'c CssCode) -> (r: Self)
        ensures
            r.code == code,
    {
        CssErasureDecoder { code }
    }

    /// The erasures the decoder accepts: one flag per physical qubit, for
    /// a code whose stabilizer and logical counts fit together.
    pub open spec fn erasure_ok(&self, erasure: Seq<bool>) -> bool {
        &&& self.code.dims_ok()
        &&& erasure.len() == self.code.len_spec()
        &&& self.code.stabilizers.z@.len() + self.code.logicals.z@.len() <= usize::MAX
        &&& self.code.stabilizers.x@.len() + self.code.logicals.x@.len() <= usize::MAX
    }

    /// Returns one single-qubit error for each erased position.
    pub fn error_basis(&self, erasure: &BinaryVector) -> (r: BinaryMatrix)
        requires
            self.code.dims_ok(),
            erasure@.len() == self.code.len_spec(),
        ensures
            r.wf(),
            r.cols() == self.code.len_spec(),
            r@ == erasure_basis(self.code.len_spec(), erasure@),
    {
        let length = self.code.len();
        let positions = erasure.to_positions_vec();
        proof {
            lemma_support(erasure@);
        }
        let mut rows: Vec<Vec<usize>> = Vec::new();
        let mut k: usize = 0;
        while k < positions.len()
            invariant
                positions@ == support(erasure@),
                forall|w: int| 0 <= w < positions@.len() ==> #[trigger] positions@[w] < length,
                k <= positions@.len(),
                rows@.len() == k,
                forall|i: int|
                    0 <= i < k ==> (#[trigger] rows@[i])@ =~= seq![positions@[i]],
            decreases positions@.len() - k,
        {
            let mut row: Vec<usize> = Vec::new();
            row.push(positions[k]);
            rows.push(row);
            k += 1;
        }
        let r = BinaryMatrix::from_supports(length, &rows);
        proof {
            assert forall|i: int|
                0 <= i < r@.len() implies #[trigger] r@[i] == erasure_basis(
                self.code.len_spec(),
                erasure@,
            )[i] by {
                let p = positions@[i];
                let ghost ps = seq![p];
                assert(rows@[i]@ == ps);
                assert(r@[i] == crate::vector::bits_of(length as nat, ps));
                assert forall|j: int| 0 <= j < length implies r@[i][j] == (j == p as int) by {
                    if j == p as int {
                        assert(ps[0] == p);
                        assert(ps.contains(j as usize));
                    } else {
                        if ps.contains(j as usize) {
                            let w = choose|w: int| 0 <= w < ps.len() && ps[w] == j as usize;
                            assert(w == 0);
                            assert(false);
                        }
                    }
                }
                assert(r@[i] =~= unit_bits(self.code.len_spec(), p as int));
            }
            assert(r@ =~= erasure_basis(self.code.len_spec(), erasure@));
        }
        r
    }

    /// Returns the number of independent X-type errors in the given family
    /// that no Z stabilizer sees but some Z logical feels.
    pub fn num_bad_x_errors(&self, errors: &BinaryMatrix) -> (r: usize)
        requires
            self.code.dims_ok(),
            errors.wf(),
            errors.cols() == self.code.len_spec(),
            self.code.stabilizers.z@.len() + self.code.logicals.z@.len() <= usize::MAX,
        ensures
            r == bad_error_count(self.code.stabilizers.z@, self.code.logicals.z@, errors@),
            r <= errors@.len(),
    {
        num_bad_errors(errors, &self.code.stabilizers.z, &self.code.logicals.z)
    }

    /// Returns the number of independent Z-type errors in the given family
    /// that no X stabilizer sees but some X logical feels.
    pub fn num_bad_z_errors(&self, errors: &BinaryMatrix) -> (r: usize)
        requires
            self.code.dims_ok(),
            errors.wf(),
            errors.cols() == self.code.len_spec(),
            self.code.stabilizers.x@.len() + self.code.logicals.x@.len() <= usize::MAX,
        ensures
            r == bad_error_count(self.code.stabilizers.x@, self.code.logicals.x@, errors@),
            r <= errors@.len(),
    {
        num_bad_errors(errors, &self.code.stabilizers.x, &self.code.logicals.x)
    }

    /// Returns the total number of independent unrecoverable errors the
    /// erasure admits: the recovery probability is 2 to the minus this
    /// exponent.
    pub fn failure_exponent(&self, erasure: &BinaryVector) -> (r: usize)
        requires
            self.erasure_ok(erasure@),
        ensures
            ({
                let basis = erasure_basis(self.code.len_spec(), erasure@);
                let bad = bad_error_count(self.code.stabilizers.z@, self.code.logicals.z@, basis)
                    + bad_error_count(self.code.stabilizers.x@, self.code.logicals.x@, basis);
                r == if bad <= usize::MAX {
                    bad
                } else {
                    usize::MAX as nat
                }
            }),
    {
        let errors = self.error_basis(erasure);
        let bad_x = self.num_bad_x_errors(&errors);
        let bad_z = self.num_bad_z_errors(&errors);
        if bad_x <= usize::MAX - bad_z {
            bad_x + bad_z
        } else {
            usize::MAX
        }
    }
}

impl<'c> ErasureDecoder for CssErasureDecoder<'c> {
    open spec fn valid_erasure(&self, erasure: &BinaryVector) -> bool {
        self.erasure_ok(erasure@)
    }

    /// An erasure is recoverable when no single-qubit error it admits can
    /// act on the logical operators without being seen by the stabilizers.
    open spec fn recoverable_spec(&self, erasure: &BinaryVector) -> bool {
        let basis = erasure_basis(self.code.len_spec(), erasure@);
        bad_error_count(self.code.stabilizers.z@, self.code.logicals.z@, basis) == 0
            && bad_error_count(self.code.stabilizers.x@, self.code.logicals.x@, basis) == 0
    }

    fn is_recoverable(&self, erasure: &BinaryVector) -> (r: bool) {
        self.failure_exponent(erasure) == 0
    }
}

} // verus!

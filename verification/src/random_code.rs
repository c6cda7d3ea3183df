//! A builder for random regular LDPC codes, sampled through the trusted
//! bipartite-graph backend.

use vstd::prelude::*;

use crate::backend::{row_membership_count, sample_graph_raw};
use crate::code::LinearCode;
use crate::matrix::{col_of, BinaryMatrix};
use crate::vector::{lemma_ones_of_distinct_positions, ones};

verus! {

/// A column of ones per row that holds the value: the weight of such a
/// column is the number of rows holding it.
proof fn lemma_column_ones(rows: Seq<Vec<usize>>, col: Seq<bool>, v: usize)
    requires
        col.len() == rows.len(),
        forall|c: int| 0 <= c < rows.len() ==> col[c] == (#[trigger] rows[c])@.contains(v),
    ensures
        ones(col) == row_membership_count(rows, v),
    decreases rows.len(),
{
    if rows.len() > 0 {
        lemma_column_ones(rows.drop_last(), col.drop_last(), v);
    }
}

/// A random regular LDPC code sampler: every bit takes part in
/// `bit_degree` checks and every check touches `check_degree` bits.
#[derive(Debug, PartialEq, Eq, Clone, Copy, Hash, Structural)]
pub struct RandomRegularCode {
    pub block_size: usize,
    pub number_of_checks: usize,
    pub bit_degree: usize,
    pub check_degree: usize,
}

/// The parameters with which a sampling request failed.
#[derive(Debug, PartialEq, Eq, Clone, Copy, Hash, Structural)]
pub struct SamplingError {
    pub block_size: usize,
    pub number_of_checks: usize,
    pub bit_degree: usize,
    pub check_degree: usize,
}

impl Default for RandomRegularCode {
    /// All parameters start at zero.
    fn default() -> (r: Self)
        ensures
            r.block_size == 0,
            r.number_of_checks == 0,
            r.bit_degree == 0,
            r.check_degree == 0,
    {
        RandomRegularCode { block_size: 0, number_of_checks: 0, bit_degree: 0, check_degree: 0 }
    }
}

impl RandomRegularCode {
    /// The parameters admit a simple regular bipartite graph that the
    /// sampler can build: the edge counts of the two sides agree, fit in a
    /// machine word, and neither side asks for more distinct neighbors
    /// than the other side offers.
    pub open spec fn feasible(&self) -> bool {
        &&& self.block_size * self.bit_degree == self.number_of_checks * self.check_degree
        &&& self.block_size * self.bit_degree <= usize::MAX
        &&& (self.block_size == 0 || self.bit_degree <= self.number_of_checks)
        &&& (self.number_of_checks == 0 || self.check_degree <= self.block_size)
    }

    /// Fixes the block size of the code. Default is 0.
    pub fn block_size(&mut self, block_size: usize) -> (r: &mut Self)
        ensures
            *r == (RandomRegularCode {
                block_size,
                number_of_checks: old(self).number_of_checks,
                bit_degree: old(self).bit_degree,
                check_degree: old(self).check_degree,
            }),
            *final(self) == *final(r),
    {
        self.block_size = block_size;
        self
    }

    /// Fixes the length of the code. Default is 0.
    pub fn num_bits(&mut self, num_bits: usize) -> (r: &mut Self)
        ensures
            *r == (RandomRegularCode {
                block_size: num_bits,
                number_of_checks: old(self).number_of_checks,
                bit_degree: old(self).bit_degree,
                check_degree: old(self).check_degree,
            }),
            *final(self) == *final(r),
    {
        self.block_size = num_bits;
        self
    }

    /// Fixes the number of checks of the code. Default is 0.
    pub fn number_of_checks(&mut self, number_of_checks: usize) -> (r: &mut Self)
        ensures
            *r == (RandomRegularCode {
                block_size: old(self).block_size,
                number_of_checks,
                bit_degree: old(self).bit_degree,
                check_degree: old(self).check_degree,
            }),
            *final(self) == *final(r),
    {
        self.number_of_checks = number_of_checks;
        self
    }

    /// Fixes the number of checks of the code. Default is 0.
    pub fn num_checks(&mut self, num_checks: usize) -> (r: &mut Self)
        ensures
            *r == (RandomRegularCode {
                block_size: old(self).block_size,
                number_of_checks: num_checks,
                bit_degree: old(self).bit_degree,
                check_degree: old(self).check_degree,
            }),
            *final(self) == *final(r),
    {
        self.number_of_checks = num_checks;
        self
    }

    /// Fixes the number of checks connected to each bit. Default is 0.
    pub fn bit_degree(&mut self, bit_degree: usize) -> (r: &mut Self)
        ensures
            *r == (RandomRegularCode {
                block_size: old(self).block_size,
                number_of_checks: old(self).number_of_checks,
                bit_degree,
                check_degree: old(self).check_degree,
            }),
            *final(self) == *final(r),
    {
        self.bit_degree = bit_degree;
        self
    }

    /// Fixes the number of bits connected to each check. Default is 0.
    pub fn check_degree(&mut self, check_degree: usize) -> (r: &mut Self)
        ensures
            *r == (RandomRegularCode {
                block_size: old(self).block_size,
                number_of_checks: old(self).number_of_checks,
                bit_degree: old(self).bit_degree,
                check_degree,
            }),
            *final(self) == *final(r),
    {
        self.check_degree = check_degree;
        self
    }

    /// Samples a random regular code from the given seed, or reports the
    /// parameters when they do not admit a regular bipartite graph: the
    /// block size times the bit degree must equal the number of checks
    /// times the check degree, and the degrees must not exceed the
    /// opposite side.
    pub fn sample_with(&self, seed: u64) -> (r: Result<LinearCode, SamplingError>)
        ensures
            r is Ok <==> self.feasible(),
            r matches Ok(code) ==> {
                &&& code.wf()
                &&& code.block_size_spec() == self.block_size
                &&& code.number_of_checks_spec() == self.number_of_checks
                &&& forall|c: int|
                    0 <= c < code.number_of_checks_spec() ==> ones(
                        #[trigger] code.parity_check_matrix@[c],
                    ) == self.check_degree
                &&& forall|b: int|
                    0 <= b < code.block_size_spec() ==> #[trigger] ones(
                        col_of(code.parity_check_matrix@, b),
                    ) == self.bit_degree
            },
            !self.feasible() ==> r == Err::<LinearCode, SamplingError>(SamplingError {
                block_size: self.block_size,
                number_of_checks: self.number_of_checks,
                bit_degree: self.bit_degree,
                check_degree: self.check_degree,
            }),
    {
        proof {
            assert((self.block_size as u128) < 0x10000000000000000u128);
            assert((self.bit_degree as u128) < 0x10000000000000000u128);
            assert((self.number_of_checks as u128) < 0x10000000000000000u128);
            assert((self.check_degree as u128) < 0x10000000000000000u128);
            assert forall|a: u128, b: u128|
                a < 0x10000000000000000u128 && b < 0x10000000000000000u128 implies #[trigger] (a
                * b) <= u128::MAX by {
                assert(a * b <= (0x10000000000000000u128 - 1) * (0x10000000000000000u128 - 1))
                    by (nonlinear_arith)
                    requires
                        a < 0x10000000000000000u128,
                        b < 0x10000000000000000u128,
                ;
            }
        }
        let bit_edges = (self.block_size as u128) * (self.bit_degree as u128);
        let check_edges = (self.number_of_checks as u128) * (self.check_degree as u128);
        let feasible = bit_edges == check_edges && bit_edges <= (usize::MAX as u128) && (
        self.block_size == 0 || self.bit_degree <= self.number_of_checks) && (self.number_of_checks
            == 0 || self.check_degree <= self.block_size);
        if !feasible {
            return Err(
                SamplingError {
                    block_size: self.block_size,
                    number_of_checks: self.number_of_checks,
                    bit_degree: self.bit_degree,
                    check_degree: self.check_degree,
                },
            );
        }
        let rows = sample_graph_raw(
            self.block_size,
            self.number_of_checks,
            self.bit_degree,
            self.check_degree,
            seed,
        );
        let parity_check_matrix = BinaryMatrix::from_supports(self.block_size, &rows);
        let code = LinearCode::from_parity_check_matrix(parity_check_matrix);
        proof {
            assert forall|c: int|
                0 <= c < code.number_of_checks_spec() implies ones(
                #[trigger] code.parity_check_matrix@[c],
            ) == self.check_degree by {
                lemma_ones_of_distinct_positions(self.block_size as nat, rows@[c]@);
            }
            assert forall|b: int|
                0 <= b < code.block_size_spec() implies #[trigger] ones(
                col_of(code.parity_check_matrix@, b),
            ) == self.bit_degree by {
                let col = col_of(code.parity_check_matrix@, b);
                assert forall|c: int| 0 <= c < rows@.len() implies col[c] == (
                #[trigger] rows@[c])@.contains(b as usize) by {
                    assert(code.parity_check_matrix@[c] == crate::vector::bits_of(
                        self.block_size as nat,
                        rows@[c]@,
                    ));
                }
                lemma_column_ones(rows@, col, b as usize);
            }
        }
        Ok(code)
    }
}

} // verus!

//! Quantum CSS codes built from pairs of orthogonal linear codes, with the
//! symplectic pairing of their logical operators.

use vstd::prelude::*;

use crate::backend::nullspace_of;
use crate::code::{hamming_check_matrix, LinearCode};
use crate::decoder::found_bit;
use crate::css::{Css, CssOperator, CssSyndrome};
use crate::matrix::{
    col_of, kron_row, lemma_dot_concat, lemma_dot_kron, mat_vec_mul, nonzero_rows, BinaryMatrix,
};
use crate::vector::{
    bits_of, dot, is_zero_bits, lemma_dot_sym, lemma_dot_unit, lemma_dot_xor_sym, unit_bits,
    xor_bits, BinaryVector,
};

verus! {

/// Why a pair of linear codes does not define a CSS code.
#[derive(Debug, PartialEq, Eq, Clone, Structural)]
pub enum CssError {
    /// The two codes act on different numbers of qubits.
    DifferentXandZLength(usize, usize),
    /// The parity-check matrices of the two codes are not orthogonal.
    NonOrthogonalCodes,
}

/// A quantum CSS code: a pair of stabilizer matrices, one of X type and
/// one of Z type, together with a pair of logical-operator matrices.
///
/// The checks of the first code give the binary representation of the X
/// stabilizers and the checks of the second code the Z stabilizers; the
/// codewords of the two codes seed the logical operators.
#[derive(Debug, Clone, PartialEq, Eq)]
pub struct CssCode {
    pub stabilizers: Css<BinaryMatrix>,
    pub logicals: Css<BinaryMatrix>,
}

/// The parity-check matrix of the cyclic repetition code: check `c` pairs
/// bit `c` with its successor, and the last check closes the ring.
pub open spec fn cycle_check_matrix(distance: nat) -> Seq<Seq<bool>> {
    Seq::new(
        distance,
        |c: int|
            Seq::new(
                distance,
                |j: int|
                    if c < distance - 1 {
                        j == c || j == c + 1
                    } else {
                        j == 0 || j == distance - 1
                    },
            ),
    )
}

/// The X-type checks of the hypergraph product of two check matrices
/// with the given numbers of columns: one check per (bit, check) pair.
pub open spec fn hypergraph_x_checks(
    h1: Seq<Seq<bool>>,
    h2: Seq<Seq<bool>>,
    n1: nat,
    n2: nat,
) -> Seq<Seq<bool>> {
    Seq::new(
        n1 * h2.len(),
        |i: int|
            kron_row(unit_bits(n1, i / h2.len() as int), h2[i % h2.len() as int]) + kron_row(
                col_of(h1, i / h2.len() as int),
                unit_bits(h2.len(), i % h2.len() as int),
            ),
    )
}

/// The Z-type checks of the hypergraph product of two check matrices
/// with the given numbers of columns: one check per (check, bit) pair.
pub open spec fn hypergraph_z_checks(
    h1: Seq<Seq<bool>>,
    h2: Seq<Seq<bool>>,
    n1: nat,
    n2: nat,
) -> Seq<Seq<bool>> {
    Seq::new(
        h1.len() * n2,
        |j: int|
            kron_row(h1[j / n2 as int], unit_bits(n2, j % n2 as int)) + kron_row(
                unit_bits(h1.len(), j / n2 as int),
                col_of(h2, j % n2 as int),
            ),
    )
}

/// The X stabilizer matrix of the Shor code, row by row.
pub open spec fn shor_x_stabilizers() -> Seq<Seq<bool>> {
    seq![
        bits_of(9, seq![0usize, 1, 2, 3, 4, 5]),
        bits_of(9, seq![3usize, 4, 5, 6, 7, 8]),
    ]
}

/// The Z stabilizer matrix of the Shor code, row by row.
pub open spec fn shor_z_stabilizers() -> Seq<Seq<bool>> {
    seq![
        bits_of(9, seq![0usize, 1]),
        bits_of(9, seq![1usize, 2]),
        bits_of(9, seq![3usize, 4]),
        bits_of(9, seq![4usize, 5]),
        bits_of(9, seq![6usize, 7]),
        bits_of(9, seq![7usize, 8]),
    ]
}

/// Orthogonality of two parity-check matrices: every X check commutes
/// with every Z check.
pub open spec fn orthogonal_checks(hx: Seq<Seq<bool>>, hz: Seq<Seq<bool>>) -> bool {
    forall|i: int, j: int|
        0 <= i < hx.len() && 0 <= j < hz.len() ==> !(#[trigger] dot(hx[i], hz[j]))
}

impl CssCode {
    /// Dimensions fit together: all four matrices act on the same qubits
    /// and the logical operators come in pairs.
    pub open spec fn dims_ok(&self) -> bool {
        &&& self.stabilizers.x.wf()
        &&& self.stabilizers.z.wf()
        &&& self.logicals.x.wf()
        &&& self.logicals.z.wf()
        &&& self.stabilizers.z.cols() == self.stabilizers.x.cols()
        &&& self.logicals.x.cols() == self.stabilizers.x.cols()
        &&& self.logicals.z.cols() == self.stabilizers.x.cols()
        &&& self.logicals.x@.len() == self.logicals.z@.len()
    }

    /// The number of physical qubits, as a mathematical value.
    pub open spec fn len_spec(&self) -> nat {
        self.stabilizers.x.cols()
    }

    /// The canonical logical-operator invariant: every logical commutes
    /// with every stabilizer of the opposite type, and an X logical
    /// anticommutes with a Z logical exactly when they are partners at the
    /// same index.
    pub open spec fn logicals_ok(&self) -> bool {
        &&& forall|t: int, j: int|
            0 <= t < self.logicals.x@.len() && 0 <= j < self.stabilizers.z@.len() ==> !(
            #[trigger] dot(self.logicals.x@[t], self.stabilizers.z@[j]))
        &&& forall|t: int, j: int|
            0 <= t < self.logicals.z@.len() && 0 <= j < self.stabilizers.x@.len() ==> !(
            #[trigger] dot(self.logicals.z@[t], self.stabilizers.x@[j]))
        &&& forall|i: int, j: int|
            0 <= i < self.logicals.x@.len() && 0 <= j < self.logicals.z@.len() ==> (#[trigger] dot(
                self.logicals.x@[i],
                self.logicals.z@[j],
            )) == (i == j)
    }

    /// Creates a CSS code from two orthogonal linear codes of the same
    /// length.
    pub fn new(x_code: &LinearCode, z_code: &LinearCode) -> (r: Self)
        requires
            x_code.wf(),
            z_code.wf(),
            x_code.block_size_spec() == z_code.block_size_spec(),
            orthogonal_checks(x_code.parity_check_matrix@, z_code.parity_check_matrix@),
        ensures
            r.dims_ok(),
            r.logicals_ok(),
            r.stabilizers.x@ == x_code.parity_check_matrix@,
            r.stabilizers.z@ == z_code.parity_check_matrix@,
            r.logicals.x@ == paired_logicals(
                z_code.generator_matrix@,
                x_code.generator_matrix@,
            ).0,
            r.logicals.z@ == paired_logicals(
                z_code.generator_matrix@,
                x_code.generator_matrix@,
            ).1,
            r.len_spec() == x_code.block_size_spec(),
    {
        match Self::try_new(x_code, z_code) {
            Ok(code) => code,
            Err(_) => { unreached() },
        }
    }

    /// Creates a CSS code from two linear codes, or reports why the pair
    /// does not define one: the lengths differ, or the parity-check
    /// matrices are not orthogonal.
    pub fn try_new(x_code: &LinearCode, z_code: &LinearCode) -> (r: Result<Self, CssError>)
        requires
            x_code.wf(),
            z_code.wf(),
        ensures
            r is Ok <==> (x_code.block_size_spec() == z_code.block_size_spec()
                && orthogonal_checks(x_code.parity_check_matrix@, z_code.parity_check_matrix@)),
            r matches Ok(code) ==> {
                &&& code.dims_ok()
                &&& code.logicals_ok()
                &&& code.stabilizers.x@ == x_code.parity_check_matrix@
                &&& code.stabilizers.z@ == z_code.parity_check_matrix@
                &&& code.logicals.x@ == paired_logicals(
                    z_code.generator_matrix@,
                    x_code.generator_matrix@,
                ).0
                &&& code.logicals.z@ == paired_logicals(
                    z_code.generator_matrix@,
                    x_code.generator_matrix@,
                ).1
                &&& code.len_spec() == x_code.block_size_spec()
            },
            x_code.block_size_spec() != z_code.block_size_spec() ==> r == Err::<Self, CssError>(
                CssError::DifferentXandZLength(
                    x_code.block_size_spec() as usize,
                    z_code.block_size_spec() as usize,
                ),
            ),
            x_code.block_size_spec() == z_code.block_size_spec() && !orthogonal_checks(
                x_code.parity_check_matrix@,
                z_code.parity_check_matrix@,
            ) ==> r == Err::<Self, CssError>(CssError::NonOrthogonalCodes),
    {
        if x_code.block_size() != z_code.block_size() {
            return Err(CssError::DifferentXandZLength(x_code.block_size(), z_code.block_size()));
        }
        let product = x_code.parity_check_matrix.mul_transposed(&z_code.parity_check_matrix);
        if !product.is_zero() {
            proof {
                let (i, j) = choose|i: int, j: int|
                    0 <= i < product@.len() && 0 <= j < product.cols() && #[trigger] product@[i][j];
                assert(dot(x_code.parity_check_matrix@[i], z_code.parity_check_matrix@[j]));
            }
            return Err(CssError::NonOrthogonalCodes);
        }
        proof {
            assert forall|i: int, j: int|
                0 <= i < x_code.parity_check_matrix@.len() && 0 <= j
                    < z_code.parity_check_matrix@.len() implies !(#[trigger] dot(
                x_code.parity_check_matrix@[i],
                z_code.parity_check_matrix@[j],
            )) by {
                assert(is_zero_bits(product@[i]));
                assert(!product@[i][j]);
            }
        }
        let logicals = from_linear_codes(x_code, z_code);
        Ok(
            CssCode {
                stabilizers: Css::new(
                    x_code.parity_check_matrix.clone(),
                    z_code.parity_check_matrix.clone(),
                ),
                logicals,
            },
        )
    }

    /// Returns the Steane code, built from a pair of classical Hamming
    /// codes.
    pub fn steane_code() -> (r: Self)
        ensures
            r.dims_ok(),
            r.logicals_ok(),
            r.len_spec() == 7,
            r.stabilizers.x@ == hamming_check_matrix(),
            r.stabilizers.z@ == hamming_check_matrix(),
            r.logicals.x@ == paired_logicals(
                nullspace_of(7, nonzero_rows(hamming_check_matrix())),
                nullspace_of(7, nonzero_rows(hamming_check_matrix())),
            ).0,
            r.logicals.z@ == paired_logicals(
                nullspace_of(7, nonzero_rows(hamming_check_matrix())),
                nullspace_of(7, nonzero_rows(hamming_check_matrix())),
            ).1,
    {
        let hamming_code = LinearCode::hamming_code();
        proof {
            lemma_hamming_self_orthogonal();
        }
        Self::new(&hamming_code, &hamming_code)
    }

    /// Returns the Shor code on 9 qubits: two X stabilizers over the
    /// halves, six Z stabilizers over neighbor pairs, one logical pair.
    pub fn shor_code() -> (r: Self)
        ensures
            r.dims_ok(),
            r.logicals_ok(),
            r.len_spec() == 9,
            r.stabilizers.x@ == shor_x_stabilizers(),
            r.stabilizers.z@ == shor_z_stabilizers(),
            r.logicals.x@ == seq![bits_of(9, seq![0usize, 1, 2])],
            r.logicals.z@ == seq![bits_of(9, seq![0usize, 3, 6])],
    {
        let r = CssCode {
            stabilizers: Css::new(
                BinaryMatrix::new(9, vec![vec![0, 1, 2, 3, 4, 5], vec![3, 4, 5, 6, 7, 8]]),
                BinaryMatrix::new(
                    9,
                    vec![vec![0, 1], vec![1, 2], vec![3, 4], vec![4, 5], vec![6, 7], vec![7, 8]],
                ),
            ),
            logicals: Css::new(
                BinaryMatrix::new(9, vec![vec![0, 1, 2]]),
                BinaryMatrix::new(9, vec![vec![0, 3, 6]]),
            ),
        };
        proof {
            assert(r.stabilizers.x@ =~= shor_x_stabilizers());
            assert(r.stabilizers.z@ =~= shor_z_stabilizers());
            assert(r.logicals.x@ =~= seq![bits_of(9, seq![0usize, 1, 2])]);
            assert(r.logicals.z@ =~= seq![bits_of(9, seq![0usize, 3, 6])]);
            reveal_with_fuel(crate::vector::dot, 11);
            assert forall|t: int, j: int|
                0 <= t < r.logicals.x@.len() && 0 <= j < r.stabilizers.z@.len() implies !(
            #[trigger] dot(r.logicals.x@[t], r.stabilizers.z@[j])) by {
                assert(!dot(r.logicals.x@[0], r.stabilizers.z@[0]));
                assert(!dot(r.logicals.x@[0], r.stabilizers.z@[1]));
                assert(!dot(r.logicals.x@[0], r.stabilizers.z@[2]));
                assert(!dot(r.logicals.x@[0], r.stabilizers.z@[3]));
                assert(!dot(r.logicals.x@[0], r.stabilizers.z@[4]));
                assert(!dot(r.logicals.x@[0], r.stabilizers.z@[5]));
            }
            assert forall|t: int, j: int|
                0 <= t < r.logicals.z@.len() && 0 <= j < r.stabilizers.x@.len() implies !(
            #[trigger] dot(r.logicals.z@[t], r.stabilizers.x@[j])) by {
                assert(!dot(r.logicals.z@[0], r.stabilizers.x@[0]));
                assert(!dot(r.logicals.z@[0], r.stabilizers.x@[1]));
            }
            assert forall|i: int, j: int|
                0 <= i < r.logicals.x@.len() && 0 <= j < r.logicals.z@.len() implies (
            #[trigger] dot(r.logicals.x@[i], r.logicals.z@[j])) == (i == j) by {
                assert(dot(r.logicals.x@[0], r.logicals.z@[0]));
            }
        }
        r
    }

    /// Returns the number of physical qubits in the code.
    pub fn len(&self) -> (r: usize)
        ensures
            r == self.len_spec(),
    {
        self.stabilizers.x.number_of_columns()
    }

    /// Checks if the code has zero physical qubits.
    pub fn is_empty(&self) -> (r: bool)
        ensures
            r == (self.len_spec() == 0),
    {
        self.len() == 0
    }

    /// Returns the number of X stabilizer generators.
    pub fn num_x_stabs(&self) -> (r: usize)
        ensures
            r == self.stabilizers.x@.len(),
    {
        self.stabilizers.x.number_of_rows()
    }

    /// Returns the number of Z stabilizer generators.
    pub fn num_z_stabs(&self) -> (r: usize)
        ensures
            r == self.stabilizers.z@.len(),
    {
        self.stabilizers.z.number_of_rows()
    }

    /// Returns the number of X logical generators.
    pub fn num_x_logicals(&self) -> (r: usize)
        ensures
            r == self.logicals.x@.len(),
    {
        self.logicals.x.number_of_rows()
    }

    /// Returns the number of Z logical generators.
    pub fn num_z_logicals(&self) -> (r: usize)
        ensures
            r == self.logicals.z@.len(),
    {
        self.logicals.z.number_of_rows()
    }

    /// Returns the binary matrix representing the X stabilizer generators.
    pub fn x_stabs_binary(&self) -> (r: &BinaryMatrix)
        ensures
            r == &self.stabilizers.x,
    {
        &self.stabilizers.x
    }

    /// Returns the binary matrix representing the Z stabilizer generators.
    pub fn z_stabs_binary(&self) -> (r: &BinaryMatrix)
        ensures
            r == &self.stabilizers.z,
    {
        &self.stabilizers.z
    }

    /// Returns the binary matrix representing the X logical generators.
    pub fn x_logicals_binary(&self) -> (r: &BinaryMatrix)
        ensures
            r == &self.logicals.x,
    {
        &self.logicals.x
    }

    /// Returns the binary matrix representing the Z logical generators.
    pub fn z_logicals_binary(&self) -> (r: &BinaryMatrix)
        ensures
            r == &self.logicals.z,
    {
        &self.logicals.z
    }

    /// Returns all stabilizer generators as Pauli operators in binary
    /// form: first the X stabilizers, then the Z stabilizers.
    pub fn stabilizers(&self) -> (r: Vec<CssOperator>)
        requires
            self.dims_ok(),
        ensures
            r@.len() == self.stabilizers.x@.len() + self.stabilizers.z@.len(),
            forall|i: int|
                0 <= i < self.stabilizers.x@.len() ==> (#[trigger] r@[i]).x@
                    == self.stabilizers.x@[i] && is_zero_bits(r@[i].z@) && r@[i].z@.len()
                    == self.len_spec(),
            forall|i: int|
                0 <= i < self.stabilizers.z@.len() ==> (#[trigger] r@[self.stabilizers.x@.len()
                    + i]).z@ == self.stabilizers.z@[i] && is_zero_bits(
                    r@[self.stabilizers.x@.len() + i].x@,
                ) && r@[self.stabilizers.x@.len() + i].x@.len() == self.len_spec(),
    {
        operators_of(&self.stabilizers, self.len())
    }

    /// Returns all logical generators as Pauli operators in binary form:
    /// first the X logicals, then the Z logicals.
    pub fn logicals(&self) -> (r: Vec<CssOperator>)
        requires
            self.dims_ok(),
        ensures
            r@.len() == self.logicals.x@.len() + self.logicals.z@.len(),
            forall|i: int|
                0 <= i < self.logicals.x@.len() ==> (#[trigger] r@[i]).x@ == self.logicals.x@[i]
                    && is_zero_bits(r@[i].z@) && r@[i].z@.len() == self.len_spec(),
            forall|i: int|
                0 <= i < self.logicals.z@.len() ==> (#[trigger] r@[self.logicals.x@.len() + i]).z@
                    == self.logicals.z@[i] && is_zero_bits(r@[self.logicals.x@.len() + i].x@)
                    && r@[self.logicals.x@.len() + i].x@.len() == self.len_spec(),
    {
        operators_of(&self.logicals, self.len())
    }

    /// Returns both parts of the syndrome of the given operator: the X
    /// stabilizers detect the Z part of an error and conversely.
    pub fn syndrome_of(&self, operator: &CssOperator) -> (r: CssSyndrome)
        requires
            self.dims_ok(),
            operator.x@.len() == self.len_spec(),
            operator.z@.len() == self.len_spec(),
        ensures
            r.x@ == mat_vec_mul(self.stabilizers.x@, operator.z@),
            r.z@ == mat_vec_mul(self.stabilizers.z@, operator.x@),
    {
        Css::new(self.stabilizers.x.mul_vec(&operator.z), self.stabilizers.z.mul_vec(&operator.x))
    }

    /// Checks if an operator is a (potentially trivial) logical operator
    /// of the code: its syndrome vanishes.
    pub fn has_logical(&self, operator: &CssOperator) -> (r: bool)
        requires
            self.dims_ok(),
            operator.x@.len() == self.len_spec(),
            operator.z@.len() == self.len_spec(),
        ensures
            r == (is_zero_bits(mat_vec_mul(self.stabilizers.x@, operator.z@)) && is_zero_bits(
                mat_vec_mul(self.stabilizers.z@, operator.x@),
            )),
    {
        self.syndrome_of(operator).is_trivial()
    }

    /// Checks if an operator is a stabilizer of the code: its syndrome
    /// vanishes and it commutes with every logical generator.
    pub fn has_stabilizer(&self, operator: &CssOperator) -> (r: bool)
        requires
            self.dims_ok(),
            operator.x@.len() == self.len_spec(),
            operator.z@.len() == self.len_spec(),
        ensures
            r == (is_zero_bits(mat_vec_mul(self.stabilizers.x@, operator.z@)) && is_zero_bits(
                mat_vec_mul(self.stabilizers.z@, operator.x@),
            ) && is_zero_bits(mat_vec_mul(self.logicals.x@, operator.z@)) && is_zero_bits(
                mat_vec_mul(self.logicals.z@, operator.x@),
            )),
    {
        self.has_logical(operator) && self.logicals.x.mul_vec(&operator.z).is_zero()
            && self.logicals.z.mul_vec(&operator.x).is_zero()
    }
}

/// The views of a pool of candidate vectors.
pub open spec fn views(pool: Seq<BinaryVector>) -> Seq<Seq<bool>> {
    pool.map_values(|v: BinaryVector| v@)
}

/// The first pool index at or after `j` whose vector anticommutes with
/// the probe, if any.
pub open spec fn first_anticommuting_from(pool: Seq<Seq<bool>>, probe: Seq<bool>, j: int) -> Option<
    int,
>
    decreases pool.len() - j,
{
    if j < 0 || j >= pool.len() {
        None
    } else if dot(probe, pool[j]) {
        Some(j)
    } else {
        first_anticommuting_from(pool, probe, j + 1)
    }
}

/// A pool after the pairing correction: every vector that anticommutes
/// with the probe has the corrector added, so the whole pool commutes
/// with the probe.
pub open spec fn corrected(pool: Seq<Seq<bool>>, probe: Seq<bool>, corrector: Seq<bool>) -> Seq<
    Seq<bool>,
> {
    Seq::new(
        pool.len(),
        |t: int|
            if dot(probe, pool[t]) {
                xor_bits(corrector, pool[t])
            } else {
                pool[t]
            },
    )
}

/// The logical pairs the symplectic pairing emits from two candidate
/// pools: candidates are taken from the back of the X pool; one with an
/// anticommuting partner in the Z pool emits the pair and corrects both
/// pools, one without is a product of stabilizers and is dropped.
pub open spec fn paired_logicals(raw_x: Seq<Seq<bool>>, raw_z: Seq<Seq<bool>>) -> (
    Seq<Seq<bool>>,
    Seq<Seq<bool>>,
)
    decreases raw_x.len(),
{
    if raw_x.len() == 0 {
        (Seq::empty(), Seq::empty())
    } else {
        let probe = raw_x.last();
        let rest = raw_x.drop_last();
        match first_anticommuting_from(raw_z, probe, 0) {
            None => paired_logicals(rest, raw_z),
            Some(p) => {
                let partner = raw_z[p];
                let removed = raw_z.update(p, raw_z.last()).drop_last();
                let sub = paired_logicals(
                    corrected(rest, partner, probe),
                    corrected(removed, probe, partner),
                );
                (seq![probe] + sub.0, seq![partner] + sub.1)
            },
        }
    }
}

/// Every vector of a candidate pool satisfies every given check.
pub open spec fn pool_orthogonal(pool: Seq<BinaryVector>, checks: Seq<Seq<bool>>) -> bool {
    forall|t: int, j: int|
        0 <= t < pool.len() && 0 <= j < checks.len() ==> !(#[trigger] dot(pool[t]@, checks[j]))
}

/// Every vector of a candidate pool commutes with every emitted logical.
pub open spec fn pool_commutes(pool: Seq<BinaryVector>, emitted: Seq<BinaryVector>) -> bool {
    forall|t: int, i: int|
        0 <= t < pool.len() && 0 <= i < emitted.len() ==> !(#[trigger] dot(pool[t]@, emitted[i]@))
}

/// The emitted logical pairs anticommute exactly at equal indices.
pub open spec fn canonically_paired(
    x_logicals: Seq<BinaryVector>,
    z_logicals: Seq<BinaryVector>,
) -> bool {
    forall|i: int, j: int|
        0 <= i < x_logicals.len() && 0 <= j < z_logicals.len() ==> (#[trigger] dot(
            x_logicals[i]@,
            z_logicals[j]@,
        )) == (i == j)
}

/// Returns the first pool vector that anticommutes with the probe, if any.
fn find_anticommuting(probe: &BinaryVector, pool: &Vec<BinaryVector>) -> (r: Option<usize>)
    requires
        forall|t: int| 0 <= t < pool@.len() ==> (#[trigger] pool@[t])@.len() == probe@.len(),
    ensures
        found_bit(r) == first_anticommuting_from(views(pool@), probe@, 0),
        match r {
            Some(p) => p < pool@.len() && dot(probe@, pool@[p as int]@),
            None => forall|t: int| 0 <= t < pool@.len() ==> !dot(probe@, (#[trigger] pool@[t])@),
        },
{
    let ghost pool_views = views(pool@);
    let mut j: usize = 0;
    while j < pool.len()
        invariant
            forall|t: int| 0 <= t < pool@.len() ==> (#[trigger] pool@[t])@.len() == probe@.len(),
            pool_views == views(pool@),
            j <= pool@.len(),
            forall|t: int| 0 <= t < j ==> !dot(probe@, (#[trigger] pool@[t])@),
            first_anticommuting_from(pool_views, probe@, 0) == first_anticommuting_from(
                pool_views,
                probe@,
                j as int,
            ),
        decreases pool@.len() - j,
    {
        if probe.dot_with(&pool[j]) {
            return Some(j);
        }
        j += 1;
    }
    None
}

/// Adds the corrector to every pool vector that anticommutes with the
/// probe, so that afterwards the whole pool commutes with the probe.
fn correct_pool(pool: &mut Vec<BinaryVector>, probe: &BinaryVector, corrector: &BinaryVector)
    requires
        forall|t: int|
            0 <= t < old(pool)@.len() ==> (#[trigger] old(pool)@[t])@.len() == probe@.len(),
        corrector@.len() == probe@.len(),
    ensures
        final(pool)@.len() == old(pool)@.len(),
        forall|t: int|
            0 <= t < old(pool)@.len() ==> (#[trigger] final(pool)@[t])@ == if dot(
                probe@,
                old(pool)@[t]@,
            ) {
                xor_bits(corrector@, old(pool)@[t]@)
            } else {
                old(pool)@[t]@
            },
{
    let mut t: usize = 0;
    while t < pool.len()
        invariant
            pool@.len() == old(pool)@.len(),
            forall|t2: int|
                0 <= t2 < old(pool)@.len() ==> (#[trigger] old(pool)@[t2])@.len() == probe@.len(),
            corrector@.len() == probe@.len(),
            t <= pool@.len(),
            forall|t2: int| t <= t2 < pool@.len() ==> (#[trigger] pool@[t2])@ == old(pool)@[t2]@,
            forall|t2: int|
                0 <= t2 < t ==> (#[trigger] pool@[t2])@ == if dot(probe@, old(pool)@[t2]@) {
                    xor_bits(corrector@, old(pool)@[t2]@)
                } else {
                    old(pool)@[t2]@
                },
        decreases pool@.len() - t,
    {
        if probe.dot_with(&pool[t]) {
            let corrected = corrector.xor_with(&pool[t]);
            pool[t] = corrected;
        }
        t += 1;
    }
}

/// Computes canonically paired logical generators for a pair of linear
/// codes, by the symplectic Gram-Schmidt pairing: candidates for the X
/// logicals are the codewords of the Z code and conversely; each X
/// candidate is paired with an anticommuting Z candidate, the remaining
/// candidates are corrected to commute with the emitted pair, and
/// candidates without a partner are products of stabilizers and are
/// dropped.
///
/// The result is pinned exactly: it is the pairing recursion
/// `paired_logicals` applied to the two generator matrices. It is also
/// proved canonical: every X logical satisfies every check of the Z code
/// and conversely, and an X logical anticommutes with a Z logical exactly
/// when they stand at the same index.
pub fn from_linear_codes(x_code: &LinearCode, z_code: &LinearCode) -> (r: Css<BinaryMatrix>)
    requires
        x_code.wf(),
        z_code.wf(),
        x_code.block_size_spec() == z_code.block_size_spec(),
    ensures
        r.x.wf(),
        r.z.wf(),
        r.x.cols() == x_code.block_size_spec(),
        r.z.cols() == x_code.block_size_spec(),
        r.x@.len() == r.z@.len(),
        r.x@ == paired_logicals(z_code.generator_matrix@, x_code.generator_matrix@).0,
        r.z@ == paired_logicals(z_code.generator_matrix@, x_code.generator_matrix@).1,
        forall|t: int, j: int|
            0 <= t < r.x@.len() && 0 <= j < z_code.parity_check_matrix@.len() ==> !(#[trigger] dot(
                r.x@[t],
                z_code.parity_check_matrix@[j],
            )),
        forall|t: int, j: int|
            0 <= t < r.z@.len() && 0 <= j < x_code.parity_check_matrix@.len() ==> !(#[trigger] dot(
                r.z@[t],
                x_code.parity_check_matrix@[j],
            )),
        forall|i: int, j: int|
            0 <= i < r.x@.len() && 0 <= j < r.z@.len() ==> (#[trigger] dot(r.x@[i], r.z@[j])) == (i
                == j),
{
    let length = x_code.block_size();
    let ghost hx = x_code.parity_check_matrix@;
    let ghost hz = z_code.parity_check_matrix@;
    let mut raw_x = z_code.generator_matrix.rows_to_vec();
    let mut raw_z = x_code.generator_matrix.rows_to_vec();
    let mut x_logicals: Vec<BinaryVector> = Vec::new();
    let mut z_logicals: Vec<BinaryVector> = Vec::new();
    proof {
        assert forall|t: int, j: int|
            0 <= t < raw_x@.len() && 0 <= j < hz.len() implies !(#[trigger] dot(
            raw_x@[t]@,
            hz[j],
        )) by {
            lemma_dot_sym(hz[j], raw_x@[t]@);
        }
        assert forall|t: int, j: int|
            0 <= t < raw_z@.len() && 0 <= j < hx.len() implies !(#[trigger] dot(
            raw_z@[t]@,
            hx[j],
        )) by {
            lemma_dot_sym(hx[j], raw_z@[t]@);
        }
        assert(views(raw_x@) =~= z_code.generator_matrix@);
        assert(views(raw_z@) =~= x_code.generator_matrix@);
    }
    let ghost target = paired_logicals(z_code.generator_matrix@, x_code.generator_matrix@);
    proof {
        assert(views(x_logicals@) + paired_logicals(views(raw_x@), views(raw_z@)).0 =~= target.0);
        assert(views(z_logicals@) + paired_logicals(views(raw_x@), views(raw_z@)).1 =~= target.1);
    }
    while raw_x.len() > 0
        invariant
            hx == x_code.parity_check_matrix@,
            hz == z_code.parity_check_matrix@,
            x_code.wf(),
            z_code.wf(),
            length == x_code.block_size_spec(),
            length == z_code.block_size_spec(),
            forall|i: int| 0 <= i < raw_x@.len() ==> (#[trigger] raw_x@[i])@.len() == length,
            forall|i: int| 0 <= i < raw_z@.len() ==> (#[trigger] raw_z@[i])@.len() == length,
            forall|i: int| 0 <= i < x_logicals@.len() ==> (#[trigger] x_logicals@[i])@.len()
                == length,
            forall|i: int| 0 <= i < z_logicals@.len() ==> (#[trigger] z_logicals@[i])@.len()
                == length,
            x_logicals@.len() == z_logicals@.len(),
            pool_orthogonal(raw_x@, hz),
            pool_orthogonal(raw_z@, hx),
            pool_orthogonal(x_logicals@, hz),
            pool_orthogonal(z_logicals@, hx),
            pool_commutes(raw_x@, z_logicals@),
            pool_commutes(raw_z@, x_logicals@),
            canonically_paired(x_logicals@, z_logicals@),
            target == paired_logicals(z_code.generator_matrix@, x_code.generator_matrix@),
            views(x_logicals@) + paired_logicals(views(raw_x@), views(raw_z@)).0 == target.0,
            views(z_logicals@) + paired_logicals(views(raw_x@), views(raw_z@)).1 == target.1,
        decreases raw_x@.len(),
    {
        let ghost x_pool_before = raw_x@;
        let x_generator = match raw_x.pop() {
            Some(g) => g,
            None => { unreached() },
        };
        proof {
            assert(x_generator == x_pool_before[x_pool_before.len() - 1]);
            assert forall|t: int| 0 <= t < raw_x@.len() implies #[trigger] raw_x@[t]
                == x_pool_before[t] by {}
            assert(views(raw_x@) =~= views(x_pool_before).drop_last());
            assert(x_generator@ == views(x_pool_before).last());
        }
        let partner = find_anticommuting(&x_generator, &raw_z);
        match partner {
            Some(position) => {
                let ghost z_pool_before = raw_z@;
                let z_generator = raw_z.swap_remove(position);
                proof {
                    // The survivors all come from the pool before removal.
                    assert forall|t: int| 0 <= t < raw_z@.len() implies exists|t0: int|
                        0 <= t0 < z_pool_before.len() && #[trigger] raw_z@[t]
                        == z_pool_before[t0] by {
                        if t == position {
                            assert(raw_z@[t] == z_pool_before[z_pool_before.len() - 1]);
                        } else {
                            assert(raw_z@[t] == z_pool_before[t]);
                        }
                    }
                    assert(views(raw_z@) =~= views(z_pool_before).update(
                        position as int,
                        views(z_pool_before).last(),
                    ).drop_last());
                    assert(z_generator@ == views(z_pool_before)[position as int]);
                }
                let ghost z_uncorrected = raw_z@;
                correct_pool(&mut raw_z, &x_generator, &z_generator);
                proof {
                    assert forall|t: int, j: int|
                        0 <= t < raw_z@.len() && 0 <= j < hx.len() implies !(#[trigger] dot(
                        raw_z@[t]@,
                        hx[j],
                    )) by {
                        lemma_dot_xor_sym(z_generator@, z_uncorrected[t]@, hx[j]);
                    }
                    assert forall|t: int, i: int|
                        0 <= t < raw_z@.len() && 0 <= i < x_logicals@.len() implies !(
                        #[trigger] dot(raw_z@[t]@, x_logicals@[i]@)) by {
                        lemma_dot_xor_sym(z_generator@, z_uncorrected[t]@, x_logicals@[i]@);
                    }
                    // After the correction the whole pool commutes with the
                    // popped generator.
                    assert forall|t: int| 0 <= t < raw_z@.len() implies !dot(
                        x_generator@,
                        (#[trigger] raw_z@[t])@,
                    ) by {
                        lemma_dot_xor_sym(z_generator@, z_uncorrected[t]@, x_generator@);
                    }
                    assert(views(raw_z@) =~= corrected(
                        views(z_uncorrected),
                        x_generator@,
                        z_generator@,
                    ));
                }
                let ghost x_uncorrected = raw_x@;
                correct_pool(&mut raw_x, &z_generator, &x_generator);
                proof {
                    assert forall|t: int, j: int|
                        0 <= t < raw_x@.len() && 0 <= j < hz.len() implies !(#[trigger] dot(
                        raw_x@[t]@,
                        hz[j],
                    )) by {
                        lemma_dot_xor_sym(x_generator@, x_uncorrected[t]@, hz[j]);
                    }
                    assert forall|t: int, i: int|
                        0 <= t < raw_x@.len() && 0 <= i < z_logicals@.len() implies !(
                        #[trigger] dot(raw_x@[t]@, z_logicals@[i]@)) by {
                        lemma_dot_xor_sym(x_generator@, x_uncorrected[t]@, z_logicals@[i]@);
                    }
                    // And the whole pool now commutes with the emitted
                    // partner.
                    assert forall|t: int| 0 <= t < raw_x@.len() implies !dot(
                        (#[trigger] raw_x@[t])@,
                        z_generator@,
                    ) by {
                        lemma_dot_xor_sym(x_generator@, x_uncorrected[t]@, z_generator@);
                    }
                    assert(views(raw_x@) =~= corrected(
                        views(x_uncorrected),
                        z_generator@,
                        x_generator@,
                    ));
                }
                let ghost xl_before = x_logicals@;
                let ghost zl_before = z_logicals@;
                x_logicals.push(x_generator);
                z_logicals.push(z_generator);
                proof {
                    let xl = x_logicals@;
                    let zl = z_logicals@;
                    assert forall|i: int, j: int|
                        0 <= i < xl.len() && 0 <= j < zl.len() implies (#[trigger] dot(
                        xl[i]@,
                        zl[j]@,
                    )) == (i == j) by {
                        if i < xl_before.len() && j < zl_before.len() {
                            assert(dot(xl_before[i]@, zl_before[j]@) == (i == j));
                        } else if i < xl_before.len() {
                            // An earlier X logical against the new partner,
                            // which came out of the commuting Z pool.
                            lemma_dot_sym(xl[i]@, z_generator@);
                            assert(!dot(z_generator@, xl_before[i]@));
                        } else if j < zl_before.len() {
                            // The popped generator against an earlier Z
                            // logical: it still sat in the commuting X pool.
                            assert(!dot(x_pool_before[x_pool_before.len() - 1]@, zl_before[j]@));
                        } else {
                            assert(dot(x_generator@, z_generator@));
                        }
                    }
                    assert forall|t: int, i: int|
                        0 <= t < raw_x@.len() && 0 <= i < zl.len() implies !(#[trigger] dot(
                        raw_x@[t]@,
                        zl[i]@,
                    )) by {
                        if i < zl_before.len() {
                            assert(!dot(raw_x@[t]@, zl_before[i]@));
                        } else {
                            assert(!dot(raw_x@[t]@, z_generator@));
                        }
                    }
                    assert forall|t: int, i: int|
                        0 <= t < raw_z@.len() && 0 <= i < xl.len() implies !(#[trigger] dot(
                        raw_z@[t]@,
                        xl[i]@,
                    )) by {
                        if i < xl_before.len() {
                            assert(!dot(raw_z@[t]@, xl_before[i]@));
                        } else {
                            lemma_dot_sym(raw_z@[t]@, x_generator@);
                            assert(!dot(x_generator@, raw_z@[t]@));
                        }
                    }
                    // One unfolding of the pairing recursion at the popped
                    // candidate matches the three pool updates just made.
                    let sub = paired_logicals(views(raw_x@), views(raw_z@));
                    assert(first_anticommuting_from(
                        views(z_pool_before),
                        views(x_pool_before).last(),
                        0,
                    ) == Some(position as int));
                    assert(paired_logicals(views(x_pool_before), views(z_pool_before)) == (
                    seq![x_generator@] + sub.0,
                    seq![z_generator@] + sub.1,
                    ));
                    assert(views(x_logicals@) =~= views(xl_before) + seq![x_generator@]);
                    assert(views(z_logicals@) =~= views(zl_before) + seq![z_generator@]);
                    assert((views(xl_before) + seq![x_generator@]) + sub.0 =~= views(xl_before) + (
                    seq![x_generator@] + sub.0));
                    assert((views(zl_before) + seq![z_generator@]) + sub.1 =~= views(zl_before) + (
                    seq![z_generator@] + sub.1));
                }
            },
            None => {
                proof {
                    assert(first_anticommuting_from(views(raw_z@), x_generator@, 0) is None);
                    assert(paired_logicals(views(x_pool_before), views(raw_z@))
                        == paired_logicals(views(raw_x@), views(raw_z@)));
                }
            },
        }
    }
    proof {
        assert(views(raw_x@).len() == 0);
        assert(views(x_logicals@) + Seq::<Seq<bool>>::empty() =~= views(x_logicals@));
        assert(views(z_logicals@) + Seq::<Seq<bool>>::empty() =~= views(z_logicals@));
        assert(views(x_logicals@) == target.0);
        assert(views(z_logicals@) == target.1);
    }
    let r = Css::new(
        BinaryMatrix::from_vectors(length, x_logicals),
        BinaryMatrix::from_vectors(length, z_logicals),
    );
    proof {
        assert(r.x@ =~= views(x_logicals@));
        assert(r.z@ =~= views(z_logicals@));
        assert forall|t: int, j: int|
            0 <= t < r.x@.len() && 0 <= j < hz.len() implies !(#[trigger] dot(
            r.x@[t],
            hz[j],
        )) by {
            assert(r.x@[t] == x_logicals@[t]@);
        }
        assert forall|t: int, j: int|
            0 <= t < r.z@.len() && 0 <= j < hx.len() implies !(#[trigger] dot(
            r.z@[t],
            hx[j],
        )) by {
            assert(r.z@[t] == z_logicals@[t]@);
        }
        assert forall|i: int, j: int|
            0 <= i < r.x@.len() && 0 <= j < r.z@.len() implies (#[trigger] dot(r.x@[i], r.z@[j]))
            == (i == j) by {
            assert(r.x@[i] == x_logicals@[i]@);
            assert(r.z@[j] == z_logicals@[j]@);
        }
    }
    r
}

/// Turns a pair of generator matrices into one list of binary Pauli
/// operators: the rows of the X matrix as pure X operators, then the rows
/// of the Z matrix as pure Z operators.
fn operators_of(pair: &Css<BinaryMatrix>, length: usize) -> (r: Vec<CssOperator>)
    requires
        pair.x.wf(),
        pair.z.wf(),
        pair.x.cols() == length,
        pair.z.cols() == length,
    ensures
        r@.len() == pair.x@.len() + pair.z@.len(),
        forall|i: int|
            0 <= i < pair.x@.len() ==> (#[trigger] r@[i]).x@ == pair.x@[i] && is_zero_bits(
                r@[i].z@,
            ) && r@[i].z@.len() == length,
        forall|i: int|
            0 <= i < pair.z@.len() ==> (#[trigger] r@[pair.x@.len() + i]).z@ == pair.z@[i]
                && is_zero_bits(r@[pair.x@.len() + i].x@) && r@[pair.x@.len() + i].x@.len()
                == length,
{
    let mut operators: Vec<CssOperator> = Vec::new();
    let nx = pair.x.number_of_rows();
    let mut i: usize = 0;
    while i < nx
        invariant
            pair.x.wf(),
            pair.x.cols() == length,
            nx == pair.x@.len(),
            i <= nx,
            operators@.len() == i,
            forall|i2: int|
                0 <= i2 < i ==> (#[trigger] operators@[i2]).x@ == pair.x@[i2] && is_zero_bits(
                    operators@[i2].z@,
                ) && operators@[i2].z@.len() == length,
        decreases nx - i,
    {
        let row = match pair.x.row(i) {
            Some(row) => row,
            None => { unreached() },
        };
        operators.push(Css::new(row.clone(), BinaryVector::zeros(length)));
        i += 1;
    }
    let nz = pair.z.number_of_rows();
    let mut i: usize = 0;
    while i < nz
        invariant
            pair.z.wf(),
            pair.z.cols() == length,
            nx == pair.x@.len(),
            nz == pair.z@.len(),
            i <= nz,
            operators@.len() == nx + i,
            forall|i2: int|
                0 <= i2 < nx ==> (#[trigger] operators@[i2]).x@ == pair.x@[i2] && is_zero_bits(
                    operators@[i2].z@,
                ) && operators@[i2].z@.len() == length,
            forall|i2: int|
                0 <= i2 < i ==> (#[trigger] operators@[nx + i2]).z@ == pair.z@[i2] && is_zero_bits(
                    operators@[nx + i2].x@,
                ) && operators@[nx + i2].x@.len() == length,
        decreases nz - i,
    {
        let row = match pair.z.row(i) {
            Some(row) => row,
            None => { unreached() },
        };
        operators.push(Css::new(BinaryVector::zeros(length), row.clone()));
        i += 1;
    }
    operators
}

/// The Hamming checks are pairwise orthogonal: each pair of rows shares
/// an even number of ones.
proof fn lemma_hamming_self_orthogonal()
    ensures
        orthogonal_checks(hamming_check_matrix(), hamming_check_matrix()),
{
    let h = hamming_check_matrix();
    assert forall|i: int, j: int|
        0 <= i < h.len() && 0 <= j < h.len() implies !(#[trigger] dot(h[i], h[j])) by {
        reveal_with_fuel(crate::vector::dot, 9);
        assert(h.len() == 3);
        assert(!dot(h[0], h[0]));
        assert(!dot(h[0], h[1]));
        assert(!dot(h[0], h[2]));
        assert(!dot(h[1], h[0]));
        assert(!dot(h[1], h[1]));
        assert(!dot(h[1], h[2]));
        assert(!dot(h[2], h[0]));
        assert(!dot(h[2], h[1]));
        assert(!dot(h[2], h[2]));
    }
}

/// The checks of the hypergraph product are pairwise orthogonal: the two
/// halves of each scalar product contribute the same term twice, which
/// cancels over GF(2).
proof fn lemma_hypergraph_orthogonal(
    h1: Seq<Seq<bool>>,
    h2: Seq<Seq<bool>>,
    n1: nat,
    n2: nat,
    x: Seq<Seq<bool>>,
    z: Seq<Seq<bool>>,
)
    requires
        forall|i: int| 0 <= i < h1.len() ==> (#[trigger] h1[i]).len() == n1,
        forall|i: int| 0 <= i < h2.len() ==> (#[trigger] h2[i]).len() == n2,
        x.len() == n1 * h2.len(),
        forall|i1: int, i2: int|
            0 <= i1 < n1 && 0 <= i2 < h2.len() ==> #[trigger] x[i1 * h2.len() + i2] == kron_row(
                unit_bits(n1, i1),
                h2[i2],
            ) + kron_row(col_of(h1, i1), unit_bits(h2.len(), i2)),
        z.len() == h1.len() * n2,
        forall|j1: int, j2: int|
            0 <= j1 < h1.len() && 0 <= j2 < n2 ==> #[trigger] z[j1 * n2 + j2] == kron_row(
                h1[j1],
                unit_bits(n2, j2),
            ) + kron_row(unit_bits(h1.len(), j1), col_of(h2, j2)),
    ensures
        orthogonal_checks(x, z),
{
    let m1 = h1.len();
    let m2 = h2.len();
    assert forall|i: int, j: int|
        0 <= i < x.len() && 0 <= j < z.len() implies !(#[trigger] dot(x[i], z[j])) by {
        assert(m2 > 0) by (nonlinear_arith)
            requires
                0 <= i < n1 * m2,
        ;
        assert(n2 > 0) by (nonlinear_arith)
            requires
                0 <= j < m1 * n2,
        ;
        vstd::arithmetic::div_mod::lemma_fundamental_div_mod(i, m2 as int);
        vstd::arithmetic::div_mod::lemma_fundamental_div_mod(j, n2 as int);
        let i1 = i / (m2 as int);
        let i2 = i % (m2 as int);
        let j1 = j / (n2 as int);
        let j2 = j % (n2 as int);
        assert(0 <= i1 < n1) by (nonlinear_arith)
            requires
                i == (m2 as int) * i1 + i2,
                0 <= i2 < m2,
                0 <= i < n1 * m2,
                m2 > 0,
        ;
        assert(0 <= j1 < m1) by (nonlinear_arith)
            requires
                j == (n2 as int) * j1 + j2,
                0 <= j2 < n2,
                0 <= j < m1 * n2,
                n2 > 0,
        ;
        assert(x[i1 * m2 + i2] == kron_row(unit_bits(n1, i1), h2[i2]) + kron_row(
            col_of(h1, i1),
            unit_bits(m2, i2),
        ));
        assert(z[j1 * n2 + j2] == kron_row(h1[j1], unit_bits(n2, j2)) + kron_row(
            unit_bits(m1, j1),
            col_of(h2, j2),
        ));
        let xa = kron_row(unit_bits(n1, i1), h2[i2]);
        let xb = kron_row(col_of(h1, i1), unit_bits(m2, i2));
        let za = kron_row(h1[j1], unit_bits(n2, j2));
        let zb = kron_row(unit_bits(m1, j1), col_of(h2, j2));
        assert(xa.len() == za.len()) by (nonlinear_arith)
            requires
                xa.len() == n1 * n2,
                za.len() == n1 * n2,
        ;
        assert(xb.len() == zb.len()) by (nonlinear_arith)
            requires
                xb.len() == m1 * m2,
                zb.len() == m1 * m2,
        ;
        lemma_dot_concat(xa, xb, za, zb);
        lemma_dot_kron(unit_bits(n1, i1), h2[i2], h1[j1], unit_bits(n2, j2));
        lemma_dot_kron(col_of(h1, i1), unit_bits(m2, i2), unit_bits(m1, j1), col_of(h2, j2));
        lemma_dot_unit(h1[j1], i1);
        lemma_dot_unit(h2[i2], j2);
        lemma_dot_unit(col_of(h1, i1), j1);
        lemma_dot_unit(col_of(h2, j2), i2);
        assert(dot(xa, za) == (h1[j1][i1] && h2[i2][j2]));
        assert(dot(xb, zb) == (h1[j1][i1] && h2[i2][j2]));
        assert(i == i1 * m2 + i2) by (nonlinear_arith)
            requires
                i == (m2 as int) * i1 + i2,
        ;
        assert(j == j1 * n2 + j2) by (nonlinear_arith)
            requires
                j == (n2 as int) * j1 + j2,
        ;
    }
}

/// Builds the X-type checks of the hypergraph product of two codes.
fn hypergraph_product_x_checks(first_code: &LinearCode, second_code: &LinearCode) -> (r:
    BinaryMatrix)
    requires
        first_code.wf(),
        second_code.wf(),
        first_code.block_size_spec() * second_code.block_size_spec()
            + first_code.number_of_checks_spec() * second_code.number_of_checks_spec()
            <= usize::MAX,
        first_code.block_size_spec() * second_code.number_of_checks_spec() <= usize::MAX,
    ensures
        r.wf(),
        r@.len() == first_code.block_size_spec() * second_code.number_of_checks_spec(),
        r.cols() == first_code.block_size_spec() * second_code.block_size_spec()
            + first_code.number_of_checks_spec() * second_code.number_of_checks_spec(),
        forall|i1: int, i2: int|
            0 <= i1 < first_code.block_size_spec() && 0 <= i2
                < second_code.number_of_checks_spec() ==> #[trigger] r@[i1
                * second_code.number_of_checks_spec() + i2] == kron_row(
                unit_bits(first_code.block_size_spec(), i1),
                second_code.parity_check_matrix@[i2],
            ) + kron_row(
                col_of(first_code.parity_check_matrix@, i1),
                unit_bits(second_code.number_of_checks_spec(), i2),
            ),
{
    let ghost n1 = first_code.block_size_spec();
    let ghost n2 = second_code.block_size_spec();
    let ghost m1 = first_code.number_of_checks_spec();
    let ghost m2 = second_code.number_of_checks_spec();
    let eye = BinaryMatrix::identity(first_code.block_size());
    proof {
        assert forall|i: int| 0 <= i < n1 implies #[trigger] eye@[i] == unit_bits(n1, i) by {
            assert(eye@[i] =~= unit_bits(n1, i));
        }
    }
    let left = eye.kron_with(&second_code.parity_check_matrix);
    let transposed = first_code.parity_check_matrix.transposed();
    proof {
        assert forall|i: int| 0 <= i < n1 implies #[trigger] transposed@[i] == col_of(
            first_code.parity_check_matrix@,
            i,
        ) by {
            assert(transposed@[i] =~= col_of(first_code.parity_check_matrix@, i));
        }
    }
    let eye2 = BinaryMatrix::identity(second_code.number_of_checks());
    proof {
        assert forall|i: int| 0 <= i < m2 implies #[trigger] eye2@[i] == unit_bits(m2, i) by {
            assert(eye2@[i] =~= unit_bits(m2, i));
        }
    }
    let right = transposed.kron_with(&eye2);
    let r = left.horizontal_concat_with(&right);
    proof {
        assert forall|i1: int, i2: int|
            0 <= i1 < n1 && 0 <= i2 < m2 implies #[trigger] r@[i1 * m2 + i2] == kron_row(
            unit_bits(n1, i1),
            second_code.parity_check_matrix@[i2],
        ) + kron_row(
            col_of(first_code.parity_check_matrix@, i1),
            unit_bits(m2, i2),
        ) by {
            assert(0 <= i1 * m2 + i2 < n1 * m2) by (nonlinear_arith)
                requires
                    0 <= i1 < n1,
                    0 <= i2 < m2,
            ;
            assert(left@[i1 * m2 + i2] == kron_row(eye@[i1], second_code.parity_check_matrix@[i2]));
            assert(right@[i1 * m2 + i2] == kron_row(transposed@[i1], eye2@[i2]));
        }
    }
    r
}

/// Builds the Z-type checks of the hypergraph product of two codes.
fn hypergraph_product_z_checks(first_code: &LinearCode, second_code: &LinearCode) -> (r:
    BinaryMatrix)
    requires
        first_code.wf(),
        second_code.wf(),
        first_code.block_size_spec() * second_code.block_size_spec()
            + first_code.number_of_checks_spec() * second_code.number_of_checks_spec()
            <= usize::MAX,
        first_code.number_of_checks_spec() * second_code.block_size_spec() <= usize::MAX,
    ensures
        r.wf(),
        r@.len() == first_code.number_of_checks_spec() * second_code.block_size_spec(),
        r.cols() == first_code.block_size_spec() * second_code.block_size_spec()
            + first_code.number_of_checks_spec() * second_code.number_of_checks_spec(),
        forall|j1: int, j2: int|
            0 <= j1 < first_code.number_of_checks_spec() && 0 <= j2
                < second_code.block_size_spec() ==> #[trigger] r@[j1 * second_code.block_size_spec()
                + j2] == kron_row(
                first_code.parity_check_matrix@[j1],
                unit_bits(second_code.block_size_spec(), j2),
            ) + kron_row(
                unit_bits(first_code.number_of_checks_spec(), j1),
                col_of(second_code.parity_check_matrix@, j2),
            ),
{
    let ghost n1 = first_code.block_size_spec();
    let ghost n2 = second_code.block_size_spec();
    let ghost m1 = first_code.number_of_checks_spec();
    let ghost m2 = second_code.number_of_checks_spec();
    let eye = BinaryMatrix::identity(second_code.block_size());
    proof {
        assert forall|i: int| 0 <= i < n2 implies #[trigger] eye@[i] == unit_bits(n2, i) by {
            assert(eye@[i] =~= unit_bits(n2, i));
        }
    }
    let left = first_code.parity_check_matrix.kron_with(&eye);
    let transposed = second_code.parity_check_matrix.transposed();
    proof {
        assert forall|i: int| 0 <= i < n2 implies #[trigger] transposed@[i] == col_of(
            second_code.parity_check_matrix@,
            i,
        ) by {
            assert(transposed@[i] =~= col_of(second_code.parity_check_matrix@, i));
        }
    }
    let eye1 = BinaryMatrix::identity(first_code.number_of_checks());
    proof {
        assert forall|i: int| 0 <= i < m1 implies #[trigger] eye1@[i] == unit_bits(m1, i) by {
            assert(eye1@[i] =~= unit_bits(m1, i));
        }
    }
    let right = eye1.kron_with(&transposed);
    let r = left.horizontal_concat_with(&right);
    proof {
        assert forall|j1: int, j2: int|
            0 <= j1 < m1 && 0 <= j2 < n2 implies #[trigger] r@[j1 * n2 + j2] == kron_row(
            first_code.parity_check_matrix@[j1],
            unit_bits(n2, j2),
        ) + kron_row(
            unit_bits(m1, j1),
            col_of(second_code.parity_check_matrix@, j2),
        ) by {
            assert(0 <= j1 * n2 + j2 < m1 * n2) by (nonlinear_arith)
                requires
                    0 <= j1 < m1,
                    0 <= j2 < n2,
            ;
            assert(left@[j1 * n2 + j2] == kron_row(first_code.parity_check_matrix@[j1], eye@[j2]));
            assert(right@[j1 * n2 + j2] == kron_row(eye1@[j1], transposed@[j2]));
        }
    }
    r
}

impl CssCode {
    /// Returns the hypergraph product of two linear codes: a CSS code on
    /// one qubit per (bit, bit) and per (check, check) pair, whose X and Z
    /// checks are orthogonal by construction.
    pub fn hypergraph_product(first_code: &LinearCode, second_code: &LinearCode) -> (r: Self)
        requires
            first_code.wf(),
            second_code.wf(),
            first_code.block_size_spec() * second_code.block_size_spec()
                + first_code.number_of_checks_spec() * second_code.number_of_checks_spec()
                <= usize::MAX,
            first_code.block_size_spec() * second_code.number_of_checks_spec() <= usize::MAX,
            first_code.number_of_checks_spec() * second_code.block_size_spec() <= usize::MAX,
        ensures
            r.dims_ok(),
            r.logicals_ok(),
            r.len_spec() == first_code.block_size_spec() * second_code.block_size_spec()
                + first_code.number_of_checks_spec() * second_code.number_of_checks_spec(),
            r.stabilizers.x@.len() == first_code.block_size_spec()
                * second_code.number_of_checks_spec(),
            r.stabilizers.z@.len() == first_code.number_of_checks_spec()
                * second_code.block_size_spec(),
            forall|i1: int, i2: int|
                0 <= i1 < first_code.block_size_spec() && 0 <= i2
                    < second_code.number_of_checks_spec() ==> #[trigger] r.stabilizers.x@[i1
                    * second_code.number_of_checks_spec() + i2] == kron_row(
                    unit_bits(first_code.block_size_spec(), i1),
                    second_code.parity_check_matrix@[i2],
                ) + kron_row(
                    col_of(first_code.parity_check_matrix@, i1),
                    unit_bits(second_code.number_of_checks_spec(), i2),
                ),
            forall|j1: int, j2: int|
                0 <= j1 < first_code.number_of_checks_spec() && 0 <= j2
                    < second_code.block_size_spec() ==> #[trigger] r.stabilizers.z@[j1
                    * second_code.block_size_spec() + j2] == kron_row(
                    first_code.parity_check_matrix@[j1],
                    unit_bits(second_code.block_size_spec(), j2),
                ) + kron_row(
                    unit_bits(first_code.number_of_checks_spec(), j1),
                    col_of(second_code.parity_check_matrix@, j2),
                ),
            r.stabilizers.x@ == hypergraph_x_checks(
                first_code.parity_check_matrix@,
                second_code.parity_check_matrix@,
                first_code.block_size_spec(),
                second_code.block_size_spec(),
            ),
            r.stabilizers.z@ == hypergraph_z_checks(
                first_code.parity_check_matrix@,
                second_code.parity_check_matrix@,
                first_code.block_size_spec(),
                second_code.block_size_spec(),
            ),
            r.logicals.x@ == paired_logicals(
                nullspace_of(
                    first_code.block_size_spec() * second_code.block_size_spec()
                        + first_code.number_of_checks_spec()
                            * second_code.number_of_checks_spec(),
                    nonzero_rows(
                        hypergraph_z_checks(
                            first_code.parity_check_matrix@,
                            second_code.parity_check_matrix@,
                            first_code.block_size_spec(),
                            second_code.block_size_spec(),
                        ),
                    ),
                ),
                nullspace_of(
                    first_code.block_size_spec() * second_code.block_size_spec()
                        + first_code.number_of_checks_spec()
                            * second_code.number_of_checks_spec(),
                    nonzero_rows(
                        hypergraph_x_checks(
                            first_code.parity_check_matrix@,
                            second_code.parity_check_matrix@,
                            first_code.block_size_spec(),
                            second_code.block_size_spec(),
                        ),
                    ),
                ),
            ).0,
            r.logicals.z@ == paired_logicals(
                nullspace_of(
                    first_code.block_size_spec() * second_code.block_size_spec()
                        + first_code.number_of_checks_spec()
                            * second_code.number_of_checks_spec(),
                    nonzero_rows(
                        hypergraph_z_checks(
                            first_code.parity_check_matrix@,
                            second_code.parity_check_matrix@,
                            first_code.block_size_spec(),
                            second_code.block_size_spec(),
                        ),
                    ),
                ),
                nullspace_of(
                    first_code.block_size_spec() * second_code.block_size_spec()
                        + first_code.number_of_checks_spec()
                            * second_code.number_of_checks_spec(),
                    nonzero_rows(
                        hypergraph_x_checks(
                            first_code.parity_check_matrix@,
                            second_code.parity_check_matrix@,
                            first_code.block_size_spec(),
                            second_code.block_size_spec(),
                        ),
                    ),
                ),
            ).1,
    {
        let ghost h1 = first_code.parity_check_matrix@;
        let ghost h2 = second_code.parity_check_matrix@;
        let ghost n1 = first_code.block_size_spec();
        let ghost n2 = second_code.block_size_spec();
        let ghost m1 = first_code.number_of_checks_spec();
        let ghost m2 = second_code.number_of_checks_spec();
        let x_checks = hypergraph_product_x_checks(first_code, second_code);
        let z_checks = hypergraph_product_z_checks(first_code, second_code);
        proof {
            lemma_hypergraph_orthogonal(h1, h2, n1, n2, x_checks@, z_checks@);
            assert forall|i: int|
                0 <= i < n1 * m2 implies #[trigger] x_checks@[i] == hypergraph_x_checks(
                h1,
                h2,
                n1,
                n2,
            )[i] by {
                assert(m2 > 0) by (nonlinear_arith)
                    requires
                        0 <= i < n1 * m2,
                ;
                vstd::arithmetic::div_mod::lemma_fundamental_div_mod(i, m2 as int);
                let i1 = i / (m2 as int);
                let i2 = i % (m2 as int);
                assert(0 <= i1 < n1) by (nonlinear_arith)
                    requires
                        i == (m2 as int) * i1 + i2,
                        0 <= i2 < m2,
                        0 <= i < n1 * m2,
                        m2 > 0,
                ;
                assert(i == i1 * m2 + i2) by (nonlinear_arith)
                    requires
                        i == (m2 as int) * i1 + i2,
                ;
                assert(x_checks@[i1 * m2 + i2] == kron_row(unit_bits(n1, i1), h2[i2]) + kron_row(
                    col_of(h1, i1),
                    unit_bits(m2, i2),
                ));
            }
            assert(x_checks@ =~= hypergraph_x_checks(h1, h2, n1, n2));
            assert forall|j: int|
                0 <= j < m1 * n2 implies #[trigger] z_checks@[j] == hypergraph_z_checks(
                h1,
                h2,
                n1,
                n2,
            )[j] by {
                assert(n2 > 0) by (nonlinear_arith)
                    requires
                        0 <= j < m1 * n2,
                ;
                vstd::arithmetic::div_mod::lemma_fundamental_div_mod(j, n2 as int);
                let j1 = j / (n2 as int);
                let j2 = j % (n2 as int);
                assert(0 <= j1 < m1) by (nonlinear_arith)
                    requires
                        j == (n2 as int) * j1 + j2,
                        0 <= j2 < n2,
                        0 <= j < m1 * n2,
                        n2 > 0,
                ;
                assert(j == j1 * n2 + j2) by (nonlinear_arith)
                    requires
                        j == (n2 as int) * j1 + j2,
                ;
                assert(z_checks@[j1 * n2 + j2] == kron_row(h1[j1], unit_bits(n2, j2)) + kron_row(
                    unit_bits(m1, j1),
                    col_of(h2, j2),
                ));
            }
            assert(z_checks@ =~= hypergraph_z_checks(h1, h2, n1, n2));
        }
        let x_code = LinearCode::from_parity_check_matrix(x_checks);
        let z_code = LinearCode::from_parity_check_matrix(z_checks);
        Self::new(&x_code, &z_code)
    }

    /// Returns the toric code with the given distance: the hypergraph
    /// product of the cyclic repetition code of that length with itself,
    /// with the check structure that construction gives.
    pub fn toric_code(distance: usize) -> (r: Self)
        requires
            2 <= distance,
            distance * distance + distance * distance <= usize::MAX,
        ensures
            r.dims_ok(),
            r.logicals_ok(),
            r.len_spec() == 2 * distance * distance,
            r.stabilizers.x@.len() == distance * distance,
            r.stabilizers.z@.len() == distance * distance,
            forall|i1: int, i2: int|
                0 <= i1 < distance && 0 <= i2 < distance ==> #[trigger] r.stabilizers.x@[i1
                    * distance + i2] == kron_row(
                    unit_bits(distance as nat, i1),
                    cycle_check_matrix(distance as nat)[i2],
                ) + kron_row(
                    col_of(cycle_check_matrix(distance as nat), i1),
                    unit_bits(distance as nat, i2),
                ),
            forall|j1: int, j2: int|
                0 <= j1 < distance && 0 <= j2 < distance ==> #[trigger] r.stabilizers.z@[j1
                    * distance + j2] == kron_row(
                    cycle_check_matrix(distance as nat)[j1],
                    unit_bits(distance as nat, j2),
                ) + kron_row(
                    unit_bits(distance as nat, j1),
                    col_of(cycle_check_matrix(distance as nat), j2),
                ),
            r.stabilizers.x@ == hypergraph_x_checks(
                cycle_check_matrix(distance as nat),
                cycle_check_matrix(distance as nat),
                distance as nat,
                distance as nat,
            ),
            r.stabilizers.z@ == hypergraph_z_checks(
                cycle_check_matrix(distance as nat),
                cycle_check_matrix(distance as nat),
                distance as nat,
                distance as nat,
            ),
            r.logicals.x@ == paired_logicals(
                nullspace_of(
                    (distance * distance + distance * distance) as nat,
                    nonzero_rows(
                        hypergraph_z_checks(
                            cycle_check_matrix(distance as nat),
                            cycle_check_matrix(distance as nat),
                            distance as nat,
                            distance as nat,
                        ),
                    ),
                ),
                nullspace_of(
                    (distance * distance + distance * distance) as nat,
                    nonzero_rows(
                        hypergraph_x_checks(
                            cycle_check_matrix(distance as nat),
                            cycle_check_matrix(distance as nat),
                            distance as nat,
                            distance as nat,
                        ),
                    ),
                ),
            ).0,
            r.logicals.z@ == paired_logicals(
                nullspace_of(
                    (distance * distance + distance * distance) as nat,
                    nonzero_rows(
                        hypergraph_z_checks(
                            cycle_check_matrix(distance as nat),
                            cycle_check_matrix(distance as nat),
                            distance as nat,
                            distance as nat,
                        ),
                    ),
                ),
                nullspace_of(
                    (distance * distance + distance * distance) as nat,
                    nonzero_rows(
                        hypergraph_x_checks(
                            cycle_check_matrix(distance as nat),
                            cycle_check_matrix(distance as nat),
                            distance as nat,
                            distance as nat,
                        ),
                    ),
                ),
            ).1,
    {
        let mut checks: Vec<Vec<usize>> = Vec::new();
        let mut c: usize = 0;
        while c < distance - 1
            invariant
                2 <= distance,
                c <= distance - 1,
                checks@.len() == c,
                forall|i: int|
                    0 <= i < c ==> (#[trigger] checks@[i])@.len() == 2 && checks@[i]@[0] == i
                        && checks@[i]@[1] == i + 1,
                forall|i: int, k: int|
                    0 <= i < checks@.len() && 0 <= k < checks@[i]@.len() ==> #[trigger] checks@[i]@[k]
                        < distance,
                forall|i: int, k1: int, k2: int|
                    0 <= i < checks@.len() && 0 <= k1 < k2 < checks@[i]@.len()
                        ==> #[trigger] checks@[i]@[k1] < #[trigger] checks@[i]@[k2],
            decreases distance - 1 - c,
        {
            let mut row: Vec<usize> = Vec::new();
            row.push(c);
            row.push(c + 1);
            checks.push(row);
            c += 1;
        }
        let mut last: Vec<usize> = Vec::new();
        last.push(0);
        last.push(distance - 1);
        checks.push(last);
        let matrix = BinaryMatrix::new(distance, checks);
        proof {
            assert forall|c2: int| 0 <= c2 < distance implies #[trigger] matrix@[c2]
                == cycle_check_matrix(distance as nat)[c2] by {
                let row = checks@[c2]@;
                assert(row.len() == 2);
                assert forall|j: int| 0 <= j < distance implies matrix@[c2][j]
                    == cycle_check_matrix(distance as nat)[c2][j] by {
                    if row.contains(j as usize) {
                        let w = choose|w: int| 0 <= w < row.len() && #[trigger] row[w] == j as usize;
                        assert(w == 0 || w == 1);
                    }
                    if j == row[0] as int {
                        assert(row.contains(j as usize));
                    }
                    if j == row[1] as int {
                        assert(row.contains(j as usize));
                    }
                }
                assert(matrix@[c2] =~= cycle_check_matrix(distance as nat)[c2]);
            }
            assert(matrix@ =~= cycle_check_matrix(distance as nat));
        }
        let code = LinearCode::from_parity_check_matrix(matrix);
        let r = Self::hypergraph_product(&code, &code);
        proof {
            assert(r.len_spec() == 2 * distance * distance) by (nonlinear_arith)
                requires
                    r.len_spec() == distance * distance + distance * distance,
            ;
        }
        r
    }
}

} // verus!

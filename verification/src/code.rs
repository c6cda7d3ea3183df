//! Classical linear codes given by a parity-check matrix and its dual
//! generator matrix over GF(2).

use vstd::prelude::*;

use crate::backend::{nullspace_of, rank_of};
use crate::matrix::{mat_vec_mul, nonzero_rows, BinaryMatrix};
use crate::random_code::RandomRegularCode;
use crate::vector::{dot, is_zero_bits, lemma_dot_sym, ones, support, xor_bits, BinaryVector};

verus! {

/// A non-zero entry of the parity-check matrix: bit `bit` takes part in
/// check `check`. The set of edges is the Tanner graph of the code.
#[derive(Debug, PartialEq, Eq, Clone, Copy, Hash, Structural)]
pub struct Edge {
    pub bit: usize,
    pub check: usize,
}

/// The edges of the rows of `m` before row `k`, listed row by row and, in
/// each row, by increasing bit.
pub open spec fn edges_up_to(m: Seq<Seq<bool>>, k: int) -> Seq<Edge>
    decreases k,
{
    if k <= 0 {
        Seq::empty()
    } else {
        edges_up_to(m, k - 1) + support(m[k - 1]).map_values(
            |b: usize| Edge { bit: b, check: (k - 1) as usize },
        )
    }
}

/// The parity-check matrix of the Hamming code on 7 bits, row by row.
pub open spec fn hamming_check_matrix() -> Seq<Seq<bool>> {
    seq![
        seq![false, false, false, true, true, true, true],
        seq![false, true, true, false, false, true, true],
        seq![true, false, true, false, true, false, true],
    ]
}

/// The selection of generators encoded by the low bits of a mask.
pub open spec fn mask_selection(mask: u64, k: nat) -> Seq<bool> {
    Seq::new(k, |t: int| ((mask >> t) & 1) == 1)
}

/// The sum of the first `t` rows of `g` selected by `sel`.
pub open spec fn selected_sum_up_to(g: Seq<Seq<bool>>, ncols: nat, sel: Seq<bool>, t: int) -> Seq<
    bool,
>
    decreases t,
{
    if t <= 0 {
        Seq::new(ncols, |i: int| false)
    } else if sel[t - 1] {
        xor_bits(selected_sum_up_to(g, ncols, sel, t - 1), g[t - 1])
    } else {
        selected_sum_up_to(g, ncols, sel, t - 1)
    }
}

/// The weight of the sum of the generator rows selected by a mask.
pub open spec fn subset_weight(g: Seq<Seq<bool>>, ncols: nat, mask: u64) -> nat {
    ones(selected_sum_up_to(g, ncols, mask_selection(mask, g.len()), g.len() as int))
}

/// A linear code, defined by a parity-check matrix `H` whose null space is
/// the codespace, together with a generator matrix `G` whose rows generate
/// that null space, and the transpose of `H`, which gives for each bit the
/// checks it takes part in.
///
/// The invariant `wf` ties the three together; in particular every row of
/// `G` is orthogonal to every row of `H`.
#[derive(Debug, Clone, PartialEq, Eq)]
pub struct LinearCode {
    pub parity_check_matrix: BinaryMatrix,
    pub generator_matrix: BinaryMatrix,
    pub bit_adjacencies: BinaryMatrix,
}

impl LinearCode {
    /// The well-formedness invariant: consistent dimensions, the bit
    /// adjacencies are the transposed parity-check matrix, and the two
    /// matrices are orthogonal.
    pub open spec fn wf(&self) -> bool {
        &&& self.parity_check_matrix.wf()
        &&& self.generator_matrix.wf()
        &&& self.bit_adjacencies.wf()
        &&& self.generator_matrix.cols() == self.parity_check_matrix.cols()
        &&& self.bit_adjacencies@.len() == self.parity_check_matrix.cols()
        &&& self.bit_adjacencies.cols() == self.parity_check_matrix@.len()
        &&& forall|b: int, c: int|
            0 <= b < self.parity_check_matrix.cols() && 0 <= c < self.parity_check_matrix@.len()
                ==> #[trigger] self.bit_adjacencies@[b][c] == self.parity_check_matrix@[c][b]
        &&& forall|i: int, j: int|
            0 <= i < self.parity_check_matrix@.len() && 0 <= j < self.generator_matrix@.len()
                ==> !(#[trigger] dot(self.parity_check_matrix@[i], self.generator_matrix@[j]))
    }

    /// Creates a linear code from its parity-check matrix; the generator
    /// matrix is computed as a basis of its null space.
    pub fn from_parity_check_matrix(parity_check_matrix: BinaryMatrix) -> (r: Self)
        requires
            parity_check_matrix.wf(),
        ensures
            r.wf(),
            r.parity_check_matrix == parity_check_matrix,
            r.generator_matrix@ == nullspace_of(
                parity_check_matrix.cols(),
                nonzero_rows(parity_check_matrix@),
            ),
            r.generator_matrix@.len() + rank_of(
                parity_check_matrix.cols(),
                nonzero_rows(parity_check_matrix@),
            ) == parity_check_matrix.cols(),
    {
        let generator_matrix = parity_check_matrix.nullspace();
        let bit_adjacencies = parity_check_matrix.transposed();
        LinearCode { parity_check_matrix, generator_matrix, bit_adjacencies }
    }

    /// Creates a linear code from its generator matrix; the parity-check
    /// matrix is computed as a basis of its null space.
    pub fn from_generator_matrix(generator_matrix: BinaryMatrix) -> (r: Self)
        requires
            generator_matrix.wf(),
        ensures
            r.wf(),
            r.generator_matrix == generator_matrix,
            r.parity_check_matrix@ == nullspace_of(
                generator_matrix.cols(),
                nonzero_rows(generator_matrix@),
            ),
            r.parity_check_matrix@.len() + rank_of(
                generator_matrix.cols(),
                nonzero_rows(generator_matrix@),
            ) == generator_matrix.cols(),
    {
        let parity_check_matrix = generator_matrix.nullspace();
        let bit_adjacencies = parity_check_matrix.transposed();
        proof {
            assert forall|i: int, j: int|
                0 <= i < parity_check_matrix@.len() && 0 <= j < generator_matrix@.len()
                    implies !(#[trigger] dot(parity_check_matrix@[i], generator_matrix@[j])) by {
                lemma_dot_sym(parity_check_matrix@[i], generator_matrix@[j]);
            }
        }
        LinearCode { parity_check_matrix, generator_matrix, bit_adjacencies }
    }

    /// Returns the repetition code with the given block size: its single
    /// generator is the all-ones word.
    pub fn repetition_code(block_size: usize) -> (r: Self)
        ensures
            r.wf(),
            r.block_size_spec() == block_size,
            r.generator_matrix@.len() == 1,
            forall|j: int| 0 <= j < block_size ==> r.generator_matrix@[0][j],
    {
        let mut positions: Vec<usize> = Vec::new();
        let mut i: usize = 0;
        while i < block_size
            invariant
                i <= block_size,
                positions@.len() == i,
                forall|k: int| 0 <= k < i ==> #[trigger] positions@[k] == k,
            decreases block_size - i,
        {
            positions.push(i);
            i += 1;
        }
        let generator_matrix = BinaryMatrix::new(block_size, vec![positions]);
        proof {
            assert forall|j: int| 0 <= j < block_size implies generator_matrix@[0][j] by {
                assert(positions@[j] == j);
                assert(positions@.contains(j as usize));
            }
        }
        Self::from_generator_matrix(generator_matrix)
    }

    /// Returns the Hamming code on 7 bits with 3 checks.
    pub fn hamming_code() -> (r: Self)
        ensures
            r.wf(),
            r.block_size_spec() == 7,
            r.number_of_checks_spec() == 3,
            r.parity_check_matrix@ == hamming_check_matrix(),
            r.generator_matrix@ == nullspace_of(7, nonzero_rows(hamming_check_matrix())),
    {
        let parity_check_matrix = BinaryMatrix::new(
            7,
            vec![vec![3, 4, 5, 6], vec![1, 2, 5, 6], vec![0, 2, 4, 6]],
        );
        proof {
            assert(parity_check_matrix@[0] =~= hamming_check_matrix()[0]);
            assert(parity_check_matrix@[1] =~= hamming_check_matrix()[1]);
            assert(parity_check_matrix@[2] =~= hamming_check_matrix()[2]);
            assert(parity_check_matrix@ =~= hamming_check_matrix());
        }
        Self::from_parity_check_matrix(parity_check_matrix)
    }

    /// Returns a code of length 0 encoding 0 bits and without checks.
    ///
    /// This is mostly useful as a place holder.
    pub fn empty() -> (r: Self)
        ensures
            r.wf(),
            r.block_size_spec() == 0,
    {
        Self::from_parity_check_matrix(BinaryMatrix::empty())
    }

    /// Returns a builder for random LDPC codes with a regular parity
    /// check matrix.
    pub fn random_regular_code() -> (r: RandomRegularCode)
        ensures
            r.block_size == 0,
            r.number_of_checks == 0,
            r.bit_degree == 0,
            r.check_degree == 0,
    {
        RandomRegularCode::default()
    }

    /// The number of bits of the code, as a mathematical value.
    pub open spec fn block_size_spec(&self) -> nat {
        self.parity_check_matrix.cols()
    }

    /// The number of checks of the code, as a mathematical value.
    pub open spec fn number_of_checks_spec(&self) -> nat {
        self.parity_check_matrix@.len()
    }

    /// Returns the number of bits in the code.
    pub fn block_size(&self) -> (r: usize)
        ensures
            r == self.block_size_spec(),
    {
        self.parity_check_matrix.number_of_columns()
    }

    /// Returns the number of rows of the parity check matrix of the code.
    pub fn number_of_checks(&self) -> (r: usize)
        ensures
            r == self.number_of_checks_spec(),
    {
        self.parity_check_matrix.number_of_rows()
    }

    /// Returns the number of rows of the generator matrix of the code.
    pub fn number_of_generators(&self) -> (r: usize)
        ensures
            r == self.generator_matrix@.len(),
    {
        self.generator_matrix.number_of_rows()
    }

    /// Returns the number of linearly independent codewords.
    pub fn dimension(&self) -> (r: usize)
        requires
            self.wf(),
        ensures
            r == rank_of(self.generator_matrix.cols(), self.generator_matrix@),
    {
        self.generator_matrix.rank()
    }

    /// Returns the parity check matrix of the code.
    pub fn parity_check_matrix(&self) -> (r: &BinaryMatrix)
        ensures
            r == &self.parity_check_matrix,
    {
        &self.parity_check_matrix
    }

    /// Returns the generator matrix of the code.
    pub fn generator_matrix(&self) -> (r: &BinaryMatrix)
        ensures
            r == &self.generator_matrix,
    {
        &self.generator_matrix
    }

    /// Returns a matrix where the value in row i correspond to the checks
    /// connected to bit i.
    pub fn bit_adjacencies(&self) -> (r: &BinaryMatrix)
        ensures
            r == &self.bit_adjacencies,
    {
        &self.bit_adjacencies
    }

    /// Returns the check at the given index, that is, the row of the
    /// parity check matrix with that index, or `None` if out of bounds.
    pub fn check(&self, index: usize) -> (r: Option<&BinaryVector>)
        ensures
            index < self.number_of_checks_spec() ==> r is Some && r->0@
                == self.parity_check_matrix@[index as int],
            index >= self.number_of_checks_spec() ==> r is None,
    {
        self.parity_check_matrix.row(index)
    }

    /// Returns the generator at the given index, that is, the row of the
    /// generator matrix with that index, or `None` if out of bounds.
    pub fn generator(&self, index: usize) -> (r: Option<&BinaryVector>)
        ensures
            index < self.generator_matrix@.len() ==> r is Some && r->0@
                == self.generator_matrix@[index as int],
            index >= self.generator_matrix@.len() ==> r is None,
    {
        self.generator_matrix.row(index)
    }

    /// Returns the checks adjacent to the given bit, or `None` if the bit
    /// is out of bounds.
    pub fn checks_adjacent_to_bit(&self, bit: usize) -> (r: Option<&BinaryVector>)
        ensures
            bit < self.bit_adjacencies@.len() ==> r is Some && r->0@
                == self.bit_adjacencies@[bit as int],
            bit >= self.bit_adjacencies@.len() ==> r is None,
    {
        self.bit_adjacencies.row(bit)
    }

    /// Returns the product of the parity check matrix with the given
    /// message: one parity bit per check.
    pub fn syndrome_of(&self, message: &BinaryVector) -> (r: BinaryVector)
        requires
            self.wf(),
            message@.len() == self.block_size_spec(),
        ensures
            r@ == mat_vec_mul(self.parity_check_matrix@, message@),
            r@.len() == self.number_of_checks_spec(),
    {
        self.parity_check_matrix.mul_vec(message)
    }

    /// Checks if a message has zero syndrome, that is, whether it belongs
    /// to the codespace.
    pub fn has_codeword(&self, operator: &BinaryVector) -> (r: bool)
        requires
            self.wf(),
            operator@.len() == self.block_size_spec(),
        ensures
            r == is_zero_bits(mat_vec_mul(self.parity_check_matrix@, operator@)),
    {
        self.syndrome_of(operator).is_zero()
    }

    /// Checks if two codes define the same codespace: they have the same
    /// block size and each generator of the one satisfies each check of
    /// the other.
    pub fn has_same_codespace_as(&self, other: &Self) -> (r: bool)
        requires
            self.wf(),
            other.wf(),
        ensures
            r == (self.block_size_spec() == other.block_size_spec() && forall|i: int, j: int|
                0 <= i < self.number_of_checks_spec() && 0 <= j < other.generator_matrix@.len()
                    ==> !(#[trigger] dot(self.parity_check_matrix@[i], other.generator_matrix@[j]))),
    {
        if self.block_size() != other.block_size() {
            return false;
        }
        let product = self.parity_check_matrix.mul_transposed(&other.generator_matrix);
        let r = product.is_zero();
        proof {
            if r {
                assert forall|i: int, j: int|
                    0 <= i < self.number_of_checks_spec() && 0 <= j
                        < other.generator_matrix@.len() implies !(#[trigger] dot(
                    self.parity_check_matrix@[i],
                    other.generator_matrix@[j],
                )) by {
                    assert(is_zero_bits(product@[i]));
                    assert(!product@[i][j]);
                }
            } else {
                let (i, j) = choose|i: int, j: int|
                    0 <= i < product@.len() && 0 <= j < product.cols() && #[trigger] product@[i][j];
                assert(dot(self.parity_check_matrix@[i], other.generator_matrix@[j]));
            }
        }
        r
    }

    /// Returns the weight of the smallest non-trivial codeword among all
    /// sums of generators, or `None` if every such sum is zero.
    ///
    /// The running time grows exponentially with the number of generators;
    /// this is meant for small test codes only.
    pub fn minimal_distance(&self) -> (r: Option<usize>)
        requires
            self.wf(),
            self.generator_matrix@.len() < 64,
        ensures
            ({
                let g = self.generator_matrix@;
                let n = self.block_size_spec();
                let total = 1u64 << g.len() as u64;
                match r {
                    None => forall|mask: u64|
                        1 <= mask < total ==> subset_weight(g, n, mask) == 0,
                    Some(w) => w > 0 && (exists|mask: u64|
                        1 <= mask < total && subset_weight(g, n, mask) == w) && (forall|mask: u64|
                        1 <= mask < total ==> subset_weight(g, n, mask) == 0 || subset_weight(
                            g,
                            n,
                            mask,
                        ) >= w),
                }
            }),
    {
        let ghost g = self.generator_matrix@;
        let ghost n = self.block_size_spec();
        let k = self.generator_matrix.number_of_rows();
        let block = self.block_size();
        let total: u64 = 1u64 << (k as u64);
        proof {
            assert(total >= 1) by (bit_vector)
                requires
                    total == 1u64 << (k as u64),
                    k < 64,
            ;
        }
        let mut best: Option<usize> = None;
        let mut mask: u64 = 1;
        while mask < total
            invariant
                self.wf(),
                g == self.generator_matrix@,
                n == self.block_size_spec(),
                k == g.len(),
                block == n,
                total == 1u64 << (k as u64),
                k < 64,
                1 <= mask,
                mask <= total,
                match best {
                    None => forall|m: u64| 1 <= m < mask ==> subset_weight(g, n, m) == 0,
                    Some(w) => w > 0 && (exists|m: u64|
                        1 <= m < mask && subset_weight(g, n, m) == w) && (forall|m: u64|
                        1 <= m < mask ==> subset_weight(g, n, m) == 0 || subset_weight(g, n, m)
                            >= w),
                },
            decreases total - mask,
        {
            let ghost sel = mask_selection(mask, k as nat);
            let mut acc = BinaryVector::zeros(block);
            let mut t: usize = 0;
            while t < k
                invariant
                    self.wf(),
                    g == self.generator_matrix@,
                    n == self.block_size_spec(),
                    k == g.len(),
                    block == n,
                    t <= k,
                    k < 64,
                    sel == mask_selection(mask, k as nat),
                    acc@ == selected_sum_up_to(g, n, sel, t as int),
                    acc@.len() == n,
                decreases k - t,
            {
                let row = match self.generator_matrix.row(t) {
                    Some(row) => row,
                    None => { unreached() },
                };
                if (mask >> (t as u64)) & 1 == 1 {
                    assert(sel[t as int]);
                    acc = acc.xor_with(row);
                } else {
                    assert(!sel[t as int]);
                }
                t += 1;
            }
            let w = acc.weight();
            proof {
                assert(w == subset_weight(g, n, mask));
            }
            if w > 0 {
                best = match best {
                    None => Some(w),
                    Some(b) => if w < b {
                        Some(w)
                    } else {
                        Some(b)
                    },
                };
            }
            mask += 1;
        }
        best
    }

    /// Returns all edges of the Tanner graph of the parity check matrix,
    /// listed check by check and, within a check, by increasing bit.
    pub fn edges(&self) -> (r: Vec<Edge>)
        requires
            self.wf(),
        ensures
            r@ == edges_up_to(self.parity_check_matrix@, self.number_of_checks_spec() as int),
    {
        let m = self.parity_check_matrix.number_of_rows();
        let mut edges: Vec<Edge> = Vec::new();
        let mut c: usize = 0;
        while c < m
            invariant
                self.wf(),
                m == self.number_of_checks_spec(),
                c <= m,
                edges@ == edges_up_to(self.parity_check_matrix@, c as int),
            decreases m - c,
        {
            let row = match self.parity_check_matrix.row(c) {
                Some(row) => row,
                None => { unreached() },
            };
            let positions = row.to_positions_vec();
            let ghost mapped = support(self.parity_check_matrix@[c as int]).map_values(
                |b: usize| Edge { bit: b, check: c },
            );
            let mut k: usize = 0;
            while k < positions.len()
                invariant
                    k <= positions@.len(),
                    positions@ == support(self.parity_check_matrix@[c as int]),
                    mapped == support(self.parity_check_matrix@[c as int]).map_values(
                        |b: usize| Edge { bit: b, check: c },
                    ),
                    c < m,
                    m == self.number_of_checks_spec(),
                    edges@ == edges_up_to(self.parity_check_matrix@, c as int) + mapped.take(
                        k as int,
                    ),
                decreases positions@.len() - k,
            {
                edges.push(Edge { bit: positions[k], check: c });
                k += 1;
                proof {
                    assert(mapped.take(k as int) =~= mapped.take(k as int - 1).push(
                        mapped[k as int - 1],
                    ));
                }
            }
            c += 1;
            proof {
                assert(mapped.take(mapped.len() as int) =~= mapped);
                assert(edges@ == edges_up_to(self.parity_check_matrix@, c as int));
            }
        }
        edges
    }
}

/// Generator/parity-check duality: in a well-formed code the product of
/// the parity-check matrix with the transpose of the generator matrix is
/// zero, so every generator satisfies every check. Constructions establish
/// this and it is preserved for the life of the code.
pub proof fn lemma_parity_generator_duality(code: LinearCode)
    requires
        code.wf(),
    ensures
        forall|i: int, j: int|
            0 <= i < code.parity_check_matrix@.len() && 0 <= j < code.generator_matrix@.len()
                ==> !(#[trigger] dot(code.parity_check_matrix@[i], code.generator_matrix@[j])),
        forall|j: int|
            0 <= j < code.generator_matrix@.len() ==> is_zero_bits(
                #[trigger] mat_vec_mul(code.parity_check_matrix@, code.generator_matrix@[j]),
            ),
{
    assert forall|j: int|
        0 <= j < code.generator_matrix@.len() implies is_zero_bits(
        #[trigger] mat_vec_mul(code.parity_check_matrix@, code.generator_matrix@[j]),
    ) by {
        assert forall|c: int|
            0 <= c < code.parity_check_matrix@.len() implies !mat_vec_mul(
            code.parity_check_matrix@,
            code.generator_matrix@[j],
        )[c] by {
            assert(!dot(code.parity_check_matrix@[c], code.generator_matrix@[j]));
        }
    }
}

} // verus!

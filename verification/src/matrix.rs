//! Binary matrices over GF(2), modelled as sequences of rows of bits.

use vstd::prelude::*;

use crate::backend::{nullspace_of, nullspace_raw, positions_model, positions_wf, rank_of, rank_raw};
use crate::vector::{
    bits_of, dot, is_zero_bits, lemma_bits_of_support, lemma_dot_sym, lemma_dot_zero,
    lemma_support, support, BinaryVector,
};

verus! {

/// The product of a matrix with a vector: one parity bit per row.
pub open spec fn mat_vec_mul(m: Seq<Seq<bool>>, v: Seq<bool>) -> Seq<bool> {
    Seq::new(m.len(), |c: int| dot(m[c], v))
}

/// One column of a matrix, read top to bottom.
pub open spec fn col_of(m: Seq<Seq<bool>>, j: int) -> Seq<bool> {
    Seq::new(m.len(), |i: int| m[i][j])
}

/// The rows of a matrix that are not all zero, in order.
pub open spec fn nonzero_rows(m: Seq<Seq<bool>>) -> Seq<Seq<bool>>
    decreases m.len(),
{
    if m.len() == 0 {
        Seq::empty()
    } else if is_zero_bits(m.last()) {
        nonzero_rows(m.drop_last())
    } else {
        nonzero_rows(m.drop_last()).push(m.last())
    }
}

/// Whether every entry of a matrix is zero.
pub open spec fn is_zero_mat(m: Seq<Seq<bool>>) -> bool {
    forall|i: int| 0 <= i < m.len() ==> is_zero_bits(#[trigger] m[i])
}

/// A binary matrix, stored densely row by row.
#[derive(Debug, PartialEq, Eq)]
pub struct BinaryMatrix {
    ncols: usize,
    rows: Vec<BinaryVector>,
}

impl Clone for BinaryMatrix {
    /// Returns a matrix with the same entries.
    fn clone(&self) -> (r: Self)
        ensures
            r@ == self@,
            r.cols() == self.cols(),
    {
        let mut rows: Vec<BinaryVector> = Vec::new();
        let mut i: usize = 0;
        while i < self.rows.len()
            invariant
                i <= self.rows@.len(),
                rows@.len() == i,
                forall|i2: int| 0 <= i2 < i ==> (#[trigger] rows@[i2])@ == self.rows@[i2]@,
            decreases self.rows@.len() - i,
        {
            rows.push(self.rows[i].clone());
            i += 1;
        }
        let r = BinaryMatrix { ncols: self.ncols, rows };
        proof {
            r.lemma_rows_view();
            self.lemma_rows_view();
            assert(r@ =~= self@);
        }
        r
    }
}

impl View for BinaryMatrix {
    type V = Seq<Seq<bool>>;

    closed spec fn view(&self) -> Seq<Seq<bool>> {
        self.rows@.map_values(|r: BinaryVector| r@)
    }
}

impl BinaryMatrix {
    /// The number of columns, as a mathematical value.
    pub closed spec fn cols(&self) -> nat {
        self.ncols as nat
    }

    /// A well-formed matrix: every row has exactly `cols` bits.
    pub open spec fn wf(&self) -> bool {
        forall|i: int| 0 <= i < self@.len() ==> (#[trigger] self@[i]).len() == self.cols()
    }

    /// The rows of the model are exactly the views of the stored rows.
    proof fn lemma_rows_view(&self)
        ensures
            self@.len() == self.rows@.len(),
            forall|i: int| 0 <= i < self@.len() ==> self@[i] == (#[trigger] self.rows@[i])@,
    {
    }

    /// Creates a matrix with the given number of columns from a list of
    /// rows, each row being the strictly increasing list of the positions
    /// of its ones.
    pub fn new(number_of_columns: usize, rows: Vec<Vec<usize>>) -> (r: Self)
        requires
            forall|i: int, k: int|
                0 <= i < rows@.len() && 0 <= k < rows@[i]@.len() ==> #[trigger] rows@[i]@[k]
                    < number_of_columns,
            forall|i: int, k1: int, k2: int|
                0 <= i < rows@.len() && 0 <= k1 < k2 < rows@[i]@.len() ==> #[trigger] rows@[i]@[k1]
                    < #[trigger] rows@[i]@[k2],
        ensures
            r.wf(),
            r.cols() == number_of_columns,
            r@.len() == rows@.len(),
            forall|i: int|
                0 <= i < rows@.len() ==> r@[i] == bits_of(
                    number_of_columns as nat,
                    (#[trigger] rows@[i])@,
                ),
    {
        Self::from_supports(number_of_columns, &rows)
    }

    /// Creates a matrix from rows given as lists of positions of ones, in
    /// any order.
    pub fn from_supports(number_of_columns: usize, rows: &Vec<Vec<usize>>) -> (r: Self)
        requires
            forall|i: int, k: int|
                0 <= i < rows@.len() && 0 <= k < rows@[i]@.len() ==> #[trigger] rows@[i]@[k]
                    < number_of_columns,
        ensures
            r.wf(),
            r.cols() == number_of_columns,
            r@.len() == rows@.len(),
            forall|i: int|
                0 <= i < rows@.len() ==> r@[i] == bits_of(
                    number_of_columns as nat,
                    (#[trigger] rows@[i])@,
                ),
    {
        let mut dense: Vec<BinaryVector> = Vec::new();
        let mut i: usize = 0;
        while i < rows.len()
            invariant
                i <= rows@.len(),
                dense@.len() == i,
                forall|i2: int, k: int|
                    0 <= i2 < rows@.len() && 0 <= k < rows@[i2]@.len() ==> #[trigger] rows@[i2]@[k]
                        < number_of_columns,
                forall|i2: int|
                    0 <= i2 < i ==> dense@[i2]@ == bits_of(
                        number_of_columns as nat,
                        (#[trigger] rows@[i2])@,
                    ),
            decreases rows@.len() - i,
        {
            dense.push(BinaryVector::from_support(number_of_columns, &rows[i]));
            i += 1;
        }
        let r = BinaryMatrix { ncols: number_of_columns, rows: dense };
        proof {
            r.lemma_rows_view();
            assert forall|i2: int| 0 <= i2 < r@.len() implies (#[trigger] r@[i2]).len()
                == r.cols() by {
                assert(r@[i2] == r.rows@[i2]@);
                assert(r.rows@[i2]@ == bits_of(number_of_columns as nat, rows@[i2]@));
            }
        }
        r
    }

    /// Creates a matrix from a list of rows of equal length.
    pub fn from_vectors(number_of_columns: usize, rows: Vec<BinaryVector>) -> (r: Self)
        requires
            forall|i: int| 0 <= i < rows@.len() ==> (#[trigger] rows@[i])@.len() == number_of_columns,
        ensures
            r.wf(),
            r.cols() == number_of_columns,
            r@ == rows@.map_values(|v: BinaryVector| v@),
    {
        BinaryMatrix { ncols: number_of_columns, rows }
    }

    /// Creates a matrix with zero rows and zero columns.
    pub fn empty() -> (r: Self)
        ensures
            r.wf(),
            r.cols() == 0,
            r@.len() == 0,
    {
        BinaryMatrix { ncols: 0, rows: Vec::new() }
    }

    /// Creates an all-zero matrix with the given dimensions.
    pub fn zeros(number_of_rows: usize, number_of_columns: usize) -> (r: Self)
        ensures
            r.wf(),
            r.cols() == number_of_columns,
            r@.len() == number_of_rows,
            forall|i: int| 0 <= i < number_of_rows ==> is_zero_bits(#[trigger] r@[i]),
    {
        let mut rows: Vec<BinaryVector> = Vec::new();
        let mut i: usize = 0;
        while i < number_of_rows
            invariant
                i <= number_of_rows,
                rows@.len() == i,
                forall|i2: int|
                    0 <= i2 < i ==> (#[trigger] rows@[i2])@.len() == number_of_columns
                        && is_zero_bits(rows@[i2]@),
            decreases number_of_rows - i,
        {
            rows.push(BinaryVector::zeros(number_of_columns));
            i += 1;
        }
        let r = BinaryMatrix { ncols: number_of_columns, rows };
        proof {
            r.lemma_rows_view();
        }
        r
    }

    /// Creates the identity matrix with the given size.
    pub fn identity(length: usize) -> (r: Self)
        ensures
            r.wf(),
            r.cols() == length,
            r@.len() == length,
            forall|i: int, j: int| 0 <= i < length && 0 <= j < length ==> r@[i][j] == (i == j),
    {
        let mut rows: Vec<BinaryVector> = Vec::new();
        let mut i: usize = 0;
        while i < length
            invariant
                i <= length,
                rows@.len() == i,
                forall|i2: int|
                    0 <= i2 < i ==> (#[trigger] rows@[i2])@.len() == length,
                forall|i2: int, j: int|
                    0 <= i2 < i && 0 <= j < length ==> rows@[i2]@[j] == (i2 == j),
            decreases length - i,
        {
            let row = BinaryVector::new(length, vec![i]);
            proof {
                let ghost positions = seq![i];
                assert forall|j: int| 0 <= j < length implies row@[j] == (i as int == j) by {
                    if j == i as int {
                        assert(positions[0] == i);
                        assert(positions.contains(j as usize));
                    } else {
                        if positions.contains(j as usize) {
                            let w = choose|w: int|
                                0 <= w < positions.len() && positions[w] == j as usize;
                            assert(w == 0);
                            assert(false);
                        }
                    }
                }
            }
            rows.push(row);
            i += 1;
        }
        let r = BinaryMatrix { ncols: length, rows };
        proof {
            r.lemma_rows_view();
        }
        r
    }

    /// Returns the number of rows.
    pub fn number_of_rows(&self) -> (r: usize)
        ensures
            r == self@.len(),
    {
        self.rows.len()
    }

    /// Returns the number of columns.
    pub fn number_of_columns(&self) -> (r: usize)
        ensures
            r == self.cols(),
    {
        self.ncols
    }

    /// Returns the row at the given index, or `None` if out of bounds.
    pub fn row(&self, index: usize) -> (r: Option<&BinaryVector>)
        ensures
            index < self@.len() ==> r is Some && r->0@ == self@[index as int],
            index >= self@.len() ==> r is None,
    {
        if index < self.rows.len() {
            Some(&self.rows[index])
        } else {
            None
        }
    }

    /// Returns whether every entry is zero.
    pub fn is_zero(&self) -> (r: bool)
        ensures
            r == is_zero_mat(self@),
    {
        let mut i: usize = 0;
        while i < self.rows.len()
            invariant
                i <= self@.len(),
                forall|i2: int| 0 <= i2 < i ==> is_zero_bits(#[trigger] self@[i2]),
            decreases self@.len() - i,
        {
            proof {
                self.lemma_rows_view();
            }
            if !self.rows[i].is_zero() {
                return false;
            }
            i += 1;
        }
        true
    }

    /// Returns the product of this matrix with a vector.
    pub fn mul_vec(&self, v: &BinaryVector) -> (r: BinaryVector)
        requires
            self.wf(),
            v@.len() == self.cols(),
        ensures
            r@ == mat_vec_mul(self@, v@),
            r@.len() == self@.len(),
    {
        let mut bits: Vec<bool> = Vec::new();
        let mut c: usize = 0;
        while c < self.rows.len()
            invariant
                self.wf(),
                v@.len() == self.cols(),
                c <= self@.len(),
                bits@.len() == c,
                forall|c2: int| 0 <= c2 < c ==> bits@[c2] == dot(self@[c2], v@),
            decreases self@.len() - c,
        {
            proof {
                self.lemma_rows_view();
            }
            bits.push(self.rows[c].dot_with(v));
            c += 1;
        }
        proof {
            assert(bits@ =~= mat_vec_mul(self@, v@));
        }
        BinaryVector::from_bits(bits)
    }

    /// Returns the transpose of this matrix.
    pub fn transposed(&self) -> (r: Self)
        requires
            self.wf(),
        ensures
            r.wf(),
            r.cols() == self@.len(),
            r@.len() == self.cols(),
            forall|i: int, j: int|
                0 <= i < self@.len() && 0 <= j < self.cols() ==> r@[j][i] == self@[i][j],
    {
        let nrows = self.rows.len();
        let mut rows: Vec<BinaryVector> = Vec::new();
        let mut j: usize = 0;
        while j < self.ncols
            invariant
                self.wf(),
                nrows == self@.len(),
                j <= self.cols(),
                rows@.len() == j,
                forall|j2: int| 0 <= j2 < j ==> (#[trigger] rows@[j2])@.len() == nrows,
                forall|j2: int, i: int|
                    0 <= j2 < j && 0 <= i < nrows ==> rows@[j2]@[i] == self@[i][j2],
            decreases self.cols() - j,
        {
            let mut bits: Vec<bool> = Vec::new();
            let mut i: usize = 0;
            while i < nrows
                invariant
                    self.wf(),
                    nrows == self@.len(),
                    j < self.cols(),
                    i <= nrows,
                    bits@.len() == i,
                    forall|i2: int| 0 <= i2 < i ==> bits@[i2] == self@[i2][j as int],
                decreases nrows - i,
            {
                proof {
                    self.lemma_rows_view();
                }
                bits.push(self.rows[i].get(j));
                i += 1;
            }
            rows.push(BinaryVector::from_bits(bits));
            j += 1;
        }
        let r = BinaryMatrix { ncols: nrows, rows };
        proof {
            r.lemma_rows_view();
        }
        r
    }

    /// Returns the product of this matrix with the transpose of another:
    /// the entry at (i, j) is the scalar product of row i of this matrix
    /// with row j of the other.
    pub fn mul_transposed(&self, other: &Self) -> (r: Self)
        requires
            self.wf(),
            other.wf(),
            self.cols() == other.cols(),
        ensures
            r.wf(),
            r@.len() == self@.len(),
            r.cols() == other@.len(),
            forall|i: int, j: int|
                0 <= i < self@.len() && 0 <= j < other@.len() ==> r@[i][j] == dot(
                    self@[i],
                    other@[j],
                ),
    {
        let ocols = other.rows.len();
        let mut rows: Vec<BinaryVector> = Vec::new();
        let mut i: usize = 0;
        while i < self.rows.len()
            invariant
                self.wf(),
                other.wf(),
                self.cols() == other.cols(),
                ocols == other@.len(),
                i <= self@.len(),
                rows@.len() == i,
                forall|i2: int| 0 <= i2 < i ==> (#[trigger] rows@[i2])@.len() == ocols,
                forall|i2: int, j: int|
                    0 <= i2 < i && 0 <= j < ocols ==> rows@[i2]@[j] == dot(self@[i2], other@[j]),
            decreases self@.len() - i,
        {
            let mut bits: Vec<bool> = Vec::new();
            let mut j: usize = 0;
            while j < ocols
                invariant
                    self.wf(),
                    other.wf(),
                    self.cols() == other.cols(),
                    ocols == other@.len(),
                    i < self@.len(),
                    j <= ocols,
                    bits@.len() == j,
                    forall|j2: int| 0 <= j2 < j ==> bits@[j2] == dot(self@[i as int], other@[j2]),
                decreases ocols - j,
            {
                proof {
                    self.lemma_rows_view();
                    other.lemma_rows_view();
                }
                bits.push(self.rows[i].dot_with(&other.rows[j]));
                j += 1;
            }
            rows.push(BinaryVector::from_bits(bits));
            i += 1;
        }
        let r = BinaryMatrix { ncols: ocols, rows };
        proof {
            r.lemma_rows_view();
        }
        r
    }
}

impl BinaryMatrix {
    /// Returns owned copies of the rows.
    pub fn rows_to_vec(&self) -> (r: Vec<BinaryVector>)
        ensures
            r@.len() == self@.len(),
            forall|i: int| 0 <= i < r@.len() ==> (#[trigger] r@[i])@ == self@[i],
    {
        let mut rows: Vec<BinaryVector> = Vec::new();
        let mut i: usize = 0;
        while i < self.rows.len()
            invariant
                i <= self.rows@.len(),
                rows@.len() == i,
                forall|i2: int| 0 <= i2 < i ==> (#[trigger] rows@[i2])@ == self.rows@[i2]@,
            decreases self.rows@.len() - i,
        {
            rows.push(self.rows[i].clone());
            i += 1;
        }
        proof {
            self.lemma_rows_view();
        }
        rows
    }

    /// Returns the rows as strictly increasing lists of positions of ones.
    pub fn to_position_rows(&self) -> (r: Vec<Vec<usize>>)
        requires
            self.wf(),
        ensures
            r@.len() == self@.len(),
            forall|i: int| 0 <= i < r@.len() ==> (#[trigger] r@[i])@ == support(self@[i]),
            positions_wf(self.number_of_columns_spec(), r@),
            positions_model(self.number_of_columns_spec(), r@) == self@,
    {
        let mut rows: Vec<Vec<usize>> = Vec::new();
        let mut i: usize = 0;
        while i < self.rows.len()
            invariant
                self.wf(),
                i <= self@.len(),
                rows@.len() == i,
                forall|i2: int| 0 <= i2 < i ==> (#[trigger] rows@[i2])@ == support(self@[i2]),
            decreases self@.len() - i,
        {
            proof {
                self.lemma_rows_view();
            }
            rows.push(self.rows[i].to_positions_vec());
            i += 1;
        }
        proof {
            assert forall|i2: int, k: int|
                0 <= i2 < rows@.len() && 0 <= k < rows@[i2]@.len() implies #[trigger] rows@[i2]@[k]
                < self.ncols by {
                lemma_support(self@[i2]);
            }
            assert forall|i2: int, k1: int, k2: int|
                0 <= i2 < rows@.len() && 0 <= k1 < k2 < rows@[i2]@.len() implies #[trigger] rows@[i2]@[k1]
                < #[trigger] rows@[i2]@[k2] by {
                lemma_support(self@[i2]);
            }
            assert forall|i2: int|
                0 <= i2 < rows@.len() implies positions_model(self.number_of_columns_spec(), rows@)[i2]
                == self@[i2] by {
                lemma_bits_of_support(self@[i2]);
            }
            assert(positions_model(self.number_of_columns_spec(), rows@) =~= self@);
        }
        rows
    }

    /// The number of columns as a `usize`-typed spec value.
    pub closed spec fn number_of_columns_spec(&self) -> usize {
        self.ncols
    }

    /// Computes the rank of the matrix, the number of linearly independent
    /// rows, through the trusted linear-algebra backend.
    pub fn rank(&self) -> (r: usize)
        requires
            self.wf(),
        ensures
            r == rank_of(self.cols(), self@),
            r <= self@.len(),
    {
        let rows = self.to_position_rows();
        rank_raw(self.ncols, &rows)
    }

    /// Computes a matrix whose rows generate the nullspace of this matrix,
    /// through the trusted linear-algebra backend: every returned row is
    /// orthogonal to every row of this matrix.
    pub fn nullspace(&self) -> (r: Self)
        requires
            self.wf(),
        ensures
            r.wf(),
            r.cols() == self.cols(),
            r@ == nullspace_of(self.cols(), nonzero_rows(self@)),
            r@.len() + rank_of(self.cols(), nonzero_rows(self@)) == self.cols(),
            forall|i: int, j: int|
                0 <= i < self@.len() && 0 <= j < r@.len() ==> !(#[trigger] dot(self@[i], r@[j])),
    {
        let ghost ncols = self.number_of_columns_spec();
        // The backend's elimination cannot take all-zero rows, and they do
        // not constrain the nullspace, so only the others are handed over.
        let mut rows: Vec<Vec<usize>> = Vec::new();
        let mut i: usize = 0;
        while i < self.rows.len()
            invariant
                self.wf(),
                ncols == self.number_of_columns_spec(),
                i <= self@.len(),
                positions_wf(ncols, rows@),
                forall|k: int| 0 <= k < rows@.len() ==> (#[trigger] rows@[k])@.len() > 0,
                positions_model(ncols, rows@) == nonzero_rows(self@.take(i as int)),
                forall|i2: int|
                    0 <= i2 < i ==> is_zero_bits(#[trigger] self@[i2]) || exists|k: int|
                        0 <= k < rows@.len() && bits_of(ncols as nat, (#[trigger] rows@[k])@)
                            == self@[i2],
            decreases self@.len() - i,
        {
            proof {
                self.lemma_rows_view();
                lemma_support(self@[i as int]);
                lemma_bits_of_support(self@[i as int]);
                assert(self@.take(i as int + 1).drop_last() =~= self@.take(i as int));
                assert(self@.take(i as int + 1).last() == self@[i as int]);
            }
            let ghost old_model = positions_model(ncols, rows@);
            let ghost old_rows = rows@;
            let positions = self.rows[i].to_positions_vec();
            if positions.len() > 0 {
                rows.push(positions);
                proof {
                    assert(!is_zero_bits(self@[i as int])) by {
                        assert(self@[i as int][support(self@[i as int])[0] as int]);
                    }
                    assert(positions_model(ncols, rows@) =~= old_model.push(
                        bits_of(ncols as nat, support(self@[i as int])),
                    ));
                    assert(bits_of(ncols as nat, (rows@[rows@.len() - 1])@) == self@[i as int]);
                    assert forall|i2: int|
                        0 <= i2 < i + 1 implies is_zero_bits(#[trigger] self@[i2]) || exists|k: int|
                            0 <= k < rows@.len() && bits_of(ncols as nat, (#[trigger] rows@[k])@)
                                == self@[i2] by {
                        if i2 == i as int {
                            assert(bits_of(ncols as nat, (rows@[rows@.len() - 1])@)
                                == self@[i2]);
                        } else if !is_zero_bits(self@[i2]) {
                            let k = choose|k: int|
                                0 <= k < old_rows.len() && bits_of(
                                    ncols as nat,
                                    (#[trigger] old_rows[k])@,
                                ) == self@[i2];
                            assert(rows@[k] == old_rows[k]);
                            assert(bits_of(ncols as nat, (rows@[k])@) == self@[i2]);
                        }
                    }
                }
            } else {
                proof {
                    assert forall|j: int| 0 <= j < self@[i as int].len() implies !self@[i as int][j]
                        by {
                        if self@[i as int][j] {
                            assert(support(self@[i as int]).contains(j as usize));
                        }
                    }
                    assert(is_zero_bits(self@[i as int]));
                    assert(nonzero_rows(self@.take(i as int + 1)) == nonzero_rows(
                        self@.take(i as int),
                    ));
                }
            }
            i += 1;
        }
        proof {
            assert(self@.take(self@.len() as int) =~= self@);
        }
        let raw = nullspace_raw(self.ncols, &rows);
        let r = Self::from_supports(self.ncols, &raw);
        proof {
            assert(r@ =~= positions_model(ncols, raw@));
            assert forall|i: int, j: int|
                0 <= i < self@.len() && 0 <= j < r@.len() implies !(#[trigger] dot(
                self@[i],
                r@[j],
            )) by {
                assert(r@[j] == bits_of(self.ncols as nat, raw@[j]@));
                if is_zero_bits(self@[i]) {
                    lemma_dot_zero(r@[j], self@[i]);
                    lemma_dot_sym(self@[i], r@[j]);
                } else {
                    let k = choose|k: int|
                        0 <= k < rows@.len() && bits_of(ncols as nat, (#[trigger] rows@[k])@)
                            == self@[i];
                    assert(!dot(
                        bits_of(self.ncols as nat, rows@[k]@),
                        bits_of(self.ncols as nat, raw@[j]@),
                    ));
                }
            }
        }
        r
    }
}

// Kronecker products and concatenation, used by the hypergraph product
// construction.

/// One row of a Kronecker product: entry `j` combines entry `j / b.len()`
/// of `a` with entry `j % b.len()` of `b`.
pub open spec fn kron_row(a: Seq<bool>, b: Seq<bool>) -> Seq<bool> {
    Seq::new(a.len() * b.len(), |j: int| a[j / b.len() as int] && b[j % b.len() as int])
}

/// A row scaled by a bit: the row itself or the zero row.
pub open spec fn scale_row(s: bool, b: Seq<bool>) -> Seq<bool> {
    Seq::new(b.len(), |l: int| s && b[l])
}

/// The scalar product splits over concatenation.
pub proof fn lemma_dot_concat(x: Seq<bool>, y: Seq<bool>, z: Seq<bool>, w: Seq<bool>)
    requires
        x.len() == z.len(),
        y.len() == w.len(),
    ensures
        dot(x + y, z + w) == (dot(x, z) != dot(y, w)),
    decreases y.len(),
{
    if y.len() == 0 {
        assert(x + y =~= x);
        assert(z + w =~= z);
    } else {
        assert((x + y).drop_last() =~= x + y.drop_last());
        assert((z + w).drop_last() =~= z + w.drop_last());
        lemma_dot_concat(x, y.drop_last(), z, w.drop_last());
    }
}

/// The scalar product of two scaled rows.
proof fn lemma_dot_scale(s: bool, b: Seq<bool>, t: bool, d: Seq<bool>)
    requires
        b.len() == d.len(),
    ensures
        dot(scale_row(s, b), scale_row(t, d)) == (s && t && dot(b, d)),
    decreases b.len(),
{
    if b.len() > 0 {
        assert(scale_row(s, b).drop_last() =~= scale_row(s, b.drop_last()));
        assert(scale_row(t, d).drop_last() =~= scale_row(t, d.drop_last()));
        lemma_dot_scale(s, b.drop_last(), t, d.drop_last());
    } else {
        assert(scale_row(s, b).len() == 0);
    }
}

/// A Kronecker row splits into the rows for a shorter left factor plus a
/// scaled copy of the right factor.
proof fn lemma_kron_row_unfold(a: Seq<bool>, b: Seq<bool>)
    requires
        a.len() > 0,
        b.len() > 0,
    ensures
        kron_row(a, b) =~= kron_row(a.drop_last(), b) + scale_row(a.last(), b),
{
    let bl = b.len() as int;
    let left = kron_row(a.drop_last(), b) + scale_row(a.last(), b);
    assert((a.len() - 1) * b.len() + b.len() == a.len() * b.len()) by (nonlinear_arith);
    assert forall|j: int| 0 <= j < a.len() * b.len() implies kron_row(a, b)[j] == left[j] by {
        if j < (a.len() - 1) * b.len() {
            vstd::arithmetic::div_mod::lemma_fundamental_div_mod(j, bl);
            assert(j / bl < a.len() - 1) by (nonlinear_arith)
                requires
                    j == bl * (j / bl) + j % bl,
                    0 <= j % bl < bl,
                    0 <= j < (a.len() - 1) * bl,
                    bl > 0,
            ;
            assert(a[j / bl] == a.drop_last()[j / bl]);
        } else {
            let l = j - (a.len() - 1) * bl;
            vstd::arithmetic::div_mod::lemma_fundamental_div_mod_converse(
                j,
                bl,
                a.len() - 1,
                l,
            );
            assert(left[j] == (a.last() && b[l]));
        }
    }
}

/// The scalar product of two Kronecker rows is the product of the scalar
/// products of their factors.
pub proof fn lemma_dot_kron(a: Seq<bool>, b: Seq<bool>, c: Seq<bool>, d: Seq<bool>)
    requires
        a.len() == c.len(),
        b.len() == d.len(),
    ensures
        dot(kron_row(a, b), kron_row(c, d)) == (dot(a, c) && dot(b, d)),
    decreases a.len(),
{
    if a.len() == 0 {
        assert(kron_row(a, b).len() == 0);
    } else if b.len() == 0 {
        assert(kron_row(a, b).len() == 0) by {
            assert(a.len() * b.len() == 0) by (nonlinear_arith)
                requires
                    b.len() == 0,
            ;
        }
        assert(kron_row(c, d).len() == 0) by {
            assert(c.len() * d.len() == 0) by (nonlinear_arith)
                requires
                    d.len() == 0,
            ;
        }
        assert(dot(b, d) == false);
    } else {
        lemma_kron_row_unfold(a, b);
        lemma_kron_row_unfold(c, d);
        lemma_dot_concat(
            kron_row(a.drop_last(), b),
            scale_row(a.last(), b),
            kron_row(c.drop_last(), d),
            scale_row(c.last(), d),
        );
        lemma_dot_scale(a.last(), b, c.last(), d);
        lemma_dot_kron(a.drop_last(), b, c.drop_last(), d);
        assert((a.len() - 1) * b.len() == (c.len() - 1) * d.len()) by (nonlinear_arith)
            requires
                a.len() == c.len(),
                b.len() == d.len(),
        ;
    }
}

impl BinaryMatrix {
    /// Returns the Kronecker product of this matrix with another: row
    /// `i1 * r2 + i2` is the Kronecker row of row `i1` of this matrix and
    /// row `i2` of the other.
    #[verifier::rlimit(30)]
    pub fn kron_with(&self, other: &Self) -> (r: Self)
        requires
            self.wf(),
            other.wf(),
            self.cols() * other.cols() <= usize::MAX,
            self@.len() * other@.len() <= usize::MAX,
        ensures
            r.wf(),
            r.cols() == self.cols() * other.cols(),
            r@.len() == self@.len() * other@.len(),
            forall|i1: int, i2: int|
                0 <= i1 < self@.len() && 0 <= i2 < other@.len() ==> #[trigger] r@[i1 * other@.len()
                    + i2] == kron_row(self@[i1], other@[i2]),
    {
        let r1 = self.rows.len();
        let r2 = other.rows.len();
        let c1 = self.ncols;
        let c2 = other.ncols;
        proof {
            assert(r1 * r2 <= usize::MAX);
            assert(c1 * c2 <= usize::MAX) by (nonlinear_arith)
                requires
                    c1 * c2 == self.cols() * other.cols(),
                    self.cols() * other.cols() <= usize::MAX,
            ;
        }
        let ncols = c1 * c2;
        let mut rows: Vec<BinaryVector> = Vec::new();
        let mut i1: usize = 0;
        while i1 < r1
            invariant
                self.wf(),
                other.wf(),
                r1 == self@.len(),
                r2 == other@.len(),
                c1 == self.cols(),
                c2 == other.cols(),
                ncols == c1 * c2,
                i1 <= r1,
                r1 * r2 <= usize::MAX,
                rows@.len() == i1 * r2,
                forall|a: int, b: int|
                    0 <= a < i1 && 0 <= b < r2 ==> (#[trigger] rows@[a * r2 + b])@ == kron_row(
                        self@[a],
                        other@[b],
                    ),
            decreases r1 - i1,
        {
            let mut i2: usize = 0;
            proof {
                assert(i1 * r2 + r2 <= r1 * r2) by (nonlinear_arith)
                    requires
                        0 <= i1 < r1,
                        0 <= r2,
                ;
            }
            while i2 < r2
                invariant
                    self.wf(),
                    other.wf(),
                    r1 == self@.len(),
                    r2 == other@.len(),
                    c1 == self.cols(),
                    c2 == other.cols(),
                    ncols == c1 * c2,
                    i1 < r1,
                    i2 <= r2,
                    i1 * r2 + r2 <= r1 * r2,
                    r1 * r2 <= usize::MAX,
                    rows@.len() == i1 * r2 + i2,
                    forall|a: int, b: int|
                        0 <= a < i1 && 0 <= b < r2 ==> (#[trigger] rows@[a * r2 + b])@ == kron_row(
                            self@[a],
                            other@[b],
                        ),
                    forall|b: int|
                        0 <= b < i2 ==> (#[trigger] rows@[i1 * r2 + b])@ == kron_row(
                            self@[i1 as int],
                            other@[b],
                        ),
                decreases r2 - i2,
            {
                let ghost target = kron_row(self@[i1 as int], other@[i2 as int]);
                proof {
                    assert(target.len() == c1 * c2) by (nonlinear_arith)
                        requires
                            target.len() == self@[i1 as int].len() * other@[i2 as int].len(),
                            self@[i1 as int].len() == c1,
                            other@[i2 as int].len() == c2,
                    ;
                }
                let mut bits: Vec<bool> = Vec::new();
                let mut j1: usize = 0;
                while j1 < c1
                    invariant
                        self.wf(),
                        other.wf(),
                        r1 == self@.len(),
                        r2 == other@.len(),
                        c1 == self.cols(),
                        c2 == other.cols(),
                        i1 < r1,
                        i2 < r2,
                        j1 <= c1,
                        target == kron_row(self@[i1 as int], other@[i2 as int]),
                        target.len() == c1 * c2,
                        bits@.len() == j1 * c2,
                        forall|jj: int| 0 <= jj < j1 * c2 ==> bits@[jj] == target[jj],
                    decreases c1 - j1,
                {
                    let mut j2: usize = 0;
                    proof {
                        assert(j1 * c2 + c2 <= c1 * c2) by (nonlinear_arith)
                            requires
                                0 <= j1 < c1,
                                0 <= c2,
                        ;
                    }
                    while j2 < c2
                        invariant
                            self.wf(),
                            other.wf(),
                            r1 == self@.len(),
                            r2 == other@.len(),
                            c1 == self.cols(),
                            c2 == other.cols(),
                            i1 < r1,
                            i2 < r2,
                            j1 < c1,
                            j2 <= c2,
                            j1 * c2 + c2 <= c1 * c2,
                            target == kron_row(self@[i1 as int], other@[i2 as int]),
                            target.len() == c1 * c2,
                            bits@.len() == j1 * c2 + j2,
                            forall|jj: int| 0 <= jj < j1 * c2 + j2 ==> bits@[jj] == target[jj],
                        decreases c2 - j2,
                    {
                        proof {
                            vstd::arithmetic::div_mod::lemma_fundamental_div_mod_converse(
                                j1 * c2 + j2,
                                c2 as int,
                                j1 as int,
                                j2 as int,
                            );
                            assert(target[j1 * c2 + j2] == (self@[i1 as int][j1 as int]
                                && other@[i2 as int][j2 as int]));
                        }
                        proof {
                            self.lemma_rows_view();
                            other.lemma_rows_view();
                        }
                        bits.push(self.rows[i1].get(j1) && other.rows[i2].get(j2));
                        j2 += 1;
                    }
                    j1 += 1;
                    proof {
                        assert((j1 - 1) * c2 + c2 == j1 * c2) by (nonlinear_arith);
                    }
                }
                proof {
                    assert(bits@ =~= target);
                }
                let ghost prev = rows@;
                rows.push(BinaryVector::from_bits(bits));
                proof {
                    assert forall|a: int, b: int|
                        0 <= a < i1 && 0 <= b < r2 implies (#[trigger] rows@[a * r2 + b])@
                        == kron_row(self@[a], other@[b]) by {
                        assert((a + 1) * r2 <= i1 * r2) by (nonlinear_arith)
                            requires
                                a + 1 <= i1,
                                r2 >= 0,
                        ;
                        assert(a * r2 + r2 == (a + 1) * r2) by (nonlinear_arith);
                        assert(a * r2 + b < prev.len());
                        assert(rows@[a * r2 + b] == prev[a * r2 + b]);
                    }
                    assert forall|b: int|
                        0 <= b < i2 + 1 implies (#[trigger] rows@[i1 * r2 + b])@ == kron_row(
                        self@[i1 as int],
                        other@[b],
                    ) by {
                        if b < i2 {
                            assert(rows@[i1 * r2 + b] == prev[i1 * r2 + b]);
                        } else {
                            assert(rows@[i1 * r2 + b] == rows@.last());
                        }
                    }
                }
                i2 += 1;
            }
            proof {
                assert((i1 as int) * r2 + r2 == (i1 as int + 1) * r2) by (nonlinear_arith);
                assert forall|a: int, b: int|
                    0 <= a < i1 as int + 1 && 0 <= b < r2 implies (#[trigger] rows@[a * r2 + b])@
                    == kron_row(self@[a], other@[b]) by {
                    if a == i1 as int {
                        assert((rows@[(i1 as int) * r2 + b])@ == kron_row(
                            self@[i1 as int],
                            other@[b],
                        ));
                    }
                }
            }
            i1 += 1;
        }
        let r = BinaryMatrix { ncols, rows };
        proof {
            r.lemma_rows_view();
            assert forall|i1a: int, i2a: int|
                0 <= i1a < self@.len() && 0 <= i2a < other@.len() implies #[trigger] r@[i1a
                * other@.len() + i2a] == kron_row(self@[i1a], other@[i2a]) by {
                assert(0 <= i1a * r2 + i2a < r1 * r2) by (nonlinear_arith)
                    requires
                        0 <= i1a < r1,
                        0 <= i2a < r2,
                ;
                assert((r.rows@[i1a * r2 + i2a])@ == kron_row(self@[i1a], other@[i2a]));
            }
            assert forall|i: int| 0 <= i < r@.len() implies (#[trigger] r@[i]).len()
                == r.cols() by {
                assert(r2 > 0) by (nonlinear_arith)
                    requires
                        0 <= i < r1 * r2,
                ;
                vstd::arithmetic::div_mod::lemma_fundamental_div_mod(i, r2 as int);
                let a = i / (r2 as int);
                let b = i % (r2 as int);
                assert(0 <= a < r1) by (nonlinear_arith)
                    requires
                        i == (r2 as int) * a + b,
                        0 <= b < r2,
                        0 <= i < r1 * r2,
                        r2 > 0,
                ;
                assert(r@[a * (r2 as int) + b] == kron_row(self@[a], other@[b]));
                assert(kron_row(self@[a], other@[b]).len() == c1 * c2) by (nonlinear_arith)
                    requires
                        kron_row(self@[a], other@[b]).len() == self@[a].len() * other@[b].len(),
                        self@[a].len() == c1,
                        other@[b].len() == c2,
                ;
            }
        }
        r
    }

    /// Returns the matrix whose rows are the rows of this matrix followed
    /// by the rows of another with the same number of rows.
    pub fn horizontal_concat_with(&self, other: &Self) -> (r: Self)
        requires
            self.wf(),
            other.wf(),
            self@.len() == other@.len(),
            self.cols() + other.cols() <= usize::MAX,
        ensures
            r.wf(),
            r.cols() == self.cols() + other.cols(),
            r@.len() == self@.len(),
            forall|i: int| 0 <= i < self@.len() ==> #[trigger] r@[i] == self@[i] + other@[i],
    {
        let ncols = self.ncols + other.ncols;
        let mut rows: Vec<BinaryVector> = Vec::new();
        let mut i: usize = 0;
        while i < self.rows.len()
            invariant
                self.wf(),
                other.wf(),
                self@.len() == other@.len(),
                i <= self@.len(),
                rows@.len() == i,
                forall|i2: int|
                    0 <= i2 < i ==> (#[trigger] rows@[i2])@ == self@[i2] + other@[i2],
            decreases self@.len() - i,
        {
            proof {
                self.lemma_rows_view();
                other.lemma_rows_view();
            }
            rows.push(self.rows[i].concat_with(&other.rows[i]));
            i += 1;
        }
        let r = BinaryMatrix { ncols, rows };
        proof {
            r.lemma_rows_view();
        }
        r
    }
}

} // verus!

//! Trusted boundary to the outside linear-algebra and graph-sampling crates.
//!
//! Every function here is `external_body`: its contract is believed, not
//! proved. Each one states only what the source of the outside crate
//! plainly shows. Matrices cross the boundary as plain position rows: each
//! row is the strictly increasing list of the positions of its ones.

use rand::SeedableRng;
use vstd::prelude::*;

use crate::vector::bits_of;
use crate::vector::dot;

verus! {

/// The rank over GF(2) of a matrix given by its number of columns and its
/// rows of bits.
///
/// This names the result of `sparse_bin_mat::SparseBinMat::rank`, which
/// depends on the matrix alone; no short statement captures it. The width
/// is part of the matrix and so of the name's argument, even though for a
/// row list the elimination never reads it. One reading quirk carries
/// over from that function: a row that is all zero from the start is
/// counted as independent, so on matrices with zero rows the named value
/// exceeds the mathematical rank by their number.
pub uninterp spec fn rank_of(ncols: nat, m: Seq<Seq<bool>>) -> nat;

/// The nullspace basis over GF(2) that the backend computes for a matrix
/// given by its number of columns and its rows of bits.
///
/// This names the result of `sparse_bin_mat::SparseBinMat::nullspace`, a
/// deterministic function of the matrix alone; which basis of the
/// nullspace comes back is the elimination's choice and has no short
/// statement. The width is an argument in its own right: a matrix with no
/// rows still has one nullspace basis per width (the identity), so the
/// rows alone would not determine the result.
pub uninterp spec fn nullspace_of(ncols: nat, m: Seq<Seq<bool>>) -> Seq<Seq<bool>>;

/// Position rows that describe a matrix: every entry is in bounds and each
/// row is strictly increasing.
pub open spec fn positions_wf(ncols: usize, rows: Seq<Vec<usize>>) -> bool {
    &&& forall|i: int, k: int|
        0 <= i < rows.len() && 0 <= k < rows[i]@.len() ==> #[trigger] rows[i]@[k] < ncols
    &&& forall|i: int, k1: int, k2: int|
        0 <= i < rows.len() && 0 <= k1 < k2 < rows[i]@.len() ==> #[trigger] rows[i]@[k1]
            < #[trigger] rows[i]@[k2]
}

/// The matrix of bits described by position rows.
pub open spec fn positions_model(ncols: usize, rows: Seq<Vec<usize>>) -> Seq<Seq<bool>> {
    rows.map_values(|r: Vec<usize>| bits_of(ncols as nat, r@))
}

/// Relies on `sparse_bin_mat::SparseBinMat::rank`: the rank the
/// elimination reports (see `rank_of` for its reading of zero rows), a
/// function of the matrix alone; it is at most the number of rows.
#[verifier::external_body]
pub(crate) fn rank_raw(ncols: usize, rows: &Vec<Vec<usize>>) -> (r: usize)
    requires
        positions_wf(ncols, rows@),
    ensures
        r as nat == rank_of(ncols as nat, positions_model(ncols, rows@)),
        r <= rows@.len(),
{
    sparse_bin_mat::SparseBinMat::new(ncols, rows.clone()).rank()
}

/// Relies on `sparse_bin_mat::SparseBinMat::nullspace`: the rows of the
/// returned matrix generate the nullspace of the given one, so the product
/// of the matrix with the transpose of its nullspace is zero. The returned
/// matrix has the same number of columns, and its rows come out as strictly
/// increasing position lists. The echelon form behind the computation has
/// one row per unit of rank and the result one row per remaining column,
/// so the returned row count plus the rank is the number of columns. The
/// elimination chokes on a row that is zero from the start, so every given
/// row must hold at least one position.
#[verifier::external_body]
pub(crate) fn nullspace_raw(ncols: usize, rows: &Vec<Vec<usize>>) -> (r: Vec<Vec<usize>>)
    requires
        positions_wf(ncols, rows@),
        forall|i: int| 0 <= i < rows@.len() ==> (#[trigger] rows@[i])@.len() > 0,
    ensures
        positions_wf(ncols, r@),
        positions_model(ncols, r@) == nullspace_of(ncols as nat, positions_model(ncols, rows@)),
        r@.len() + rank_of(ncols as nat, positions_model(ncols, rows@)) == ncols,
        forall|i: int, j: int|
            0 <= i < rows@.len() && 0 <= j < r@.len() ==> !dot(
                bits_of(ncols as nat, rows@[i]@),
                bits_of(ncols as nat, r@[j]@),
            ),
{
    let nullspace = sparse_bin_mat::SparseBinMat::new(ncols, rows.clone()).nullspace();
    nullspace.rows().map(|row| row.non_trivial_positions().collect()).collect()
}

/// The number of rows whose position list holds the given value.
pub open spec fn row_membership_count(rows: Seq<Vec<usize>>, v: usize) -> nat
    decreases rows.len(),
{
    if rows.len() == 0 {
        0
    } else {
        row_membership_count(rows.drop_last(), v) + if rows.last()@.contains(v) {
            1nat
        } else {
            0nat
        }
    }
}

/// Relies on `bigs::Sampler::sample_with`, seeded through
/// `rand::rngs::StdRng`: samples a random bipartite graph with the given
/// numbers of variables and constraints and the given degrees, and returns
/// the neighbors of each constraint, in increasing constraint order.
/// Whatever the random outcome of a run that returns, there is one row
/// per constraint and each row holds distinct variable indices below
/// `variables`; since every candidate edge is either inserted or placed by
/// a degree-preserving rewiring swap, the graph is regular: each row holds
/// exactly `constraint_degree` indices and each variable stands in exactly
/// `variable_degree` rows. The parameters must satisfy the edge balance,
/// the builder's only error, and must admit a simple regular graph at all,
/// else the rewiring search loops forever. That the search terminates on
/// every admitted input is relied on beyond what the source proves: it
/// re-queues a duplicate candidate until a swap opens up, with no bound in
/// the source; no deadlock is known.
#[verifier::external_body]
pub(crate) fn sample_graph_raw(
    variables: usize,
    constraints: usize,
    variable_degree: usize,
    constraint_degree: usize,
    seed: u64,
) -> (r: Vec<Vec<usize>>)
    requires
        variables * variable_degree == constraints * constraint_degree,
        variables * variable_degree <= usize::MAX,
        variables == 0 || variable_degree <= constraints,
        constraints == 0 || constraint_degree <= variables,
    ensures
        r@.len() == constraints,
        forall|i: int| 0 <= i < r@.len() ==> (#[trigger] r@[i])@.len() == constraint_degree,
        forall|i: int, k: int|
            0 <= i < r@.len() && 0 <= k < r@[i]@.len() ==> #[trigger] r@[i]@[k] < variables,
        forall|i: int, k1: int, k2: int|
            0 <= i < r@.len() && 0 <= k1 < k2 < r@[i]@.len() ==> #[trigger] r@[i]@[k1]
                != #[trigger] r@[i]@[k2],
        forall|v: usize| v < variables ==> row_membership_count(r@, v) == variable_degree,
{
    let mut rng = rand::rngs::StdRng::seed_from_u64(seed);
    let sampler = bigs::Sampler::builder()
        .number_of_variables(variables)
        .number_of_constraints(constraints)
        .variable_degree(variable_degree)
        .constraint_degree(constraint_degree)
        .build()
        .unwrap();
    let graph = sampler.sample_with(&mut rng);
    graph.constraints().map(|node| node.neighbors().iter().cloned().collect()).collect()
}

} // verus!

//! Binary vectors over GF(2) together with their mathematical model.
//!
//! A vector is modelled as a `Seq<bool>`; addition is bitwise xor and the
//! scalar product is the parity of the number of shared ones.

use vstd::prelude::*;

verus! {

/// The sequence of bits of given length whose ones are the given positions.
pub open spec fn bits_of(length: nat, positions: Seq<usize>) -> Seq<bool> {
    Seq::new(length, |j: int| positions.contains(j as usize))
}

/// Bitwise xor, the sum of two vectors over GF(2).
pub open spec fn xor_bits(a: Seq<bool>, b: Seq<bool>) -> Seq<bool> {
    Seq::new(a.len(), |i: int| a[i] != b[i])
}

/// The scalar product over GF(2): the parity of the number of positions
/// where both vectors are one.
pub open spec fn dot(a: Seq<bool>, b: Seq<bool>) -> bool
    decreases a.len(),
{
    if a.len() == 0 {
        false
    } else {
        (a.last() && b.last()) != dot(a.drop_last(), b.drop_last())
    }
}

/// The Hamming weight: the number of ones.
pub open spec fn ones(a: Seq<bool>) -> nat
    decreases a.len(),
{
    if a.len() == 0 {
        0
    } else {
        ones(a.drop_last()) + if a.last() {
            1nat
        } else {
            0nat
        }
    }
}

/// The number of positions where both vectors are one.
pub open spec fn common_ones(a: Seq<bool>, b: Seq<bool>) -> nat
    decreases a.len(),
{
    if a.len() == 0 {
        0
    } else {
        common_ones(a.drop_last(), b.drop_last()) + if a.last() && b.last() {
            1nat
        } else {
            0nat
        }
    }
}

pub open spec fn is_zero_bits(a: Seq<bool>) -> bool {
    forall|i: int| 0 <= i < a.len() ==> !a[i]
}

/// The word that is zero but for one given bit.
pub open spec fn unit_bits(length: nat, b: int) -> Seq<bool> {
    Seq::new(length, |i: int| i == b)
}

/// The ascending list of positions of the ones of a vector.
pub open spec fn support(a: Seq<bool>) -> Seq<usize>
    decreases a.len(),
{
    if a.len() == 0 {
        Seq::empty()
    } else if a.last() {
        support(a.drop_last()).push((a.len() - 1) as usize)
    } else {
        support(a.drop_last())
    }
}

/// The scalar product is symmetric.
pub proof fn lemma_dot_sym(a: Seq<bool>, b: Seq<bool>)
    requires
        a.len() == b.len(),
    ensures
        dot(a, b) == dot(b, a),
    decreases a.len(),
{
    if a.len() > 0 {
        lemma_dot_sym(a.drop_last(), b.drop_last());
    }
}

/// The scalar product is linear: multiplying with a sum is the sum of the
/// products.
pub proof fn lemma_dot_xor(r: Seq<bool>, a: Seq<bool>, b: Seq<bool>)
    requires
        r.len() == a.len(),
        a.len() == b.len(),
    ensures
        dot(r, xor_bits(a, b)) == (dot(r, a) != dot(r, b)),
    decreases r.len(),
{
    if r.len() > 0 {
        assert(xor_bits(a, b).drop_last() =~= xor_bits(a.drop_last(), b.drop_last()));
        lemma_dot_xor(r.drop_last(), a.drop_last(), b.drop_last());
    }
}

/// The product with an all-zero vector is zero.
pub proof fn lemma_dot_zero(a: Seq<bool>, b: Seq<bool>)
    requires
        a.len() == b.len(),
        is_zero_bits(b),
    ensures
        !dot(a, b),
    decreases a.len(),
{
    if a.len() > 0 {
        assert(!b[b.len() - 1]);
        assert(is_zero_bits(b.drop_last()));
        lemma_dot_zero(a.drop_last(), b.drop_last());
    }
}

/// The product with a sum splits, whichever side the sum stands on.
pub proof fn lemma_dot_xor_sym(a: Seq<bool>, b: Seq<bool>, r: Seq<bool>)
    requires
        a.len() == b.len(),
        r.len() == a.len(),
    ensures
        dot(xor_bits(a, b), r) == (dot(a, r) != dot(b, r)),
        dot(r, xor_bits(a, b)) == (dot(r, a) != dot(r, b)),
        dot(a, r) == dot(r, a),
        dot(b, r) == dot(r, b),
{
    lemma_dot_xor(r, a, b);
    lemma_dot_sym(xor_bits(a, b), r);
    lemma_dot_sym(a, r);
    lemma_dot_sym(b, r);
}

/// The product with a unit vector picks one entry.
pub proof fn lemma_dot_unit(v: Seq<bool>, i: int)
    requires
        0 <= i < v.len(),
    ensures
        dot(unit_bits(v.len(), i), v) == v[i],
        dot(v, unit_bits(v.len(), i)) == v[i],
    decreases v.len(),
{
    let u = unit_bits(v.len(), i);
    lemma_dot_sym(u, v);
    if i == v.len() - 1 {
        assert(u.drop_last() =~= unit_bits((v.len() - 1) as nat, v.len() as int));
        assert(is_zero_bits(u.drop_last()));
        lemma_dot_sym(u.drop_last(), v.drop_last());
        lemma_dot_zero(v.drop_last(), u.drop_last());
    } else {
        assert(u.drop_last() =~= unit_bits((v.len() - 1) as nat, i));
        lemma_dot_unit(v.drop_last(), i);
    }
}

/// The weight of a sum: shared ones cancel in pairs.
pub proof fn lemma_ones_xor(a: Seq<bool>, b: Seq<bool>)
    requires
        a.len() == b.len(),
    ensures
        ones(xor_bits(a, b)) + 2 * common_ones(a, b) == ones(a) + ones(b),
    decreases a.len(),
{
    if a.len() > 0 {
        assert(xor_bits(a, b).drop_last() =~= xor_bits(a.drop_last(), b.drop_last()));
        lemma_ones_xor(a.drop_last(), b.drop_last());
    }
}

/// Setting a zero bit raises the weight by one.
pub proof fn lemma_ones_update(s: Seq<bool>, i: int)
    requires
        0 <= i < s.len(),
        !s[i],
    ensures
        ones(s.update(i, true)) == ones(s) + 1,
    decreases s.len(),
{
    if i == s.len() - 1 {
        assert(s.update(i, true).drop_last() =~= s.drop_last());
    } else {
        assert(s.update(i, true).drop_last() =~= s.drop_last().update(i, true));
        lemma_ones_update(s.drop_last(), i);
    }
}

/// An all-zero word has weight zero.
pub proof fn lemma_ones_of_zero(a: Seq<bool>)
    requires
        is_zero_bits(a),
    ensures
        ones(a) == 0,
    decreases a.len(),
{
    if a.len() > 0 {
        assert(is_zero_bits(a.drop_last()));
        lemma_ones_of_zero(a.drop_last());
    }
}

/// A word built from distinct in-bounds positions has one one per
/// position.
pub proof fn lemma_ones_of_distinct_positions(length: nat, positions: Seq<usize>)
    requires
        length <= usize::MAX,
        forall|k: int| 0 <= k < positions.len() ==> #[trigger] positions[k] < length,
        forall|k1: int, k2: int|
            0 <= k1 < k2 < positions.len() ==> positions[k1] != positions[k2],
    ensures
        ones(bits_of(length, positions)) == positions.len(),
    decreases positions.len(),
{
    if positions.len() == 0 {
        assert(is_zero_bits(bits_of(length, positions))) by {
            assert forall|j: int| 0 <= j < length implies !bits_of(length, positions)[j] by {
                if positions.contains(j as usize) {
                    let w = choose|w: int|
                        0 <= w < positions.len() && #[trigger] positions[w] == j as usize;
                }
            }
        }
        lemma_ones_of_zero(bits_of(length, positions));
    } else {
        let shorter = positions.drop_last();
        let p = positions.last();
        lemma_ones_of_distinct_positions(length, shorter);
        assert(!shorter.contains(p)) by {
            if shorter.contains(p) {
                let w = choose|w: int| 0 <= w < shorter.len() && #[trigger] shorter[w] == p;
                assert(positions[w] == positions[positions.len() - 1]);
            }
        }
        assert forall|j: int|
            0 <= j < length && j != p as int implies (#[trigger] positions.contains(j as usize)
                == shorter.contains(j as usize)) by {
            if positions.contains(j as usize) {
                let w = choose|w: int|
                    0 <= w < positions.len() && #[trigger] positions[w] == j as usize;
                assert(w < positions.len() - 1);
                assert(shorter[w] == j as usize);
            }
            if shorter.contains(j as usize) {
                let w = choose|w: int| 0 <= w < shorter.len() && #[trigger] shorter[w]
                    == j as usize;
                assert(positions[w] == j as usize);
            }
        }
        assert(positions.contains(p)) by {
            assert(positions[positions.len() - 1] == p);
        }
        assert(bits_of(length, positions) =~= bits_of(length, shorter).update(p as int, true));
        lemma_ones_update(bits_of(length, shorter), p as int);
    }
}

/// The overlap count is symmetric.
pub proof fn lemma_common_sym(a: Seq<bool>, b: Seq<bool>)
    requires
        a.len() == b.len(),
    ensures
        common_ones(a, b) == common_ones(b, a),
    decreases a.len(),
{
    if a.len() > 0 {
        lemma_common_sym(a.drop_last(), b.drop_last());
    }
}

/// A vector shares no one with an all-zero vector.
pub proof fn lemma_common_with_zero(a: Seq<bool>, b: Seq<bool>)
    requires
        a.len() == b.len(),
        is_zero_bits(b),
    ensures
        common_ones(a, b) == 0,
    decreases a.len(),
{
    if a.len() > 0 {
        assert(!b[b.len() - 1]);
        assert(is_zero_bits(b.drop_last()));
        lemma_common_with_zero(a.drop_last(), b.drop_last());
    }
}

/// A binary vector, stored densely.
///
/// This is the plain data carrier of the crate: codewords, errors, syndromes
/// and matrix rows are all values of this type.
#[derive(Debug, PartialEq, Eq)]
pub struct BinaryVector {
    bits: Vec<bool>,
}

impl Clone for BinaryVector {
    /// Returns a vector with the same bits.
    fn clone(&self) -> (r: Self)
        ensures
            r@ == self@,
    {
        let mut bits: Vec<bool> = Vec::new();
        let mut i: usize = 0;
        while i < self.bits.len()
            invariant
                i <= self@.len(),
                bits@ == self@.take(i as int),
            decreases self@.len() - i,
        {
            bits.push(self.bits[i]);
            i += 1;
            proof {
                assert(self@.take(i as int) =~= self@.take(i as int - 1).push(self@[i - 1]));
            }
        }
        proof {
            assert(self@.take(self@.len() as int) =~= self@);
        }
        BinaryVector { bits }
    }
}

impl View for BinaryVector {
    type V = Seq<bool>;

    closed spec fn view(&self) -> Seq<bool> {
        self.bits@
    }
}

impl BinaryVector {
    /// Creates a vector of the given length whose ones are the given
    /// positions, which must be strictly increasing and in bounds.
    pub fn new(length: usize, positions: Vec<usize>) -> (r: Self)
        requires
            forall|k: int| 0 <= k < positions@.len() ==> positions@[k] < length,
            forall|k1: int, k2: int|
                0 <= k1 < k2 < positions@.len() ==> positions@[k1] < positions@[k2],
        ensures
            r@ == bits_of(length as nat, positions@),
            r@.len() == length,
    {
        Self::from_support(length, &positions)
    }

    /// Creates a vector of the given length whose ones are the given
    /// positions, in any order.
    pub fn from_support(length: usize, positions: &Vec<usize>) -> (r: Self)
        requires
            forall|k: int| 0 <= k < positions@.len() ==> positions@[k] < length,
        ensures
            r@ == bits_of(length as nat, positions@),
            r@.len() == length,
    {
        let mut bits: Vec<bool> = Vec::new();
        let mut j: usize = 0;
        while j < length
            invariant
                bits@.len() == j,
                j <= length,
                forall|i: int| 0 <= i < j ==> !bits@[i],
            decreases length - j,
        {
            bits.push(false);
            j += 1;
        }
        let mut k: usize = 0;
        while k < positions.len()
            invariant
                bits@.len() == length,
                k <= positions@.len(),
                forall|k2: int| 0 <= k2 < positions@.len() ==> positions@[k2] < length,
                forall|i: int|
                    0 <= i < length ==> (bits@[i] == positions@.take(k as int).contains(
                        i as usize,
                    )),
            decreases positions@.len() - k,
        {
            let p = positions[k];
            bits[p] = true;
            k += 1;
            assert forall|i: int| 0 <= i < length implies (bits@[i] == positions@.take(
                k as int,
            ).contains(i as usize)) by {
                let taken = positions@.take(k as int);
                assert(taken.drop_last() =~= positions@.take(k as int - 1));
                if bits@[i] {
                    if i == p {
                        assert(taken[k as int - 1] == p);
                        assert(taken.contains(i as usize));
                    } else {
                        assert(positions@.take(k as int - 1).contains(i as usize));
                        let w = choose|w: int|
                            0 <= w < k as int - 1 && #[trigger] positions@.take(k as int - 1)[w]
                                == i as usize;
                        assert(taken[w] == i as usize);
                    }
                } else {
                    if taken.contains(i as usize) {
                        let w = choose|w: int| 0 <= w < k && taken[w] == i as usize;
                        if w < k as int - 1 {
                            assert(positions@.take(k as int - 1)[w] == i as usize);
                        } else {
                            assert(i == p);
                        }
                        assert(false);
                    }
                }
            }
        }
        proof {
            assert(positions@.take(positions@.len() as int) =~= positions@);
            assert(bits@ =~= bits_of(length as nat, positions@));
        }
        BinaryVector { bits }
    }

    /// Creates a vector from its dense list of bits.
    pub fn from_bits(bits: Vec<bool>) -> (r: Self)
        ensures
            r@ == bits@,
    {
        BinaryVector { bits }
    }

    /// Returns the vector followed by another.
    pub fn concat_with(&self, other: &Self) -> (r: Self)
        ensures
            r@ == self@ + other@,
    {
        let mut bits = self.bits.clone();
        proof {
            assert(bits@ =~= self@ + other@.take(0));
        }
        let mut i: usize = 0;
        while i < other.bits.len()
            invariant
                i <= other@.len(),
                bits@ == self@ + other@.take(i as int),
            decreases other@.len() - i,
        {
            bits.push(other.bits[i]);
            i += 1;
            proof {
                assert(self@ + other@.take(i as int) =~= (self@ + other@.take(i as int - 1)).push(
                    other@[i - 1],
                ));
            }
        }
        proof {
            assert(other@.take(other@.len() as int) =~= other@);
        }
        BinaryVector { bits }
    }

    /// Creates an all-zero vector of the given length.
    pub fn zeros(length: usize) -> (r: Self)
        ensures
            r@.len() == length,
            is_zero_bits(r@),
    {
        Self::from_support(length, &Vec::new())
    }

    /// Creates a vector of length zero.
    pub fn empty() -> (r: Self)
        ensures
            r@.len() == 0,
    {
        Self::zeros(0)
    }

    /// Returns the length of the vector.
    pub fn len(&self) -> (r: usize)
        ensures
            r == self@.len(),
    {
        self.bits.len()
    }

    /// Returns the bit at the given position.
    pub fn get(&self, position: usize) -> (r: bool)
        requires
            position < self@.len(),
        ensures
            r == self@[position as int],
    {
        self.bits[position]
    }

    /// Returns whether the bit at the given position is one, or `None` if
    /// the position is out of bounds.
    pub fn is_one_at(&self, position: usize) -> (r: Option<bool>)
        ensures
            r == if position < self@.len() {
                Some(self@[position as int])
            } else {
                None::<bool>
            },
    {
        if position < self.bits.len() {
            Some(self.bits[position])
        } else {
            None
        }
    }

    /// Returns whether every bit is zero.
    pub fn is_zero(&self) -> (r: bool)
        ensures
            r == is_zero_bits(self@),
    {
        let mut i: usize = 0;
        while i < self.bits.len()
            invariant
                i <= self@.len(),
                forall|j: int| 0 <= j < i ==> !self@[j],
            decreases self@.len() - i,
        {
            if self.bits[i] {
                return false;
            }
            i += 1;
        }
        true
    }

    /// Returns the number of ones.
    pub fn weight(&self) -> (r: usize)
        ensures
            r == ones(self@),
    {
        let mut count: usize = 0;
        let mut i: usize = 0;
        while i < self.bits.len()
            invariant
                i <= self@.len(),
                count == ones(self@.take(i as int)),
                count <= i,
            decreases self@.len() - i,
        {
            proof {
                assert(self@.take(i as int + 1).drop_last() =~= self@.take(i as int));
                assert(self@.take(i as int + 1).last() == self@[i as int]);
            }
            if self.bits[i] {
                count += 1;
            }
            i += 1;
        }
        proof {
            assert(self@.take(self@.len() as int) =~= self@);
        }
        count
    }

    /// Returns the sum of two vectors of equal length, their bitwise xor.
    pub fn xor_with(&self, other: &Self) -> (r: Self)
        requires
            self@.len() == other@.len(),
        ensures
            r@ == xor_bits(self@, other@),
            r@.len() == self@.len(),
    {
        let mut bits: Vec<bool> = Vec::new();
        let mut i: usize = 0;
        while i < self.bits.len()
            invariant
                self@.len() == other@.len(),
                i <= self@.len(),
                bits@.len() == i,
                forall|j: int| 0 <= j < i ==> bits@[j] == (self@[j] != other@[j]),
            decreases self@.len() - i,
        {
            bits.push(self.bits[i] != other.bits[i]);
            i += 1;
        }
        proof {
            assert(bits@ =~= xor_bits(self@, other@));
        }
        BinaryVector { bits }
    }

    /// Returns the scalar product over GF(2) of two vectors of equal length.
    pub fn dot_with(&self, other: &Self) -> (r: bool)
        requires
            self@.len() == other@.len(),
        ensures
            r == dot(self@, other@),
    {
        let mut acc = false;
        let mut i: usize = 0;
        while i < self.bits.len()
            invariant
                self@.len() == other@.len(),
                i <= self@.len(),
                acc == dot(self@.take(i as int), other@.take(i as int)),
            decreases self@.len() - i,
        {
            proof {
                assert(self@.take(i as int + 1).drop_last() =~= self@.take(i as int));
                assert(other@.take(i as int + 1).drop_last() =~= other@.take(i as int));
                assert(self@.take(i as int + 1).last() == self@[i as int]);
                assert(other@.take(i as int + 1).last() == other@[i as int]);
            }
            acc = (self.bits[i] && other.bits[i]) != acc;
            i += 1;
        }
        proof {
            assert(self@.take(self@.len() as int) =~= self@);
            assert(other@.take(other@.len() as int) =~= other@);
        }
        acc
    }

    /// Returns the number of positions where this vector and another of
    /// the same length are both one.
    pub fn common_count(&self, other: &Self) -> (r: usize)
        requires
            self@.len() == other@.len(),
        ensures
            r == common_ones(self@, other@),
            r <= self@.len(),
    {
        let mut count: usize = 0;
        let mut i: usize = 0;
        while i < self.bits.len()
            invariant
                self@.len() == other@.len(),
                i <= self@.len(),
                count == common_ones(self@.take(i as int), other@.take(i as int)),
                count <= i,
            decreases self@.len() - i,
        {
            proof {
                assert(self@.take(i as int + 1).drop_last() =~= self@.take(i as int));
                assert(other@.take(i as int + 1).drop_last() =~= other@.take(i as int));
                assert(self@.take(i as int + 1).last() == self@[i as int]);
                assert(other@.take(i as int + 1).last() == other@[i as int]);
            }
            if self.bits[i] && other.bits[i] {
                count += 1;
            }
            i += 1;
        }
        proof {
            assert(self@.take(self@.len() as int) =~= self@);
            assert(other@.take(other@.len() as int) =~= other@);
        }
        count
    }

    /// Returns the ascending list of positions of the ones.
    pub fn to_positions_vec(&self) -> (r: Vec<usize>)
        ensures
            r@ == support(self@),
    {
        let mut positions: Vec<usize> = Vec::new();
        let mut i: usize = 0;
        while i < self.bits.len()
            invariant
                i <= self@.len(),
                positions@ == support(self@.take(i as int)),
            decreases self@.len() - i,
        {
            proof {
                assert(self@.take(i as int + 1).drop_last() =~= self@.take(i as int));
                assert(self@.take(i as int + 1).last() == self@[i as int]);
            }
            if self.bits[i] {
                positions.push(i);
            }
            i += 1;
        }
        proof {
            assert(self@.take(self@.len() as int) =~= self@);
        }
        positions
    }
}

/// Facts about the support of a vector: its entries are the ascending
/// positions of the ones.
pub proof fn lemma_support(a: Seq<bool>)
    requires
        a.len() <= usize::MAX,
    ensures
        support(a).len() == ones(a),
        forall|k: int|
            0 <= k < support(a).len() ==> support(a)[k] < a.len() && a[#[trigger] support(a)[k]
                as int],
        forall|k1: int, k2: int|
            0 <= k1 < k2 < support(a).len() ==> support(a)[k1] < support(a)[k2],
        forall|j: int| 0 <= j < a.len() && a[j] ==> support(a).contains(j as usize),
    decreases a.len(),
{
    if a.len() > 0 {
        lemma_support(a.drop_last());
        let s = support(a);
        let sd = support(a.drop_last());
        if a.last() {
            assert(s == sd.push((a.len() - 1) as usize));
            assert forall|k: int|
                0 <= k < s.len() implies s[k] < a.len() && a[#[trigger] s[k] as int] by {
                if k < sd.len() {
                    assert(s[k] == sd[k]);
                    assert(a.drop_last()[sd[k] as int] == a[sd[k] as int]);
                } else {
                    assert(s[k] == (a.len() - 1) as usize);
                }
            }
            assert forall|k1: int, k2: int| 0 <= k1 < k2 < s.len() implies s[k1] < s[k2] by {
                if k2 < sd.len() {
                    assert(s[k1] == sd[k1] && s[k2] == sd[k2]);
                } else {
                    assert(s[k1] == sd[k1]);
                    assert(sd[k1] < a.drop_last().len());
                }
            }
        } else {
            assert(s == sd);
            assert forall|k: int|
                0 <= k < s.len() implies s[k] < a.len() && a[#[trigger] s[k] as int] by {
                assert(a.drop_last()[sd[k] as int] == a[sd[k] as int]);
            }
        }
        assert forall|j: int| 0 <= j < a.len() && a[j] implies s.contains(j as usize) by {
            if j == a.len() - 1 {
                assert(a.last());
                assert(s[s.len() - 1] == (a.len() - 1) as usize);
            } else {
                assert(a.drop_last()[j] == a[j]);
                assert(sd.contains(j as usize));
                let w = choose|w: int| 0 <= w < sd.len() && sd[w] == j as usize;
                if a.last() {
                    assert(s[w] == j as usize);
                } else {
                    assert(s =~= sd);
                }
            }
        }
    }
}

/// A vector is recovered from its support: setting the supported positions
/// of an all-zero vector gives the vector back.
pub proof fn lemma_bits_of_support(a: Seq<bool>)
    requires
        a.len() <= usize::MAX,
    ensures
        bits_of(a.len(), support(a)) == a,
{
    lemma_support(a);
    assert forall|j: int| 0 <= j < a.len() implies bits_of(a.len(), support(a))[j] == a[j] by {
        if support(a).contains(j as usize) {
            let w = choose|w: int|
                0 <= w < support(a).len() && #[trigger] support(a)[w] == j as usize;
            assert(a[support(a)[w] as int]);
        }
    }
    assert(bits_of(a.len(), support(a)) =~= a);
}

} // verus!

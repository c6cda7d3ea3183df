//! The X/Z duality container and binary representations of Pauli
//! operators and CSS syndromes.

use vstd::prelude::*;

use crate::code::LinearCode;
use crate::decoder::{lemma_flip_correction_of_zero, FlipDecoder, SyndromeDecoder};
use crate::vector::{dot, is_zero_bits, BinaryVector};

verus! {

/// One value for the X side and one for the Z side of a CSS code:
/// stabilizers, logicals, syndromes, corrections or decoders all come in
/// such pairs.
#[derive(Debug, Clone, PartialEq, Eq)]
pub struct Css<X, Z = X> {
    pub x: X,
    pub z: Z,
}

impl<X: View, Z: View> View for Css<X, Z> {
    type V = (X::V, Z::V);

    open spec fn view(&self) -> (X::V, Z::V) {
        (self.x@, self.z@)
    }
}

impl<X, Z> Css<X, Z> {
    /// Pairs an X value with a Z value.
    pub fn new(x: X, z: Z) -> (r: Self)
        ensures
            r.x == x,
            r.z == z,
    {
        Css { x, z }
    }

    /// Applies one function to the X side and another to the Z side.
    pub fn map_each<'a, F, G, XX, ZZ>(&'a self, funcs: Css<F, G>) -> (r: Css<XX, ZZ>) where
        F: Fn(&'a X) -> XX,
        G: Fn(&'a Z) -> ZZ,

        requires
            call_requires(funcs.x, (&self.x,)),
            call_requires(funcs.z, (&self.z,)),
        ensures
            call_ensures(funcs.x, (&self.x,), r.x),
            call_ensures(funcs.z, (&self.z,), r.z),
    {
        Css { x: (funcs.x)(&self.x), z: (funcs.z)(&self.z) }
    }

    /// Zips two pairs side by side.
    pub fn pair<XX, ZZ>(self, other: Css<XX, ZZ>) -> (r: Css<(X, XX), (Z, ZZ)>)
        ensures
            r.x == (self.x, other.x),
            r.z == (self.z, other.z),
    {
        Css { x: (self.x, other.x), z: (self.z, other.z) }
    }

    /// Combines the two sides into a single value.
    pub fn combine_with<F, T>(self, func: F) -> (r: T) where F: FnOnce(X, Z) -> T
        requires
            call_requires(func, (self.x, self.z)),
        ensures
            call_ensures(func, (self.x, self.z), r),
    {
        func(self.x, self.z)
    }

    /// Swaps the two sides.
    pub fn swap_xz(self) -> (r: Css<Z, X>)
        ensures
            r.x == self.z,
            r.z == self.x,
    {
        Css { x: self.z, z: self.x }
    }

    /// Mutably borrows both sides.
    pub fn as_mut(&mut self) -> (r: Css<&mut X, &mut Z>)
        ensures
            *r.x == old(self).x,
            *r.z == old(self).z,
            final(self).x == *final(r.x),
            final(self).z == *final(r.z),
    {
        Css { x: &mut self.x, z: &mut self.z }
    }

    /// Borrows both sides.
    pub fn as_ref(&self) -> (r: Css<&X, &Z>)
        ensures
            r.x == &self.x,
            r.z == &self.z,
    {
        Css { x: &self.x, z: &self.z }
    }
}

impl<T> Css<T, T> {
    /// Applies the same function to both sides.
    pub fn map<'a, F, S>(&'a self, func: F) -> (r: Css<S, S>) where F: Fn(&'a T) -> S
        requires
            call_requires(func, (&self.x,)),
            call_requires(func, (&self.z,)),
        ensures
            call_ensures(func, (&self.x,), r.x),
            call_ensures(func, (&self.z,), r.z),
    {
        Css { x: func(&self.x), z: func(&self.z) }
    }

    /// Applies the same function to both sides, tagged with the Pauli kind
    /// of that side.
    pub fn map_with_pauli<'a, F, S>(&'a self, func: F) -> (r: Css<S, S>) where
        F: Fn(&'a T, Pauli) -> S,

        requires
            call_requires(func, (&self.x, Pauli::X)),
            call_requires(func, (&self.z, Pauli::Z)),
        ensures
            call_ensures(func, (&self.x, Pauli::X), r.x),
            call_ensures(func, (&self.z, Pauli::Z), r.z),
    {
        Css { x: func(&self.x, Pauli::X), z: func(&self.z, Pauli::Z) }
    }

    /// Tests both sides; the Z side is only examined when the X side
    /// passes.
    pub fn both<F>(&self, func: F) -> (r: bool) where F: Fn(&T) -> bool
        requires
            call_requires(func, (&self.x,)),
            call_requires(func, (&self.z,)),
        ensures
            r ==> call_ensures(func, (&self.x,), true) && call_ensures(func, (&self.z,), true),
            !r ==> call_ensures(func, (&self.x,), false) || call_ensures(func, (&self.z,), false),
    {
        func(&self.x) && func(&self.z)
    }
}

/// One of the three non-trivial Pauli operations on a qubit.
#[derive(Debug, Clone, Copy, PartialEq, Eq, Hash, Structural)]
pub enum Pauli {
    X,
    Y,
    Z,
}

/// A Pauli operator in binary form: the X part marks the qubits acted on
/// by X or Y, the Z part those acted on by Z or Y.
pub type CssOperator = Css<BinaryVector>;

/// The binary representation of a syndrome for a CSS code: the X part is
/// measured by the X stabilizers and the Z part by the Z stabilizers.
pub type CssSyndrome = Css<BinaryVector>;

/// The X part of a Pauli word: the qubits acted on by X or Y.
pub open spec fn pauli_x_part(length: nat, positions: Seq<usize>, paulis: Seq<Pauli>) -> Seq<bool> {
    Seq::new(
        length,
        |j: int|
            exists|k: int|
                0 <= k < positions.len() && positions[k] == j as usize && (#[trigger] paulis[k])
                    != Pauli::Z,
    )
}

/// The Z part of a Pauli word: the qubits acted on by Z or Y.
pub open spec fn pauli_z_part(length: nat, positions: Seq<usize>, paulis: Seq<Pauli>) -> Seq<bool> {
    Seq::new(
        length,
        |j: int|
            exists|k: int|
                0 <= k < positions.len() && positions[k] == j as usize && (#[trigger] paulis[k])
                    != Pauli::X,
    )
}

impl Css<BinaryVector, BinaryVector> {
    /// Creates the binary form of the Pauli operator of the given length
    /// that applies `paulis[k]` at position `positions[k]`. Positions must
    /// be strictly increasing and in bounds; a Y counts in both parts.
    pub fn from_paulis(length: usize, positions: Vec<usize>, paulis: Vec<Pauli>) -> (r: Self)
        requires
            paulis@.len() == positions@.len(),
            forall|k: int| 0 <= k < positions@.len() ==> positions@[k] < length,
            forall|k1: int, k2: int|
                0 <= k1 < k2 < positions@.len() ==> positions@[k1] < positions@[k2],
        ensures
            r.x@ == pauli_x_part(length as nat, positions@, paulis@),
            r.z@ == pauli_z_part(length as nat, positions@, paulis@),
            r.x@.len() == length,
            r.z@.len() == length,
    {
        let mut x_positions: Vec<usize> = Vec::new();
        let mut z_positions: Vec<usize> = Vec::new();
        let mut k: usize = 0;
        while k < positions.len()
            invariant
                paulis@.len() == positions@.len(),
                k <= positions@.len(),
                forall|k2: int| 0 <= k2 < positions@.len() ==> positions@[k2] < length,
                forall|w: int| 0 <= w < x_positions@.len() ==> #[trigger] x_positions@[w] < length,
                forall|w: int| 0 <= w < z_positions@.len() ==> #[trigger] z_positions@[w] < length,
                forall|j: usize|
                    x_positions@.contains(j) <==> exists|k2: int|
                        0 <= k2 < k && positions@[k2] == j && (#[trigger] paulis@[k2]) != Pauli::Z,
                forall|j: usize|
                    z_positions@.contains(j) <==> exists|k2: int|
                        0 <= k2 < k && positions@[k2] == j && (#[trigger] paulis@[k2]) != Pauli::X,
            decreases positions@.len() - k,
        {
            let p = positions[k];
            let ghost old_x = x_positions@;
            let ghost old_z = z_positions@;
            match paulis[k] {
                Pauli::X => { x_positions.push(p) },
                Pauli::Y => {
                    x_positions.push(p);
                    z_positions.push(p)
                },
                Pauli::Z => { z_positions.push(p) },
            }
            k += 1;
            proof {
                assert forall|j: usize| #[trigger] x_positions@.contains(j) implies exists|k2: int|
                    0 <= k2 < k && positions@[k2] == j && (#[trigger] paulis@[k2]) != Pauli::Z by {
                    if old_x.contains(j) {
                        let k2 = choose|k2: int|
                            0 <= k2 < k - 1 && positions@[k2] == j && (#[trigger] paulis@[k2])
                                != Pauli::Z;
                        assert(0 <= k2 < k && positions@[k2] == j && paulis@[k2] != Pauli::Z);
                    } else {
                        let w = choose|w: int|
                            0 <= w < x_positions@.len() && #[trigger] x_positions@[w] == j;
                        assert(w == x_positions@.len() - 1);
                        assert(j == p && paulis@[k - 1] != Pauli::Z);
                    }
                }
                assert forall|j: usize| #[trigger] z_positions@.contains(j) implies exists|k2: int|
                    0 <= k2 < k && positions@[k2] == j && (#[trigger] paulis@[k2]) != Pauli::X by {
                    if old_z.contains(j) {
                        let k2 = choose|k2: int|
                            0 <= k2 < k - 1 && positions@[k2] == j && (#[trigger] paulis@[k2])
                                != Pauli::X;
                        assert(0 <= k2 < k && positions@[k2] == j && paulis@[k2] != Pauli::X);
                    } else {
                        let w = choose|w: int|
                            0 <= w < z_positions@.len() && #[trigger] z_positions@[w] == j;
                        assert(w == z_positions@.len() - 1);
                        assert(j == p && paulis@[k - 1] != Pauli::X);
                    }
                }
                assert forall|j: usize|
                    (exists|k2: int|
                        0 <= k2 < k && positions@[k2] == j && (#[trigger] paulis@[k2])
                            != Pauli::Z) implies #[trigger] x_positions@.contains(j) by {
                    let k2 = choose|k2: int|
                        0 <= k2 < k && positions@[k2] == j && (#[trigger] paulis@[k2]) != Pauli::Z;
                    if k2 < k - 1 {
                        assert(old_x.contains(j));
                        let w = choose|w: int| 0 <= w < old_x.len() && #[trigger] old_x[w] == j;
                        assert(x_positions@[w] == j);
                    } else {
                        assert(x_positions@[x_positions@.len() - 1] == j);
                    }
                }
                assert forall|j: usize|
                    (exists|k2: int|
                        0 <= k2 < k && positions@[k2] == j && (#[trigger] paulis@[k2])
                            != Pauli::X) implies #[trigger] z_positions@.contains(j) by {
                    let k2 = choose|k2: int|
                        0 <= k2 < k && positions@[k2] == j && (#[trigger] paulis@[k2]) != Pauli::X;
                    if k2 < k - 1 {
                        assert(old_z.contains(j));
                        let w = choose|w: int| 0 <= w < old_z.len() && #[trigger] old_z[w] == j;
                        assert(z_positions@[w] == j);
                    } else {
                        assert(z_positions@[z_positions@.len() - 1] == j);
                    }
                }
            }
        }
        let x = BinaryVector::from_support(length, &x_positions);
        let z = BinaryVector::from_support(length, &z_positions);
        proof {
            assert(x@ =~= pauli_x_part(length as nat, positions@, paulis@));
            assert(z@ =~= pauli_z_part(length as nat, positions@, paulis@));
        }
        Css { x, z }
    }

    /// Checks if both parts are zero: for a syndrome, that it is trivial.
    pub fn is_trivial(&self) -> (r: bool)
        ensures
            r == (is_zero_bits(self.x@) && is_zero_bits(self.z@)),
    {
        self.x.is_zero() && self.z.is_zero()
    }

    /// Checks if two Pauli operators commute: the symplectic form of the
    /// two binary representations vanishes.
    pub fn commutes_with(&self, other: &Self) -> (r: bool)
        requires
            self.x@.len() == other.z@.len(),
            self.z@.len() == other.x@.len(),
        ensures
            r == (dot(self.x@, other.z@) == dot(self.z@, other.x@)),
    {
        self.x.dot_with(&other.z) == self.z.dot_with(&other.x)
    }
}

/// A CSS decoder is a pair of classical decoders, one used against X
/// errors and one against Z errors.
pub type CssDecoder<D> = Css<D>;

impl<'a, D: SyndromeDecoder<&'a BinaryVector, BinaryVector>> SyndromeDecoder<
    &'a CssSyndrome,
    CssOperator,
> for Css<D, D> {
    open spec fn valid_syndrome(&self, syndrome: &'a CssSyndrome) -> bool {
        self.x.valid_syndrome(&syndrome.x) && self.z.valid_syndrome(&syndrome.z)
    }

    /// X errors show in the syndrome of the Z stabilizers and conversely,
    /// so each side is corrected by the decoder of the other side.
    open spec fn correction_spec(&self, syndrome: &'a CssSyndrome) -> (Seq<bool>, Seq<bool>) {
        (self.z.correction_spec(&syndrome.z), self.x.correction_spec(&syndrome.x))
    }

    fn correction_for(&self, syndrome: &'a CssSyndrome) -> (r: CssOperator) {
        Css { x: self.z.correction_for(&syndrome.z), z: self.x.correction_for(&syndrome.x) }
    }
}

/// A CSS decoder built from two flip decoders returns the zero correction
/// on a trivial syndrome: an uncorrupted state is left unchanged.
pub proof fn lemma_css_flip_decoder_zero_syndrome(
    decoder: CssDecoder<FlipDecoder<LinearCode>>,
    syndrome: CssSyndrome,
)
    requires
        decoder.x.code.wf(),
        decoder.z.code.wf(),
        syndrome.x@.len() == decoder.x.code.number_of_checks_spec(),
        syndrome.z@.len() == decoder.z.code.number_of_checks_spec(),
        is_zero_bits(syndrome.x@),
        is_zero_bits(syndrome.z@),
    ensures
        is_zero_bits(decoder.correction_spec(&syndrome).0),
        is_zero_bits(decoder.correction_spec(&syndrome).1),
{
    lemma_flip_correction_of_zero(decoder.z.code.bit_adjacencies@, syndrome.z@);
    lemma_flip_correction_of_zero(decoder.x.code.bit_adjacencies@, syndrome.x@);
}

} // verus!

//! Elements of the scalar field of the BN254 curve, the values that the cells of the circuit
//! hold.
use vstd::prelude::*;
use halo2_axiom::halo2curves::bn256::Fr;

verus! {

/// The number of elements of the field.
pub open spec fn modulus() -> nat {
    0x30644e72e131a029b85045b68181585d2833e84879b9709143e1f593f0000001nat
}

/// The number that four 64-bit limbs stand for, the least significant limb first.
pub open spec fn limbs_value(limbs: [u64; 4]) -> nat {
    (limbs[0] + limbs[1] * 0x1_0000_0000_0000_0000nat
        + limbs[2] * 0x1_0000_0000_0000_0000_0000_0000_0000_0000nat
        + limbs[3] * 0x1_0000_0000_0000_0000_0000_0000_0000_0000_0000_0000_0000_0000nat) as nat
}

/// Adds two field elements with `Fr::add` of `halo2curves`. Each element is handed over by
/// `Fr::from_raw`, which takes the limbs of a number below the modulus, and read back by the
/// conversion of `Fr` into limbs, which gives the number below the modulus. The claim: the result
/// is the sum modulo the order of the field, in canonical form.
#[verifier::external_body]
fn fr_add(a: [u64; 4], b: [u64; 4]) -> (r: [u64; 4])
    requires
        limbs_value(a) < modulus(),
        limbs_value(b) < modulus(),
    ensures
        limbs_value(r) == (limbs_value(a) + limbs_value(b)) % modulus(),
{
    (Fr::from_raw(a) + Fr::from_raw(b)).into()
}

/// Subtracts two field elements with `Fr::sub` of `halo2curves`, handed over and read back as
/// in `fr_add`. The claim: the result is the difference modulo the order of the field, in
/// canonical form.
#[verifier::external_body]
fn fr_sub(a: [u64; 4], b: [u64; 4]) -> (r: [u64; 4])
    requires
        limbs_value(a) < modulus(),
        limbs_value(b) < modulus(),
    ensures
        limbs_value(r) == (limbs_value(a) - limbs_value(b)) % (modulus() as int),
{
    (Fr::from_raw(a) - Fr::from_raw(b)).into()
}

/// A field element, held as the limbs of its representative below the modulus.
#[derive(Clone, Copy, Debug, PartialEq, Eq)]
pub struct Scalar {
    limbs: [u64; 4],
}

impl Scalar {
    #[verifier::type_invariant]
    spec fn canonical(self) -> bool {
        limbs_value(self.limbs) < modulus()
    }

    /// The representative of the element, a number below the modulus.
    pub closed spec fn value(self) -> nat {
        limbs_value(self.limbs)
    }

    /// The zero of the field.
    pub fn zero() -> (r: Scalar)
        ensures
            r.value() == 0,
    {
        Scalar { limbs: [0, 0, 0, 0] }
    }

    /// The one of the field.
    pub fn one() -> (r: Scalar)
        ensures
            r.value() == 1,
    {
        Scalar { limbs: [1, 0, 0, 0] }
    }

    /// The element that a number stands for.
    pub fn from_u64(x: u64) -> (r: Scalar)
        ensures
            r.value() == x,
    {
        Scalar { limbs: [x, 0, 0, 0] }
    }

    /// The element that the limbs of a number below the modulus stand for, and `None` for a
    /// larger number.
    pub fn from_limbs(limbs: [u64; 4]) -> (r: Option<Scalar>)
        ensures
            r is Some <==> limbs_value(limbs) < modulus(),
            r matches Some(s) ==> s.value() == limbs_value(limbs),
    {
        if limbs_below(
            limbs,
            [0x43e1f593f0000001, 0x2833e84879b97091, 0xb85045b68181585d, 0x30644e72e131a029],
        ) {
            Some(Scalar { limbs })
        } else {
            None
        }
    }

    /// The limbs of the representative, the least significant first.
    pub fn to_limbs(&self) -> (r: [u64; 4])
        ensures
            limbs_value(r) == self.value(),
            self.value() < modulus(),
    {
        proof {
            use_type_invariant(self);
        }
        self.limbs
    }

    /// The sum of two elements.
    pub fn plus(self, other: Scalar) -> (r: Scalar)
        ensures
            r.value() == (self.value() + other.value()) % modulus(),
    {
        proof {
            use_type_invariant(&self);
            use_type_invariant(&other);
        }
        let limbs = fr_add(self.limbs, other.limbs);
        Scalar { limbs }
    }

    /// The difference of two elements.
    pub fn minus(self, other: Scalar) -> (r: Scalar)
        ensures
            r.value() == (self.value() - other.value()) % (modulus() as int),
    {
        proof {
            use_type_invariant(&self);
            use_type_invariant(&other);
        }
        let limbs = fr_sub(self.limbs, other.limbs);
        Scalar { limbs }
    }

    /// Whether the representative of this element is below that of `other`.
    pub fn is_below(&self, other: &Scalar) -> (r: bool)
        ensures
            r == (self.value() < other.value()),
    {
        limbs_below(self.limbs, other.limbs)
    }
}

/// Compares the numbers that two lists of limbs stand for.
fn limbs_below(a: [u64; 4], b: [u64; 4]) -> (r: bool)
    ensures
        r == (limbs_value(a) < limbs_value(b)),
{
    if a[3] != b[3] {
        a[3] < b[3]
    } else if a[2] != b[2] {
        a[2] < b[2]
    } else if a[1] != b[1] {
        a[1] < b[1]
    } else {
        a[0] < b[0]
    }
}

/// The number in a cell value, where there is one.
pub open spec fn value_of(value: Option<Scalar>) -> Option<nat> {
    match value {
        Some(s) => Some(s.value()),
        None => None,
    }
}

} // verus!

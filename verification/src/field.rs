//! The prime field that every trace cell lives in.
//!
//! All machine state and all selector values are canonical residues modulo
//! [`FIELD_MODULUS`], a 31-bit prime.  Because the modulus is small, sums fit
//! a `u64` without overflow and products fit well below `u64::MAX`, so the
//! operations can be written directly on `u64` and proved against the
//! mathematical definitions [`fadd`], [`fsub`] and [`fmul`].

use vstd::arithmetic::div_mod::{
    lemma_mod_bound, lemma_mod_multiples_vanish, lemma_small_mod,
};
use vstd::prelude::*;

verus! {

/// The field modulus: the prime 2^31 - 2^27 + 1.
pub const FIELD_MODULUS: u64 = 2013265921;

/// Whether `x` is a canonical field representative.
pub open spec fn in_field(x: int) -> bool {
    0 <= x < FIELD_MODULUS
}

/// Field addition on canonical representatives.
pub open spec fn fadd(a: int, b: int) -> int {
    (a + b) % (FIELD_MODULUS as int)
}

/// Field subtraction on canonical representatives.
pub open spec fn fsub(a: int, b: int) -> int {
    (a - b) % (FIELD_MODULUS as int)
}

/// Field multiplication on canonical representatives.
pub open spec fn fmul(a: int, b: int) -> int {
    (a * b) % (FIELD_MODULUS as int)
}

/// A field element, stored as its canonical representative.
#[derive(Clone, Copy, Debug, PartialEq, Eq, Structural)]
pub struct Fp {
    value: u64,
}

impl View for Fp {
    type V = int;

    closed spec fn view(&self) -> int {
        self.value as int
    }
}

impl Fp {
    /// Whether the stored representative is canonical.  Every constructor
    /// below establishes this and every operation preserves it.
    pub open spec fn wf(self) -> bool {
        in_field(self@)
    }

    /// The additive identity.
    pub fn zero() -> (r: Fp)
        ensures
            r@ == 0,
            r.wf(),
    {
        Fp { value: 0 }
    }

    /// The multiplicative identity.
    pub fn one() -> (r: Fp)
        ensures
            r@ == 1,
            r.wf(),
    {
        Fp { value: 1 }
    }

    /// The injection of a machine integer into the field.
    pub fn from_u64(v: u64) -> (r: Fp)
        ensures
            r@ == v as int % (FIELD_MODULUS as int),
            r.wf(),
    {
        proof {
            lemma_mod_bound(v as int, FIELD_MODULUS as int);
        }
        Fp { value: v % FIELD_MODULUS }
    }

    /// The canonical representative, as a machine integer.
    pub fn to_u64(self) -> (r: u64)
        ensures
            r as int == self@,
    {
        self.value
    }

    /// Field addition.
    pub fn add(self, rhs: Fp) -> (r: Fp)
        requires
            self.wf(),
            rhs.wf(),
        ensures
            r@ == fadd(self@, rhs@),
            r.wf(),
    {
        proof {
            lemma_mod_bound(self@ + rhs@, FIELD_MODULUS as int);
        }
        Fp { value: (self.value + rhs.value) % FIELD_MODULUS }
    }

    /// Field subtraction.
    pub fn sub(self, rhs: Fp) -> (r: Fp)
        requires
            self.wf(),
            rhs.wf(),
        ensures
            r@ == fsub(self@, rhs@),
            r.wf(),
    {
        proof {
            lemma_mod_multiples_vanish(1, self@ - rhs@, FIELD_MODULUS as int);
            lemma_mod_bound(self@ - rhs@, FIELD_MODULUS as int);
        }
        Fp { value: (self.value + FIELD_MODULUS - rhs.value) % FIELD_MODULUS }
    }

    /// Field multiplication.
    pub fn mul(self, rhs: Fp) -> (r: Fp)
        requires
            self.wf(),
            rhs.wf(),
        ensures
            r@ == fmul(self@, rhs@),
            r.wf(),
    {
        proof {
            assert(self.value * rhs.value <= (FIELD_MODULUS - 1) * (FIELD_MODULUS - 1))
                by (nonlinear_arith)
                requires
                    self.value < FIELD_MODULUS,
                    rhs.value < FIELD_MODULUS,
            ;
            lemma_mod_bound(self@ * rhs@, FIELD_MODULUS as int);
        }
        Fp { value: (self.value * rhs.value) % FIELD_MODULUS }
    }

    /// Whether this element is the additive identity.
    pub fn is_zero(self) -> (r: bool)
        ensures
            r == (self@ == 0),
    {
        self.value == 0
    }
}

/// Convert a `u64` to a field element, reducing it to its canonical
/// representative.
pub fn u64_to_field(value: u64) -> (r: Fp)
    ensures
        r@ == value as int % (FIELD_MODULUS as int),
        r.wf(),
{
    Fp::from_u64(value)
}

/// Convert a field element back to the `u64` that canonically represents it.
pub fn field_to_u64(field: Fp) -> (r: u64)
    ensures
        r as int == field@,
{
    field.to_u64()
}

/// A vector of `count` consecutive field elements starting at `start`.
pub fn generate_consecutive_fields(start: u64, count: usize) -> (r: Vec<Fp>)
    requires
        start + count <= u64::MAX,
    ensures
        r@.len() == count,
        forall|i: int|
            0 <= i < count ==> (#[trigger] r@[i])@ == (start + i) % (FIELD_MODULUS as int),
        forall|i: int| 0 <= i < count ==> (#[trigger] r@[i]).wf(),
{
    let mut r: Vec<Fp> = Vec::new();
    let mut i: usize = 0;
    while i < count
        invariant
            i <= count,
            start + count <= u64::MAX,
            r@.len() == i,
            forall|j: int|
                0 <= j < i ==> (#[trigger] r@[j])@ == (start + j) % (FIELD_MODULUS as int),
            forall|j: int| 0 <= j < i ==> (#[trigger] r@[j]).wf(),
        decreases count - i,
    {
        r.push(Fp::from_u64(start + i as u64));
        i += 1;
    }
    r
}

/// Results of the field operations are canonical representatives.
pub proof fn lemma_field_ops_in_field(a: int, b: int)
    ensures
        in_field(fadd(a, b)),
        in_field(fsub(a, b)),
        in_field(fmul(a, b)),
{
    lemma_mod_bound(a + b, FIELD_MODULUS as int);
    lemma_mod_bound(a - b, FIELD_MODULUS as int);
    lemma_mod_bound(a * b, FIELD_MODULUS as int);
}

/// A canonical representative is fixed by reduction, so adding or
/// subtracting zero and multiplying by zero or one act as expected.
pub proof fn lemma_field_identities(a: int)
    requires
        in_field(a),
    ensures
        fadd(a, 0) == a,
        fadd(0, a) == a,
        fsub(a, 0) == a,
        fsub(a, a) == 0,
        fmul(a, 0) == 0,
        fmul(0, a) == 0,
        fmul(a, 1) == a,
        fmul(1, a) == a,
{
    lemma_small_mod(a as nat, FIELD_MODULUS as nat);
    lemma_small_mod(0, FIELD_MODULUS as nat);
    assert(a * 0 == 0) by (nonlinear_arith);
    assert(0 * a == 0) by (nonlinear_arith);
    assert(a * 1 == a) by (nonlinear_arith);
    assert(1 * a == a) by (nonlinear_arith);
}

/// Addition of small canonical values does not wrap.
pub proof fn lemma_fadd_small(a: int, b: int)
    requires
        0 <= a,
        0 <= b,
        a + b < FIELD_MODULUS,
    ensures
        fadd(a, b) == a + b,
{
    lemma_small_mod((a + b) as nat, FIELD_MODULUS as nat);
}

} // verus!

//! The scalar field of the argument system.
//!
//! Elements are canonical representatives modulo a fixed prime. All protocol
//! algebra (matrix-vector products, commitments, challenge combinations) is
//! stated over the spec-level operations `fadd` and `fmul`.

use vstd::prelude::*;
use vstd::arithmetic::div_mod::*;
use vstd::arithmetic::mul::*;

verus! {

/// The field modulus: the Mersenne prime 2^61 - 1.
pub const MODULUS: u64 = 2305843009213693951;

/// The modulus as a mathematical integer.
pub open spec fn modulus() -> int {
    MODULUS as int
}

/// Whether an integer is a canonical field representative.
pub open spec fn in_field(a: int) -> bool {
    0 <= a < modulus()
}

/// Field addition on representatives.
pub open spec fn fadd(a: int, b: int) -> int {
    (a + b) % modulus()
}

/// Field multiplication on representatives.
pub open spec fn fmul(a: int, b: int) -> int {
    (a * b) % modulus()
}

/// An element of the scalar field, held as its canonical representative.
#[derive(Debug, Clone, Copy, PartialEq, Eq, Structural)]
pub struct Scalar {
    pub v: u64,
}

impl View for Scalar {
    type V = int;

    open spec fn view(&self) -> int {
        self.v as int
    }
}

impl Scalar {
    /// Canonicity: the representative is reduced.
    pub open spec fn wf(self) -> bool {
        self.v < MODULUS
    }

    /// The additive identity.
    pub fn zero() -> (r: Scalar)
        ensures
            r.wf(),
            r@ == 0,
    {
        Scalar { v: 0 }
    }

    /// The multiplicative identity.
    pub fn one() -> (r: Scalar)
        ensures
            r.wf(),
            r@ == 1,
    {
        Scalar { v: 1 }
    }

    /// Builds the field element with representative `x % MODULUS`.
    pub fn new(x: u64) -> (r: Scalar)
        ensures
            r.wf(),
            r@ == x as int % modulus(),
    {
        proof {
            lemma_mod_bound(x as int, modulus());
        }
        Scalar { v: x % MODULUS }
    }

    /// Field addition.
    pub fn add(self, other: Scalar) -> (r: Scalar)
        requires
            self.wf(),
            other.wf(),
        ensures
            r.wf(),
            r@ == fadd(self@, other@),
    {
        let s: u64 = self.v + other.v;
        if s >= MODULUS {
            proof {
                lemma_mod_sub_multiples_vanish(s as int, modulus());
                lemma_small_mod((s - MODULUS) as nat, MODULUS as nat);
            }
            Scalar { v: s - MODULUS }
        } else {
            proof {
                lemma_small_mod(s as nat, MODULUS as nat);
            }
            Scalar { v: s }
        }
    }

    /// Field multiplication.
    pub fn mul(self, other: Scalar) -> (r: Scalar)
        requires
            self.wf(),
            other.wf(),
        ensures
            r.wf(),
            r@ == fmul(self@, other@),
    {
        proof {
            lemma_mul_upper_bound(self.v as int, MODULUS as int, other.v as int, MODULUS as int);
        }
        let p: u128 = (self.v as u128) * (other.v as u128);
        let m: u128 = p % (MODULUS as u128);
        proof {
            lemma_mod_bound(p as int, MODULUS as int);
        }
        Scalar { v: m as u64 }
    }

    /// Field squaring.
    pub fn square(self) -> (r: Scalar)
        requires
            self.wf(),
        ensures
            r.wf(),
            r@ == fmul(self@, self@),
    {
        self.mul(self)
    }
}

/// Relies on rand::random: draws one machine word from the thread-local
/// generator. Nothing can be promised of a random value, so nothing is.
#[verifier::external_body]
fn sample_word() -> u64 {
    rand::random::<u64>()
}

/// Draws a fresh field element: one random machine word, reduced.
pub fn sample_scalar() -> (r: Scalar)
    ensures
        r.wf(),
{
    Scalar::new(sample_word())
}

/// The sum of two representatives is a representative.
pub proof fn lemma_fadd_in_field(a: int, b: int)
    requires
        0 <= a,
        0 <= b,
    ensures
        in_field(fadd(a, b)),
{
    lemma_mod_bound(a + b, modulus());
}

/// The product of two representatives is a representative.
pub proof fn lemma_fmul_in_field(a: int, b: int)
    requires
        0 <= a,
        0 <= b,
    ensures
        in_field(fmul(a, b)),
{
    lemma_mul_nonnegative(a, b);
    lemma_mod_bound(a * b, modulus());
}

/// Zero is the additive identity.
pub proof fn lemma_fadd_zero(a: int)
    requires
        in_field(a),
    ensures
        fadd(a, 0) == a,
        fadd(0, a) == a,
{
    lemma_small_mod(a as nat, MODULUS as nat);
}

/// One is the multiplicative identity.
pub proof fn lemma_fmul_one(a: int)
    requires
        in_field(a),
    ensures
        fmul(1, a) == a,
        fmul(a, 1) == a,
{
    lemma_mul_basics(a);
    lemma_small_mod(a as nat, MODULUS as nat);
}

/// Multiplication by zero yields zero.
pub proof fn lemma_fmul_zero(a: int)
    ensures
        fmul(a, 0) == 0,
        fmul(0, a) == 0,
{
    lemma_mul_basics(a);
    lemma_small_mod(0, MODULUS as nat);
}

/// Commutativity of both field operations.
pub proof fn lemma_field_comm(a: int, b: int)
    ensures
        fadd(a, b) == fadd(b, a),
        fmul(a, b) == fmul(b, a),
{
    lemma_mul_is_commutative(a, b);
}

/// The step identity behind every linearity argument of the protocol: folding
/// one more coordinate into an accumulated linear combination commutes with
/// splitting the combination into its unblinded and blinded parts.
pub proof fn lemma_linear_step(acc_x: int, acc_y: int, c: int, u: int, v: int, g: int)
    requires
        in_field(acc_x),
        in_field(acc_y),
        in_field(c),
        in_field(u),
        in_field(v),
        in_field(g),
    ensures
        fadd(fadd(acc_x, fmul(g, acc_y)), fmul(c, fadd(u, fmul(g, v)))) == fadd(
            fadd(acc_x, fmul(c, u)),
            fmul(g, fadd(acc_y, fmul(c, v))),
        ),
{
    let p = modulus();
    lemma_add_mod_noop_right(acc_x, g * acc_y, p);
    lemma_add_mod_noop_right(u, g * v, p);
    lemma_mul_mod_noop_right(c, u + g * v, p);
    lemma_add_mod_noop(acc_x + g * acc_y, c * (u + g * v), p);
    assert(fadd(fadd(acc_x, fmul(g, acc_y)), fmul(c, fadd(u, fmul(g, v)))) == (acc_x + g * acc_y
        + c * (u + g * v)) % p);
    lemma_add_mod_noop_right(acc_x, c * u, p);
    lemma_add_mod_noop_right(acc_y, c * v, p);
    lemma_mul_mod_noop_right(g, acc_y + c * v, p);
    lemma_add_mod_noop(acc_x + c * u, g * (acc_y + c * v), p);
    assert(fadd(fadd(acc_x, fmul(c, u)), fmul(g, fadd(acc_y, fmul(c, v)))) == (acc_x + c * u + g
        * (acc_y + c * v)) % p);
    assert(acc_x + g * acc_y + c * (u + g * v) == acc_x + c * u + g * (acc_y + c * v))
        by (nonlinear_arith);
}

/// A quadratic combination can be read in nested (Horner) form.
pub proof fn lemma_horner3(c0: int, c1: int, c2: int, g: int)
    requires
        in_field(c0),
        in_field(c1),
        in_field(c2),
        in_field(g),
    ensures
        fadd(c0, fadd(fmul(g, c1), fmul(fmul(g, g), c2))) == fadd(c0, fmul(g, fadd(c1, fmul(g, c2)))),
{
    let p = modulus();
    lemma_mul_mod_noop_left(g * g, c2, p);
    lemma_add_mod_noop(g * c1, g * g * c2, p);
    lemma_add_mod_noop_right(c0, g * c1 + g * g * c2, p);
    assert(fadd(c0, fadd(fmul(g, c1), fmul(fmul(g, g), c2))) == (c0 + (g * c1 + g * g * c2)) % p);
    lemma_add_mod_noop_right(c1, g * c2, p);
    lemma_mul_mod_noop_right(g, c1 + g * c2, p);
    lemma_add_mod_noop_right(c0, g * (c1 + g * c2), p);
    assert(fadd(c0, fmul(g, fadd(c1, fmul(g, c2)))) == (c0 + g * (c1 + g * c2)) % p);
    assert(c0 + (g * c1 + g * g * c2) == c0 + g * (c1 + g * c2)) by (nonlinear_arith);
}

/// The product of two blinded coordinates expands into the unblinded product,
/// the cross term scaled by the challenge, and the randomizer product scaled
/// by the challenge's square.
pub proof fn lemma_cross_expand(x: int, y: int, a: int, b: int, g: int)
    requires
        in_field(x),
        in_field(y),
        in_field(a),
        in_field(b),
        in_field(g),
    ensures
        fmul(fadd(x, fmul(g, a)), fadd(y, fmul(g, b))) == fadd(
            fmul(x, y),
            fadd(fmul(g, fadd(fmul(x, b), fmul(y, a))), fmul(fmul(g, g), fmul(a, b))),
        ),
{
    let p = modulus();
    lemma_add_mod_noop_right(x, g * a, p);
    lemma_add_mod_noop_right(y, g * b, p);
    lemma_mul_mod_noop_general(x + g * a, y + g * b, p);
    assert(fmul(fadd(x, fmul(g, a)), fadd(y, fmul(g, b))) == ((x + g * a) * (y + g * b)) % p);
    lemma_add_mod_noop(x * b, y * a, p);
    lemma_mul_mod_noop_right(g, x * b + y * a, p);
    lemma_mul_mod_noop_general(g * g, a * b, p);
    lemma_add_mod_noop(g * (x * b + y * a), g * g * (a * b), p);
    lemma_add_mod_noop(x * y, g * (x * b + y * a) + g * g * (a * b), p);
    assert(fadd(fmul(x, y), fadd(fmul(g, fadd(fmul(x, b), fmul(y, a))), fmul(fmul(g, g), fmul(a, b))))
        == (x * y + (g * (x * b + y * a) + g * g * (a * b))) % p);
    assert((x + g * a) * (y + g * b) == x * (y + g * b) + (g * a) * (y + g * b)) by (nonlinear_arith);
    assert(x * (y + g * b) == x * y + g * (x * b)) by (nonlinear_arith);
    assert((g * a) * (y + g * b) == g * (y * a) + (g * g) * (a * b)) by (nonlinear_arith);
    assert(g * (x * b + y * a) == g * (x * b) + g * (y * a)) by (nonlinear_arith);
}

} // verus!

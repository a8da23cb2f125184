//! A 256-bit unsigned integer held as four little-endian 64-bit words, with
//! the arithmetic of `ethers::types::U256` behind small trusted wrappers.

use vstd::prelude::*;

verus! {

/// 2^64, the weight of one word.
pub open spec fn word_base() -> nat {
    0x1_0000_0000_0000_0000nat
}

/// 2^256, one more than the largest value a `Uint256` holds.
pub open spec fn modulus256() -> nat {
    word_base() * word_base() * word_base() * word_base()
}

/// A 256-bit unsigned integer: `limbs[0]` is the least significant word.
#[derive(Clone, Copy, Debug, PartialEq, Eq)]
pub struct Uint256 {
    pub limbs: [u64; 4],
}

impl Uint256 {
    /// The number this value stands for.
    pub open spec fn value(self) -> nat {
        self.limbs[0] as nat + word_base() * (self.limbs[1] as nat + word_base() * (
        self.limbs[2] as nat + word_base() * (self.limbs[3] as nat)))
    }

    /// The integer `v`, widened.
    pub fn from_u64(v: u64) -> (r: Uint256)
        ensures
            r.value() == v as nat,
    {
        Uint256 { limbs: [v, 0, 0, 0] }
    }

    /// The lowest 64 bits, that is the value modulo 2^64.
    pub fn low_u64(&self) -> (r: u64)
        ensures
            r as nat == self.value() % word_base(),
    {
        proof {
            lemma_low_word(*self);
        }
        self.limbs[0]
    }

    /// The value as a `u64`, where it fits.
    pub fn to_u64(&self) -> (r: Option<u64>)
        ensures
            r is Some <==> self.value() < word_base(),
            r matches Some(v) ==> v as nat == self.value(),
    {
        proof {
            lemma_low_word(*self);
            lemma_fits_word(*self);
        }
        if self.limbs[1] == 0 && self.limbs[2] == 0 && self.limbs[3] == 0 {
            Some(self.limbs[0])
        } else {
            None
        }
    }
}

proof fn lemma_low_word(x: Uint256)
    ensures
        x.value() % word_base() == x.limbs[0] as nat,
        x.value() / word_base() == x.limbs[1] as nat + word_base() * (x.limbs[2] as nat
            + word_base() * (x.limbs[3] as nat)),
{
    let hi: nat = x.limbs[1] as nat + word_base() * (x.limbs[2] as nat + word_base() * (
    x.limbs[3] as nat));
    let lo: nat = x.limbs[0] as nat;
    let b: nat = word_base();
    assert(lo < b);
    assert((lo + b * hi) % b == lo && (lo + b * hi) / b == hi) by (nonlinear_arith)
        requires
            lo < b,
            b > 0,
    {
        vstd::arithmetic::div_mod::lemma_fundamental_div_mod_converse(
            (lo + b * hi) as int,
            b as int,
            hi as int,
            lo as int,
        );
    }
}

proof fn lemma_fits_word(x: Uint256)
    ensures
        x.value() < word_base() <==> (x.limbs[1] == 0 && x.limbs[2] == 0 && x.limbs[3] == 0),
{
    let b: nat = word_base();
    let hi: nat = x.limbs[1] as nat + b * (x.limbs[2] as nat + b * (x.limbs[3] as nat));
    assert(hi == 0 <==> (x.limbs[1] == 0 && x.limbs[2] == 0 && x.limbs[3] == 0)) by (
    nonlinear_arith)
        requires
            b > 0,
            hi == x.limbs[1] as nat + b * (x.limbs[2] as nat + b * (x.limbs[3] as nat)),
    {
    }
    assert(x.value() == x.limbs[0] as nat + b * hi);
    assert(hi > 0 ==> b * hi >= b) by (nonlinear_arith);
}

/// Every value is below 2^256.
pub proof fn lemma_value_bound(x: Uint256)
    ensures
        x.value() < modulus256(),
{
    let b: nat = word_base();
    let l0: nat = x.limbs[0] as nat;
    let l1: nat = x.limbs[1] as nat;
    let l2: nat = x.limbs[2] as nat;
    let l3: nat = x.limbs[3] as nat;
    lemma_digit_step(l2, l3, b, b);
    lemma_digit_step(l1, l2 + b * l3, b, b * b);
    lemma_digit_step(l0, l1 + b * (l2 + b * l3), b, b * (b * b));
    assert(b * (b * (b * b)) == b * b * b * b) by (nonlinear_arith);
}

proof fn lemma_digit_step(x: nat, y: nat, b: nat, m: nat)
    requires
        x < b,
        y < m,
    ensures
        x + b * y < b * m,
{
    assert(b * y <= b * (m - 1)) by (nonlinear_arith)
        requires
            y <= m - 1,
    {
    }
    assert(b * (m - 1) == b * m - b) by (nonlinear_arith)
        requires
            m >= 1,
    {
    }
}

/// Relies on `U256::checked_sub` of the uint crate: `None` exactly when the
/// difference would be negative, else the difference.
#[verifier::external_body]
pub(crate) fn checked_sub(a: Uint256, b: Uint256) -> (r: Option<Uint256>)
    ensures
        r is None <==> a.value() < b.value(),
        r matches Some(d) ==> d.value() == a.value() - b.value(),
{
    match ethers::types::U256(a.limbs).checked_sub(ethers::types::U256(b.limbs)) {
        Some(d) => Some(Uint256 { limbs: d.0 }),
        None => None,
    }
}

/// Relies on `U256::checked_add` of the uint crate: `None` exactly when the
/// sum reaches 2^256, else the sum.
#[verifier::external_body]
pub(crate) fn checked_add(a: Uint256, b: Uint256) -> (r: Option<Uint256>)
    ensures
        r is None <==> a.value() + b.value() >= modulus256(),
        r matches Some(s) ==> s.value() == a.value() + b.value(),
{
    match ethers::types::U256(a.limbs).checked_add(ethers::types::U256(b.limbs)) {
        Some(s) => Some(Uint256 { limbs: s.0 }),
        None => None,
    }
}

/// Relies on `U256::div_mod` of the uint crate: quotient and remainder; it
/// panics on a zero divisor.
#[verifier::external_body]
pub(crate) fn div_mod(a: Uint256, b: Uint256) -> (r: (Uint256, Uint256))
    requires
        b.value() > 0,
    ensures
        r.0.value() == a.value() / b.value(),
        r.1.value() == a.value() % b.value(),
{
    let (q, m) = ethers::types::U256(a.limbs).div_mod(ethers::types::U256(b.limbs));
    (Uint256 { limbs: q.0 }, Uint256 { limbs: m.0 })
}

/// Relies on the `PartialEq` of `U256` in the uint crate, which compares the
/// words, so the numbers.
#[verifier::external_body]
pub(crate) fn same_value(a: Uint256, b: Uint256) -> (r: bool)
    ensures
        r == (a.value() == b.value()),
{
    ethers::types::U256(a.limbs) == ethers::types::U256(b.limbs)
}

/// Relies on the `PartialOrd` of `U256` in the uint crate, which compares the
/// words from the most significant down, so the numbers.
#[verifier::external_body]
pub(crate) fn greater_than(a: Uint256, b: Uint256) -> (r: bool)
    ensures
        r == (a.value() > b.value()),
{
    ethers::types::U256(a.limbs).gt(&ethers::types::U256(b.limbs))
}

} // verus!

//! A random integer inside a closed interval, from 32 bytes of entropy.
//!
//! The draw reduces the entropy modulo the width of the interval, with no
//! rejection step: where the width does not divide 2^256 the low values are
//! a little more likely than the high ones. For the widths in use (2 and 6)
//! this bias is of the order of 2^-253, but it is not zero.

use vstd::prelude::*;
use crate::uint256::{Uint256, modulus256, checked_add, checked_sub, div_mod, same_value,
    greater_than, lemma_value_bound};
use crate::entropy::{le_value, value_from_le_bytes, read_rand};

verus! {

/// The smaller of the two bounds.
pub open spec fn low_end(a: nat, b: nat) -> nat {
    if a <= b {
        a
    } else {
        b
    }
}

/// The larger of the two bounds.
pub open spec fn high_end(a: nat, b: nat) -> nat {
    if a <= b {
        b
    } else {
        a
    }
}

/// The value drawn from the closed interval between `a` and `b` (in either
/// order) by the entropy `seed`: the low end plus `seed` modulo the number of
/// integers in the interval. Where that number is 2^256 (the whole range),
/// the low end.
pub open spec fn drawn(a: nat, b: nat, seed: nat) -> nat {
    let lo = low_end(a, b);
    let window = (high_end(a, b) - lo + 1) as nat;
    if window >= modulus256() {
        lo
    } else {
        lo + seed % window
    }
}

/// A drawn value lies between the two bounds.
pub proof fn lemma_drawn_within(a: nat, b: nat, seed: nat)
    ensures
        low_end(a, b) <= drawn(a, b, seed) <= high_end(a, b),
{
    let lo = low_end(a, b);
    let window = (high_end(a, b) - lo + 1) as nat;
    if window < modulus256() {
        assert(seed % window < window) by (nonlinear_arith)
            requires
                window > 0,
        {
        }
    }
}

/// The order of the bounds does not matter: for every entropy the same value
/// is drawn.
pub proof fn lemma_drawn_symmetric(a: nat, b: nat, seed: nat)
    ensures
        drawn(a, b, seed) == drawn(b, a, seed),
{
}

/// Equal bounds give that bound, whatever the entropy.
pub proof fn lemma_drawn_equal_bounds(x: nat, seed: nat)
    ensures
        drawn(x, x, seed) == x,
{
    assert(seed % 1 == 0) by (nonlinear_arith);
}

/// The value in the closed interval between `lower` and `upper` (in either
/// order) that the 32 bytes of `entropy` select.
pub fn generate_from_entropy(lower: Uint256, upper: Uint256, entropy: &[u8; 32]) -> (r: Uint256)
    ensures
        r.value() == drawn(lower.value(), upper.value(), le_value(entropy@)),
{
    proof {
        lemma_drawn_equal_bounds(lower.value(), le_value(entropy@));
    }
    if same_value(lower, upper) {
        return lower;
    }
    let lo: Uint256;
    let hi: Uint256;
    if greater_than(lower, upper) {
        lo = upper;
        hi = lower;
    } else {
        lo = lower;
        hi = upper;
    }
    assert(lo.value() == low_end(lower.value(), upper.value()));
    assert(hi.value() == high_end(lower.value(), upper.value()));
    let span = checked_sub(hi, lo).unwrap();
    let window = match checked_add(span, Uint256::from_u64(1)) {
        Some(w) => w,
        None => {
            return lo;
        },
    };
    let seed = value_from_le_bytes(entropy);
    let (_quotient, remainder) = div_mod(seed, window);
    proof {
        lemma_value_bound(hi);
        let w = window.value();
        assert(remainder.value() < w) by (nonlinear_arith)
            requires
                w > 0,
                remainder.value() == seed.value() % w,
        {
        }
    }
    checked_add(remainder, lo).unwrap()
}

/// Fault of the batch: the entropy source could not supply its bytes, or a
/// request names a game type that has no interval.
#[derive(Clone, Copy, Debug, PartialEq, Eq)]
pub enum Fault {
    EntropyUnavailable,
    UnknownGameType(Uint256),
}

/// A random value in the closed interval between `lower_bound` and
/// `upper_bound` (in either order), from 32 bytes of the enclave's entropy.
/// Equal bounds give that bound, and the whole range gives its low end,
/// without reading any entropy.
pub fn generate_randomness(lower_bound: Uint256, upper_bound: Uint256) -> (r: Result<
    Uint256,
    Fault,
>)
    ensures
        lower_bound.value() == upper_bound.value() ==> r == Ok::<Uint256, Fault>(lower_bound),
        high_end(lower_bound.value(), upper_bound.value()) - low_end(
            lower_bound.value(),
            upper_bound.value(),
        ) + 1 >= modulus256() ==> (r matches Ok(v) && v.value() == low_end(
            lower_bound.value(),
            upper_bound.value(),
        )),
        r is Err ==> r == Err::<Uint256, Fault>(Fault::EntropyUnavailable),
        r matches Ok(v) ==> low_end(lower_bound.value(), upper_bound.value()) <= v.value()
            <= high_end(lower_bound.value(), upper_bound.value()),
        r matches Ok(v) ==> exists|e: Seq<u8>|
            e.len() == 32 && v.value() == drawn(lower_bound.value(), upper_bound.value(), le_value(e)),
{
    let ghost zeros = Seq::new(32, |i: int| 0u8);
    if same_value(lower_bound, upper_bound) {
        proof {
            lemma_drawn_equal_bounds(lower_bound.value(), le_value(zeros));
            assert(zeros.len() == 32 && lower_bound.value() == drawn(
                lower_bound.value(),
                upper_bound.value(),
                le_value(zeros),
            ));
        }
        return Ok(lower_bound);
    }
    let lo: Uint256;
    let hi: Uint256;
    if greater_than(lower_bound, upper_bound) {
        lo = upper_bound;
        hi = lower_bound;
    } else {
        lo = lower_bound;
        hi = upper_bound;
    }
    let span = checked_sub(hi, lo).unwrap();
    match checked_add(span, Uint256::from_u64(1)) {
        Some(_) => {},
        None => {
            proof {
                assert(zeros.len() == 32 && lo.value() == drawn(
                    lower_bound.value(),
                    upper_bound.value(),
                    le_value(zeros),
                ));
            }
            return Ok(lo);
        },
    }
    let mut bytes = [0u8; 32];
    match read_rand(&mut bytes) {
        Ok(()) => {},
        Err(_) => {
            return Err(Fault::EntropyUnavailable);
        },
    }
    let v = generate_from_entropy(lower_bound, upper_bound, &bytes);
    proof {
        lemma_drawn_within(lower_bound.value(), upper_bound.value(), le_value(bytes@));
        assert(bytes@.len() == 32);
    }
    Ok(v)
}

/// Every value of a window narrower than 2^256 is drawn by some entropy
/// below 2^256: its distance from the low end.
pub proof fn lemma_every_value_drawn(a: nat, b: nat, v: nat)
    requires
        low_end(a, b) <= v <= high_end(a, b),
        high_end(a, b) - low_end(a, b) + 1 < modulus256(),
    ensures
        ((v - low_end(a, b)) as nat) < modulus256(),
        drawn(a, b, (v - low_end(a, b)) as nat) == v,
{
    let lo = low_end(a, b);
    let window = (high_end(a, b) - lo + 1) as nat;
    let seed = (v - lo) as nat;
    assert(seed % window == seed) by (nonlinear_arith)
        requires
            seed < window,
    {
    }
}

} // verus!

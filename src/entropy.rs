//! Raw entropy: 32 bytes from the enclave, read as a little-endian number.

use vstd::prelude::*;
use crate::uint256::{Uint256, word_base};

verus! {

/// The error type of switchboard-common, carried through opaque.
#[verifier::external_type_specification]
#[verifier::external_body]
pub struct ExSbError(switchboard_common::SbError);

/// The number that the bytes of `s` from index `i` on stand for, least
/// significant byte first.
pub open spec fn le_from(s: Seq<u8>, i: nat) -> nat
    decreases s.len() - i,
{
    if i >= s.len() {
        0
    } else {
        s[i as int] as nat + 256 * le_from(s, i + 1)
    }
}

/// The number that the bytes of `s` stand for, least significant byte first.
pub open spec fn le_value(s: Seq<u8>) -> nat {
    le_from(s, 0)
}

/// The 64-bit word held by the eight bytes of `s` from index `i`, least
/// significant byte first.
pub open spec fn word_at(s: Seq<u8>, i: int) -> nat {
    s[i] as nat + 256 * (s[i + 1] as nat + 256 * (s[i + 2] as nat + 256 * (s[i + 3] as nat
        + 256 * (s[i + 4] as nat + 256 * (s[i + 5] as nat + 256 * (s[i + 6] as nat + 256 * (
    s[i + 7] as nat)))))))
}

proof fn lemma_le_word(s: Seq<u8>, i: nat)
    requires
        i + 8 <= s.len(),
    ensures
        le_from(s, i) == word_at(s, i as int) + word_base() * le_from(s, i + 8),
{
    reveal_with_fuel(le_from, 9);
}

/// The bytes of `s`, eight at a time, are the words of one number.
proof fn lemma_le_words(s: Seq<u8>)
    requires
        s.len() == 32,
    ensures
        le_value(s) == word_at(s, 0) + word_base() * (word_at(s, 8) + word_base() * (word_at(
            s,
            16,
        ) + word_base() * word_at(s, 24))),
{
    lemma_le_word(s, 0);
    lemma_le_word(s, 8);
    lemma_le_word(s, 16);
    lemma_le_word(s, 24);
    assert(le_from(s, 32) == 0);
}

fn read_word(bytes: &[u8; 32], i: usize) -> (r: u64)
    requires
        i + 8 <= 32,
    ensures
        r as nat == word_at(bytes@, i as int),
{
    let mut acc: u64 = bytes[i + 7] as u64;
    acc = acc * 256 + bytes[i + 6] as u64;
    acc = acc * 256 + bytes[i + 5] as u64;
    acc = acc * 256 + bytes[i + 4] as u64;
    acc = acc * 256 + bytes[i + 3] as u64;
    acc = acc * 256 + bytes[i + 2] as u64;
    acc = acc * 256 + bytes[i + 1] as u64;
    acc = acc * 256 + bytes[i] as u64;
    acc
}

/// The 256-bit number that 32 bytes stand for, least significant byte first.
pub fn value_from_le_bytes(bytes: &[u8; 32]) -> (r: Uint256)
    ensures
        r.value() == le_value(bytes@),
{
    let w0 = read_word(bytes, 0);
    let w1 = read_word(bytes, 8);
    let w2 = read_word(bytes, 16);
    let w3 = read_word(bytes, 24);
    proof {
        lemma_le_words(bytes@);
    }
    Uint256 { limbs: [w0, w1, w2, w3] }
}

/// Relies on `Gramine::read_rand` of switchboard-common, which fills the
/// buffer from the enclave's random source or reports an error. Nothing is
/// known of the bytes.
#[verifier::external_body]
pub(crate) fn read_rand(buf: &mut [u8; 32]) -> (r: Result<(), switchboard_common::SbError>) {
    switchboard_common::Gramine::read_rand(buf)
}

} // verus!

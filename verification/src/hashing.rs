//! Deterministic 64-bit identifiers for stored records.
//!
//! Tasks and profiles are keyed by a hash computed once over their fields at
//! creation time. The hash is an opaque identifier, not a content-integrity
//! check: later mutations of a record do not change its key. The mixing
//! function is a simple multiply-and-add fold, fully specified so that the
//! identifier of a record is a mathematical function of its creation fields.

use vstd::prelude::*;

verus! {

/// Multiplier for the mixing fold (a large odd constant).
pub const MIX_FACTOR: u64 = 0x100000001b3;

/// One mixing step: multiply the accumulator and add the next word,
/// both modulo 2^64. Opaque: identifiers are opaque keys, so no caller
/// reasons about their arithmetic.
#[verifier::opaque]
pub open spec fn spec_mix(h: u64, x: u64) -> u64 {
    (((h as int) * (MIX_FACTOR as int) + (x as int)) % 0x10000000000000000) as u64
}

/// Executable mixing step, equal to `spec_mix`.
pub fn mix(h: u64, x: u64) -> (r: u64)
    ensures
        r == spec_mix(h, x),
{
    proof {
        reveal(spec_mix);
        assert((h as int) * (MIX_FACTOR as int) <= 0xffffffffffffffff * 0x100000001b3int)
            by (nonlinear_arith)
            requires
                h <= 0xffffffffffffffffu64,
        ;
    }
    let wide: u128 = (h as u128) * (MIX_FACTOR as u128) + (x as u128);
    let folded: u128 = wide % 0x10000000000000000;
    proof {
        assert(folded == ((h as int) * (MIX_FACTOR as int) + (x as int)) % 0x10000000000000000);
        assert(folded < 0x10000000000000000);
    }
    folded as u64
}

/// Fold a prefix of a byte sequence into the accumulator.
pub open spec fn spec_mix_bytes(h: u64, bytes: Seq<u8>) -> u64
    decreases bytes.len(),
{
    if bytes.len() == 0 {
        h
    } else {
        spec_mix(spec_mix_bytes(h, bytes.drop_last()), bytes.last() as u64)
    }
}

/// Executable byte fold, equal to `spec_mix_bytes`.
pub fn mix_bytes(h: u64, bytes: &Vec<u8>) -> (r: u64)
    ensures
        r == spec_mix_bytes(h, bytes@),
{
    let mut acc: u64 = h;
    let mut i: usize = 0;
    while i < bytes.len()
        invariant
            i <= bytes@.len(),
            acc == spec_mix_bytes(h, bytes@.subrange(0, i as int)),
        decreases bytes@.len() - i,
    {
        let b = bytes[i];
        acc = mix(acc, b as u64);
        proof {
            assert(bytes@.subrange(0, i + 1).drop_last() =~= bytes@.subrange(0, i as int));
            assert(bytes@.subrange(0, i + 1).last() == bytes@[i as int]);
        }
        i = i + 1;
    }
    proof {
        assert(bytes@.subrange(0, bytes@.len() as int) =~= bytes@);
    }
    acc
}

/// The identifier minted for a task created by `initiator` with the given
/// requirements, budget and deadline. The task's volunteer, current owner
/// and status at creation time are determined by the initiator, so they do
/// not appear separately.
pub open spec fn spec_task_id_of(
    initiator: u64,
    requirements: Seq<u8>,
    budget: u64,
    deadline: u64,
) -> u64 {
    spec_mix_bytes(
        spec_mix(
            spec_mix(spec_mix(spec_mix(1, initiator), budget), deadline),
            requirements.len() as u64,
        ),
        requirements,
    )
}

/// Executable task identifier, equal to `spec_task_id_of`.
pub fn task_id_of(initiator: u64, requirements: &Vec<u8>, budget: u64, deadline: u64) -> (r: u64)
    ensures
        r == spec_task_id_of(initiator, requirements@, budget, deadline),
{
    let h = mix(mix(mix(mix(1, initiator), budget), deadline), requirements.len() as u64);
    mix_bytes(h, requirements)
}

/// The identifier minted for a profile from its owner, interests and
/// balance snapshot at the time of the write.
pub open spec fn spec_profile_id_of(owner: u64, interests: Seq<u8>, balance: u64) -> u64 {
    spec_mix_bytes(
        spec_mix(spec_mix(spec_mix(2, owner), balance), interests.len() as u64),
        interests,
    )
}

/// Executable profile identifier, equal to `spec_profile_id_of`.
pub fn profile_id_of(owner: u64, interests: &Vec<u8>, balance: u64) -> (r: u64)
    ensures
        r == spec_profile_id_of(owner, interests@, balance),
{
    let h = mix(mix(mix(2, owner), balance), interests.len() as u64);
    mix_bytes(h, interests)
}

} // verus!

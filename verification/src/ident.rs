//! Job identifiers: 128-bit values, drawn at random and then moved, where
//! needed, to the nearest value that no job carries yet.

use vstd::prelude::*;

verus! {

/// The bits that mark a 128-bit value as a random (version 4) UUID of the
/// RFC variant: the version nibble is 4 and the two variant bits are `10`.
pub open spec fn is_random_uuid(id: u128) -> bool {
    id & 0x0000_0000_0000_F000_C000_0000_0000_0000u128
        == 0x0000_0000_0000_4000_8000_0000_0000_0000u128
}

/// The identifier `steps` places after `start`, counting past the largest
/// value round to zero.
pub open spec fn probe(start: u128, steps: nat) -> u128
    recommends
        steps <= u128::MAX,
{
    if start + steps <= u128::MAX {
        (start + steps) as u128
    } else {
        (start + steps - u128::MAX - 1) as u128
    }
}

/// `id` is the first identifier at or after `start` that `taken` lacks.
pub open spec fn is_first_vacant(taken: Set<u128>, start: u128, id: u128) -> bool {
    exists|steps: nat|
        {
            &&& steps <= u128::MAX
            &&& id == #[trigger] probe(start, steps)
            &&& !taken.contains(id)
            &&& forall|earlier: nat| earlier < steps ==> taken.contains(#[trigger] probe(start, earlier))
        }
}

/// Draws a fresh random identifier.
///
/// Calls `uuid::Uuid::new_v4` and hands back the UUID's 128-bit value as
/// `Uuid::as_u128` gives it. The value is random, so the contract states
/// only what holds of every draw: the version and variant bits that
/// `new_v4` sets. Nothing here is proved; `new_v4` aborts the process if
/// the operating system yields no random bytes.
#[verifier::external_body]
pub(crate) fn random_id() -> (id: u128)
    ensures
        is_random_uuid(id),
{
    uuid::Uuid::new_v4().as_u128()
}

/// The identifier that follows `id`, with zero after the largest.
pub fn successor(id: u128) -> (next: u128)
    ensures
        next == probe(id, 1),
{
    if id == u128::MAX {
        0
    } else {
        id + 1
    }
}

/// Within one lap, different step counts reach different identifiers.
pub proof fn lemma_probe_injective(start: u128, a: nat, b: nat)
    requires
        a <= u128::MAX,
        b <= u128::MAX,
        a != b,
    ensures
        probe(start, a) != probe(start, b),
{
}

/// At most one identifier is the first vacant one, so to say that an
/// identifier is the first vacant one is to say which it is.
pub proof fn law_first_vacant_is_unique(taken: Set<u128>, start: u128, a: u128, b: u128)
    requires
        is_first_vacant(taken, start, a),
        is_first_vacant(taken, start, b),
    ensures
        a == b,
{
    let ka = choose|steps: nat|
        {
            &&& steps <= u128::MAX
            &&& a == #[trigger] probe(start, steps)
            &&& !taken.contains(a)
            &&& forall|earlier: nat| earlier < steps ==> taken.contains(#[trigger] probe(start, earlier))
        };
    let kb = choose|steps: nat|
        {
            &&& steps <= u128::MAX
            &&& b == #[trigger] probe(start, steps)
            &&& !taken.contains(b)
            &&& forall|earlier: nat| earlier < steps ==> taken.contains(#[trigger] probe(start, earlier))
        };
    if ka < kb {
        assert(taken.contains(probe(start, ka)));
    } else if kb < ka {
        assert(taken.contains(probe(start, kb)));
    }
}

} // verus!

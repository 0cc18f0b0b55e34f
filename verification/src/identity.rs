use vstd::prelude::*;

verus! {

/// An opaque, globally unique token used to address one actor. It carries no
/// meaning beyond serving as a routing key; it is created once at spawn time
/// and never mutated.
#[derive(Clone, Copy, PartialEq, Eq, Structural, Hash, Debug)]
pub struct Identity {
    bits: u128,
}

impl Identity {
    /// The raw 128-bit value behind the token.
    pub closed spec fn spec_bits(&self) -> u128 {
        self.bits
    }

    /// Builds an identity from a raw 128-bit value. Routing only recognises
    /// identities that were actually registered, so a fabricated value simply
    /// addresses nobody.
    pub fn from_bits(bits: u128) -> (r: Identity)
        ensures
            r.spec_bits() == bits,
    {
        Identity { bits }
    }

    /// The raw 128-bit value of this identity.
    pub fn bits(&self) -> (r: u128)
        ensures
            r == self.spec_bits(),
    {
        self.bits
    }
}

/// Relies on uuid::Uuid::new_v4 for a freshly drawn random identifier,
/// taken as its 128-bit value. The value is random, so nothing is promised
/// of it; the registry enforces freshness itself.
#[verifier::external_body]
fn random_bits() -> u128 {
    uuid::Uuid::new_v4().as_u128()
}

/// Draws one fresh identity from the random source. The draw is random, so
/// distinctness from earlier draws is enforced by the registry at spawn time,
/// not promised here.
pub fn generate() -> Identity {
    Identity { bits: random_bits() }
}

} // verus!

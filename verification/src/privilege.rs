use vstd::prelude::*;

verus! {

/// A privilege splits a 32-bit address into a network-visible part and a
/// core-local part. `permission` selects the address bits that peripherals on
/// the network may see; the remaining bits are private to the core.
///
/// A privilege is built once per message, at send time, and is immutable: it
/// has no identity beyond its two values.
#[derive(Clone, Copy, PartialEq, Eq, Structural, Debug)]
pub struct Privilege {
    /// Mask selecting the externally visible bits of `address`.
    pub permission: u32,
    /// The address the message speaks of.
    pub address: u32,
}

impl Privilege {
    /// The bits of `address` selected by `permission`: what the network may see.
    pub open spec fn spec_network_address(&self) -> u32 {
        self.address & self.permission
    }

    /// The bits of `address` not selected by `permission`: what stays local to
    /// the core.
    pub open spec fn spec_local_address(&self) -> u32 {
        self.address & !self.permission
    }

    pub fn new(permission: u32, address: u32) -> (p: Privilege)
        ensures
            p.permission == permission,
            p.address == address,
    {
        Privilege { permission, address }
    }

    #[verifier::when_used_as_spec(spec_network_address)]
    pub fn network_address(&self) -> (r: u32)
        ensures
            r == self.spec_network_address(),
    {
        self.address & self.permission
    }

    #[verifier::when_used_as_spec(spec_local_address)]
    pub fn local_address(&self) -> (r: u32)
        ensures
            r == self.spec_local_address(),
    {
        self.address & !self.permission
    }
}

/// The two halves of an address are disjoint in bits and together reconstruct
/// the address: for every privilege,
/// `local_address() & network_address() == 0` and
/// `local_address() | network_address() == address`.
pub proof fn lemma_address_partition(p: Privilege)
    ensures
        p.spec_local_address() & p.spec_network_address() == 0,
        p.spec_local_address() | p.spec_network_address() == p.address,
{
    let a = p.address;
    let m = p.permission;
    assert((a & !m) & (a & m) == 0) by (bit_vector);
    assert((a & !m) | (a & m) == a) by (bit_vector);
}

} // verus!

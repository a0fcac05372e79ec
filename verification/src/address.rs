//! Participant addresses as plain ordered values.

use vstd::prelude::*;

verus! {

/// An account or contract address.
///
/// `kind` is 0 for an account (ed25519 public key) and 1 for a contract
/// (contract hash); `key_high` and `key_low` are the first and last 16 bytes
/// of the 32-byte key, read big-endian. Ordering addresses by
/// `(kind, key_high, key_low)` is the host's byte-wise address ordering.
#[derive(Clone, Copy, Debug, PartialEq, Eq, Structural)]
pub struct Address {
    pub kind: u8,
    pub key_high: u128,
    pub key_low: u128,
}

/// `a` comes strictly before `b` in address order.
pub open spec fn address_lt(a: Address, b: Address) -> bool {
    ||| a.kind < b.kind
    ||| (a.kind == b.kind && a.key_high < b.key_high)
    ||| (a.kind == b.kind && a.key_high == b.key_high && a.key_low < b.key_low)
}

impl Address {
    /// Builds an address from its kind and the two halves of its key.
    pub fn new(kind: u8, key_high: u128, key_low: u128) -> (r: Address)
        ensures
            r.kind == kind,
            r.key_high == key_high,
            r.key_low == key_low,
    {
        Address { kind, key_high, key_low }
    }

    /// `true` when `self` sorts strictly before `other`.
    pub fn precedes(&self, other: &Address) -> (r: bool)
        ensures
            r == address_lt(*self, *other),
    {
        if self.kind != other.kind {
            self.kind < other.kind
        } else if self.key_high != other.key_high {
            self.key_high < other.key_high
        } else {
            self.key_low < other.key_low
        }
    }
}

/// Address order is a strict total order: irreflexive, transitive, and any
/// two distinct addresses are ordered one way or the other.
pub proof fn lemma_address_order(a: Address, b: Address, c: Address)
    ensures
        !address_lt(a, a),
        address_lt(a, b) && address_lt(b, c) ==> address_lt(a, c),
        a != b ==> (address_lt(a, b) || address_lt(b, a)),
        !(address_lt(a, b) && address_lt(b, a)),
{
}

} // verus!

use vstd::prelude::*;

verus! {

/// What an address names.
#[derive(Clone, Copy, Debug, PartialEq, Eq, Hash, Structural)]
pub enum AddressKind {
    /// An account, named by its public key.
    Account,
    /// A contract, named by its identifier.
    Contract,
}

/// An identity on the ledger: a token, a holder of pool shares, the pool's
/// controller. The 32 bytes of the key or identifier are held as two halves.
#[derive(Clone, Copy, Debug, PartialEq, Eq, Hash, Structural)]
pub struct Address {
    pub kind: AddressKind,
    pub hi: u128,
    pub lo: u128,
}

impl Address {
    /// The address of the account with the given key.
    pub fn account(hi: u128, lo: u128) -> (a: Address)
        ensures
            a == (Address { kind: AddressKind::Account, hi, lo }),
    {
        Address { kind: AddressKind::Account, hi, lo }
    }

    /// The address of the contract with the given identifier.
    pub fn contract(hi: u128, lo: u128) -> (a: Address)
        ensures
            a == (Address { kind: AddressKind::Contract, hi, lo }),
    {
        Address { kind: AddressKind::Contract, hi, lo }
    }
}

/// The position of `a` in `list`, if it is there.
pub fn position(list: &Vec<Address>, a: Address) -> (r: Option<usize>)
    ensures
        match r {
            Some(i) => i < list.len() && list[i as int] == a && forall|j: int|
                0 <= j < i ==> list[j] != a,
            None => !list@.contains(a),
        },
{
    let mut i: usize = 0;
    while i < list.len()
        invariant
            i <= list.len(),
            forall|j: int| 0 <= j < i ==> list[j] != a,
        decreases list.len() - i,
    {
        if list[i] == a {
            return Some(i);
        }
        i = i + 1;
    }
    None
}

} // verus!

//! A single-asset token ledger: balances, transfers, minting by the creator
//! and a one-time welcome bonus on registration.
use vstd::prelude::*;

pub mod codec;
pub mod ledger;
pub mod model;
pub mod store;

pub use ledger::Ledger;
pub use model::{MintResult, TransferResult, WELCOME_BONUS};

verus! {

/// An account identity, held as the bytes of its principal.
#[derive(Debug)]
pub struct PrincipalWrapper(pub Vec<u8>);

/// The token's metadata.
#[derive(Debug)]
pub struct TokenInfo {
    pub name: String,
    pub symbol: String,
    pub total_supply: u64,
    pub creator: PrincipalWrapper,
}

/// A balance entry.
#[derive(Clone, Copy, Debug, PartialEq, Eq, Structural)]
pub struct Balance {
    pub amount: u64,
}

/// One account and its balance, as listed for an explorer.
#[derive(Debug)]
pub struct UserInfo {
    pub user_principal: PrincipalWrapper,
    pub balance: u64,
}

/// How an account was registered.
#[derive(Clone, Copy, Debug, PartialEq, Eq, Structural)]
pub struct RegistrationInfo {
    pub registered_via_ii: bool,
}

/// A copy of a byte string.
pub fn copy_bytes(v: &Vec<u8>) -> (r: Vec<u8>)
    ensures
        r@ == v@,
{
    let mut r: Vec<u8> = Vec::new();
    let mut i: usize = 0;
    while i < v.len()
        invariant
            i <= v@.len(),
            r@ == v@.subrange(0, i as int),
        decreases v@.len() - i,
    {
        r.push(v[i]);
        i = i + 1;
    }
    assert(r@ =~= v@);
    r
}

/// Whether two byte strings are equal.
pub fn bytes_eq(a: &Vec<u8>, b: &Vec<u8>) -> (r: bool)
    ensures
        r == (a@ == b@),
{
    if a.len() != b.len() {
        return false;
    }
    let mut i: usize = 0;
    while i < a.len()
        invariant
            i <= a@.len(),
            a@.len() == b@.len(),
            a@.subrange(0, i as int) == b@.subrange(0, i as int),
        decreases a@.len() - i,
    {
        if a[i] != b[i] {
            assert(a@[i as int] != b@[i as int]);
            return false;
        }
        assert(a@.subrange(0, i + 1) =~= a@.subrange(0, i as int).push(a@[i as int]));
        assert(b@.subrange(0, i + 1) =~= b@.subrange(0, i as int).push(b@[i as int]));
        i = i + 1;
    }
    assert(a@ =~= a@.subrange(0, i as int));
    assert(b@ =~= b@.subrange(0, i as int));
    true
}

impl PrincipalWrapper {
    /// A copy of this identity.
    pub fn duplicate(&self) -> (r: PrincipalWrapper)
        ensures
            r.0@ == self.0@,
    {
        PrincipalWrapper(copy_bytes(&self.0))
    }

    /// Whether this is the anonymous identity.
    pub fn is_anonymous(&self) -> (r: bool)
        ensures
            r == (self.0@ == model::anonymous_id()),
    {
        let anon = store::anonymous_bytes();
        bytes_eq(&self.0, &anon)
    }
}

} // verus!

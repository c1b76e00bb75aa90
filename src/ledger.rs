//! The ledger and its operations.
use vstd::prelude::*;

use crate::model::{
    balance_of, bonus_given, credit, debit, initial_state, lemma_balance_le_sum, lemma_conservation,
    lemma_debit, lemma_initial_wf, lemma_map_sum_remove, map_sum, mint_outcome, mint_state, register_state, state_wf, transfer_outcome,
    transfer_state, LedgerState, MintResult, TransferResult, WELCOME_BONUS,
};
use crate::store::{balance_entries, bytes_lt, registration_entries, BalanceStore, MemoryPool, RegistrationStore};
use crate::codec::{decode, decode_balances, decode_u64, encode, lemma_decode_balances, well_stored};
use crate::{copy_bytes, bytes_eq, PrincipalWrapper, TokenInfo, UserInfo};

verus! {

/// The region of the store that holds the balances.
pub const BALANCES_REGION: u8 = 1;

/// The region of the store that holds the registrations.
pub const REGISTRATIONS_REGION: u8 = 2;

/// The ledger: the token's metadata, the balances and the registrations.
pub struct Ledger {
    info: TokenInfo,
    balances: BalanceStore,
    registrations: RegistrationStore,
    pool: MemoryPool,
}

impl View for Ledger {
    type V = LedgerState;

    closed spec fn view(&self) -> LedgerState {
        LedgerState {
            name: self.info.name@,
            symbol: self.info.symbol@,
            total_supply: self.info.total_supply,
            creator: self.info.creator.0@,
            balances: decode_balances(balance_entries(self.balances)),
            registered: registration_entries(self.registrations),
        }
    }
}

/// The balances that a store holds.
pub open spec fn balances_of(store: BalanceStore) -> Map<Seq<u8>, u64> {
    decode_balances(balance_entries(store))
}

/// The balance stored for `key`, zero where it has no entry.
fn read_balance(store: &BalanceStore, key: &Vec<u8>) -> (r: u64)
    requires
        well_stored(balance_entries(*store)),
    ensures
        r == balance_of(balances_of(*store), key@),
{
    match store.get(key) {
        Some(v) => decode(&v),
        None => 0,
    }
}

/// Adds `amount` to the balance of `key`; a zero credit stores nothing.
fn credit_balance(store: &mut BalanceStore, key: &Vec<u8>, amount: u64)
    requires
        well_stored(balance_entries(*old(store))),
        balance_of(balances_of(*old(store)), key@) + amount <= u64::MAX,
    ensures
        well_stored(balance_entries(*final(store))),
        balances_of(*final(store)) == credit(balances_of(*old(store)), key@, amount),
{
    if amount != 0 {
        let current = read_balance(store, key);
        proof {
            lemma_decode_balances(balance_entries(*store), key@, (current + amount) as u64);
        }
        store.insert(copy_bytes(key), encode(current + amount));
    }
}

/// Takes `amount` from the balance of `key`, which covers it; an exhausted
/// balance loses its entry.
fn debit_balance(store: &mut BalanceStore, key: &Vec<u8>, amount: u64)
    requires
        well_stored(balance_entries(*old(store))),
        amount <= balance_of(balances_of(*old(store)), key@),
    ensures
        well_stored(balance_entries(*final(store))),
        balances_of(*final(store)) == debit(balances_of(*old(store)), key@, amount),
{
    let current = read_balance(store, key);
    proof {
        lemma_decode_balances(balance_entries(*store), key@, (current - amount) as u64);
    }
    if current == amount {
        store.remove(key);
    } else {
        store.insert(copy_bytes(key), encode(current - amount));
    }
}

/// The sum of the balances in a list of entries.
pub open spec fn entries_sum(e: Seq<(Vec<u8>, Vec<u8>)>) -> int
    decreases e.len(),
{
    if e.len() == 0 {
        0
    } else {
        entries_sum(e.drop_last()) + decode_u64(e.last().1@)
    }
}

/// Every stored form in a list of entries is eight bytes long and spells a
/// positive balance.
pub open spec fn entries_valid(e: Seq<(Vec<u8>, Vec<u8>)>) -> bool {
    forall|i: int| 0 <= i < e.len() ==> (#[trigger] e[i].1)@.len() == 8 && decode_u64(e[i].1@) > 0
}

/// Every stored form in a map is eight bytes long and spells a positive
/// balance.
pub open spec fn stored_valid(raw: Map<Seq<u8>, Seq<u8>>) -> bool {
    forall|k: Seq<u8>| #[trigger] raw.contains_key(k) ==> raw[k].len() == 8 && decode_u64(raw[k]) > 0
}

proof fn lemma_entries_sum_prefix(e: Seq<(Vec<u8>, Vec<u8>)>, j: int)
    requires
        0 <= j <= e.len(),
    ensures
        entries_sum(e.subrange(0, j)) <= entries_sum(e),
    decreases e.len(),
{
    if j < e.len() {
        lemma_entries_sum_prefix(e.drop_last(), j);
        assert(e.drop_last().subrange(0, j) =~= e.subrange(0, j));
    } else {
        assert(e.subrange(0, j) =~= e);
    }
}

proof fn lemma_bytes_lt_irreflexive(a: Seq<u8>)
    ensures
        !bytes_lt(a, a),
    decreases a.len(),
{
    if a.len() > 0 {
        lemma_bytes_lt_irreflexive(a.drop_first());
    }
}

/// Entries that list a map exactly, in increasing key order, sum to the sum
/// of the map.
proof fn lemma_entries_sum(e: Seq<(Vec<u8>, Vec<u8>)>, m: Map<Seq<u8>, Seq<u8>>)
    requires
        m.dom().finite(),
        forall|i: int| 0 <= i < e.len() ==> m.contains_key(#[trigger] e[i].0@) && m[e[i].0@] == e[i].1@,
        forall|k: Seq<u8>| #[trigger] m.contains_key(k) ==> exists|i: int| 0 <= i < e.len() && e[i].0@ == k,
        forall|i: int, j: int| 0 <= i < j < e.len() ==> bytes_lt(#[trigger] e[i].0@, #[trigger] e[j].0@),
    ensures
        map_sum(decode_balances(m)) == entries_sum(e),
    decreases e.len(),
{
    lemma_decode_balances(m, seq![], 0);
    if e.len() == 0 {
        assert(m.dom() =~= Set::empty());
        assert(decode_balances(m).dom() =~= Set::empty());
    } else {
        let n = e.len() - 1;
        let key = e[n].0@;
        let rest = e.drop_last();
        let m2 = m.remove(key);
        assert forall|i: int| 0 <= i < rest.len() implies m2.contains_key(#[trigger] rest[i].0@)
            && m2[rest[i].0@] == rest[i].1@ by {
            assert(rest[i] == e[i]);
            assert(bytes_lt(e[i].0@, e[n].0@));
            lemma_bytes_lt_irreflexive(key);
        }
        assert forall|k: Seq<u8>| #[trigger] m2.contains_key(k)
            implies exists|i: int| 0 <= i < rest.len() && rest[i].0@ == k by {
            let i = choose|i: int| 0 <= i < e.len() && e[i].0@ == k;
            assert(rest[i] == e[i]);
        }
        assert forall|i: int, j: int| 0 <= i < j < rest.len()
            implies bytes_lt(#[trigger] rest[i].0@, #[trigger] rest[j].0@) by {
            assert(rest[i] == e[i] && rest[j] == e[j]);
        }
        lemma_entries_sum(rest, m2);
        lemma_decode_balances(m, key, 0);
        lemma_map_sum_remove(decode_balances(m), key);
    }
}

/// The sum of the balances whose stored forms `entries` lists, where every
/// stored form is valid and the sum fits in a `u64`.
pub fn checked_supply(entries: &Vec<(Vec<u8>, Vec<u8>)>) -> (r: Option<u64>)
    ensures
        r matches Some(v) ==> entries_valid(entries@) && v == entries_sum(entries@),
        r is None ==> !entries_valid(entries@) || entries_sum(entries@) > u64::MAX,
{
    let mut acc: u64 = 0;
    let mut i: usize = 0;
    while i < entries.len()
        invariant
            i <= entries@.len(),
            acc == entries_sum(entries@.subrange(0, i as int)),
            forall|j: int| 0 <= j < i ==> (#[trigger] entries@[j].1)@.len() == 8 && decode_u64(entries@[j].1@) > 0,
        decreases entries@.len() - i,
    {
        if entries[i].1.len() != 8 {
            return None;
        }
        let v = decode(&entries[i].1);
        assert(entries@.subrange(0, i + 1).drop_last() =~= entries@.subrange(0, i as int));
        if v == 0 {
            return None;
        }
        if acc > u64::MAX - v {
            proof {
                lemma_entries_sum_prefix(entries@, i + 1);
            }
            return None;
        }
        acc = acc + v;
        i = i + 1;
    }
    assert(entries@.subrange(0, i as int) =~= entries@);
    Some(acc)
}

impl Ledger {
    /// The ledger is well formed: the supply is the sum of the balances, no
    /// balance of zero is stored, and every stored form is valid.
    pub open spec fn wf(&self) -> bool {
        state_wf(self@) && self.stored_forms_valid()
    }

    /// Every balance is stored in its eight-byte form.
    pub closed spec fn stored_forms_valid(&self) -> bool {
        well_stored(balance_entries(self.balances))
    }

    /// A new ledger whose whole initial supply stands on the creator, with no
    /// registrations.
    pub fn init(
        name: String,
        symbol: String,
        creator: PrincipalWrapper,
        initial_supply: u64,
        pool: MemoryPool,
    ) -> (r: Ledger)
        ensures
            r.wf(),
            r@ == initial_state(name@, symbol@, creator.0@, initial_supply),
    {
        let mut balances = BalanceStore::new(&pool, BALANCES_REGION);
        let registrations = RegistrationStore::new(&pool, REGISTRATIONS_REGION);
        proof {
            assert(balance_entries(balances) =~= Map::empty());
            assert(balances_of(balances) =~= Map::empty());
            assert(registration_entries(registrations) =~= Map::empty());
            lemma_initial_wf(name@, symbol@, creator.0@, initial_supply);
        }
        credit_balance(&mut balances, &creator.0, initial_supply);
        let info = TokenInfo { name, symbol, total_supply: initial_supply, creator };
        Ledger { info, balances, registrations, pool }
    }

    /// Reopens the ledger kept in the pool's regions; `None` where a stored
    /// balance is malformed or zero, or their sum does not fit.
    pub fn restore(name: String, symbol: String, creator: PrincipalWrapper, pool: MemoryPool) -> (r: Option<Ledger>)
        ensures
            r matches Some(l) ==> {
                &&& l.wf()
                &&& l@.name == name@
                &&& l@.symbol == symbol@
                &&& l@.creator == creator.0@
            },
    {
        let balances = BalanceStore::open(&pool, BALANCES_REGION);
        let registrations = RegistrationStore::open(&pool, REGISTRATIONS_REGION);
        Ledger::from_stores(name, symbol, creator, balances, registrations, pool)
    }

    /// The ledger over stores that already hold balances and registrations.
    /// The supply is the sum of the stored balances.
    pub fn from_stores(
        name: String,
        symbol: String,
        creator: PrincipalWrapper,
        balances: BalanceStore,
        registrations: RegistrationStore,
        pool: MemoryPool,
    ) -> (r: Option<Ledger>)
        requires
            balance_entries(balances).dom().finite(),
            registration_entries(registrations).dom().finite(),
        ensures
            r is Some <==> stored_valid(balance_entries(balances)) && map_sum(balances_of(balances)) <= u64::MAX,
            r matches Some(l) ==> {
                &&& l.wf()
                &&& l@ == (LedgerState {
                    name: name@,
                    symbol: symbol@,
                    total_supply: map_sum(balances_of(balances)) as u64,
                    creator: creator.0@,
                    balances: balances_of(balances),
                    registered: registration_entries(registrations),
                })
            },
    {
        let entries = balances.entries();
        let ghost raw = balance_entries(balances);
        proof {
            lemma_entries_sum(entries@, raw);
            lemma_decode_balances(raw, seq![], 0);
            if stored_valid(raw) {
                assert forall|i: int| 0 <= i < entries@.len() implies (#[trigger] entries@[i].1)@.len() == 8
                    && decode_u64(entries@[i].1@) > 0 by {
                    assert(raw.contains_key(entries@[i].0@));
                }
            }
        }
        match checked_supply(&entries) {
            None => None,
            Some(total_supply) => {
                proof {
                    assert forall|k: Seq<u8>| #[trigger] raw.contains_key(k)
                        implies raw[k].len() == 8 && decode_u64(raw[k]) > 0 by {
                        let i = choose|i: int| 0 <= i < entries@.len() && entries@[i].0@ == k;
                        assert(entries@[i].1@.len() == 8);
                    }
                    assert forall|k: Seq<u8>| #[trigger] balances_of(balances).contains_key(k)
                        implies balances_of(balances)[k] > 0 by {
                        assert(raw.contains_key(k));
                    }
                }
                let info = TokenInfo { name, symbol, total_supply, creator };
                Some(Ledger { info, balances, registrations, pool })
            },
        }
    }

    /// Closes the ledger and lets its memory go, so that the next process can
    /// reopen it; whether the memory was let go.
    pub fn release(self) -> (r: bool) {
        self.pool.release()
    }

    /// The registration path: the first call of a non-anonymous identity
    /// registers it and credits it the welcome bonus; every other call changes
    /// nothing. Returns whether the bonus was given.
    pub fn register_user_via_ii(&mut self, caller: &PrincipalWrapper) -> (r: bool)
        requires
            old(self).wf(),
            bonus_given(old(self)@, caller.0@) ==> old(self)@.total_supply + WELCOME_BONUS <= u64::MAX,
        ensures
            final(self).wf(),
            r == bonus_given(old(self)@, caller.0@),
            final(self)@ == register_state(old(self)@, caller.0@),
    {
        if caller.is_anonymous() {
            return false;
        }
        if self.registrations.contains_key(&caller.0) {
            return false;
        }
        proof {
            lemma_conservation(self@, caller.0@, caller.0@, 0);
            lemma_balance_le_sum(self@.balances, caller.0@);
        }
        self.registrations.insert(copy_bytes(&caller.0), true);
        credit_balance(&mut self.balances, &caller.0, WELCOME_BONUS);
        self.info.total_supply = self.info.total_supply + WELCOME_BONUS;
        true
    }

    /// Metadata snapshot.
    pub fn get_token_info(&self) -> (r: TokenInfo)
        ensures
            r.name@ == self@.name,
            r.symbol@ == self@.symbol,
            r.total_supply == self@.total_supply,
            r.creator.0@ == self@.creator,
    {
        TokenInfo {
            name: self.info.name.clone(),
            symbol: self.info.symbol.clone(),
            total_supply: self.info.total_supply,
            creator: self.info.creator.duplicate(),
        }
    }

    /// The balance of an account; zero for an account with no entry.
    pub fn get_balance(&self, account: &PrincipalWrapper) -> (r: u64)
        requires
            self.wf(),
        ensures
            r == balance_of(self@.balances, account.0@),
    {
        read_balance(&self.balances, &account.0)
    }

    /// The total supply.
    pub fn get_total_supply(&self) -> (r: u64)
        ensures
            r == self@.total_supply,
    {
        self.info.total_supply
    }

    /// Every account with an entry and its balance, in increasing order of
    /// identity bytes.
    pub fn get_all_users(&self) -> (r: Vec<UserInfo>)
        requires
            self.wf(),
        ensures
            forall|i: int| 0 <= i < r@.len() ==> self@.balances.contains_key(#[trigger] r@[i].user_principal.0@)
                && self@.balances[r@[i].user_principal.0@] == r@[i].balance,
            forall|k: Seq<u8>| #[trigger] self@.balances.contains_key(k)
                ==> exists|i: int| 0 <= i < r@.len() && r@[i].user_principal.0@ == k,
            forall|i: int, j: int| 0 <= i < j < r@.len()
                ==> bytes_lt(#[trigger] r@[i].user_principal.0@, #[trigger] r@[j].user_principal.0@),
    {
        let entries = self.balances.entries();
        assert forall|j: int| 0 <= j < entries@.len() implies (#[trigger] entries@[j].1)@.len() == 8 by {
            assert(balance_entries(self.balances).contains_key(entries@[j].0@));
        }
        let mut r: Vec<UserInfo> = Vec::new();
        let mut i: usize = 0;
        while i < entries.len()
            invariant
                i <= entries@.len(),
                r@.len() == i,
                forall|j: int| 0 <= j < entries@.len() ==> (#[trigger] entries@[j].1)@.len() == 8,
                forall|j: int| 0 <= j < i ==> (#[trigger] r@[j]).user_principal.0@ == entries@[j].0@
                    && r@[j].balance == decode_u64(entries@[j].1@),
            decreases entries@.len() - i,
        {
            let key = copy_bytes(&entries[i].0);
            let balance = decode(&entries[i].1);
            r.push(UserInfo { user_principal: PrincipalWrapper(key), balance });
            i = i + 1;
        }
        proof {
            lemma_decode_balances(balance_entries(self.balances), seq![], 0);
            assert forall|k: Seq<u8>| #[trigger] self@.balances.contains_key(k)
                implies exists|i: int| 0 <= i < r@.len() && r@[i].user_principal.0@ == k by {
                let j = choose|j: int| 0 <= j < entries@.len() && entries@[j].0@ == k;
                assert(r@[j].user_principal.0@ == k);
            }
            assert forall|a: int, b: int| 0 <= a < b < r@.len()
                implies bytes_lt(#[trigger] r@[a].user_principal.0@, #[trigger] r@[b].user_principal.0@) by {
                assert(bytes_lt(entries@[a].0@, entries@[b].0@));
            }
        }
        r
    }

    /// Whether `account` has registered.
    pub fn is_registered(&self, account: &PrincipalWrapper) -> (r: bool)
        ensures
            r == self@.registered.contains_key(account.0@),
    {
        self.registrations.contains_key(&account.0)
    }

    /// Whether `principal` is the creator.
    pub fn is_creator(&self, principal: &PrincipalWrapper) -> (r: bool)
        ensures
            r == (principal.0@ == self@.creator),
    {
        bytes_eq(&self.info.creator.0, &principal.0)
    }

    /// Registers a non-anonymous caller on its first call, with the welcome
    /// bonus, and returns the caller's balance afterwards.
    pub fn init_user(&mut self, caller: &PrincipalWrapper) -> (r: u64)
        requires
            old(self).wf(),
            bonus_given(old(self)@, caller.0@) ==> old(self)@.total_supply + WELCOME_BONUS <= u64::MAX,
        ensures
            final(self).wf(),
            final(self)@ == register_state(old(self)@, caller.0@),
            r == balance_of(final(self)@.balances, caller.0@),
    {
        self.register_user_via_ii(caller);
        self.get_balance(caller)
    }

    /// Moves `amount` from the caller to `to`. A transfer to oneself is
    /// rejected first, then one the caller's balance does not cover; neither
    /// changes anything.
    pub fn transfer(&mut self, caller: &PrincipalWrapper, to: &PrincipalWrapper, amount: u64) -> (r: TransferResult)
        requires
            old(self).wf(),
        ensures
            final(self).wf(),
            r == transfer_outcome(old(self)@, caller.0@, to.0@, amount),
            final(self)@ == transfer_state(old(self)@, caller.0@, to.0@, amount),
    {
        if bytes_eq(&caller.0, &to.0) {
            return TransferResult::SameAccount;
        }
        let sender_balance = read_balance(&self.balances, &caller.0);
        if sender_balance < amount {
            return TransferResult::InsufficientBalance;
        }
        proof {
            lemma_conservation(self@, caller.0@, to.0@, amount);
            lemma_debit(self@.balances, caller.0@, amount);
            lemma_balance_le_sum(debit(self@.balances, caller.0@, amount), to.0@);
        }
        debit_balance(&mut self.balances, &caller.0, amount);
        credit_balance(&mut self.balances, &to.0, amount);
        TransferResult::Success
    }

    /// Creates `amount` new units on `to`; only the creator may.
    pub fn mint(&mut self, caller: &PrincipalWrapper, to: &PrincipalWrapper, amount: u64) -> (r: MintResult)
        requires
            old(self).wf(),
            caller.0@ == old(self)@.creator ==> old(self)@.total_supply + amount <= u64::MAX,
        ensures
            final(self).wf(),
            r == mint_outcome(old(self)@, caller.0@),
            final(self)@ == mint_state(old(self)@, caller.0@, to.0@, amount),
    {
        if !self.is_creator(caller) {
            return MintResult::Unauthorized;
        }
        proof {
            lemma_conservation(self@, caller.0@, to.0@, amount);
            lemma_balance_le_sum(self@.balances, to.0@);
        }
        self.info.total_supply = self.info.total_supply + amount;
        credit_balance(&mut self.balances, &to.0, amount);
        MintResult::Success
    }
}

} // verus!

//! The stable memory of the process, claimed by one pool at a time; the maps
//! in it that hold balances and registrations; and the one fact about
//! identities that the ledger takes from the identity crate.
use vstd::prelude::*;
use ic_stable_structures::memory_manager::{MemoryId, MemoryManager, VirtualMemory};
use ic_stable_structures::{Cell, DefaultMemoryImpl, StableBTreeMap};

verus! {

/// Strict lexicographic order on byte strings, the order of `Vec<u8>`.
pub open spec fn bytes_lt(a: Seq<u8>, b: Seq<u8>) -> bool
    decreases a.len(),
{
    if a.len() == 0 {
        b.len() > 0
    } else if b.len() == 0 {
        false
    } else if a[0] != b[0] {
        a[0] < b[0]
    } else {
        bytes_lt(a.drop_first(), b.drop_first())
    }
}

/// The stable memory, split into separate regions by identifier.
#[verifier::external_body]
pub struct MemoryRegions {
    manager: MemoryManager<DefaultMemoryImpl>,
}

impl MemoryRegions {
    /// Relies on MemoryManager::init, over the default memory.
    #[verifier::external_body]
    pub(crate) fn new() -> (r: MemoryRegions) {
        MemoryRegions { manager: MemoryManager::init(DefaultMemoryImpl::default()) }
    }
}

/// A cell in stable memory that holds a byte string.
#[verifier::external_body]
pub struct LockCell {
    cell: Cell<Vec<u8>, VirtualMemory<DefaultMemoryImpl>>,
}

/// What a lock cell holds.
pub uninterp spec fn lock_value(c: LockCell) -> Seq<u8>;

impl LockCell {
    /// Relies on MemoryManager::get and Cell::init: the cell kept in region
    /// `region`, or a new empty one; `None` where the region holds a cell of
    /// another layout version (255 is reserved and panics).
    #[verifier::external_body]
    pub(crate) fn open(regions: &MemoryRegions, region: u8) -> (r: Option<LockCell>)
        requires
            region < 255,
    {
        match Cell::init(regions.manager.get(MemoryId::new(region)), Vec::new()) {
            Ok(cell) => Some(LockCell { cell }),
            Err(_) => None,
        }
    }

    /// Relies on Cell::get: the value held.
    #[verifier::external_body]
    pub(crate) fn get(&self) -> (r: Vec<u8>)
        ensures
            r@ == lock_value(*self),
    {
        self.cell.get().clone()
    }

    /// Relies on Cell::set: on success the cell holds the value, otherwise it
    /// is unchanged.
    #[verifier::external_body]
    pub(crate) fn set(&mut self, value: Vec<u8>) -> (r: bool)
        ensures
            r ==> lock_value(*final(self)) == value@,
            !r ==> lock_value(*final(self)) == lock_value(*old(self)),
    {
        self.cell.set(value).is_ok()
    }
}

/// The region that holds the pool's lock.
pub const LOCK_REGION: u8 = 0;

/// Whether a lock value marks the memory as held by a live pool.
pub open spec fn is_held(v: Seq<u8>) -> bool {
    v == seq![1u8]
}

/// Whether a lock value leaves the memory free to claim.
pub fn lock_is_free(v: &Vec<u8>) -> (r: bool)
    ensures
        r == !is_held(v@),
{
    if v.len() == 1 && v[0] == 1 {
        assert(v@ =~= seq![1u8]);
        false
    } else {
        true
    }
}

/// The stable memory of the process, held by one pool at a time: a pool
/// marks the lock region while it lives, and a second claim finds the mark
/// and is refused.
pub struct MemoryPool {
    regions: MemoryRegions,
    lock: LockCell,
}

impl MemoryPool {
    /// Whether this pool holds the memory.
    pub closed spec fn holds(&self) -> bool {
        is_held(lock_value(self.lock))
    }

    /// The pool over the process's stable memory; `None` where a live pool
    /// already holds it, or the lock cannot be read or written.
    pub fn claim() -> (r: Option<MemoryPool>)
        ensures
            r matches Some(p) ==> p.holds(),
    {
        let regions = MemoryRegions::new();
        match LockCell::open(&regions, LOCK_REGION) {
            None => None,
            Some(mut lock) => {
                let current = lock.get();
                if !lock_is_free(&current) {
                    return None;
                }
                let mut mark: Vec<u8> = Vec::new();
                mark.push(1u8);
                assert(mark@ =~= seq![1u8]);
                if !lock.set(mark) {
                    return None;
                }
                Some(MemoryPool { regions, lock })
            },
        }
    }

    /// Lets the memory go, so that the next process can claim it; whether
    /// the mark was cleared.
    pub fn release(self) -> (r: bool) {
        let mut lock = self.lock;
        lock.set(Vec::new())
    }
}

/// An ordered map in stable memory from account identity to the stored form
/// of a balance.
#[verifier::external_body]
pub struct BalanceStore {
    map: StableBTreeMap<Vec<u8>, Vec<u8>, VirtualMemory<DefaultMemoryImpl>>,
}

/// What a balance store holds.
pub uninterp spec fn balance_entries(m: BalanceStore) -> Map<Seq<u8>, Seq<u8>>;

impl BalanceStore {
    /// Relies on MemoryManager::get and StableBTreeMap::new: a new, empty map
    /// in the pool's region `region` (255 is reserved and panics). The region
    /// belongs to this map alone: one pool holds the memory at a time, and a
    /// ledger takes that pool by value and builds one map per region.
    #[verifier::external_body]
    pub(crate) fn new(pool: &MemoryPool, region: u8) -> (r: BalanceStore)
        requires
            region < 255,
        ensures
            balance_entries(r).dom().finite(),
            balance_entries(r).dom().len() == 0,
    {
        BalanceStore { map: StableBTreeMap::new(pool.regions.manager.get(MemoryId::new(region))) }
    }

    /// Relies on MemoryManager::get and StableBTreeMap::init: the map kept in
    /// the pool's region `region`, whatever it holds (255 is reserved and
    /// panics).
    #[verifier::external_body]
    pub(crate) fn open(pool: &MemoryPool, region: u8) -> (r: BalanceStore)
        requires
            region < 255,
        ensures
            balance_entries(r).dom().finite(),
    {
        BalanceStore { map: StableBTreeMap::init(pool.regions.manager.get(MemoryId::new(region))) }
    }

    /// Relies on StableBTreeMap::get: the value stored under the key, if any.
    #[verifier::external_body]
    pub(crate) fn get(&self, key: &Vec<u8>) -> (r: Option<Vec<u8>>)
        ensures
            balance_entries(*self).contains_key(key@) ==> r.is_some() && r.unwrap()@ == balance_entries(*self)[key@],
            !balance_entries(*self).contains_key(key@) ==> r.is_none(),
    {
        self.map.get(key)
    }

    /// Relies on StableBTreeMap::insert: the key now maps to the value.
    #[verifier::external_body]
    pub(crate) fn insert(&mut self, key: Vec<u8>, value: Vec<u8>)
        ensures
            balance_entries(*final(self)) == balance_entries(*old(self)).insert(key@, value@),
    {
        self.map.insert(key, value);
    }

    /// Relies on StableBTreeMap::remove: the key no longer has an entry.
    #[verifier::external_body]
    pub(crate) fn remove(&mut self, key: &Vec<u8>)
        ensures
            balance_entries(*final(self)) == balance_entries(*old(self)).remove(key@),
    {
        self.map.remove(key);
    }

    /// Relies on StableBTreeMap::iter: every entry once, sorted by key.
    #[verifier::external_body]
    pub(crate) fn entries(&self) -> (r: Vec<(Vec<u8>, Vec<u8>)>)
        ensures
            forall|i: int| 0 <= i < r@.len() ==> balance_entries(*self).contains_key(#[trigger] r@[i].0@)
                && balance_entries(*self)[r@[i].0@] == r@[i].1@,
            forall|k: Seq<u8>| #[trigger] balance_entries(*self).contains_key(k)
                ==> exists|i: int| 0 <= i < r@.len() && r@[i].0@ == k,
            forall|i: int, j: int| 0 <= i < j < r@.len() ==> bytes_lt(#[trigger] r@[i].0@, #[trigger] r@[j].0@),
    {
        self.map.iter().collect()
    }
}

/// An ordered map in stable memory from account identity to registration marker.
#[verifier::external_body]
pub struct RegistrationStore {
    map: StableBTreeMap<Vec<u8>, bool, VirtualMemory<DefaultMemoryImpl>>,
}

/// What a registration store holds.
pub uninterp spec fn registration_entries(m: RegistrationStore) -> Map<Seq<u8>, bool>;

impl RegistrationStore {
    /// Relies on MemoryManager::get and StableBTreeMap::new: a new, empty map
    /// in the pool's region `region` (255 is reserved and panics). The region
    /// belongs to this map alone: one pool holds the memory at a time, and a
    /// ledger takes that pool by value and builds one map per region.
    #[verifier::external_body]
    pub(crate) fn new(pool: &MemoryPool, region: u8) -> (r: RegistrationStore)
        requires
            region < 255,
        ensures
            registration_entries(r).dom().finite(),
            registration_entries(r).dom().len() == 0,
    {
        RegistrationStore { map: StableBTreeMap::new(pool.regions.manager.get(MemoryId::new(region))) }
    }

    /// Relies on MemoryManager::get and StableBTreeMap::init: the map kept in
    /// the pool's region `region`, whatever it holds (255 is reserved and
    /// panics).
    #[verifier::external_body]
    pub(crate) fn open(pool: &MemoryPool, region: u8) -> (r: RegistrationStore)
        requires
            region < 255,
        ensures
            registration_entries(r).dom().finite(),
    {
        RegistrationStore { map: StableBTreeMap::init(pool.regions.manager.get(MemoryId::new(region))) }
    }

    /// Relies on StableBTreeMap::contains_key: whether the key has an entry.
    #[verifier::external_body]
    pub(crate) fn contains_key(&self, key: &Vec<u8>) -> (r: bool)
        ensures
            r == registration_entries(*self).contains_key(key@),
    {
        self.map.contains_key(key)
    }

    /// Relies on StableBTreeMap::insert: the key now maps to the value.
    #[verifier::external_body]
    pub(crate) fn insert(&mut self, key: Vec<u8>, value: bool)
        ensures
            registration_entries(*final(self)) == registration_entries(*old(self)).insert(key@, value),
    {
        self.map.insert(key, value);
    }
}

/// Relies on candid::Principal::anonymous and Principal::as_slice: the
/// anonymous identity is the single byte 4.
#[verifier::external_body]
pub(crate) fn anonymous_bytes() -> (r: Vec<u8>)
    ensures
        r@ == seq![4u8],
{
    candid::Principal::anonymous().as_slice().to_vec()
}

} // verus!

//! The mathematical model of the ledger: its state, the effect of each
//! operation on it, and the laws that the operations obey.
use vstd::prelude::*;

verus! {

/// The amount credited to an account the first time it registers.
pub const WELCOME_BONUS: u64 = 1000;

/// The identity that stands for an unauthenticated caller.
pub open spec fn anonymous_id() -> Seq<u8> {
    seq![4u8]
}

/// The abstract state of the ledger.
pub ghost struct LedgerState {
    pub name: Seq<char>,
    pub symbol: Seq<char>,
    pub total_supply: u64,
    pub creator: Seq<u8>,
    /// Account identity to balance; an absent account holds zero.
    pub balances: Map<Seq<u8>, u64>,
    /// Account identity to registration marker.
    pub registered: Map<Seq<u8>, bool>,
}

/// The sum of all values of a finite map.
pub open spec fn map_sum(m: Map<Seq<u8>, u64>) -> int
    decreases m.dom().len(),
{
    if m.dom().finite() && m.dom().len() > 0 {
        let k = m.dom().choose();
        m[k] + map_sum(m.remove(k))
    } else {
        0
    }
}

/// The balance of an account: zero where it has no entry.
pub open spec fn balance_of(b: Map<Seq<u8>, u64>, k: Seq<u8>) -> int {
    if b.contains_key(k) {
        b[k] as int
    } else {
        0
    }
}

/// A well-formed state: the supply is the sum of the balances, and no
/// account holds a stored zero.
pub open spec fn state_wf(s: LedgerState) -> bool {
    &&& s.balances.dom().finite()
    &&& s.registered.dom().finite()
    &&& s.total_supply as int == map_sum(s.balances)
    &&& forall|k: Seq<u8>| #[trigger] s.balances.contains_key(k) ==> s.balances[k] > 0
}

/// The balances after adding `amount` to account `k`.
pub open spec fn credit(b: Map<Seq<u8>, u64>, k: Seq<u8>, amount: u64) -> Map<Seq<u8>, u64> {
    if amount == 0 {
        b
    } else {
        b.insert(k, (balance_of(b, k) + amount) as u64)
    }
}

/// The balances after taking `amount` from account `k`, which holds at least
/// that much; an exhausted account loses its entry.
pub open spec fn debit(b: Map<Seq<u8>, u64>, k: Seq<u8>, amount: u64) -> Map<Seq<u8>, u64> {
    if balance_of(b, k) == amount {
        b.remove(k)
    } else {
        b.insert(k, (balance_of(b, k) - amount) as u64)
    }
}

/// The state right after initialisation.
pub open spec fn initial_state(
    name: Seq<char>,
    symbol: Seq<char>,
    creator: Seq<u8>,
    supply: u64,
) -> LedgerState {
    LedgerState {
        name,
        symbol,
        total_supply: supply,
        creator,
        balances: credit(Map::empty(), creator, supply),
        registered: Map::empty(),
    }
}

/// The outcome of a transfer.
#[derive(Clone, Copy, Debug, PartialEq, Eq, Structural)]
pub enum TransferResult {
    Success,
    InsufficientBalance,
    SameAccount,
}

/// The outcome of a mint.
#[derive(Clone, Copy, Debug, PartialEq, Eq, Structural)]
pub enum MintResult {
    Success,
    Unauthorized,
}

pub open spec fn transfer_outcome(s: LedgerState, caller: Seq<u8>, to: Seq<u8>, amount: u64) -> TransferResult {
    if caller == to {
        TransferResult::SameAccount
    } else if balance_of(s.balances, caller) < amount {
        TransferResult::InsufficientBalance
    } else {
        TransferResult::Success
    }
}

pub open spec fn transfer_state(s: LedgerState, caller: Seq<u8>, to: Seq<u8>, amount: u64) -> LedgerState {
    match transfer_outcome(s, caller, to, amount) {
        TransferResult::Success => LedgerState {
            balances: credit(debit(s.balances, caller, amount), to, amount),
            ..s
        },
        _ => s,
    }
}

pub open spec fn mint_outcome(s: LedgerState, caller: Seq<u8>) -> MintResult {
    if caller == s.creator {
        MintResult::Success
    } else {
        MintResult::Unauthorized
    }
}

pub open spec fn mint_state(s: LedgerState, caller: Seq<u8>, to: Seq<u8>, amount: u64) -> LedgerState {
    if caller == s.creator {
        LedgerState {
            total_supply: (s.total_supply + amount) as u64,
            balances: credit(s.balances, to, amount),
            ..s
        }
    } else {
        s
    }
}

/// Whether the registration path gives the bonus to `caller`.
pub open spec fn bonus_given(s: LedgerState, caller: Seq<u8>) -> bool {
    caller != anonymous_id() && !s.registered.contains_key(caller)
}

pub open spec fn register_state(s: LedgerState, caller: Seq<u8>) -> LedgerState {
    if bonus_given(s, caller) {
        LedgerState {
            total_supply: (s.total_supply + WELCOME_BONUS) as u64,
            balances: credit(s.balances, caller, WELCOME_BONUS),
            registered: s.registered.insert(caller, true),
            ..s
        }
    } else {
        s
    }
}

/// The state after `n` calls of the registration path by one caller.
pub open spec fn register_times(s: LedgerState, caller: Seq<u8>, n: nat) -> LedgerState
    decreases n,
{
    if n == 0 {
        s
    } else {
        register_state(register_times(s, caller, (n - 1) as nat), caller)
    }
}

/// Removing an entry takes its value from the sum.
pub proof fn lemma_map_sum_remove(m: Map<Seq<u8>, u64>, k: Seq<u8>)
    requires
        m.dom().finite(),
        m.contains_key(k),
    ensures
        map_sum(m) == m[k] + map_sum(m.remove(k)),
    decreases m.dom().len(),
{
    let c = m.dom().choose();
    assert(m.dom().contains(k));
    if c != k {
        lemma_map_sum_remove(m.remove(c), k);
        lemma_map_sum_remove(m.remove(k), c);
        assert(m.remove(c).remove(k) =~= m.remove(k).remove(c));
    }
}

proof fn lemma_map_sum_nonneg(m: Map<Seq<u8>, u64>)
    ensures
        map_sum(m) >= 0,
    decreases m.dom().len(),
{
    if m.dom().finite() && m.dom().len() > 0 {
        let k = m.dom().choose();
        assert(m.dom().contains(k));
        lemma_map_sum_nonneg(m.remove(k));
    }
}

/// Each balance is bounded by the sum of all balances.
pub proof fn lemma_balance_le_sum(m: Map<Seq<u8>, u64>, k: Seq<u8>)
    requires
        m.dom().finite(),
    ensures
        0 <= balance_of(m, k) <= map_sum(m),
{
    lemma_map_sum_nonneg(m);
    if m.contains_key(k) {
        lemma_map_sum_remove(m, k);
        lemma_map_sum_nonneg(m.remove(k));
    }
}

proof fn lemma_map_sum_insert(m: Map<Seq<u8>, u64>, k: Seq<u8>, v: u64)
    requires
        m.dom().finite(),
    ensures
        map_sum(m.insert(k, v)) == map_sum(m) - balance_of(m, k) + v,
{
    lemma_map_sum_remove(m.insert(k, v), k);
    assert(m.insert(k, v).remove(k) =~= m.remove(k));
    if m.contains_key(k) {
        lemma_map_sum_remove(m, k);
    } else {
        assert(m.remove(k) =~= m);
    }
}

/// A credit adds the amount to one account and to the sum, and leaves the
/// others as they were.
pub proof fn lemma_credit(b: Map<Seq<u8>, u64>, k: Seq<u8>, amount: u64)
    requires
        b.dom().finite(),
        forall|j: Seq<u8>| #[trigger] b.contains_key(j) ==> b[j] > 0,
        map_sum(b) + amount <= u64::MAX,
    ensures
        credit(b, k, amount).dom().finite(),
        map_sum(credit(b, k, amount)) == map_sum(b) + amount,
        forall|j: Seq<u8>| #[trigger] credit(b, k, amount).contains_key(j) ==> credit(b, k, amount)[j] > 0,
        balance_of(credit(b, k, amount), k) == balance_of(b, k) + amount,
        forall|j: Seq<u8>| j != k ==> balance_of(#[trigger] credit(b, k, amount), j) == balance_of(b, j),
{
    lemma_balance_le_sum(b, k);
    if amount != 0 {
        lemma_map_sum_insert(b, k, (balance_of(b, k) + amount) as u64);
    }
}

/// A covered debit takes the amount from one account and from the sum, and
/// leaves the others as they were.
pub proof fn lemma_debit(b: Map<Seq<u8>, u64>, k: Seq<u8>, amount: u64)
    requires
        b.dom().finite(),
        forall|j: Seq<u8>| #[trigger] b.contains_key(j) ==> b[j] > 0,
        amount <= balance_of(b, k),
    ensures
        debit(b, k, amount).dom().finite(),
        map_sum(debit(b, k, amount)) == map_sum(b) - amount,
        forall|j: Seq<u8>| #[trigger] debit(b, k, amount).contains_key(j) ==> debit(b, k, amount)[j] > 0,
        balance_of(debit(b, k, amount), k) == balance_of(b, k) - amount,
        forall|j: Seq<u8>| j != k ==> balance_of(#[trigger] debit(b, k, amount), j) == balance_of(b, j),
{
    if balance_of(b, k) == amount {
        if b.contains_key(k) {
            lemma_map_sum_remove(b, k);
        } else {
            assert(b.remove(k) =~= b);
        }
    } else {
        lemma_map_sum_insert(b, k, (balance_of(b, k) - amount) as u64);
    }
}

/// The initial state is well formed: the whole supply stands on the creator.
pub proof fn lemma_initial_wf(name: Seq<char>, symbol: Seq<char>, creator: Seq<u8>, supply: u64)
    ensures
        state_wf(initial_state(name, symbol, creator, supply)),
        balance_of(initial_state(name, symbol, creator, supply).balances, creator) == supply,
{
    let e = Map::<Seq<u8>, u64>::empty();
    assert(e.dom() =~= Set::empty());
    assert(map_sum(e) == 0);
    lemma_credit(e, creator, supply);
}

/// Conservation: every operation keeps the supply equal to the sum of the
/// balances, and keeps zero balances absent, wherever the supply does not
/// overflow.
pub proof fn lemma_conservation(s: LedgerState, caller: Seq<u8>, to: Seq<u8>, amount: u64)
    requires
        state_wf(s),
    ensures
        state_wf(transfer_state(s, caller, to, amount)),
        transfer_state(s, caller, to, amount).total_supply == s.total_supply,
        s.total_supply + amount <= u64::MAX ==> state_wf(mint_state(s, caller, to, amount)),
        s.total_supply + WELCOME_BONUS <= u64::MAX ==> state_wf(register_state(s, caller)),
{
    if transfer_outcome(s, caller, to, amount) == TransferResult::Success {
        lemma_debit(s.balances, caller, amount);
        lemma_credit(debit(s.balances, caller, amount), to, amount);
    }
    if s.total_supply + amount <= u64::MAX {
        lemma_credit(s.balances, to, amount);
    }
    if s.total_supply + WELCOME_BONUS <= u64::MAX {
        lemma_credit(s.balances, caller, WELCOME_BONUS);
    }
}

/// A transfer between distinct accounts, covered by the sender's balance,
/// moves exactly the amount and leaves every other account and the supply as
/// they were; the sender's entry goes when its balance is exhausted.
pub proof fn lemma_transfer_exact(s: LedgerState, caller: Seq<u8>, to: Seq<u8>, amount: u64)
    requires
        state_wf(s),
        caller != to,
        balance_of(s.balances, caller) >= amount,
    ensures
        ({
            let t = transfer_state(s, caller, to, amount);
            &&& transfer_outcome(s, caller, to, amount) == TransferResult::Success
            &&& balance_of(t.balances, caller) == balance_of(s.balances, caller) - amount
            &&& balance_of(s.balances, caller) == amount ==> !t.balances.contains_key(caller)
            &&& balance_of(t.balances, to) == balance_of(s.balances, to) + amount
            &&& forall|j: Seq<u8>| j != caller && j != to ==> balance_of(t.balances, j) == balance_of(s.balances, j)
            &&& t.total_supply == s.total_supply
        }),
{
    lemma_debit(s.balances, caller, amount);
    let d = debit(s.balances, caller, amount);
    lemma_conservation(s, caller, to, amount);
    lemma_balance_le_sum(s.balances, to);
    lemma_credit(d, to, amount);
}

/// An account with no entry has balance zero, and no operation that does
/// not credit it gives it an entry.
pub proof fn lemma_absent_is_zero(s: LedgerState, k: Seq<u8>, caller: Seq<u8>, to: Seq<u8>, amount: u64)
    requires
        !s.balances.contains_key(k),
    ensures
        balance_of(s.balances, k) == 0,
        !(transfer_outcome(s, caller, to, amount) == TransferResult::Success && to == k && amount > 0)
            ==> !transfer_state(s, caller, to, amount).balances.contains_key(k),
        !(caller == s.creator && to == k && amount > 0) ==> !mint_state(s, caller, to, amount).balances.contains_key(k),
        !(bonus_given(s, caller) && caller == k) ==> !register_state(s, caller).balances.contains_key(k),
{
}

/// One operation on the ledger.
pub ghost enum LedgerOp {
    Transfer { caller: Seq<u8>, to: Seq<u8>, amount: u64 },
    Mint { caller: Seq<u8>, to: Seq<u8>, amount: u64 },
    Register { caller: Seq<u8> },
}

/// The state after one operation.
pub open spec fn apply_op(s: LedgerState, op: LedgerOp) -> LedgerState {
    match op {
        LedgerOp::Transfer { caller, to, amount } => transfer_state(s, caller, to, amount),
        LedgerOp::Mint { caller, to, amount } => mint_state(s, caller, to, amount),
        LedgerOp::Register { caller } => register_state(s, caller),
    }
}

/// Whether an operation, applied to state `s`, credits `k` with a positive
/// amount: a successful transfer or mint to it, or its bonus.
pub open spec fn credits(s: LedgerState, op: LedgerOp, k: Seq<u8>) -> bool {
    match op {
        LedgerOp::Transfer { caller, to, amount } => transfer_outcome(s, caller, to, amount)
            == TransferResult::Success && to == k && amount > 0,
        LedgerOp::Mint { caller, to, amount } => mint_outcome(s, caller) == MintResult::Success && to == k
            && amount > 0,
        LedgerOp::Register { caller } => bonus_given(s, caller) && caller == k,
    }
}

/// A run of operations: each state follows from the one before by the
/// operation between them.
pub open spec fn is_run(states: Seq<LedgerState>, ops: Seq<LedgerOp>) -> bool {
    &&& states.len() == ops.len() + 1
    &&& forall|i: int| 0 <= i < ops.len() ==> #[trigger] states[i + 1] == apply_op(states[i], ops[i])
}

/// Absence is zero over a whole run: an account without an entry at the start
/// that no operation of the run credits has balance zero and no entry in
/// every state of the run.
pub proof fn lemma_never_credited(states: Seq<LedgerState>, ops: Seq<LedgerOp>, k: Seq<u8>)
    requires
        is_run(states, ops),
        !states[0].balances.contains_key(k),
        forall|i: int| 0 <= i < ops.len() ==> !credits(states[i], #[trigger] ops[i], k),
    ensures
        forall|i: int| 0 <= i < states.len() ==> !(#[trigger] states[i]).balances.contains_key(k)
            && balance_of(states[i].balances, k) == 0,
    decreases ops.len(),
{
    if ops.len() > 0 {
        let n = ops.len() - 1;
        let sp = states.drop_last();
        let op = ops.drop_last();
        assert forall|i: int| 0 <= i < op.len() implies #[trigger] sp[i + 1] == apply_op(sp[i], op[i]) by {
            assert(states[i + 1] == apply_op(states[i], ops[i]));
        }
        assert forall|i: int| 0 <= i < op.len() implies !credits(sp[i], #[trigger] op[i], k) by {
            assert(!credits(states[i], ops[i], k));
        }
        lemma_never_credited(sp, op, k);
        assert(sp[n] == states[n]);
        assert(states[n + 1] == apply_op(states[n], ops[n]));
        assert(!credits(states[n], ops[n], k));
        match ops[n] {
            LedgerOp::Transfer { caller, to, amount } => lemma_absent_is_zero(states[n], k, caller, to, amount),
            LedgerOp::Mint { caller, to, amount } => lemma_absent_is_zero(states[n], k, caller, to, amount),
            LedgerOp::Register { caller } => lemma_absent_is_zero(states[n], k, caller, caller, 0),
        }
        assert forall|i: int| 0 <= i < states.len() implies !(#[trigger] states[i]).balances.contains_key(k)
            && balance_of(states[i].balances, k) == 0 by {
            if i < states.len() - 1 {
                assert(states[i] == sp[i]);
            }
        }
    }
}

/// Consecutive calls of the registration path by one caller, `n` of them,
/// reach the state after `n` registrations.
pub proof fn lemma_register_run(states: Seq<LedgerState>, caller: Seq<u8>, n: nat)
    requires
        n < states.len(),
        forall|i: int| 0 <= i < states.len() - 1 ==> #[trigger] states[i + 1] == register_state(states[i], caller),
    ensures
        states[n as int] == register_times(states[0], caller, n),
    decreases n,
{
    if n > 0 {
        lemma_register_run(states, caller, (n - 1) as nat);
        let j: int = n - 1;
        assert(states[j + 1] == register_state(states[j], caller));
        assert(j + 1 == n as int);
    }
}

/// Consecutive calls of the registration path by one caller end as one call
/// does: the bonus is issued at most once, and the anonymous identity is
/// neither registered nor credited.
pub proof fn lemma_register_run_once(states: Seq<LedgerState>, caller: Seq<u8>)
    requires
        states.len() >= 2,
        forall|i: int| 0 <= i < states.len() - 1 ==> #[trigger] states[i + 1] == register_state(states[i], caller),
    ensures
        states.last() == register_state(states[0], caller),
        caller == anonymous_id() ==> states.last() == states[0],
{
    let n = (states.len() - 1) as nat;
    lemma_register_run(states, caller, n);
    lemma_registration_idempotent(states[0], caller, n);
}

/// A self-transfer is rejected whatever the amount, and changes nothing.
pub proof fn lemma_self_transfer_rejected(s: LedgerState, caller: Seq<u8>, amount: u64)
    ensures
        transfer_outcome(s, caller, caller, amount) == TransferResult::SameAccount,
        transfer_state(s, caller, caller, amount) == s,
{
}

/// Only the creator can mint; a mint by the creator raises the recipient's
/// balance and the supply by exactly the amount, and any other caller changes
/// nothing.
pub proof fn lemma_mint_authorization(s: LedgerState, caller: Seq<u8>, to: Seq<u8>, amount: u64)
    requires
        state_wf(s),
        s.total_supply + amount <= u64::MAX,
    ensures
        caller != s.creator ==> mint_outcome(s, caller) == MintResult::Unauthorized
            && mint_state(s, caller, to, amount) == s,
        caller == s.creator ==> mint_outcome(s, caller) == MintResult::Success
            && balance_of(mint_state(s, caller, to, amount).balances, to) == balance_of(s.balances, to) + amount
            && mint_state(s, caller, to, amount).total_supply == s.total_supply + amount,
{
    lemma_conservation(s, caller, to, amount);
    lemma_credit(s.balances, to, amount);
}

/// Registering any number of times, once or more, has the effect of
/// registering once: the bonus is issued at most once per identity.
pub proof fn lemma_registration_idempotent(s: LedgerState, caller: Seq<u8>, n: nat)
    requires
        n >= 1,
    ensures
        register_times(s, caller, n) == register_state(s, caller),
        !bonus_given(register_state(s, caller), caller),
    decreases n,
{
    let r = register_state(s, caller);
    assert(r.registered.contains_key(caller) || caller == anonymous_id());
    assert(register_state(r, caller) == r);
    if n > 1 {
        lemma_registration_idempotent(s, caller, (n - 1) as nat);
    } else {
        assert(register_times(s, caller, 0) == s);
    }
}

/// One registration of a new identity adds exactly one bonus to its balance
/// and to the supply.
pub proof fn lemma_registration_bonus(s: LedgerState, caller: Seq<u8>, n: nat)
    requires
        state_wf(s),
        s.total_supply + WELCOME_BONUS <= u64::MAX,
        n >= 1,
        bonus_given(s, caller),
    ensures
        register_times(s, caller, n).total_supply == s.total_supply + WELCOME_BONUS,
        balance_of(register_times(s, caller, n).balances, caller) == balance_of(s.balances, caller) + WELCOME_BONUS,
        register_times(s, caller, n).registered.contains_key(caller),
{
    lemma_registration_idempotent(s, caller, n);
    lemma_balance_le_sum(s.balances, caller);
    lemma_credit(s.balances, caller, WELCOME_BONUS);
}

/// The anonymous identity is never registered nor credited, however often it
/// takes the registration path.
pub proof fn lemma_anonymous_excluded(s: LedgerState, n: nat)
    ensures
        register_times(s, anonymous_id(), n) == s,
    decreases n,
{
    if n > 0 {
        lemma_anonymous_excluded(s, (n - 1) as nat);
    }
}

} // verus!

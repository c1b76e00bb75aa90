use candid::Principal;
use fungible_token::codec::{decode, encode};
use fungible_token::ledger::checked_supply;
use fungible_token::store::{lock_is_free, MemoryPool};
use fungible_token::{Ledger, MintResult, PrincipalWrapper, TransferResult, WELCOME_BONUS};

fn id(bytes: &[u8]) -> PrincipalWrapper {
    PrincipalWrapper(bytes.to_vec())
}

fn anonymous() -> PrincipalWrapper {
    PrincipalWrapper(Principal::anonymous().as_slice().to_vec())
}

fn fresh(creator: &[u8], supply: u64) -> Ledger {
    Ledger::init("EduCoin".to_string(), "EDU".to_string(), id(creator), supply, MemoryPool::claim().unwrap())
}

fn users(l: &Ledger) -> Vec<(Vec<u8>, u64)> {
    l.get_all_users().into_iter().map(|u| (u.user_principal.0, u.balance)).collect()
}

#[test]
fn example_scenario() {
    let k = [1u8, 2, 3];
    let u1 = [10u8];
    let u2 = [20u8, 1];
    let mut l = fresh(&k, 1_000_000);
    assert_eq!(l.get_balance(&id(&k)), 1_000_000);

    assert_eq!(l.init_user(&id(&u1)), 1000);
    assert_eq!(l.get_total_supply(), 1_001_000);

    assert_eq!(l.transfer(&id(&u1), &id(&u2), 400), TransferResult::Success);
    assert_eq!(l.get_balance(&id(&u1)), 600);
    assert_eq!(l.get_balance(&id(&u2)), 400);

    assert_eq!(l.transfer(&id(&u1), &id(&u1), 10), TransferResult::SameAccount);
    assert_eq!(l.get_balance(&id(&u1)), 600);

    assert_eq!(l.mint(&id(&u1), &id(&u2), 50), MintResult::Unauthorized);
    assert_eq!(l.get_balance(&id(&u2)), 400);
    assert_eq!(l.get_total_supply(), 1_001_000);

    assert_eq!(l.mint(&id(&k), &id(&u2), 50), MintResult::Success);
    assert_eq!(l.get_balance(&id(&u2)), 450);
    assert_eq!(l.get_total_supply(), 1_001_050);
}

#[test]
fn init_puts_supply_on_creator() {
    let l = fresh(&[5], 1_000_000);
    let info = l.get_token_info();
    assert_eq!(info.name, "EduCoin");
    assert_eq!(info.symbol, "EDU");
    assert_eq!(info.total_supply, 1_000_000);
    assert_eq!(info.creator.0, vec![5u8]);
    assert_eq!(users(&l), vec![(vec![5u8], 1_000_000)]);
    assert!(l.is_creator(&id(&[5])));
    assert!(!l.is_creator(&id(&[5, 0])));
}

#[test]
fn init_with_zero_supply_stores_no_entry() {
    let l = fresh(&[5], 0);
    assert_eq!(l.get_balance(&id(&[5])), 0);
    assert!(users(&l).is_empty());
}

#[test]
fn absent_account_reads_zero() {
    let l = fresh(&[5], 100);
    assert_eq!(l.get_balance(&id(&[6])), 0);
    assert!(users(&l).iter().all(|(k, _)| k != &vec![6u8]));
}

#[test]
fn self_transfer_rejected_for_any_amount() {
    let mut l = fresh(&[1], 100);
    for amount in [0u64, 50, 100, 101, u64::MAX] {
        assert_eq!(l.transfer(&id(&[1]), &id(&[1]), amount), TransferResult::SameAccount);
    }
    assert_eq!(users(&l), vec![(vec![1u8], 100)]);
    assert_eq!(l.get_total_supply(), 100);
}

#[test]
fn transfer_insufficient_changes_nothing() {
    let mut l = fresh(&[1], 100);
    assert_eq!(l.transfer(&id(&[1]), &id(&[2]), 101), TransferResult::InsufficientBalance);
    assert_eq!(l.transfer(&id(&[3]), &id(&[2]), 1), TransferResult::InsufficientBalance);
    assert_eq!(users(&l), vec![(vec![1u8], 100)]);
}

#[test]
fn transfer_of_whole_balance_removes_entry() {
    let mut l = fresh(&[1], 100);
    assert_eq!(l.transfer(&id(&[1]), &id(&[2]), 100), TransferResult::Success);
    assert_eq!(l.get_balance(&id(&[1])), 0);
    assert_eq!(l.get_balance(&id(&[2])), 100);
    assert_eq!(users(&l), vec![(vec![2u8], 100)]);
    assert_eq!(l.get_total_supply(), 100);
}

#[test]
fn transfer_of_zero_creates_no_entry() {
    let mut l = fresh(&[1], 100);
    assert_eq!(l.transfer(&id(&[1]), &id(&[2]), 0), TransferResult::Success);
    assert_eq!(users(&l), vec![(vec![1u8], 100)]);
    assert_eq!(l.transfer(&id(&[3]), &id(&[4]), 0), TransferResult::Success);
    assert_eq!(users(&l), vec![(vec![1u8], 100)]);
}

#[test]
fn transfer_adds_to_existing_balance() {
    let mut l = fresh(&[1], 100);
    assert_eq!(l.transfer(&id(&[1]), &id(&[2]), 30), TransferResult::Success);
    assert_eq!(l.transfer(&id(&[1]), &id(&[2]), 20), TransferResult::Success);
    assert_eq!(users(&l), vec![(vec![1u8], 50), (vec![2u8], 50)]);
}

#[test]
fn registration_gives_bonus_once() {
    let mut l = fresh(&[1], 100);
    let u = id(&[9, 9]);
    assert!(l.register_user_via_ii(&u));
    assert!(!l.register_user_via_ii(&u));
    assert!(!l.register_user_via_ii(&u));
    assert_eq!(l.get_balance(&u), WELCOME_BONUS);
    assert_eq!(l.get_total_supply(), 100 + WELCOME_BONUS);
    assert_eq!(l.init_user(&u), WELCOME_BONUS);
    assert_eq!(l.init_user(&u), WELCOME_BONUS);
    assert_eq!(l.get_total_supply(), 100 + WELCOME_BONUS);
}

#[test]
fn registration_survives_spending_the_bonus() {
    let mut l = fresh(&[1], 100);
    let u = id(&[7]);
    assert_eq!(l.init_user(&u), 1000);
    assert_eq!(l.transfer(&u, &id(&[1]), 1000), TransferResult::Success);
    assert_eq!(l.init_user(&u), 0);
    assert_eq!(l.get_total_supply(), 1100);
}

#[test]
fn registration_adds_bonus_to_existing_balance() {
    let mut l = fresh(&[1], 100);
    assert_eq!(l.transfer(&id(&[1]), &id(&[2]), 40), TransferResult::Success);
    assert_eq!(l.init_user(&id(&[2])), 1040);
    assert_eq!(l.get_total_supply(), 1100);
}

#[test]
fn anonymous_never_registered_nor_credited() {
    let mut l = fresh(&[1], 100);
    let anon = anonymous();
    assert!(anon.is_anonymous());
    for _ in 0..3 {
        assert!(!l.register_user_via_ii(&anon));
        assert_eq!(l.init_user(&anon), 0);
    }
    assert_eq!(l.get_total_supply(), 100);
    assert_eq!(users(&l), vec![(vec![1u8], 100)]);
}

#[test]
fn anonymous_identity_is_the_single_byte_four() {
    assert!(id(&[4]).is_anonymous());
    assert!(!id(&[]).is_anonymous());
    assert!(!id(&[4, 0]).is_anonymous());
    assert!(!id(&[5]).is_anonymous());
}

#[test]
fn mint_by_other_identity_is_unauthorized() {
    let mut l = fresh(&[1], 100);
    assert_eq!(l.mint(&id(&[2]), &id(&[2]), 10), MintResult::Unauthorized);
    assert_eq!(l.mint(&anonymous(), &id(&[3]), 10), MintResult::Unauthorized);
    assert_eq!(users(&l), vec![(vec![1u8], 100)]);
    assert_eq!(l.get_total_supply(), 100);
}

#[test]
fn mint_by_creator_credits_recipient_and_supply() {
    let mut l = fresh(&[1], 100);
    assert_eq!(l.mint(&id(&[1]), &id(&[3]), 25), MintResult::Success);
    assert_eq!(l.mint(&id(&[1]), &id(&[1]), 5), MintResult::Success);
    assert_eq!(l.mint(&id(&[1]), &id(&[8]), 0), MintResult::Success);
    assert_eq!(users(&l), vec![(vec![1u8], 105), (vec![3u8], 25)]);
    assert_eq!(l.get_total_supply(), 130);
}

#[test]
fn mint_up_to_the_largest_supply() {
    let mut l = fresh(&[1], 0);
    assert_eq!(l.mint(&id(&[1]), &id(&[2]), u64::MAX), MintResult::Success);
    assert_eq!(l.get_balance(&id(&[2])), u64::MAX);
    assert_eq!(l.get_total_supply(), u64::MAX);
}

#[test]
fn all_users_sorted_by_identity_bytes() {
    let mut l = fresh(&[5], 100);
    assert_eq!(l.transfer(&id(&[5]), &id(&[2, 9]), 10), TransferResult::Success);
    assert_eq!(l.transfer(&id(&[5]), &id(&[2]), 20), TransferResult::Success);
    assert_eq!(l.transfer(&id(&[5]), &id(&[7]), 30), TransferResult::Success);
    assert_eq!(
        users(&l),
        vec![(vec![2u8], 20), (vec![2u8, 9], 10), (vec![5u8], 40), (vec![7u8], 30)]
    );
}

#[test]
fn supply_equals_sum_of_balances_after_operations() {
    let mut l = fresh(&[1], 500);
    l.init_user(&id(&[2]));
    l.transfer(&id(&[2]), &id(&[3]), 300);
    l.mint(&id(&[1]), &id(&[4]), 77);
    l.transfer(&id(&[1]), &id(&[2]), 500);
    l.init_user(&id(&[3]));
    let sum: u64 = users(&l).iter().map(|(_, b)| *b).sum();
    assert_eq!(sum, l.get_total_supply());
    assert_eq!(sum, 500 + 77 + 2 * WELCOME_BONUS);
}

#[test]
fn restore_over_fresh_memory_is_empty() {
    let l = Ledger::restore("EduCoin".to_string(), "EDU".to_string(), id(&[1]), MemoryPool::claim().unwrap()).unwrap();
    assert_eq!(l.get_total_supply(), 0);
    assert!(users(&l).is_empty());
    assert!(!l.is_registered(&id(&[1])));
    let info = l.get_token_info();
    assert_eq!(info.name, "EduCoin");
    assert_eq!(info.creator.0, vec![1u8]);
}

fn entry(key: u8, amount: u64) -> (Vec<u8>, Vec<u8>) {
    (vec![key], encode(amount))
}

#[test]
fn checked_supply_sums_entries() {
    assert_eq!(checked_supply(&vec![]), Some(0));
    assert_eq!(checked_supply(&vec![entry(1, 10), entry(2, 32)]), Some(42));
}

#[test]
fn checked_supply_rejects_stored_zero() {
    assert_eq!(checked_supply(&vec![entry(1, 10), entry(2, 0)]), None);
}

#[test]
fn checked_supply_rejects_malformed_value() {
    assert_eq!(checked_supply(&vec![entry(1, 10), (vec![2u8], vec![0u8, 0, 0, 5])]), None);
    assert_eq!(checked_supply(&vec![(vec![2u8], vec![0u8; 9])]), None);
}

#[test]
fn checked_supply_rejects_overflow() {
    assert_eq!(checked_supply(&vec![entry(1, u64::MAX), entry(2, 1)]), None);
    assert_eq!(checked_supply(&vec![entry(1, u64::MAX - 1), entry(2, 1)]), Some(u64::MAX));
}

#[test]
fn balance_bytes_most_significant_first() {
    assert_eq!(encode(0x0102_0304_0506_0708), vec![1u8, 2, 3, 4, 5, 6, 7, 8]);
    assert_eq!(encode(1000), vec![0u8, 0, 0, 0, 0, 0, 3, 232]);
    assert_eq!(decode(&vec![0u8, 0, 0, 0, 0, 0x0f, 0x42, 0x40]), 1_000_000);
    for v in [0u64, 1, 255, 256, 1_001_050, u64::MAX] {
        assert_eq!(decode(&encode(v)), v);
    }
}

#[test]
fn registration_state_is_queryable() {
    let mut l = fresh(&[1], 100);
    assert!(!l.is_registered(&id(&[2])));
    l.init_user(&id(&[2]));
    assert!(l.is_registered(&id(&[2])));
    l.init_user(&anonymous());
    assert!(!l.is_registered(&anonymous()));
}

#[test]
fn lock_free_unless_marked_held() {
    assert!(lock_is_free(&vec![]));
    assert!(lock_is_free(&vec![0u8]));
    assert!(lock_is_free(&vec![1u8, 0]));
    assert!(!lock_is_free(&vec![1u8]));
}

#[test]
fn released_ledger_lets_memory_go() {
    let l = fresh(&[1], 10);
    assert!(l.release());
}

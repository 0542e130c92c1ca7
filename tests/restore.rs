use data_restore::decode::{get_all_transactions_from_transfer_block, get_batch_number};
use data_restore::engine::{DataRestoreConfig, FranklinAccountsStates, FranklinOpBlock, FranklinOpBlockType};
use data_restore::reconcile::{find_duplicate_key, load_sorted_events};
use data_restore::amount::Amount;
use data_restore::types::{Account, DataRestoreError, Event, EventTopics, Word};

const DEPOSIT: Word = Word { hi: 1, lo: 1 };
const CANCEL_DEPOSIT: Word = Word { hi: 1, lo: 2 };
const EXIT: Word = Word { hi: 2, lo: 1 };
const CANCEL_EXIT: Word = Word { hi: 2, lo: 2 };

/// y = 1 with a positive x sign: the curve point (0, 1).
const KEY_ONE: Word = Word { hi: 0, lo: 1 };

fn config() -> DataRestoreConfig {
    DataRestoreConfig {
        deposit_topics: EventTopics { action: DEPOSIT, cancel: CANCEL_DEPOSIT },
        exit_topics: EventTopics { action: EXIT, cancel: CANCEL_EXIT },
    }
}

fn event(topic: Word, account: u32, amount: u128, block_number: u64, log_index: u64) -> Event {
    Event { topic, account, key: KEY_ONE, amount: Word { hi: 0, lo: amount }, block_number, log_index, removed: false }
}

fn is(a: &Amount, x: u128) -> bool {
    a.eq_value(&Amount::from_u128(x))
}

fn block(kind: FranklinOpBlockType, len: usize) -> FranklinOpBlock {
    FranklinOpBlock { franklin_op_block_type: kind, commitment_data: vec![0u8; len] }
}

fn deposit(states: &mut FranklinAccountsStates, account: u32, amount: u128) {
    let r = states.update_accounts_states_from_op_block(
        &block(FranklinOpBlockType::Deposit, 32),
        vec![event(DEPOSIT, account, amount, 1, 0)],
        vec![],
        &vec![],
    );
    assert_eq!(r, Ok(()));
}

fn transfer_block(records: &[[u8; 9]]) -> FranklinOpBlock {
    let mut data = vec![0u8; 160];
    for r in records {
        data.extend_from_slice(r);
    }
    FranklinOpBlock { franklin_op_block_type: FranklinOpBlockType::Transfer, commitment_data: data }
}

#[test]
fn transfer_block_two_records() {
    let mut data = vec![0xaau8; 160];
    data.extend_from_slice(&[0x01, 0x02, 0x03, 0x04, 0x05, 0x06, 0x07, 0x08, 0x09]);
    data.extend_from_slice(&[0x00, 0x00, 0x05, 0x00, 0x00, 0x00, 0x12, 0x34, 0xff]);
    let txs = get_all_transactions_from_transfer_block(&data).unwrap();
    assert_eq!(txs.len(), 2);
    assert_eq!(txs[0].nonce, 0);
    assert_eq!(txs[1].nonce, 1);
    assert_eq!(txs[0].from, 0x010203);
    assert_eq!(txs[0].to, 0x040506);
    assert_eq!(txs[0].packed_amount, 0x0708);
    assert_eq!(txs[0].packed_fee, 0x09);
    assert_eq!(txs[1].from, 5);
    assert_eq!(txs[1].to, 0);
    assert_eq!(txs[1].packed_amount, 0x1234);
    assert_eq!(txs[1].packed_fee, 0xff);
}

#[test]
fn transfer_block_drops_partial_record() {
    let mut data = vec![0u8; 160 + 9 + 5];
    data[160 + 2] = 7;
    let txs = get_all_transactions_from_transfer_block(&data).unwrap();
    assert_eq!(txs.len(), 1);
    assert_eq!(txs[0].from, 7);
}

#[test]
fn transfer_block_too_short() {
    assert_eq!(get_all_transactions_from_transfer_block(&vec![0u8; 159]), Err(DataRestoreError::MalformedBlock));
    assert_eq!(get_all_transactions_from_transfer_block(&vec![0u8; 160]).unwrap().len(), 0);
}

#[test]
fn batch_key_is_first_32_bytes() {
    let mut data: Vec<u8> = (1..=40).collect();
    data[0] = 0x80;
    let key = get_batch_number(&data);
    assert_eq!(key.hi, 0x80020304_05060708_090a0b0c_0d0e0f10);
    assert_eq!(key.lo, 0x11121314_15161718_191a1b1c_1d1e1f20);
}

#[test]
fn sorting_orders_by_block_and_index_and_drops_removed() {
    let mut gone = event(CANCEL_DEPOSIT, 9, 0, 1, 0);
    gone.removed = true;
    let sorted = load_sorted_events(
        vec![event(DEPOSIT, 1, 5, 3, 1), event(DEPOSIT, 2, 5, 1, 7)],
        vec![event(CANCEL_DEPOSIT, 1, 0, 3, 0), gone],
    )
    .unwrap();
    let keys: Vec<(u64, u64)> = sorted.iter().map(|e| (e.block_number, e.log_index)).collect();
    assert_eq!(keys, vec![(1, 7), (3, 0), (3, 1)]);
}

#[test]
fn duplicate_ordering_key_fails() {
    let r = load_sorted_events(vec![event(DEPOSIT, 1, 5, 3, 1)], vec![event(CANCEL_DEPOSIT, 1, 0, 3, 1)]);
    assert_eq!(r, Err(DataRestoreError::DuplicateLogIndex));
    assert!(find_duplicate_key(&vec![event(DEPOSIT, 1, 5, 3, 1), event(DEPOSIT, 2, 5, 3, 1)]));
    assert!(!find_duplicate_key(&vec![event(DEPOSIT, 1, 5, 3, 1), event(DEPOSIT, 2, 5, 3, 2)]));
}

#[test]
fn duplicate_key_of_a_removed_event_is_ignored() {
    let mut gone = event(DEPOSIT, 1, 5, 3, 1);
    gone.removed = true;
    let r = load_sorted_events(vec![event(DEPOSIT, 1, 5, 3, 1)], vec![gone]);
    assert_eq!(r.unwrap().len(), 1);
}

#[test]
fn deposits_accumulate() {
    let states = FranklinAccountsStates::new(config());
    let txs = states
        .get_all_transactions_from_deposit_batch(
            vec![event(DEPOSIT, 4, 10, 1, 0), event(DEPOSIT, 4, 32, 2, 0)],
            vec![],
        )
        .unwrap();
    assert_eq!(txs.len(), 1);
    assert_eq!(txs[0].account, 4);
    assert!(is(&txs[0].amount, 42));
}

#[test]
fn deposit_recovers_public_key() {
    let states = FranklinAccountsStates::new(config());
    let txs = states.get_all_transactions_from_deposit_batch(vec![event(DEPOSIT, 4, 10, 1, 0)], vec![]).unwrap();
    assert_eq!(txs[0].pub_y, Word { hi: 0, lo: 1 });
    assert_eq!(txs[0].pub_x, Word { hi: 0, lo: 0 });
}

#[test]
fn deposit_with_bad_public_key_fails() {
    let states = FranklinAccountsStates::new(config());
    let mut e = event(DEPOSIT, 4, 10, 1, 0);
    e.key = Word { hi: u128::MAX >> 1, lo: u128::MAX };
    let r = states.get_all_transactions_from_deposit_batch(vec![e], vec![]);
    assert!(matches!(r, Err(DataRestoreError::WrongPubKey)));
}

#[test]
fn cancellation_voids_deposit() {
    let states = FranklinAccountsStates::new(config());
    let txs = states
        .get_all_transactions_from_deposit_batch(
            vec![event(DEPOSIT, 4, 1_000_000, 1, 0), event(DEPOSIT, 5, 3, 1, 2)],
            vec![event(CANCEL_DEPOSIT, 4, 0, 1, 1)],
        )
        .unwrap();
    assert_eq!(txs.len(), 1);
    assert_eq!(txs[0].account, 5);
}

#[test]
fn cancellation_without_request_fails() {
    let states = FranklinAccountsStates::new(config());
    let r = states.get_all_transactions_from_deposit_batch(vec![], vec![event(CANCEL_DEPOSIT, 4, 0, 1, 1)]);
    assert!(matches!(r, Err(DataRestoreError::MissingRecord)));
    let r = states.get_all_transactions_from_full_exit_batch(vec![], vec![event(CANCEL_EXIT, 4, 0, 1, 1)]);
    assert_eq!(r, Err(DataRestoreError::MissingRecord));
}

#[test]
fn unexpected_topic_fails() {
    let states = FranklinAccountsStates::new(config());
    let r = states.get_all_transactions_from_deposit_batch(vec![event(EXIT, 4, 0, 1, 1)], vec![]);
    assert!(matches!(r, Err(DataRestoreError::UnexpectedTopic)));
}

#[test]
fn deposit_accumulation_passes_u128() {
    let states = FranklinAccountsStates::new(config());
    let txs = states
        .get_all_transactions_from_deposit_batch(
            vec![event(DEPOSIT, 4, u128::MAX, 1, 0), event(DEPOSIT, 4, 1, 1, 1)],
            vec![],
        )
        .unwrap();
    assert_eq!(txs.len(), 1);
    assert!(txs[0].amount.eq_value(&Amount::from_word(Word { hi: 1, lo: 0 })));
}

#[test]
fn double_exit_fails() {
    let states = FranklinAccountsStates::new(config());
    let r = states.get_all_transactions_from_full_exit_batch(vec![event(EXIT, 4, 0, 1, 0), event(EXIT, 4, 0, 1, 1)], vec![]);
    assert_eq!(r, Err(DataRestoreError::DoubleExit));
}

#[test]
fn exit_cancel_then_request_again() {
    let states = FranklinAccountsStates::new(config());
    let txs = states
        .get_all_transactions_from_full_exit_batch(
            vec![event(EXIT, 4, 0, 1, 0), event(EXIT, 4, 0, 1, 2)],
            vec![event(CANCEL_EXIT, 4, 0, 1, 1)],
        )
        .unwrap();
    assert_eq!(txs.len(), 1);
    assert_eq!(txs[0].account, 4);
    assert_eq!(txs[0].amount, 0);
}

#[test]
fn deposit_block_creates_account() {
    let mut states = FranklinAccountsStates::new(config());
    deposit(&mut states, 3, 100);
    deposit(&mut states, 3, 50);
    let a = states.get_account(3).unwrap();
    assert!(is(&a.balance, 150));
    assert_eq!(a.nonce, 0);
    assert_eq!(a.pub_y, KEY_ONE);
    assert!(states.get_account(4).is_none());
    assert_eq!(states.get_accounts().len(), 1);
}

#[test]
fn transfer_moves_amount_and_burns_fee() {
    let mut states = FranklinAccountsStates::new(config());
    deposit(&mut states, 1, 100);
    deposit(&mut states, 2, 7);
    let b = transfer_block(&[[0, 0, 1, 0, 0, 2, 0, 0, 0]]);
    let r = states.update_accounts_states_from_op_block(&b, vec![], vec![], &vec![(30, 5)]);
    assert_eq!(r, Ok(()));
    let from = states.get_account(1).unwrap();
    let to = states.get_account(2).unwrap();
    assert!(is(&from.balance, 65));
    assert_eq!(from.nonce, 1);
    assert!(is(&to.balance, 37));
    assert!(is(&from.balance.add(&to.balance), 107 - 5));
}

#[test]
fn transfer_to_new_account_creates_it() {
    let mut states = FranklinAccountsStates::new(config());
    deposit(&mut states, 1, 100);
    let b = transfer_block(&[[0, 0, 1, 0, 0, 9, 0, 0, 0]]);
    assert_eq!(states.update_accounts_states_from_op_block(&b, vec![], vec![], &vec![(40, 0)]), Ok(()));
    let to = states.get_account(9).unwrap();
    assert!(is(&to.balance, 40));
    assert_eq!(to.nonce, 0);
    assert_eq!(to.pub_x, Account::empty().pub_x);
    assert_eq!(to.pub_y, Word { hi: 0, lo: 0 });
}

#[test]
fn transfer_to_zero_burns_amount() {
    let mut states = FranklinAccountsStates::new(config());
    deposit(&mut states, 1, 100);
    let b = transfer_block(&[[0, 0, 1, 0, 0, 0, 0, 0, 0]]);
    assert_eq!(states.update_accounts_states_from_op_block(&b, vec![], vec![], &vec![(40, 2)]), Ok(()));
    assert!(is(&states.get_account(1).unwrap().balance, 58));
    assert!(is(&states.get_account(0).unwrap().balance, 0));
}

#[test]
fn transfer_with_insufficient_balance_fails() {
    let mut states = FranklinAccountsStates::new(config());
    deposit(&mut states, 1, 100);
    deposit(&mut states, 2, 7);
    let b = transfer_block(&[[0, 0, 1, 0, 0, 2, 0, 0, 0]]);
    let r = states.update_accounts_states_from_op_block(&b, vec![], vec![], &vec![(96, 5)]);
    assert_eq!(r, Err(DataRestoreError::WrongAmount));
    assert!(is(&states.get_account(1).unwrap().balance, 100));
    assert!(is(&states.get_account(2).unwrap().balance, 7));
}

#[test]
fn transfer_from_missing_account_fails() {
    let mut states = FranklinAccountsStates::new(config());
    let b = transfer_block(&[[0, 0, 1, 0, 0, 2, 0, 0, 0]]);
    let r = states.update_accounts_states_from_op_block(&b, vec![], vec![], &vec![(0, 0)]);
    assert_eq!(r, Err(DataRestoreError::NonexistentAccount));
}

#[test]
fn transfer_amount_count_mismatch_fails() {
    let mut states = FranklinAccountsStates::new(config());
    let b = transfer_block(&[[0, 0, 1, 0, 0, 2, 0, 0, 0]]);
    let r = states.update_accounts_states_from_op_block(&b, vec![], vec![], &vec![]);
    assert_eq!(r, Err(DataRestoreError::MalformedBlock));
}

#[test]
fn failure_keeps_earlier_transfers_of_the_block() {
    let mut states = FranklinAccountsStates::new(config());
    deposit(&mut states, 1, 100);
    let b = transfer_block(&[[0, 0, 1, 0, 0, 2, 0, 0, 0], [0, 0, 1, 0, 0, 2, 0, 0, 0]]);
    let r = states.update_accounts_states_from_op_block(&b, vec![], vec![], &vec![(60, 0), (60, 0)]);
    assert_eq!(r, Err(DataRestoreError::WrongAmount));
    assert!(is(&states.get_account(1).unwrap().balance, 40));
    assert!(is(&states.get_account(2).unwrap().balance, 60));
}

#[test]
fn full_exit_deletes_then_fresh_deposit() {
    let mut states = FranklinAccountsStates::new(config());
    deposit(&mut states, 1, 100);
    deposit(&mut states, 2, 1);
    let b = transfer_block(&[[0, 0, 1, 0, 0, 2, 0, 0, 0]]);
    assert_eq!(states.update_accounts_states_from_op_block(&b, vec![], vec![], &vec![(10, 0)]), Ok(()));
    assert_eq!(states.get_account(1).unwrap().nonce, 1);
    let r = states.update_accounts_states_from_op_block(
        &block(FranklinOpBlockType::FullExit, 32),
        vec![event(EXIT, 1, 0, 5, 0)],
        vec![],
        &vec![],
    );
    assert_eq!(r, Ok(()));
    assert!(states.get_account(1).is_none());
    deposit(&mut states, 1, 8);
    let a = states.get_account(1).unwrap();
    assert_eq!(a.nonce, 0);
    assert!(is(&a.balance, 8));
}

#[test]
fn full_exit_of_missing_account_fails() {
    let mut states = FranklinAccountsStates::new(config());
    let r = states.update_accounts_states_from_op_block(
        &block(FranklinOpBlockType::FullExit, 32),
        vec![event(EXIT, 1, 0, 5, 0)],
        vec![],
        &vec![],
    );
    assert_eq!(r, Err(DataRestoreError::NonexistentAccount));
}

#[test]
fn unknown_block_type_rejected() {
    let mut states = FranklinAccountsStates::new(config());
    deposit(&mut states, 1, 100);
    let r = states.update_accounts_states_from_op_block(&block(FranklinOpBlockType::Unknown, 200), vec![], vec![], &vec![]);
    assert_eq!(r, Err(DataRestoreError::WrongType));
    assert_eq!(states.get_accounts().len(), 1);
}

#[test]
fn short_commitment_rejected() {
    let mut states = FranklinAccountsStates::new(config());
    let r = states.update_accounts_states_from_op_block(
        &block(FranklinOpBlockType::Deposit, 31),
        vec![event(DEPOSIT, 1, 5, 1, 0)],
        vec![],
        &vec![],
    );
    assert_eq!(r, Err(DataRestoreError::MalformedBlock));
    assert!(states.get_account(1).is_none());
}

#[test]
fn empty_batches_change_nothing() {
    let mut states = FranklinAccountsStates::new(config());
    deposit(&mut states, 1, 100);
    let before = states.get_accounts();
    assert_eq!(states.update_accounts_states_from_op_block(&block(FranklinOpBlockType::Deposit, 32), vec![], vec![], &vec![]), Ok(()));
    assert_eq!(states.update_accounts_states_from_op_block(&block(FranklinOpBlockType::FullExit, 32), vec![], vec![], &vec![]), Ok(()));
    assert_eq!(states.update_accounts_states_from_op_block(&transfer_block(&[]), vec![], vec![], &vec![]), Ok(()));
    let after = states.get_accounts();
    assert_eq!(after.len(), before.len());
    for ((ia, a), (ib, b)) in after.iter().zip(before.iter()) {
        assert_eq!(ia, ib);
        assert!(a.balance.eq_value(&b.balance));
        assert_eq!(a.nonce, b.nonce);
    }
}

#[test]
fn transfer_to_oneself_burns_only_fee() {
    let mut states = FranklinAccountsStates::new(config());
    deposit(&mut states, 1, 100);
    let b = transfer_block(&[[0, 0, 1, 0, 0, 1, 0, 0, 0]]);
    assert_eq!(states.update_accounts_states_from_op_block(&b, vec![], vec![], &vec![(30, 5)]), Ok(()));
    let a = states.get_account(1).unwrap();
    assert!(is(&a.balance, 95));
    assert_eq!(a.nonce, 1);
    assert_eq!(states.get_accounts().len(), 1);
}

#[test]
fn transfer_to_oneself_needs_amount_plus_fee() {
    let mut states = FranklinAccountsStates::new(config());
    deposit(&mut states, 1, 100);
    let b = transfer_block(&[[0, 0, 1, 0, 0, 1, 0, 0, 0]]);
    let r = states.update_accounts_states_from_op_block(&b, vec![], vec![], &vec![(96, 5)]);
    assert_eq!(r, Err(DataRestoreError::WrongAmount));
    assert!(is(&states.get_account(1).unwrap().balance, 100));
}

#[test]
fn balances_pass_u128() {
    let mut states = FranklinAccountsStates::new(config());
    deposit(&mut states, 1, u128::MAX);
    deposit(&mut states, 1, u128::MAX);
    deposit(&mut states, 2, 10);
    let b = transfer_block(&[[0, 0, 2, 0, 0, 1, 0, 0, 0]]);
    assert_eq!(states.update_accounts_states_from_op_block(&b, vec![], vec![], &vec![(7, 1)]), Ok(()));
    let big = Amount::from_u128(u128::MAX).add(&Amount::from_u128(u128::MAX)).add(&Amount::from_u128(7));
    assert!(states.get_account(1).unwrap().balance.eq_value(&big));
    assert!(is(&states.get_account(2).unwrap().balance, 2));
}

#[test]
fn amount_arithmetic() {
    let max = Amount::from_u128(u128::MAX);
    let one = Amount::from_u128(1);
    let sum = max.add(&one);
    assert!(sum.eq_value(&Amount::from_word(Word { hi: 1, lo: 0 })));
    assert!(max.lt(&sum));
    assert!(!sum.lt(&max));
    assert!(sum.sub(&one).eq_value(&max));
    assert!(is(&sum.sub(&max), 1));
    assert!(Amount::zero().eq_value(&Amount::from_u128(0)));
    let w = Amount::from_word(Word { hi: 3, lo: 5 });
    assert!(w.sub(&Amount::from_word(Word { hi: 3, lo: 0 })).eq_value(&Amount::from_u128(5)));
}

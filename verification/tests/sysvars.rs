use mainnet_replay::account::{Account, AccountTable};
use mainnet_replay::key::{parse_pubkey, Key};
use mainnet_replay::sysvars::{find_sysvar, sysvar_cache_from_accounts};

const RENT: &str = "SysvarRent111111111111111111111111111111111";
const CLOCK: &str = "SysvarC1ock11111111111111111111111111111111";
const EPOCH_SCHEDULE: &str = "SysvarEpochSchedu1e111111111111111111111111";
const SLOT_HASHES: &str = "SysvarS1otHashes111111111111111111111111111";
const LAST_RESTART_SLOT: &str = "SysvarLastRestartS1ot1111111111111111111111";

fn key(text: &str) -> Key {
    parse_pubkey(text).unwrap()
}

fn table(entries: &[(&str, u64, Vec<u8>)]) -> AccountTable {
    let mut table = AccountTable::new();
    for (address, lamports, data) in entries {
        let mut account = Account::absent();
        account.lamports = *lamports;
        account.data = data.clone();
        table.insert(key(address), account);
    }
    table
}

#[test]
fn defaults_are_found_without_accounts() {
    let none = table(&[]);
    let rent = find_sysvar(&none, &key(RENT)).unwrap();
    assert_eq!(rent, vec![48, 27, 0, 0, 0, 0, 0, 0, 0, 0, 0, 0, 0, 0, 240, 63, 50]);
    assert_eq!(find_sysvar(&none, &key(CLOCK)).unwrap(), vec![0; 40]);
    assert_eq!(
        find_sysvar(&none, &key(EPOCH_SCHEDULE)).unwrap(),
        vec![
            128, 151, 6, 0, 0, 0, 0, 0, 128, 151, 6, 0, 0, 0, 0, 0, 1, 14, 0, 0, 0, 0, 0, 0, 0,
            224, 255, 7, 0, 0, 0, 0, 0
        ]
    );
    assert!(find_sysvar(&none, &key(SLOT_HASHES)).is_none());
}

#[test]
fn a_funded_account_takes_precedence() {
    let accounts = table(&[(RENT, 1, vec![1; 17]), (CLOCK, 0, vec![2; 40]), (SLOT_HASHES, 1, vec![3])]);
    assert_eq!(find_sysvar(&accounts, &key(RENT)).unwrap(), vec![1; 17]);
    assert_eq!(find_sysvar(&accounts, &key(CLOCK)).unwrap(), vec![0; 40]);
    assert_eq!(find_sysvar(&accounts, &key(SLOT_HASHES)).unwrap(), vec![3]);
}

#[test]
fn the_cache_holds_the_defaults() {
    let cache = sysvar_cache_from_accounts(&table(&[]));
    let rent = cache.get_rent().unwrap();
    assert_eq!(rent.minimum_balance(0), 128 * 6960);
    assert_eq!(cache.get_clock().unwrap().slot, 0);
    let schedule = cache.get_epoch_schedule().unwrap();
    assert_eq!(schedule.slots_per_epoch, 432000);
    assert_eq!(schedule.first_normal_slot, 524256);
    assert!(schedule.warmup);
    assert!(cache.get_slot_hashes().is_err());
    assert!(cache.get_last_restart_slot().is_err());
}

#[test]
fn the_cache_holds_what_the_accounts_have() {
    let mut clock = vec![0; 40];
    clock[0] = 42;
    let cache = sysvar_cache_from_accounts(&table(&[
        (CLOCK, 1, clock),
        (LAST_RESTART_SLOT, 1, vec![7, 0, 0, 0, 0, 0, 0, 0]),
    ]));
    assert_eq!(cache.get_clock().unwrap().slot, 42);
    assert_eq!(cache.get_last_restart_slot().unwrap().last_restart_slot, 7);
    assert_eq!(cache.get_rent().unwrap().minimum_balance(0), 128 * 6960);
}

#[test]
fn data_that_is_too_short_is_not_cached() {
    let cache = sysvar_cache_from_accounts(&table(&[(RENT, 1, vec![0; 16])]));
    assert!(cache.get_rent().is_err());
    assert!(cache.get_clock().is_ok());
    let longer = sysvar_cache_from_accounts(&table(&[(RENT, 1, vec![0; 18])]));
    assert!(longer.get_rent().is_ok());
    let schedule = |byte: u8| {
        let mut data = vec![0; 33];
        data[16] = byte;
        sysvar_cache_from_accounts(&table(&[(EPOCH_SCHEDULE, 1, data)]))
    };
    assert!(schedule(1).get_epoch_schedule().is_ok());
    assert!(schedule(2).get_epoch_schedule().is_err());
}

#[test]
fn sysvars_of_a_fixed_size_need_all_their_bytes() {
    let rewards = |len: usize, active: u8| {
        let mut data = vec![0; len];
        data[len - 1] = active;
        let key = "SysvarEpochRewards1111111111111111111111111";
        sysvar_cache_from_accounts(&table(&[(key, 1, data)])).get_epoch_rewards()
    };
    assert!(rewards(81, 1).unwrap().active);
    assert!(rewards(80, 1).is_err());
    assert!(rewards(81, 2).is_err());
    let restart = |len: usize| {
        sysvar_cache_from_accounts(&table(&[(LAST_RESTART_SLOT, 1, vec![1; len])]))
            .get_last_restart_slot()
    };
    assert!(restart(8).is_ok());
    assert!(restart(7).is_err());
}

#[test]
fn lists_are_cached_where_they_are_whole() {
    let mut hashes = vec![1, 0, 0, 0, 0, 0, 0, 0, 9, 0, 0, 0, 0, 0, 0, 0];
    hashes.extend([5; 32]);
    let cached = |data: Vec<u8>| {
        sysvar_cache_from_accounts(&table(&[(SLOT_HASHES, 1, data)])).get_slot_hashes()
    };
    assert_eq!(cached(hashes.clone()).unwrap().len(), 1);
    hashes.pop();
    assert!(cached(hashes).is_err());
}

const FEES: &str = "SysvarFees111111111111111111111111111111111";
const RECENT_BLOCKHASHES: &str = "SysvarRecentB1ockHashes11111111111111111111";
const STAKE_HISTORY: &str = "SysvarStakeHistory1111111111111111111111111";

fn list(count: u64, bytes: usize) -> Vec<u8> {
    let mut data = count.to_le_bytes().to_vec();
    data.extend(vec![3; bytes]);
    data
}

#[test]
fn stake_history_is_a_list_of_32_bytes_each() {
    let cached = |data: Vec<u8>| {
        sysvar_cache_from_accounts(&table(&[(STAKE_HISTORY, 1, data)])).get_stake_history()
    };
    assert_eq!(cached(list(2, 64)).unwrap().len(), 2);
    assert_eq!(cached(list(2, 65)).unwrap().len(), 2);
    assert_eq!(cached(list(0, 0)).unwrap().len(), 0);
    assert!(cached(list(2, 63)).is_err());
    assert!(cached(list(u64::MAX, 64)).is_err());
    assert!(cached(vec![0; 7]).is_err());
}

#[test]
fn slot_hashes_take_at_most_four_mebibytes() {
    let cached = |count: u64| {
        sysvar_cache_from_accounts(&table(&[(SLOT_HASHES, 1, list(count, count as usize * 40))]))
            .get_slot_hashes()
    };
    assert_eq!(cached(104857).unwrap().len(), 104857);
    assert!(cached(104858).is_err());
}

#[test]
#[allow(deprecated)]
fn fees_and_recent_blockhashes_are_decoded() {
    let cache = |entries: &[(&str, u64, Vec<u8>)]| sysvar_cache_from_accounts(&table(entries));
    let fees = cache(&[(FEES, 1, vec![136, 19, 0, 0, 0, 0, 0, 0, 9])]).get_fees().unwrap();
    assert_eq!(fees.fee_calculator.lamports_per_signature, 5000);
    assert!(cache(&[(FEES, 1, vec![1; 7])]).get_fees().is_err());
    assert!(cache(&[(FEES, 0, vec![1; 8])]).get_fees().is_err());
    let hashes = cache(&[(RECENT_BLOCKHASHES, 1, list(2, 81))]).get_recent_blockhashes().unwrap();
    assert_eq!(hashes.len(), 2);
    assert_eq!(hashes[1].blockhash.to_bytes(), [3; 32]);
    assert!(cache(&[(RECENT_BLOCKHASHES, 1, list(2, 79))]).get_recent_blockhashes().is_err());
    assert!(cache(&[]).get_recent_blockhashes().is_err());
}

#[test]
#[allow(deprecated)]
fn accounts_without_lamports_and_other_accounts_make_no_difference() {
    let with = sysvar_cache_from_accounts(&table(&[
        (RENT, 0, vec![9; 17]),
        (FEES, 0, vec![9; 8]),
        (STAKE_HISTORY, 0, list(0, 0)),
        ("11111111111111111111111111111111", 1, vec![9; 40]),
        (LAST_RESTART_SLOT, 1, vec![7, 0, 0, 0, 0, 0, 0, 0]),
    ]));
    let without =
        sysvar_cache_from_accounts(&table(&[(LAST_RESTART_SLOT, 1, vec![7, 0, 0, 0, 0, 0, 0, 0])]));
    assert_eq!(with.get_rent().unwrap(), without.get_rent().unwrap());
    assert!(with.get_fees().is_err() && without.get_fees().is_err());
    assert!(with.get_stake_history().is_err() && without.get_stake_history().is_err());
    assert_eq!(with.get_last_restart_slot().unwrap().last_restart_slot, 7);
}

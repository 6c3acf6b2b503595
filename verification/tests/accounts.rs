use mainnet_replay::account::{Account, AccountTable};
use mainnet_replay::accounts::{
    account_from_entry, account_of_native, build_accounts, collect_accounts, explain_account_data,
    AccountEntry,
};
use mainnet_replay::builtin::{account_of_builtin, name_of_builtin};
use mainnet_replay::fixture::{Fixture, FixtureAccount, FixtureProgram};
use mainnet_replay::key::{parse_pubkey, Key};
use solana_pubkey::Pubkey;
use solana_svm::conformance::programs::{
    keyed_account_for_compute_budget_program, keyed_account_for_system_program,
    new_program_cache_with_builtins,
};

const SYSTEM: &str = "11111111111111111111111111111111";
const TOKEN: &str = "TokenkegQfeZyiNwAJbNbGKPFXCWuBvf9Ss623VQ5DA";
const MEMO: &str = "MemoSq4gqABAXKb96qnH8TysNcWxMyWCqXgDLGmfcHr";
const INSTRUCTIONS: &str = "Sysvar1nstructions1111111111111111111111111";
const SYSVAR_OWNER: &str = "Sysvar1111111111111111111111111111111111111";
const NATIVE_LOADER: &str = "NativeLoader1111111111111111111111111111111";
const COMPUTE_BUDGET: &str = "ComputeBudget111111111111111111111111111111";
const STAKE: &str = "Stake11111111111111111111111111111111111111";
const LOADER: Key = Key { bytes: [9; 32] };

fn key(text: &str) -> Key {
    parse_pubkey(text).unwrap()
}

fn fixture(accounts: Vec<FixtureAccount>, programs: &[&str], natives: &[&str]) -> Fixture {
    Fixture {
        name: "name".to_string(),
        signature: "signature".to_string(),
        slot: 1,
        compute_units_consumed: None,
        trimmed_instructions: None,
        recent_blockhash: None,
        instructions: vec![],
        accounts,
        programs: programs
            .iter()
            .map(|pubkey| FixtureProgram { pubkey: pubkey.to_string(), path: "p".to_string() })
            .collect(),
        native_programs: natives.iter().map(|pubkey| pubkey.to_string()).collect(),
    }
}

fn account(pubkey: &str, owner: Option<&str>, data: Option<&str>) -> FixtureAccount {
    FixtureAccount {
        pubkey: pubkey.to_string(),
        virtual_kind: None,
        lamports: Some(77),
        owner: owner.map(|owner| owner.to_string()),
        rent_epoch: Some(5),
        data: data.map(|data| data.to_string()),
    }
}

fn found<'a>(table: &'a AccountTable, text: &str) -> &'a Account {
    table.get(&key(text)).unwrap()
}

fn error(fixture: &Fixture) -> String {
    match build_accounts(fixture, &LOADER) {
        Ok(_) => panic!("built"),
        Err(error) => error,
    }
}

#[test]
fn an_account_comes_with_its_state() {
    let table =
        build_accounts(&fixture(vec![account(MEMO, Some(TOKEN), Some("AQI="))], &[], &[]), &LOADER)
            .unwrap_or_else(|error| panic!("{error}"));
    let state = found(&table, MEMO);
    assert_eq!(state.lamports, 77);
    assert_eq!(state.data, vec![1, 2]);
    assert!(state.owner.same(&key(TOKEN)));
    assert!(!state.executable);
    assert_eq!(state.rent_epoch, 5);
    assert!(table.get(&key(TOKEN)).is_none());
}

#[test]
fn what_is_not_given_counts_as_zero_or_empty() {
    let mut bare = account(MEMO, Some(TOKEN), None);
    bare.lamports = None;
    bare.rent_epoch = None;
    let table = build_accounts(&fixture(vec![bare], &[], &[]), &LOADER)
        .unwrap_or_else(|error| panic!("{error}"));
    let state = found(&table, MEMO);
    assert_eq!(state.lamports, 0);
    assert!(state.data.is_empty());
    assert_eq!(state.rent_epoch, 0);
}

#[test]
fn a_virtual_account_is_a_placeholder() {
    let mut made_up = account(INSTRUCTIONS, None, Some("not read at all"));
    made_up.virtual_kind = Some("instructions".to_string());
    let table = build_accounts(&fixture(vec![made_up], &[], &[]), &LOADER)
        .unwrap_or_else(|error| panic!("{error}"));
    let state = found(&table, INSTRUCTIONS);
    assert_eq!(state.lamports, 1);
    assert!(state.data.is_empty());
    assert!(state.owner.same(&key(SYSVAR_OWNER)));
    assert!(!state.executable);
    assert_eq!(state.rent_epoch, 0);
}

#[test]
fn programs_are_owned_by_the_loader() {
    let table = build_accounts(&fixture(vec![], &[TOKEN], &[]), &LOADER)
        .unwrap_or_else(|error| panic!("{error}"));
    let state = found(&table, TOKEN);
    assert_eq!(state.lamports, 1);
    assert!(state.data.is_empty());
    assert!(state.owner.same(&LOADER));
    assert!(state.executable);
    assert_eq!(state.rent_epoch, u64::MAX);
}

#[test]
fn native_programs_are_builtins_or_stand_ins() {
    let table = build_accounts(&fixture(vec![], &[], &[SYSTEM, STAKE]), &LOADER)
        .unwrap_or_else(|error| panic!("{error}"));
    let builtin = found(&table, SYSTEM);
    assert_eq!(builtin.data, b"system_program".to_vec());
    assert_eq!(builtin.lamports, (128 + 14) * 6960);
    assert_eq!(builtin.rent_epoch, 0);
    let stand_in = found(&table, STAKE);
    assert_eq!(stand_in.lamports, 1);
    assert!(stand_in.data.is_empty());
    assert!(stand_in.owner.same(&key(NATIVE_LOADER)));
    assert!(stand_in.executable);
    assert_eq!(stand_in.rent_epoch, u64::MAX);
}

#[test]
fn native_beats_program_beats_entry_and_the_last_entry_counts() {
    let mut again = account(MEMO, Some(TOKEN), Some("Aw=="));
    again.lamports = Some(78);
    let entries = vec![
        account(MEMO, Some(TOKEN), Some("AQ==")),
        account(TOKEN, Some(MEMO), None),
        account(SYSTEM, Some(MEMO), None),
        again,
    ];
    let table = build_accounts(&fixture(entries, &[TOKEN, SYSTEM], &[SYSTEM]), &LOADER)
        .unwrap_or_else(|error| panic!("{error}"));
    assert_eq!(found(&table, MEMO).lamports, 78);
    assert_eq!(found(&table, MEMO).data, vec![3]);
    assert!(found(&table, TOKEN).owner.same(&LOADER));
    assert_eq!(found(&table, SYSTEM).data, b"system_program".to_vec());
}

#[test]
fn each_error_of_an_account_is_told() {
    assert_eq!(
        error(&fixture(vec![account("abc", None, None)], &[], &[])),
        "invalid pubkey abc: String is the wrong size"
    );
    assert_eq!(
        error(&fixture(vec![account(MEMO, None, Some("!!!!"))], &[], &[])),
        "account without owner"
    );
    assert_eq!(
        error(&fixture(vec![account(MEMO, Some("own"), Some("!!!!"))], &[], &[])),
        "invalid pubkey own: String is the wrong size"
    );
    assert_eq!(
        error(&fixture(vec![account(MEMO, Some(TOKEN), Some("!!!!"))], &[], &[])),
        format!("invalid account data for {MEMO}: invalid base64: Invalid symbol 33, offset 0.")
    );
}

#[test]
fn the_first_error_is_told() {
    let entries = vec![account(MEMO, None, None), account("abc", None, None)];
    assert_eq!(error(&fixture(entries, &["prog"], &["nat"])), "account without owner");
    assert_eq!(
        error(&fixture(vec![], &[TOKEN, "prog"], &["nat"])),
        "invalid pubkey prog: String is the wrong size"
    );
    assert_eq!(
        error(&fixture(vec![], &[TOKEN], &["nat"])),
        "invalid pubkey nat: String is the wrong size"
    );
}

#[test]
fn entries_that_are_already_read_are_collected() {
    let entry = AccountEntry {
        key: Ok(Key { bytes: [1; 32] }),
        made_up: false,
        owner: Some(Ok(Key { bytes: [2; 32] })),
        data: Ok(vec![4]),
        lamports: None,
        rent_epoch: None,
    };
    let (address, state) = account_from_entry(&entry).unwrap();
    assert_eq!(address.bytes, [1; 32]);
    assert_eq!(state.data, vec![4]);
    let table = collect_accounts(&vec![entry], &vec![Ok(Key { bytes: [3; 32] })], &vec![], &LOADER)
        .unwrap_or_else(|error| panic!("{error}"));
    assert!(table.get(&Key { bytes: [1; 32] }).is_some());
    assert!(table.get(&Key { bytes: [3; 32] }).is_some());
    assert!(table.get(&Key { bytes: [2; 32] }).is_none());
    assert_eq!(
        explain_account_data("K", Err("e".to_string())).unwrap_err(),
        "invalid account data for K: e"
    );
}

#[test]
fn builtin_accounts_are_those_of_the_runtime() {
    for (address, account) in
        [keyed_account_for_system_program(), keyed_account_for_compute_budget_program()]
    {
        let own = account_of_builtin(&Key { bytes: address.to_bytes() }).unwrap();
        assert_eq!(own.lamports, account.lamports);
        assert_eq!(own.data, account.data);
        assert_eq!(own.owner.bytes, account.owner.to_bytes());
        assert_eq!(own.executable, account.executable);
        assert_eq!(own.rent_epoch, account.rent_epoch);
    }
}

#[test]
fn every_builtin_has_its_name() {
    for (address, name) in [
        (SYSTEM, "system_program"),
        ("BPFLoader1111111111111111111111111111111111", "solana_bpf_loader_deprecated_program"),
        ("BPFLoader2111111111111111111111111111111111", "solana_bpf_loader_program"),
        (
            "BPFLoaderUpgradeab1e11111111111111111111111",
            "solana_bpf_loader_upgradeable_program",
        ),
        (COMPUTE_BUDGET, "compute_budget_program"),
    ] {
        assert_eq!(name_of_builtin(&key(address)), Some(name));
        let account = account_of_native(&key(address));
        assert_eq!(account.data, name.as_bytes());
        assert_eq!(account.lamports, (128 + name.len() as u64) * 6960);
        assert!(account.owner.same(&key(NATIVE_LOADER)));
        assert!(account.executable);
    }
    for address in [
        STAKE,
        "Vote111111111111111111111111111111111111111",
        "ZkE1Gama1Proof11111111111111111111111111111",
    ] {
        assert_eq!(name_of_builtin(&key(address)), None);
        assert!(account_of_builtin(&key(address)).is_none());
        let account = account_of_native(&key(address));
        assert_eq!(account.lamports, 1);
        assert!(account.data.is_empty());
        assert_eq!(account.rent_epoch, u64::MAX);
    }
}

#[test]
fn the_runtime_has_every_builtin_under_a_name_of_its_length() {
    let cache = new_program_cache_with_builtins(0);
    for address in [
        SYSTEM,
        "BPFLoader1111111111111111111111111111111111",
        "BPFLoader2111111111111111111111111111111111",
        "BPFLoaderUpgradeab1e11111111111111111111111",
        COMPUTE_BUDGET,
    ] {
        let entry = cache.find(&Pubkey::new_from_array(key(address).bytes)).unwrap();
        assert_eq!(entry.account_size, name_of_builtin(&key(address)).unwrap().len());
    }
}

#[test]
fn a_table_keeps_the_last_account_of_an_address() {
    let mut table = AccountTable::new();
    let address = Key { bytes: [5; 32] };
    assert!(table.get(&address).is_none());
    let mut account = Account::absent();
    assert_eq!(account.lamports, 0);
    assert!(account.owner.same(&Key { bytes: [0; 32] }));
    account.lamports = 3;
    table.insert(address, account.copied());
    account.lamports = 4;
    table.insert(Key { bytes: [6; 32] }, account.copied());
    account.lamports = 5;
    table.insert(address, account);
    assert_eq!(table.get(&address).unwrap().lamports, 5);
    assert_eq!(table.get(&Key { bytes: [6; 32] }).unwrap().lamports, 4);
}

use mainnet_replay::account::{Account, AccountTable};
use mainnet_replay::execution::Progress;
use mainnet_replay::instructions::{Instruction, InstructionMeta};
use mainnet_replay::key::Key;
use mainnet_replay::transaction::{
    blockhash_or_zeros, fits_message, plan_transaction, transaction_accounts,
    transaction_blockhash, LAMPORTS_PER_SIGNATURE,
};

fn address(n: u8) -> Key {
    Key { bytes: [n; 32] }
}

fn numbered(n: u16) -> Key {
    let mut bytes = [1; 32];
    bytes[0] = (n % 256) as u8;
    bytes[1] = (n / 256) as u8;
    Key { bytes }
}

fn meta(key: Key, signer: bool, writable: bool) -> InstructionMeta {
    InstructionMeta { key, signer, writable }
}

fn call(program: u8, accounts: Vec<InstructionMeta>) -> Instruction {
    Instruction { program_id: address(program), accounts, data: vec![] }
}

fn funded(lamports: u64) -> Account {
    let mut account = Account::absent();
    account.lamports = lamports;
    account
}

#[test]
fn addresses_come_by_group_and_then_by_bytes() {
    let list = vec![
        call(
            90,
            vec![
                meta(address(8), false, false),
                meta(address(7), false, true),
                meta(address(6), true, false),
                meta(address(5), true, true),
                meta(address(3), false, false),
                meta(address(2), false, true),
            ],
        ),
        call(80, vec![meta(address(4), true, true), meta(address(3), false, true)]),
        call(90, vec![meta(address(8), true, false)]),
    ];
    assert!(fits_message(&list));
    let plan = plan_transaction(&list, &AccountTable::new(), &None);
    let order: Vec<u8> = plan.accounts.iter().map(|(key, _)| key.bytes[0]).collect();
    assert_eq!(order, vec![4, 5, 6, 8, 2, 3, 7, 80, 90]);
}

#[test]
fn accounts_that_are_not_known_are_absent() {
    let mut table = AccountTable::new();
    table.insert(address(2), funded(22));
    table.insert(address(9), funded(99));
    let plan =
        plan_transaction(&vec![call(1, vec![meta(address(2), false, true)])], &table, &None);
    assert_eq!(plan.accounts.len(), 2);
    assert_eq!(plan.accounts[0].0.bytes, [2; 32]);
    assert_eq!(plan.accounts[0].1.lamports, 22);
    assert_eq!(plan.accounts[1].0.bytes, [1; 32]);
    assert_eq!(plan.accounts[1].1.lamports, 0);
    assert_eq!(plan.accounts[1].1.owner.bytes, [0; 32]);
    assert_eq!(plan.lamports_per_signature, LAMPORTS_PER_SIGNATURE);
    assert_eq!(LAMPORTS_PER_SIGNATURE, 5000);
    let pair = transaction_accounts(&vec![address(9), address(9)], &table);
    assert_eq!(pair.len(), 2);
    assert_eq!(pair[1].1.lamports, 99);
}

#[test]
fn the_blockhash_is_that_of_the_fixture_or_zeros() {
    let text = "SysvarRent111111111111111111111111111111111".to_string();
    let hash = transaction_blockhash(&Some(text));
    assert_eq!(hash.bytes[..4], [6, 167, 213, 23]);
    assert_eq!(transaction_blockhash(&Some("no hash".to_string())).bytes, [0; 32]);
    assert_eq!(transaction_blockhash(&None).bytes, [0; 32]);
    assert_eq!(blockhash_or_zeros(Some(Ok(address(4)))).bytes, [4; 32]);
    assert_eq!(blockhash_or_zeros(Some(Err("e".to_string()))).bytes, [0; 32]);
    assert_eq!(blockhash_or_zeros(None).bytes, [0; 32]);
}

#[test]
fn a_message_counts_with_one_byte() {
    let signers = |count: u16| {
        vec![call(1, (0..count).map(|n| meta(numbered(n), true, true)).collect())]
    };
    assert!(fits_message(&signers(255)));
    assert!(!fits_message(&signers(256)));
    let plan = plan_transaction(&signers(255), &AccountTable::new(), &None);
    assert_eq!(plan.accounts.len(), 256);
    let readers = |count: u16| {
        vec![call(1, (0..count).map(|n| meta(numbered(n), false, false)).collect())]
    };
    // The program is read too.
    assert!(fits_message(&readers(254)));
    assert!(!fits_message(&readers(255)));
    let writers = vec![call(1, (0..400).map(|n| meta(numbered(n), false, true)).collect())];
    assert!(fits_message(&writers));
}

#[test]
fn no_instructions_make_an_empty_message() {
    assert!(fits_message(&vec![]));
    assert!(plan_transaction(&vec![], &AccountTable::new(), &None).accounts.is_empty());
}

#[test]
fn compute_units_add_up_until_a_failure() {
    let mut progress = Progress::start();
    assert!(progress.goes_on());
    assert_eq!(progress.compute_units, 0);
    progress.record(150, Ok(()));
    progress.record(50, Ok(()));
    assert!(progress.goes_on());
    progress.record(7, Err("Custom(1)".to_string()));
    assert!(!progress.goes_on());
    assert_eq!(progress.compute_units, 207);
    assert_eq!(progress.result, Err("Custom(1)".to_string()));
}

#[test]
fn compute_units_are_capped() {
    let mut progress = Progress::start();
    progress.record(u64::MAX - 1, Ok(()));
    progress.record(5, Ok(()));
    assert_eq!(progress.compute_units, u64::MAX);
    assert_eq!(progress.result, Ok(()));
}

use mainnet_replay::account::{Account, AccountTable};
use mainnet_replay::fixture::{
    Fixture, FixtureAccount, FixtureInstruction, FixtureMeta, FixtureProgram,
};
use mainnet_replay::instructions::{
    build_instructions, collect_instruction, collect_instructions, collect_metas,
    explain_instruction_data, read_instruction, Instruction, InstructionEntry, InstructionMeta,
    MetaEntry,
};
use mainnet_replay::instructions_sysvar::instructions_sysvar_data;
use mainnet_replay::key::{parse_pubkey, Key};
use mainnet_replay::prepare::{assemble, fill_instructions_sysvar, prepare_fixture};

const TOKEN: &str = "TokenkegQfeZyiNwAJbNbGKPFXCWuBvf9Ss623VQ5DA";
const MEMO: &str = "MemoSq4gqABAXKb96qnH8TysNcWxMyWCqXgDLGmfcHr";
const SYSVAR: &str = "Sysvar1nstructions1111111111111111111111111";
const LOADER: &str = "BPFLoaderUpgradeab1e11111111111111111111111";

fn key(text: &str) -> Key {
    parse_pubkey(text).unwrap()
}

fn meta(pubkey: &str, signer: bool, writable: bool) -> FixtureMeta {
    FixtureMeta { pubkey: pubkey.to_string(), signer, writable }
}

fn fixture(instructions: Vec<FixtureInstruction>, accounts: Vec<FixtureAccount>) -> Fixture {
    Fixture {
        name: "name".to_string(),
        signature: "signature".to_string(),
        slot: 1,
        compute_units_consumed: None,
        trimmed_instructions: None,
        recent_blockhash: None,
        instructions,
        accounts,
        programs: vec![FixtureProgram { pubkey: TOKEN.to_string(), path: "p".to_string() }],
        native_programs: vec![],
    }
}

fn virtual_account() -> FixtureAccount {
    FixtureAccount {
        pubkey: SYSVAR.to_string(),
        virtual_kind: Some("instructions".to_string()),
        lamports: None,
        owner: None,
        rent_epoch: None,
        data: None,
    }
}

fn call(program_id: &str, accounts: Vec<FixtureMeta>, data: &str) -> FixtureInstruction {
    FixtureInstruction { program_id: program_id.to_string(), accounts, data: data.to_string() }
}

fn error(instructions: Vec<FixtureInstruction>) -> String {
    build_instructions(&fixture(instructions, vec![])).unwrap_err()
}

fn long_instruction(len: usize) -> Instruction {
    Instruction { program_id: Key { bytes: [1; 32] }, accounts: vec![], data: vec![0; len] }
}

#[test]
fn instructions_come_in_order_with_their_accounts() {
    let list = build_instructions(&fixture(
        vec![
            call(TOKEN, vec![meta(MEMO, true, false), meta(TOKEN, false, true)], "AQI"),
            call(MEMO, vec![], ""),
        ],
        vec![],
    ))
    .unwrap();
    assert_eq!(list.len(), 2);
    assert!(list[0].program_id.same(&key(TOKEN)));
    assert_eq!(list[0].data, vec![1, 2]);
    assert_eq!(list[0].accounts.len(), 2);
    assert!(list[0].accounts[0].key.same(&key(MEMO)));
    assert!(list[0].accounts[0].signer && !list[0].accounts[0].writable);
    assert!(list[0].accounts[1].key.same(&key(TOKEN)));
    assert!(!list[0].accounts[1].signer && list[0].accounts[1].writable);
    assert!(list[1].program_id.same(&key(MEMO)));
    assert!(list[1].accounts.is_empty() && list[1].data.is_empty());
}

#[test]
fn each_error_of_an_instruction_is_told() {
    assert_eq!(
        error(vec![call("prog", vec![meta("acc", false, false)], "!!!!")]),
        "invalid pubkey prog: String is the wrong size"
    );
    assert_eq!(
        error(vec![call(MEMO, vec![meta(TOKEN, false, false), meta("acc", false, false)], "!!!!")]),
        "invalid pubkey acc: String is the wrong size"
    );
    assert_eq!(
        error(vec![call(MEMO, vec![], "!!!!")]),
        "invalid instruction data: invalid base64: Invalid symbol 33, offset 0."
    );
    assert_eq!(
        error(vec![call(MEMO, vec![], ""), call("b", vec![], ""), call("c", vec![], "")]),
        "invalid pubkey b: String is the wrong size"
    );
}

#[test]
fn instructions_that_are_already_read_are_collected() {
    let entry = |program_id: Result<Key, String>| InstructionEntry {
        program_id,
        accounts: vec![MetaEntry { key: Ok(Key { bytes: [2; 32] }), signer: true, writable: true }],
        data: Ok(vec![9]),
    };
    let one = collect_instruction(&entry(Ok(Key { bytes: [1; 32] }))).unwrap();
    assert_eq!(one.program_id.bytes, [1; 32]);
    assert_eq!(one.accounts[0].key.bytes, [2; 32]);
    assert_eq!(one.data, vec![9]);
    let list = vec![entry(Ok(Key { bytes: [1; 32] })), entry(Err("bad".to_string()))];
    assert_eq!(collect_instructions(&list).unwrap_err(), "bad");
    assert_eq!(collect_metas(&vec![]).unwrap().len(), 0);
    assert_eq!(
        explain_instruction_data(Err("e".to_string())).unwrap_err(),
        "invalid instruction data: e"
    );
    let read = read_instruction(&call(MEMO, vec![meta("acc", true, false)], "AQ"));
    assert!(read.program_id.unwrap().same(&key(MEMO)));
    assert!(read.accounts[0].key.is_err() && read.accounts[0].signer);
    assert_eq!(read.data.unwrap(), vec![1]);
}

#[test]
fn the_sysvar_has_the_documented_layout() {
    let list = vec![
        Instruction {
            program_id: Key { bytes: [1; 32] },
            accounts: vec![
                InstructionMeta { key: Key { bytes: [2; 32] }, signer: true, writable: false },
                InstructionMeta { key: Key { bytes: [3; 32] }, signer: true, writable: true },
            ],
            data: vec![7, 8, 9],
        },
        Instruction { program_id: Key { bytes: [4; 32] }, accounts: vec![], data: vec![] },
    ];
    let mut expected = vec![2, 0, 6, 0, 6 + 36 + 66 + 3, 0];
    expected.extend([2, 0]);
    expected.push(1);
    expected.extend([2; 32]);
    expected.push(3);
    expected.extend([3; 32]);
    expected.extend([1; 32]);
    expected.extend([3, 0, 7, 8, 9]);
    expected.extend([0, 0]);
    expected.extend([4; 32]);
    expected.extend([0, 0]);
    expected.extend([0, 0]);
    assert_eq!(instructions_sysvar_data(&list).unwrap(), expected);
    assert_eq!(instructions_sysvar_data(&vec![]).unwrap(), vec![0, 0, 0, 0]);
}

#[test]
fn the_last_start_must_fit_two_bytes() {
    // A table of six bytes and the 36 bytes around the data stand before the second start.
    let fits = vec![long_instruction(65535 - 42), long_instruction(0)];
    let data = instructions_sysvar_data(&fits).unwrap();
    assert_eq!(data[4..6], [255, 255]);
    assert_eq!(data.len(), 65535 + 36 + 2);
    let exceeds = vec![long_instruction(65535 - 41), long_instruction(0)];
    assert_eq!(
        instructions_sysvar_data(&exceeds).unwrap_err(),
        "instructions sysvar: InstructionIndexOutOfBounds"
    );
}

#[test]
fn lengths_beyond_two_bytes_are_cut_off() {
    let data = instructions_sysvar_data(&vec![long_instruction(65536 + 5)]).unwrap();
    assert_eq!(data[4..6], [0, 0]);
    assert_eq!(data[38..40], [5, 0]);
    assert_eq!(data.len(), 4 + 36 + 65541 + 2);
}

#[test]
fn a_prepared_fixture_has_the_sysvar_filled_in() {
    let source =
        fixture(vec![call(MEMO, vec![meta(SYSVAR, false, false)], "AQI")], vec![virtual_account()]);
    let prepared = prepare_fixture(&source).unwrap_or_else(|error| panic!("{error}"));
    let sysvar = prepared.accounts.get(&key(SYSVAR)).unwrap();
    assert_eq!(sysvar.data, instructions_sysvar_data(&prepared.instructions).unwrap());
    assert_eq!(sysvar.lamports, 1);
    let program = prepared.accounts.get(&key(TOKEN)).unwrap();
    assert!(program.owner.same(&key(LOADER)));
    assert!(program.data.is_empty());
}

#[test]
fn a_sysvar_that_is_not_there_is_not_made() {
    let prepared = prepare_fixture(&fixture(vec![call(MEMO, vec![], "AQI")], vec![]))
        .unwrap_or_else(|error| panic!("{error}"));
    assert!(prepared.accounts.get(&key(SYSVAR)).is_none());
    let exceeds = vec![long_instruction(65535), long_instruction(0)];
    assert!(fill_instructions_sysvar(AccountTable::new(), &exceeds).is_ok());
    let mut table = AccountTable::new();
    table.insert(key(SYSVAR), Account::absent());
    let error = fill_instructions_sysvar(table, &exceeds).err().unwrap();
    assert_eq!(error, "instructions sysvar: InstructionIndexOutOfBounds");
}

#[test]
fn an_error_of_the_instructions_comes_before_one_of_the_accounts() {
    let mut source = fixture(vec![call("bad", vec![], "")], vec![virtual_account()]);
    source.accounts[0].pubkey = "worse".to_string();
    assert_eq!(
        prepare_fixture(&source).err().unwrap(),
        "invalid pubkey bad: String is the wrong size"
    );
    source.instructions.clear();
    assert_eq!(
        prepare_fixture(&source).err().unwrap(),
        "invalid pubkey worse: String is the wrong size"
    );
    assert_eq!(assemble(Ok(vec![]), Err("accounts".to_string())).err().unwrap(), "accounts");
    assert!(assemble(Ok(vec![]), Ok(AccountTable::new())).is_ok());
}

//! A frozen transaction, as it is stored: every address and all data as text.

use vstd::prelude::*;

verus! {

/// A transaction with every account that it references and the programs that
/// it runs.
#[derive(Debug)]
pub struct Fixture {
    pub name: String,
    pub signature: String,
    pub slot: u64,
    pub compute_units_consumed: Option<u64>,
    pub trimmed_instructions: Option<usize>,
    pub recent_blockhash: Option<String>,
    pub instructions: Vec<FixtureInstruction>,
    pub accounts: Vec<FixtureAccount>,
    pub programs: Vec<FixtureProgram>,
    pub native_programs: Vec<String>,
}

/// An instruction: its data is base64 text.
#[derive(Debug)]
pub struct FixtureInstruction {
    pub program_id: String,
    pub accounts: Vec<FixtureMeta>,
    pub data: String,
}

/// An account as an instruction refers to it.
#[derive(Debug)]
pub struct FixtureMeta {
    pub pubkey: String,
    pub signer: bool,
    pub writable: bool,
}

/// An account: its data is base64 text. One with a `virtual_kind` has no state
/// of its own; the runtime makes up its data.
#[derive(Debug)]
pub struct FixtureAccount {
    pub pubkey: String,
    pub virtual_kind: Option<String>,
    pub lamports: Option<u64>,
    pub owner: Option<String>,
    pub rent_epoch: Option<u64>,
    pub data: Option<String>,
}

/// A program and where its code is stored, relative to the fixtures' root.
#[derive(Debug)]
pub struct FixtureProgram {
    pub pubkey: String,
    pub path: String,
}

} // verus!

//! A fixture made ready to run.

use vstd::prelude::*;

use crate::account::{Account, AccountTable, AccountView};
use crate::accounts::{self, build_accounts};
use crate::fixture::Fixture;
use crate::ids;
use crate::instructions::{self, build_instructions, Instruction, InstructionView};
use crate::instructions_sysvar::{self, instructions_sysvar_data};
use crate::text;

verus! {

/// A fixture made ready to run: its instructions and the accounts that every
/// run starts from.
pub struct Prepared {
    pub instructions: Vec<Instruction>,
    pub accounts: AccountTable,
}

/// A fixture made ready to run, by views.
pub struct PreparedView {
    pub instructions: Seq<InstructionView>,
    pub accounts: Map<Seq<u8>, AccountView>,
}

impl View for Prepared {
    type V = PreparedView;

    open spec fn view(&self) -> PreparedView {
        PreparedView {
            instructions: instructions::instruction_views(self.instructions@),
            accounts: self.accounts@,
        }
    }
}

/// The accounts with the instructions sysvar filled in, where it is one of
/// them.
pub open spec fn with_instructions_sysvar(
    accounts: Map<Seq<u8>, AccountView>,
    instructions: Seq<InstructionView>,
) -> Result<Map<Seq<u8>, AccountView>, Seq<char>> {
    let key = ids::instructions_sysvar_bytes();
    if accounts.contains_key(key) {
        match instructions_sysvar::sysvar_data(instructions) {
            Ok(data) => Ok(accounts.insert(key, AccountView { data, ..accounts[key] })),
            Err(error) => Err(error),
        }
    } else {
        Ok(accounts)
    }
}

/// Fills in the instructions sysvar, see [`with_instructions_sysvar`].
pub fn fill_instructions_sysvar(accounts: AccountTable, instructions: &Vec<Instruction>) -> (res:
    Result<AccountTable, String>)
    ensures
        text::outcome(res) == with_instructions_sysvar(
            accounts@,
            instructions::instruction_views(instructions@),
        ),
{
    let key = ids::instructions_sysvar_key();
    let filled: Account = match accounts.get(&key) {
        None => {
            return Ok(accounts);
        },
        Some(account) => match instructions_sysvar_data(instructions) {
            Ok(data) => Account {
                lamports: account.lamports,
                data,
                owner: account.owner,
                executable: account.executable,
                rent_epoch: account.rent_epoch,
            },
            Err(error) => {
                return Err(error);
            },
        },
    };
    let mut accounts = accounts;
    accounts.insert(key, filled);
    Ok(accounts)
}

/// A fixture made ready from its instructions and its accounts. An error of
/// the instructions comes first, then one of the accounts.
pub open spec fn assembled(
    instructions: Result<Seq<InstructionView>, Seq<char>>,
    accounts: Result<Map<Seq<u8>, AccountView>, Seq<char>>,
) -> Result<PreparedView, Seq<char>> {
    match instructions {
        Err(error) => Err(error),
        Ok(instructions) => match accounts {
            Err(error) => Err(error),
            Ok(accounts) => match with_instructions_sysvar(accounts, instructions) {
                Err(error) => Err(error),
                Ok(accounts) => Ok(PreparedView { instructions, accounts }),
            },
        },
    }
}

/// Makes a fixture ready from its instructions and its accounts, see
/// [`assembled`].
pub fn assemble(
    instructions: Result<Vec<Instruction>, String>,
    accounts: Result<AccountTable, String>,
) -> (res: Result<Prepared, String>)
    ensures
        text::outcome(res) == assembled(
            instructions::instructions_outcome(instructions),
            text::outcome(accounts),
        ),
        res matches Ok(prepared) ==> instructions matches Ok(given) && prepared.instructions@
            == given@,
        res is Ok ==> accounts is Ok && res->Ok_0.accounts@.dom() == accounts->Ok_0@.dom(),
        res is Ok ==> forall|key: Seq<u8>|
            key != ids::instructions_sysvar_bytes() ==> #[trigger] res->Ok_0.accounts@[key]
                == accounts->Ok_0@[key],
{
    let ghost seen = instructions::instructions_outcome(instructions);
    let ghost listed = text::outcome(accounts);
    proof {
        if assembled(seen, listed) is Ok {
            assert forall|key: Seq<u8>| key != ids::instructions_sysvar_bytes() implies
                #[trigger] assembled(seen, listed)->Ok_0.accounts[key] == listed->Ok_0[key] by {
                making_ready_keeps_instructions_and_accounts(seen, listed, key);
            }
            making_ready_keeps_instructions_and_accounts(seen, listed, Seq::empty());
        }
    }
    match instructions {
        Err(error) => Err(error),
        Ok(instructions) => match accounts {
            Err(error) => Err(error),
            Ok(accounts) => match fill_instructions_sysvar(accounts, &instructions) {
                Err(error) => Err(error),
                Ok(accounts) => Ok(Prepared { instructions, accounts }),
            },
        },
    }
}

/// A fixture made ready to run. Its programs are upgradeable ones.
pub open spec fn prepared_fixture(fixture: Fixture) -> Result<PreparedView, Seq<char>> {
    assembled(
        instructions::fixture_instructions(fixture),
        accounts::fixture_accounts(fixture, ids::upgradeable_loader_bytes()),
    )
}

/// Makes a fixture ready to run, see [`prepared_fixture`].
pub fn prepare_fixture(fixture: &Fixture) -> (res: Result<Prepared, String>)
    ensures
        text::outcome(res) == prepared_fixture(*fixture),
{
    assemble(build_instructions(fixture), build_accounts(fixture, &ids::upgradeable_loader_key()))
}

/// Nothing but the data of the instructions sysvar is filled in: there are the
/// same accounts, and every other one stays as it is.
pub proof fn only_the_instructions_sysvar_changes(
    accounts: Map<Seq<u8>, AccountView>,
    instructions: Seq<InstructionView>,
    key: Seq<u8>,
)
    ensures
        with_instructions_sysvar(accounts, instructions) matches Ok(filled) ==> {
            &&& filled.dom() == accounts.dom()
            &&& key != ids::instructions_sysvar_bytes() ==> filled[key] == accounts[key]
            &&& filled[key] == (AccountView { data: filled[key].data, ..accounts[key] })
        },
{
    if let Ok(filled) = with_instructions_sysvar(accounts, instructions) {
        assert(filled.dom() =~= accounts.dom());
    }
}

/// Filling in fails exactly where the instructions sysvar is among the
/// accounts and the instructions are too long for it.
pub proof fn only_a_sysvar_that_is_there_can_be_too_short(
    accounts: Map<Seq<u8>, AccountView>,
    instructions: Seq<InstructionView>,
)
    ensures
        with_instructions_sysvar(accounts, instructions) is Err <==> accounts.contains_key(
            ids::instructions_sysvar_bytes(),
        ) && !instructions_sysvar::starts_fit(instructions),
{
}

/// A program that has the instructions sysvar among its accounts finds every
/// instruction of the fixture there. The inputs that are left out are those
/// of [`instructions_sysvar::instructions_read_back`].
pub proof fn prepared_sysvar_holds_the_instructions(
    instructions: Result<Seq<InstructionView>, Seq<char>>,
    accounts: Result<Map<Seq<u8>, AccountView>, Seq<char>>,
    i: int,
)
    requires
        assembled(instructions, accounts) is Ok,
        accounts->Ok_0.contains_key(ids::instructions_sysvar_bytes()),
        0 <= i < instructions->Ok_0.len(),
        instructions_sysvar::can_be_written(instructions->Ok_0[i]),
    ensures
        ({
            let prepared = assembled(instructions, accounts)->Ok_0;
            prepared.instructions == instructions->Ok_0 && instructions_sysvar::instruction_at(
                prepared.accounts[ids::instructions_sysvar_bytes()].data,
                i,
            ) == prepared.instructions[i]
        }),
{
    instructions_sysvar::instructions_read_back(instructions->Ok_0, i);
}

/// The view of a prepared fixture holds its instructions, in their places, and
/// its accounts.
pub proof fn prepared_views_hold_every_field(prepared: Prepared)
    ensures
        prepared@.instructions.len() == prepared.instructions.len(),
        forall|i: int|
            0 <= i < prepared.instructions.len() ==> #[trigger] prepared@.instructions[i]
                == prepared.instructions[i]@,
        prepared@.accounts == prepared.accounts@,
{
}

/// Making ready keeps what it is given: the instructions are the given ones,
/// and the accounts are the given ones but for the data of the instructions
/// sysvar. That is the sysvar's data for these instructions, where the sysvar is
/// among the accounts; where it is not, nothing changes at all.
pub proof fn making_ready_keeps_instructions_and_accounts(
    instructions: Result<Seq<InstructionView>, Seq<char>>,
    accounts: Result<Map<Seq<u8>, AccountView>, Seq<char>>,
    key: Seq<u8>,
)
    requires
        assembled(instructions, accounts) is Ok,
    ensures
        ({
            let prepared = assembled(instructions, accounts)->Ok_0;
            let before = accounts->Ok_0;
            let after = prepared.accounts;
            let sysvar = ids::instructions_sysvar_bytes();
            &&& instructions is Ok
            &&& accounts is Ok
            &&& prepared.instructions == instructions->Ok_0
            &&& after.dom() == before.dom()
            &&& key != sysvar ==> after[key] == before[key]
            &&& after[key].lamports == before[key].lamports
            &&& after[key].owner == before[key].owner
            &&& after[key].executable == before[key].executable
            &&& after[key].rent_epoch == before[key].rent_epoch
            &&& before.contains_key(sysvar) ==> instructions_sysvar::sysvar_data(
                instructions->Ok_0,
            ) == Result::<Seq<u8>, Seq<char>>::Ok(after[sysvar].data)
            &&& !before.contains_key(sysvar) ==> after == before
        }),
{
    only_the_instructions_sysvar_changes(accounts->Ok_0, instructions->Ok_0, key);
}

/// Making ready succeeds exactly when there are instructions and accounts, and
/// data for the instructions sysvar where that is among the accounts. An error
/// of the instructions is told first, then one of the accounts, then one of the
/// sysvar.
pub proof fn making_ready_fails_with_the_first_error(
    instructions: Result<Seq<InstructionView>, Seq<char>>,
    accounts: Result<Map<Seq<u8>, AccountView>, Seq<char>>,
)
    ensures
        instructions matches Err(error) ==> assembled(instructions, accounts) == Result::<
            PreparedView,
            Seq<char>,
        >::Err(error),
        instructions is Ok ==> (accounts matches Err(error) ==> assembled(instructions, accounts)
            == Result::<PreparedView, Seq<char>>::Err(error)),
        instructions is Ok && accounts is Ok && !accounts->Ok_0.contains_key(
            ids::instructions_sysvar_bytes(),
        ) ==> assembled(instructions, accounts) is Ok,
        instructions is Ok && accounts is Ok && accounts->Ok_0.contains_key(
            ids::instructions_sysvar_bytes(),
        ) ==> match instructions_sysvar::sysvar_data(instructions->Ok_0) {
            Ok(_) => assembled(instructions, accounts) is Ok,
            Err(error) => assembled(instructions, accounts) == Result::<
                PreparedView,
                Seq<char>,
            >::Err(error),
        },
{
}

/// A prepared fixture runs the fixture's own instructions, over the fixture's
/// own accounts but for the data of the instructions sysvar; its programs are
/// owned by the loader of upgradeable programs.
pub proof fn prepared_fixtures_run_their_own_instructions(fixture: Fixture, key: Seq<u8>)
    ensures
        prepared_fixture(fixture) matches Ok(prepared) ==> {
            let built = accounts::fixture_accounts(fixture, ids::upgradeable_loader_bytes());
            &&& instructions::fixture_instructions(fixture) == Result::<
                Seq<InstructionView>,
                Seq<char>,
            >::Ok(prepared.instructions)
            &&& built is Ok
            &&& prepared.accounts.dom() == built->Ok_0.dom()
            &&& key != ids::instructions_sysvar_bytes() ==> prepared.accounts[key]
                == built->Ok_0[key]
            &&& prepared.accounts.contains_key(ids::instructions_sysvar_bytes())
                ==> instructions_sysvar::sysvar_data(prepared.instructions) == Result::<
                Seq<u8>,
                Seq<char>,
            >::Ok(prepared.accounts[ids::instructions_sysvar_bytes()].data)
        },
        instructions::fixture_instructions(fixture) matches Err(error) ==> prepared_fixture(fixture)
            == Result::<PreparedView, Seq<char>>::Err(error),
        instructions::fixture_instructions(fixture) is Ok ==> (accounts::fixture_accounts(
            fixture,
            ids::upgradeable_loader_bytes(),
        ) matches Err(error) ==> prepared_fixture(fixture) == Result::<
            PreparedView,
            Seq<char>,
        >::Err(error)),
{
    let built = instructions::fixture_instructions(fixture);
    let collected = accounts::fixture_accounts(fixture, ids::upgradeable_loader_bytes());
    if assembled(built, collected) is Ok {
        making_ready_keeps_instructions_and_accounts(built, collected, key);
    }
}

} // verus!

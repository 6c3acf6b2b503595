//! The programs that are built into the runtime, and their accounts.

use solana_rent::Rent;
use solana_svm::conformance::programs::{
    keyed_account_for_compute_budget_program, keyed_account_for_system_program,
};
use vstd::prelude::*;

use crate::account::{Account, AccountView};
use crate::ids;
use crate::key::Key;

verus! {

/// The name of the builtin program at an address. The vote program and the ZK
/// ElGamal proof program are built in only where the runtime has its
/// `conformance` feature, and are not counted here.
pub open spec fn builtin_name(key: Seq<u8>) -> Option<Seq<char>> {
    if key == ids::system_program_bytes() {
        Some("system_program"@)
    } else if key == ids::deprecated_loader_bytes() {
        Some("solana_bpf_loader_deprecated_program"@)
    } else if key == ids::loader_bytes() {
        Some("solana_bpf_loader_program"@)
    } else if key == ids::upgradeable_loader_bytes() {
        Some("solana_bpf_loader_upgradeable_program"@)
    } else if key == ids::compute_budget_bytes() {
        Some("compute_budget_program"@)
    } else {
        None
    }
}

/// The balance from which an account with so many bytes of data is exempt from
/// rent at the default rate.
pub open spec fn rent_exempt_minimum(data_len: nat) -> nat {
    (128 + data_len) * 6960
}

/// The account of a builtin program with a name: the name as data, just enough
/// lamports to be exempt from rent.
pub open spec fn named_account(name: Seq<char>) -> AccountView {
    AccountView {
        lamports: rent_exempt_minimum(vstd::utf8::encode_utf8(name).len()) as u64,
        data: vstd::utf8::encode_utf8(name),
        owner: ids::native_loader_bytes(),
        executable: true,
        rent_epoch: 0,
    }
}

/// The account of the builtin program at an address, if there is one.
pub open spec fn builtin_account(key: Seq<u8>) -> Option<AccountView> {
    match builtin_name(key) {
        Some(name) => Some(named_account(name)),
        None => None,
    }
}

/// The account that `keyed_account_for_system_program` of `solana_svm` gives
/// is the one named `system_program`.
#[verifier::external_body]
pub(crate) fn system_program_account() -> (res: Account)
    ensures
        res@ == named_account("system_program"@),
{
    let (_, account) = keyed_account_for_system_program();
    Account {
        lamports: account.lamports,
        data: account.data,
        owner: Key { bytes: account.owner.to_bytes() },
        executable: account.executable,
        rent_epoch: account.rent_epoch,
    }
}

/// The account that `keyed_account_for_compute_budget_program` of `solana_svm`
/// gives is the one named `compute_budget_program`.
#[verifier::external_body]
pub(crate) fn compute_budget_account() -> (res: Account)
    ensures
        res@ == named_account("compute_budget_program"@),
{
    let (_, account) = keyed_account_for_compute_budget_program();
    Account {
        lamports: account.lamports,
        data: account.data,
        owner: Key { bytes: account.owner.to_bytes() },
        executable: account.executable,
        rent_epoch: account.rent_epoch,
    }
}

/// `Rent::default().minimum_balance`: 6960 lamports for each byte of data and
/// for the 128 bytes that every account takes. Data of more than ten mebibytes
/// is refused there with a panic.
#[verifier::external_body]
pub(crate) fn default_minimum_balance(data_len: usize) -> (res: u64)
    requires
        data_len <= 10 * 1024 * 1024,
    ensures
        res == rent_exempt_minimum(data_len as nat),
{
    Rent::default().minimum_balance(data_len)
}

/// The names are plain ASCII of moderate length.
proof fn lemma_builtin_name_len(key: Seq<u8>)
    ensures
        builtin_name(key) matches Some(name) ==> vstd::utf8::encode_utf8(name).len() <= 64,
{
    reveal_strlit("system_program");
    reveal_strlit("solana_bpf_loader_deprecated_program");
    reveal_strlit("solana_bpf_loader_program");
    reveal_strlit("solana_bpf_loader_upgradeable_program");
    reveal_strlit("compute_budget_program");
    if let Some(name) = builtin_name(key) {
        assert(vstd::utf8::is_ascii_chars(name));
        vstd::utf8::is_ascii_chars_encode_utf8(name);
    }
}

/// The name of the builtin program at an address, see [`builtin_name`].
pub fn name_of_builtin(key: &Key) -> (res: Option<&'static str>)
    ensures
        res is Some == builtin_name(key@) is Some,
        res matches Some(name) ==> builtin_name(key@) == Some(name@),
{
    if key.same(&ids::system_program_key()) {
        Some("system_program")
    } else if key.same(&ids::deprecated_loader_key()) {
        Some("solana_bpf_loader_deprecated_program")
    } else if key.same(&ids::loader_key()) {
        Some("solana_bpf_loader_program")
    } else if key.same(&ids::upgradeable_loader_key()) {
        Some("solana_bpf_loader_upgradeable_program")
    } else if key.same(&ids::compute_budget_key()) {
        Some("compute_budget_program")
    } else {
        None
    }
}

/// The account of the builtin program at an address, see [`builtin_account`].
/// The runtime hands out those of the system program and of the compute budget
/// program; the others are made up in the same way.
pub fn account_of_builtin(key: &Key) -> (res: Option<Account>)
    ensures
        res is Some == builtin_account(key@) is Some,
        res matches Some(account) ==> builtin_account(key@) == Some(account@),
{
    if key.same(&ids::system_program_key()) {
        return Some(system_program_account());
    }
    if key.same(&ids::compute_budget_key()) {
        proof {
            lemma_compute_budget_is_no_other();
        }
        return Some(compute_budget_account());
    }
    match name_of_builtin(key) {
        Some(name) => {
            proof {
                lemma_builtin_name_len(key@);
            }
            let data: Vec<u8> = name.as_bytes_vec();
            Some(
                Account {
                    lamports: default_minimum_balance(data.len()),
                    data,
                    owner: ids::native_loader_key(),
                    executable: true,
                    rent_epoch: 0,
                },
            )
        },
        None => None,
    }
}

/// The compute budget program has an address of its own among the builtins.
proof fn lemma_compute_budget_is_no_other()
    ensures
        builtin_name(ids::compute_budget_bytes()) == Some("compute_budget_program"@),
{
    assert(ids::compute_budget_bytes()[0] == 3);
    assert(ids::system_program_bytes()[0] == 0);
    assert(ids::deprecated_loader_bytes()[0] == 2);
    assert(ids::loader_bytes()[0] == 2);
    assert(ids::upgradeable_loader_bytes()[0] == 2);
}

/// The builtin programs are five: each has the account with its name as data,
/// 6960 lamports for each byte of the name and for 128 more, owned by the
/// native loader, executable, with rent epoch zero. No other address has one.
pub proof fn builtins_are_five(key: Seq<u8>)
    ensures
        key == ids::system_program_bytes() ==> builtin_name(key) == Some("system_program"@),
        key == ids::deprecated_loader_bytes() ==> builtin_name(key) == Some(
            "solana_bpf_loader_deprecated_program"@,
        ),
        key == ids::loader_bytes() ==> builtin_name(key) == Some("solana_bpf_loader_program"@),
        key == ids::upgradeable_loader_bytes() ==> builtin_name(key) == Some(
            "solana_bpf_loader_upgradeable_program"@,
        ),
        key == ids::compute_budget_bytes() ==> builtin_name(key) == Some(
            "compute_budget_program"@,
        ),
        builtin_account(key) is Some <==> {
            ||| key == ids::system_program_bytes()
            ||| key == ids::deprecated_loader_bytes()
            ||| key == ids::loader_bytes()
            ||| key == ids::upgradeable_loader_bytes()
            ||| key == ids::compute_budget_bytes()
        },
        builtin_account(key) matches Some(account) ==> {
            &&& builtin_name(key) matches Some(name) && account.data == vstd::utf8::encode_utf8(
                name,
            )
            &&& account.lamports == 6960 * (128 + account.data.len())
            &&& account.owner == ids::native_loader_bytes()
            &&& account.executable
            &&& account.rent_epoch == 0
        },
{
    lemma_builtin_name_len(key);
    lemma_compute_budget_is_no_other();
    assert(ids::system_program_bytes()[0] == 0);
    assert(ids::deprecated_loader_bytes()[0] == 2);
    assert(ids::loader_bytes()[0] == 2);
    assert(ids::upgradeable_loader_bytes()[0] == 2);
    assert(ids::deprecated_loader_bytes()[7] == 107);
    assert(ids::loader_bytes()[7] == 110);
    assert(ids::upgradeable_loader_bytes()[7] == 176);
}

} // verus!

//! The accounts that a fixture starts from.

use vstd::prelude::*;

use crate::account::{copy_bytes, Account, AccountTable, AccountView};
use crate::builtin::{self, account_of_builtin};
use crate::encoding::{self, decode_base64};
use crate::fixture::{Fixture, FixtureAccount, FixtureProgram};
use crate::ids;
use crate::key::{self, parse_pubkey, text_of_pubkey, Key};
use crate::text::{self, joined};

verus! {

/// An account of a fixture with its texts read.
#[derive(Debug)]
pub struct AccountEntry {
    pub key: Result<Key, String>,
    pub made_up: bool,
    pub owner: Option<Result<Key, String>>,
    pub data: Result<Vec<u8>, String>,
    pub lamports: Option<u64>,
    pub rent_epoch: Option<u64>,
}

/// An account of a fixture with its texts read, by views.
pub struct AccountEntryView {
    pub key: Result<Seq<u8>, Seq<char>>,
    pub made_up: bool,
    pub owner: Option<Result<Seq<u8>, Seq<char>>>,
    pub data: Result<Seq<u8>, Seq<char>>,
    pub lamports: Option<u64>,
    pub rent_epoch: Option<u64>,
}

impl View for AccountEntry {
    type V = AccountEntryView;

    open spec fn view(&self) -> AccountEntryView {
        AccountEntryView {
            key: text::outcome(self.key),
            made_up: self.made_up,
            owner: match self.owner {
                Some(owner) => Some(text::outcome(owner)),
                None => None,
            },
            data: text::outcome(self.data),
            lamports: self.lamports,
            rent_epoch: self.rent_epoch,
        }
    }
}

/// An amount that counts as zero where it is not given.
pub open spec fn or_zero(amount: Option<u64>) -> u64 {
    match amount {
        Some(amount) => amount,
        None => 0,
    }
}

/// The account that stands for one whose data the runtime makes up.
pub open spec fn placeholder_account() -> AccountView {
    AccountView {
        lamports: 1,
        data: Seq::empty(),
        owner: ids::sysvar_owner_bytes(),
        executable: false,
        rent_epoch: 0,
    }
}

/// The account of a program that is loaded from its code.
pub open spec fn program_account(loader_key: Seq<u8>) -> AccountView {
    AccountView {
        lamports: 1,
        data: Seq::empty(),
        owner: loader_key,
        executable: true,
        rent_epoch: u64::MAX,
    }
}

/// The account of a native program: the builtin one, or a bare one owned by
/// the native loader where the program is none of the builtin ones.
pub open spec fn native_account(key: Seq<u8>) -> AccountView {
    match builtin::builtin_account(key) {
        Some(account) => account,
        None => AccountView {
            lamports: 1,
            data: Seq::empty(),
            owner: ids::native_loader_bytes(),
            executable: true,
            rent_epoch: u64::MAX,
        },
    }
}

/// The address and the account of an entry. A made-up account needs nothing
/// but its address; any other needs an owner and readable data.
pub open spec fn entry_account(entry: AccountEntryView) -> Result<
    (Seq<u8>, AccountView),
    Seq<char>,
> {
    match entry.key {
        Err(error) => Err(error),
        Ok(key) => if entry.made_up {
            Ok((key, placeholder_account()))
        } else {
            match (entry.owner, entry.data) {
                (None, _) => Err("account without owner"@),
                (Some(Err(error)), _) => Err(error),
                (Some(Ok(_)), Err(error)) => Err(error),
                (Some(Ok(owner)), Ok(data)) => Ok(
                    (
                        key,
                        AccountView {
                            lamports: or_zero(entry.lamports),
                            data,
                            owner,
                            executable: false,
                            rent_epoch: or_zero(entry.rent_epoch),
                        },
                    ),
                ),
            }
        },
    }
}

/// A table under construction: the accounts so far, or the first error.
pub type Accounts = Result<Map<Seq<u8>, AccountView>, Seq<char>>;

/// The accounts of the entries. A later entry replaces an earlier one of the
/// same address; the first entry with an error decides.
pub open spec fn entry_accounts(entries: Seq<AccountEntryView>) -> Accounts
    decreases entries.len(),
{
    if entries.len() == 0 {
        Ok(Map::empty())
    } else {
        match (entry_accounts(entries.drop_last()), entry_account(entries.last())) {
            (Err(error), _) => Err(error),
            (Ok(_), Err(error)) => Err(error),
            (Ok(accounts), Ok((key, account))) => Ok(accounts.insert(key, account)),
        }
    }
}

/// The accounts with one for each further address, in place of what the
/// address has so far; the first address with an error decides.
pub open spec fn with_keys(
    start: Accounts,
    keys: Seq<Result<Seq<u8>, Seq<char>>>,
    account: spec_fn(Seq<u8>) -> AccountView,
) -> Accounts
    decreases keys.len(),
{
    if keys.len() == 0 {
        start
    } else {
        match (with_keys(start, keys.drop_last(), account), keys.last()) {
            (Err(error), _) => Err(error),
            (Ok(_), Err(error)) => Err(error),
            (Ok(accounts), Ok(key)) => Ok(accounts.insert(key, account(key))),
        }
    }
}

/// The account of every loaded program.
pub open spec fn program_accounts(loader_key: Seq<u8>) -> spec_fn(Seq<u8>) -> AccountView {
    |key: Seq<u8>| program_account(loader_key)
}

/// The account of each native program.
pub open spec fn native_accounts() -> spec_fn(Seq<u8>) -> AccountView {
    |key: Seq<u8>| native_account(key)
}

/// The accounts of a fixture: its entries, then its programs, then its native
/// programs.
pub open spec fn collected_accounts(
    entries: Seq<AccountEntryView>,
    programs: Seq<Result<Seq<u8>, Seq<char>>>,
    native_programs: Seq<Result<Seq<u8>, Seq<char>>>,
    loader_key: Seq<u8>,
) -> Accounts {
    with_keys(
        with_keys(entry_accounts(entries), programs, program_accounts(loader_key)),
        native_programs,
        native_accounts(),
    )
}

/// An error among the first entries is the error of all of them.
proof fn lemma_entry_error(entries: Seq<AccountEntryView>, n: int)
    requires
        0 <= n <= entries.len(),
        entry_accounts(entries.take(n)) is Err,
    ensures
        entry_accounts(entries) == entry_accounts(entries.take(n)),
    decreases entries.len(),
{
    if n == entries.len() {
        assert(entries.take(n) =~= entries);
    } else {
        assert(entries.drop_last().take(n) =~= entries.take(n));
        lemma_entry_error(entries.drop_last(), n);
    }
}

/// An error among the first addresses is the error of all of them.
proof fn lemma_key_error(
    start: Accounts,
    keys: Seq<Result<Seq<u8>, Seq<char>>>,
    account: spec_fn(Seq<u8>) -> AccountView,
    n: int,
)
    requires
        0 <= n <= keys.len(),
        with_keys(start, keys.take(n), account) is Err,
    ensures
        with_keys(start, keys, account) == with_keys(start, keys.take(n), account),
    decreases keys.len(),
{
    if n == keys.len() {
        assert(keys.take(n) =~= keys);
    } else {
        assert(keys.drop_last().take(n) =~= keys.take(n));
        lemma_key_error(start, keys.drop_last(), account, n);
    }
}

/// An error before the first address stays the error.
proof fn lemma_start_error(
    start: Accounts,
    keys: Seq<Result<Seq<u8>, Seq<char>>>,
    account: spec_fn(Seq<u8>) -> AccountView,
)
    requires
        start is Err,
    ensures
        with_keys(start, keys, account) == start,
{
    assert(keys.take(0) =~= Seq::<Result<Seq<u8>, Seq<char>>>::empty());
    lemma_key_error(start, keys, account, 0);
}

/// The entries, by views.
pub open spec fn entry_views(entries: Seq<AccountEntry>) -> Seq<AccountEntryView> {
    entries.map_values(|entry: AccountEntry| entry@)
}

/// The addresses that were read, by views.
pub open spec fn key_views(keys: Seq<Result<Key, String>>) -> Seq<Result<Seq<u8>, Seq<char>>> {
    keys.map_values(|key: Result<Key, String>| text::outcome(key))
}

/// The address and the account of an entry, see [`entry_account`].
pub fn account_from_entry(entry: &AccountEntry) -> (res: Result<(Key, Account), String>)
    ensures
        text::outcome(res) == entry_account(entry@),
{
    let key: Key = match &entry.key {
        Ok(key) => *key,
        Err(error) => {
            return Err(error.clone());
        },
    };
    if entry.made_up {
        return Ok(
            (
                key,
                Account {
                    lamports: 1,
                    data: Vec::new(),
                    owner: ids::sysvar_owner_key(),
                    executable: false,
                    rent_epoch: 0,
                },
            ),
        );
    }
    let owner: Key = match &entry.owner {
        None => {
            return Err("account without owner".to_owned());
        },
        Some(Err(error)) => {
            return Err(error.clone());
        },
        Some(Ok(owner)) => *owner,
    };
    match &entry.data {
        Err(error) => Err(error.clone()),
        Ok(data) => Ok(
            (
                key,
                Account {
                    lamports: entry.lamports.unwrap_or(0),
                    data: copy_bytes(data),
                    owner,
                    executable: false,
                    rent_epoch: entry.rent_epoch.unwrap_or(0),
                },
            ),
        ),
    }
}

/// The account of a native program, see [`native_account`].
pub fn account_of_native(key: &Key) -> (res: Account)
    ensures
        res@ == native_account(key@),
{
    match account_of_builtin(key) {
        Some(account) => account,
        None => Account {
            lamports: 1,
            data: Vec::new(),
            owner: ids::native_loader_key(),
            executable: true,
            rent_epoch: u64::MAX,
        },
    }
}

/// Collects the accounts of a fixture whose texts are read, see
/// [`collected_accounts`].
pub fn collect_accounts(
    entries: &Vec<AccountEntry>,
    programs: &Vec<Result<Key, String>>,
    native_programs: &Vec<Result<Key, String>>,
    loader_key: &Key,
) -> (res: Result<AccountTable, String>)
    ensures
        text::outcome(res) == collected_accounts(
            entry_views(entries@),
            key_views(programs@),
            key_views(native_programs@),
            loader_key@,
        ),
{
    let ghost from_entries = entry_views(entries@);
    let ghost from_programs = key_views(programs@);
    let ghost from_natives = key_views(native_programs@);
    let mut table = AccountTable::new();
    let mut i: usize = 0;
    while i < entries.len()
        invariant
            0 <= i <= entries.len(),
            from_entries == entry_views(entries@),
            from_programs == key_views(programs@),
            from_natives == key_views(native_programs@),
            entry_accounts(from_entries.take(i as int)) == Accounts::Ok(table@),
        decreases entries.len() - i,
    {
        proof {
            assert(from_entries.take(i + 1).drop_last() =~= from_entries.take(i as int));
            assert(from_entries.take(i + 1).last() == entries[i as int]@);
        }
        match account_from_entry(&entries[i]) {
            Err(error) => {
                proof {
                    lemma_entry_error(from_entries, i + 1);
                    lemma_start_error(
                        entry_accounts(from_entries),
                        from_programs,
                        program_accounts(loader_key@),
                    );
                    lemma_start_error(
                        with_keys(
                            entry_accounts(from_entries),
                            from_programs,
                            program_accounts(loader_key@),
                        ),
                        from_natives,
                        native_accounts(),
                    );
                }
                return Err(error);
            },
            Ok((key, account)) => {
                table.insert(key, account);
            },
        }
        i = i + 1;
    }
    proof {
        assert(from_entries.take(i as int) =~= from_entries);
    }
    let ghost first = entry_accounts(from_entries);
    let mut i: usize = 0;
    while i < programs.len()
        invariant
            0 <= i <= programs.len(),
            from_entries == entry_views(entries@),
            from_programs == key_views(programs@),
            from_natives == key_views(native_programs@),
            first == entry_accounts(from_entries),
            with_keys(first, from_programs.take(i as int), program_accounts(loader_key@))
                == Accounts::Ok(table@),
        decreases programs.len() - i,
    {
        proof {
            assert(from_programs.take(i + 1).drop_last() =~= from_programs.take(i as int));
            assert(from_programs.take(i + 1).last() == text::outcome(programs[i as int]));
        }
        match &programs[i] {
            Err(error) => {
                proof {
                    lemma_key_error(first, from_programs, program_accounts(loader_key@), i + 1);
                    lemma_start_error(
                        with_keys(first, from_programs, program_accounts(loader_key@)),
                        from_natives,
                        native_accounts(),
                    );
                }
                return Err(error.clone());
            },
            Ok(key) => {
                table.insert(
                    *key,
                    Account {
                        lamports: 1,
                        data: Vec::new(),
                        owner: *loader_key,
                        executable: true,
                        rent_epoch: u64::MAX,
                    },
                );
            },
        }
        i = i + 1;
    }
    proof {
        assert(from_programs.take(i as int) =~= from_programs);
    }
    let ghost second = with_keys(first, from_programs, program_accounts(loader_key@));
    let mut i: usize = 0;
    while i < native_programs.len()
        invariant
            0 <= i <= native_programs.len(),
            from_entries == entry_views(entries@),
            from_programs == key_views(programs@),
            from_natives == key_views(native_programs@),
            first == entry_accounts(from_entries),
            second == with_keys(first, from_programs, program_accounts(loader_key@)),
            with_keys(second, from_natives.take(i as int), native_accounts()) == Accounts::Ok(
                table@,
            ),
        decreases native_programs.len() - i,
    {
        proof {
            assert(from_natives.take(i + 1).drop_last() =~= from_natives.take(i as int));
            assert(from_natives.take(i + 1).last() == text::outcome(native_programs[i as int]));
        }
        match &native_programs[i] {
            Err(error) => {
                proof {
                    lemma_key_error(second, from_natives, native_accounts(), i + 1);
                }
                return Err(error.clone());
            },
            Ok(key) => {
                table.insert(*key, account_of_native(key));
            },
        }
        i = i + 1;
    }
    proof {
        assert(from_natives.take(i as int) =~= from_natives);
    }
    Ok(table)
}

/// The result of reading account data: the bytes, or an error that names the
/// account.
pub open spec fn account_data(
    key_text: Seq<char>,
    decoded: Result<Seq<u8>, Seq<char>>,
) -> Result<Seq<u8>, Seq<char>> {
    match decoded {
        Ok(data) => Ok(data),
        Err(error) => Err("invalid account data for "@ + key_text + ": "@ + error),
    }
}

/// What the texts of an account say. Data that is not given is empty.
pub open spec fn entry_of(account: FixtureAccount) -> AccountEntryView {
    let key = key::parsed_pubkey(account.pubkey@);
    AccountEntryView {
        key,
        made_up: account.virtual_kind is Some,
        owner: match account.owner {
            Some(owner) => Some(key::parsed_pubkey(owner@)),
            None => None,
        },
        data: match (key, account.data) {
            (Err(error), _) => Err(error),
            (Ok(_), None) => Ok(Seq::empty()),
            (Ok(bytes), Some(data)) => account_data(
                key::pubkey_text(bytes),
                encoding::decoded_base64(data@),
            ),
        },
        lamports: account.lamports,
        rent_epoch: account.rent_epoch,
    }
}

/// Puts the account in question before the reason why its data is unreadable.
pub fn explain_account_data(key_text: &str, decoded: Result<Vec<u8>, String>) -> (res: Result<
    Vec<u8>,
    String,
>)
    ensures
        text::outcome(res) == account_data(key_text@, text::outcome(decoded)),
        decoded matches Ok(data) ==> res is Ok && res->Ok_0@ == data@,
        decoded matches Err(error) ==> res is Err && res->Err_0@ == "invalid account data for "@
            + key_text@ + ": "@ + error@,
{
    match decoded {
        Ok(data) => Ok(data),
        Err(error) => {
            let head: String = joined(joined("invalid account data for ", key_text).as_str(), ": ");
            Err(joined(head.as_str(), error.as_str()))
        },
    }
}

/// Reads the texts of an account, see [`entry_of`].
pub fn read_account(account: &FixtureAccount) -> (res: AccountEntry)
    ensures
        res@ == entry_of(*account),
{
    let key: Result<Key, String> = parse_pubkey(account.pubkey.as_str());
    let owner: Option<Result<Key, String>> = match &account.owner {
        Some(owner) => Some(parse_pubkey(owner.as_str())),
        None => None,
    };
    let data: Result<Vec<u8>, String> = match &key {
        Err(error) => Err(error.clone()),
        Ok(key) => match &account.data {
            None => Ok(Vec::new()),
            Some(data) => explain_account_data(
                text_of_pubkey(key).as_str(),
                decode_base64(data.as_str()),
            ),
        },
    };
    AccountEntry {
        key,
        made_up: account.virtual_kind.is_some(),
        owner,
        data,
        lamports: account.lamports,
        rent_epoch: account.rent_epoch,
    }
}

/// What the texts of a fixture's accounts say.
pub open spec fn fixture_entries(fixture: Fixture) -> Seq<AccountEntryView> {
    fixture.accounts@.map_values(|account: FixtureAccount| entry_of(account))
}

/// What the addresses of a fixture's programs say.
pub open spec fn fixture_programs(fixture: Fixture) -> Seq<Result<Seq<u8>, Seq<char>>> {
    fixture.programs@.map_values(
        |program: FixtureProgram| key::parsed_pubkey(program.pubkey@),
    )
}

/// What the addresses of a fixture's native programs say.
pub open spec fn fixture_natives(fixture: Fixture) -> Seq<Result<Seq<u8>, Seq<char>>> {
    fixture.native_programs@.map_values(|program: String| key::parsed_pubkey(program@))
}

/// The accounts that a fixture starts from.
pub open spec fn fixture_accounts(fixture: Fixture, loader_key: Seq<u8>) -> Accounts {
    collected_accounts(
        fixture_entries(fixture),
        fixture_programs(fixture),
        fixture_natives(fixture),
        loader_key,
    )
}

/// Builds the accounts that a fixture starts from, see [`fixture_accounts`].
/// Its programs are owned by `loader_key`.
pub fn build_accounts(fixture: &Fixture, loader_key: &Key) -> (res: Result<AccountTable, String>)
    ensures
        text::outcome(res) == fixture_accounts(*fixture, loader_key@),
{
    let mut entries: Vec<AccountEntry> = Vec::new();
    let mut i: usize = 0;
    while i < fixture.accounts.len()
        invariant
            0 <= i <= fixture.accounts.len(),
            entries.len() == i,
            forall|j: int| 0 <= j < i ==> (#[trigger] entries[j])@ == entry_of(fixture.accounts[j]),
        decreases fixture.accounts.len() - i,
    {
        entries.push(read_account(&fixture.accounts[i]));
        i = i + 1;
    }
    let mut programs: Vec<Result<Key, String>> = Vec::new();
    let mut i: usize = 0;
    while i < fixture.programs.len()
        invariant
            0 <= i <= fixture.programs.len(),
            programs.len() == i,
            forall|j: int|
                0 <= j < i ==> text::outcome(#[trigger] programs[j]) == key::parsed_pubkey(
                    fixture.programs[j].pubkey@,
                ),
        decreases fixture.programs.len() - i,
    {
        programs.push(parse_pubkey(fixture.programs[i].pubkey.as_str()));
        i = i + 1;
    }
    let mut natives: Vec<Result<Key, String>> = Vec::new();
    let mut i: usize = 0;
    while i < fixture.native_programs.len()
        invariant
            0 <= i <= fixture.native_programs.len(),
            natives.len() == i,
            forall|j: int|
                0 <= j < i ==> text::outcome(#[trigger] natives[j]) == key::parsed_pubkey(
                    fixture.native_programs[j]@,
                ),
        decreases fixture.native_programs.len() - i,
    {
        natives.push(parse_pubkey(fixture.native_programs[i].as_str()));
        i = i + 1;
    }
    proof {
        assert(entry_views(entries@) =~= fixture_entries(*fixture));
        assert(key_views(programs@) =~= fixture_programs(*fixture));
        assert(key_views(natives@) =~= fixture_natives(*fixture));
    }
    collect_accounts(&entries, &programs, &natives, loader_key)
}

/// Further addresses leave a table without an error exactly when they have
/// none.
proof fn lemma_keys_succeed(
    start: Accounts,
    keys: Seq<Result<Seq<u8>, Seq<char>>>,
    account: spec_fn(Seq<u8>) -> AccountView,
)
    ensures
        with_keys(start, keys, account) is Ok <==> start is Ok && forall|i: int|
            0 <= i < keys.len() ==> #[trigger] keys[i] is Ok,
    decreases keys.len(),
{
    if keys.len() > 0 {
        let rest = keys.drop_last();
        lemma_keys_succeed(start, rest, account);
        assert(forall|i: int| 0 <= i < rest.len() ==> rest[i] == keys[i]);
        assert(keys[keys.len() - 1] == keys.last());
    }
}

/// What a list without its last element contains.
proof fn lemma_contains_last<A>(list: Seq<A>, a: A)
    requires
        list.len() > 0,
    ensures
        list.contains(a) <==> list.drop_last().contains(a) || list.last() == a,
{
    let rest = list.drop_last();
    if rest.contains(a) {
        let i = choose|i: int| 0 <= i < rest.len() && rest[i] == a;
        assert(list[i] == a);
    }
    if list.contains(a) && list.last() != a {
        let i = choose|i: int| 0 <= i < list.len() && list[i] == a;
        assert(rest[i] == a);
    }
}

/// What further addresses do to the account of one address.
proof fn lemma_key_account(
    start: Accounts,
    keys: Seq<Result<Seq<u8>, Seq<char>>>,
    account: spec_fn(Seq<u8>) -> AccountView,
    key: Seq<u8>,
)
    requires
        with_keys(start, keys, account) is Ok,
    ensures
        start is Ok,
        ({
            let before = start->Ok_0;
            let after = with_keys(start, keys, account)->Ok_0;
            if keys.contains(Ok(key)) {
                after.contains_key(key) && after[key] == account(key)
            } else {
                after.contains_key(key) == before.contains_key(key) && after[key] == before[key]
            }
        }),
    decreases keys.len(),
{
    if keys.len() > 0 {
        lemma_key_account(start, keys.drop_last(), account, key);
        lemma_contains_last(keys, Ok(key));
    }
}

/// Entry `i` gives `key` an account.
pub open spec fn is_entry_of(entries: Seq<AccountEntryView>, key: Seq<u8>, i: int) -> bool {
    &&& 0 <= i < entries.len()
    &&& entry_account(entries[i]) matches Ok((found, _)) && found == key
}

/// Entry `i` gives `key` an account and no later entry does.
pub open spec fn is_last_entry_of(entries: Seq<AccountEntryView>, key: Seq<u8>, i: int) -> bool {
    is_entry_of(entries, key, i) && forall|j: int| i < j ==> !is_entry_of(entries, key, j)
}

/// The entries have accounts exactly when each of them has one.
proof fn lemma_entries_succeed(entries: Seq<AccountEntryView>)
    ensures
        entry_accounts(entries) is Ok <==> forall|i: int|
            0 <= i < entries.len() ==> entry_account(#[trigger] entries[i]) is Ok,
    decreases entries.len(),
{
    if entries.len() > 0 {
        let rest = entries.drop_last();
        lemma_entries_succeed(rest);
        assert(forall|i: int| 0 <= i < rest.len() ==> rest[i] == entries[i]);
        assert(entries[entries.len() - 1] == entries.last());
    }
}

/// An address has an account exactly when an entry gives it one, and it is that
/// of the last such entry.
proof fn lemma_entry_of_key(entries: Seq<AccountEntryView>, key: Seq<u8>)
    requires
        entry_accounts(entries) is Ok,
    ensures
        entry_accounts(entries)->Ok_0.contains_key(key) <==> exists|i: int| #[trigger]
            is_entry_of(entries, key, i),
        forall|i: int| #[trigger]
            is_last_entry_of(entries, key, i) ==> entry_accounts(entries)->Ok_0[key]
                == entry_account(entries[i])->Ok_0.1,
    decreases entries.len(),
{
    if entries.len() > 0 {
        let rest = entries.drop_last();
        let last = entries.len() - 1;
        lemma_entry_of_key(rest, key);
        assert forall|i: int| i != last implies is_entry_of(entries, key, i) == #[trigger]
            is_entry_of(rest, key, i) by {
            if 0 <= i < rest.len() {
                assert(rest[i] == entries[i]);
            }
        }
        if exists|i: int| #[trigger] is_entry_of(rest, key, i) {
            let i = choose|i: int| #[trigger] is_entry_of(rest, key, i);
            assert(is_entry_of(entries, key, i));
        }
        if exists|i: int| #[trigger] is_entry_of(entries, key, i) {
            let i = choose|i: int| #[trigger] is_entry_of(entries, key, i);
            assert(i == last || is_entry_of(rest, key, i));
        }
        if entry_account(entries.last())->Ok_0.0 == key {
            assert(is_entry_of(entries, key, last));
        }
        assert forall|i: int| #[trigger] is_last_entry_of(entries, key, i) implies entry_accounts(
            entries,
        )->Ok_0[key] == entry_account(entries[i])->Ok_0.1 by {
            if i != last {
                assert(!is_entry_of(entries, key, last));
                assert(is_entry_of(rest, key, i));
                assert forall|j: int| i < j implies !is_entry_of(rest, key, j) by {
                    assert(!is_entry_of(entries, key, j));
                }
                assert(is_last_entry_of(rest, key, i));
            }
        }
    }
}

/// The accounts of a fixture can be collected exactly when each of its entries
/// has an account and each of its programs and native programs an address.
pub proof fn accounts_succeed_when_all_entries_do(
    entries: Seq<AccountEntryView>,
    programs: Seq<Result<Seq<u8>, Seq<char>>>,
    native_programs: Seq<Result<Seq<u8>, Seq<char>>>,
    loader_key: Seq<u8>,
)
    ensures
        collected_accounts(entries, programs, native_programs, loader_key) is Ok <==> {
            &&& forall|i: int| 0 <= i < entries.len() ==> entry_account(#[trigger] entries[i]) is Ok
            &&& forall|i: int| 0 <= i < programs.len() ==> #[trigger] programs[i] is Ok
            &&& forall|i: int| 0 <= i < native_programs.len() ==> #[trigger] native_programs[i] is Ok
        },
{
    let first = entry_accounts(entries);
    let second = with_keys(first, programs, program_accounts(loader_key));
    lemma_entries_succeed(entries);
    lemma_keys_succeed(first, programs, program_accounts(loader_key));
    lemma_keys_succeed(second, native_programs, native_accounts());
}

/// The addresses with an account are exactly those that the fixture lists.
pub proof fn accounts_hold_the_listed_addresses(
    entries: Seq<AccountEntryView>,
    programs: Seq<Result<Seq<u8>, Seq<char>>>,
    native_programs: Seq<Result<Seq<u8>, Seq<char>>>,
    loader_key: Seq<u8>,
    key: Seq<u8>,
)
    requires
        collected_accounts(entries, programs, native_programs, loader_key) is Ok,
    ensures
        collected_accounts(entries, programs, native_programs, loader_key)->Ok_0.contains_key(key)
            <==> (exists|i: int| is_entry_of(entries, key, i)) || programs.contains(Ok(key))
            || native_programs.contains(Ok(key)),
{
    let first = entry_accounts(entries);
    let second = with_keys(first, programs, program_accounts(loader_key));
    lemma_key_account(second, native_programs, native_accounts(), key);
    lemma_key_account(first, programs, program_accounts(loader_key), key);
    lemma_entry_of_key(entries, key);
}

/// A native program has its own account whatever else the fixture says of the
/// address; next come the loaded programs, and last the entries, of which the
/// last one of an address counts.
pub proof fn accounts_rank_native_then_program_then_entry(
    entries: Seq<AccountEntryView>,
    programs: Seq<Result<Seq<u8>, Seq<char>>>,
    native_programs: Seq<Result<Seq<u8>, Seq<char>>>,
    loader_key: Seq<u8>,
    key: Seq<u8>,
)
    requires
        collected_accounts(entries, programs, native_programs, loader_key) is Ok,
    ensures
        native_programs.contains(Ok(key)) ==> collected_accounts(
            entries,
            programs,
            native_programs,
            loader_key,
        )->Ok_0[key] == native_account(key),
        !native_programs.contains(Ok(key)) && programs.contains(Ok(key)) ==> collected_accounts(
            entries,
            programs,
            native_programs,
            loader_key,
        )->Ok_0[key] == program_account(loader_key),
        !native_programs.contains(Ok(key)) && !programs.contains(Ok(key)) ==> forall|i: int|
            #[trigger] is_last_entry_of(entries, key, i) ==> collected_accounts(
                entries,
                programs,
                native_programs,
                loader_key,
            )->Ok_0[key] == entry_account(entries[i])->Ok_0.1,
{
    let first = entry_accounts(entries);
    let second = with_keys(first, programs, program_accounts(loader_key));
    lemma_key_account(second, native_programs, native_accounts(), key);
    lemma_key_account(first, programs, program_accounts(loader_key), key);
    lemma_entry_of_key(entries, key);
}

/// A text reads as an address.
pub open spec fn reads_as(text: Seq<char>, key: Seq<u8>) -> bool {
    key::parsed_pubkey(text) matches Ok(read) && read == key
}

/// The texts of an account can all be read: its address, and unless its data
/// is made up by the runtime an owner that is there, and its data if any.
pub open spec fn is_readable(account: FixtureAccount) -> bool {
    &&& key::parsed_pubkey(account.pubkey@) is Ok
    &&& account.virtual_kind is None ==> {
        &&& account.owner matches Some(owner) && key::parsed_pubkey(owner@) is Ok
        &&& account.data matches Some(data) ==> encoding::decoded_base64(data@) is Ok
    }
}

/// An account has the state that a fixture records: each amount as it is
/// written down, or zero where it is not, the owner that its text names, the
/// bytes that its data writes, or none.
pub open spec fn is_recorded_state(recorded: FixtureAccount, state: AccountView) -> bool {
    &&& recorded.owner matches Some(owner) && reads_as(owner@, state.owner)
    &&& match recorded.lamports {
        Some(lamports) => state.lamports == lamports,
        None => state.lamports == 0,
    }
    &&& match recorded.rent_epoch {
        Some(rent_epoch) => state.rent_epoch == rent_epoch,
        None => state.rent_epoch == 0,
    }
    &&& match recorded.data {
        Some(data) => encoding::decoded_base64(data@) matches Ok(bytes) && bytes == state.data,
        None => state.data.len() == 0,
    }
    &&& !state.executable
}

/// What one account of a fixture comes to.
proof fn lemma_recorded_account(account: FixtureAccount)
    ensures
        ({
            let made = entry_account(entry_of(account));
            &&& made is Ok <==> is_readable(account)
            &&& made matches Ok((key, state)) ==> {
                &&& reads_as(account.pubkey@, key)
                &&& account.virtual_kind is None ==> is_recorded_state(account, state)
                &&& account.virtual_kind is Some ==> {
                    &&& state.lamports == 1
                    &&& state.data.len() == 0
                    &&& state.owner == ids::sysvar_owner_bytes()
                    &&& !state.executable
                    &&& state.rent_epoch == 0
                }
            }
        }),
{
}

/// The addresses that the texts of a list read as.
proof fn lemma_listed(keys: Seq<Result<Seq<u8>, Seq<char>>>, key: Seq<u8>)
    ensures
        keys.contains(Ok(key)) <==> exists|i: int|
            0 <= i < keys.len() && (#[trigger] keys[i] matches Ok(read) && read == key),
{
    if exists|i: int| 0 <= i < keys.len() && (#[trigger] keys[i] matches Ok(read) && read == key) {
        let i = choose|i: int|
            0 <= i < keys.len() && (#[trigger] keys[i] matches Ok(read) && read == key);
        assert(keys[i] == Result::<Seq<u8>, Seq<char>>::Ok(key));
    }
}

/// A program of the fixture has this address.
pub open spec fn lists_program(fixture: Fixture, key: Seq<u8>) -> bool {
    exists|i: int|
        0 <= i < fixture.programs.len() && reads_as((#[trigger] fixture.programs[i]).pubkey@, key)
}

/// A native program of the fixture has this address.
pub open spec fn lists_native(fixture: Fixture, key: Seq<u8>) -> bool {
    exists|i: int|
        0 <= i < fixture.native_programs.len() && reads_as(
            (#[trigger] fixture.native_programs[i])@,
            key,
        )
}

/// An account of the fixture has this address.
pub open spec fn lists_account(fixture: Fixture, key: Seq<u8>) -> bool {
    exists|i: int|
        0 <= i < fixture.accounts.len() && reads_as((#[trigger] fixture.accounts[i]).pubkey@, key)
}

/// The addresses of the programs of a fixture are those of its list.
proof fn lemma_listed_programs(fixture: Fixture, key: Seq<u8>)
    ensures
        fixture_programs(fixture).contains(Ok(key)) <==> lists_program(fixture, key),
        fixture_natives(fixture).contains(Ok(key)) <==> lists_native(fixture, key),
{
    let programs = fixture_programs(fixture);
    let natives = fixture_natives(fixture);
    lemma_listed(programs, key);
    lemma_listed(natives, key);
    if lists_program(fixture, key) {
        let i = choose|i: int|
            0 <= i < fixture.programs.len() && reads_as(
                (#[trigger] fixture.programs[i]).pubkey@,
                key,
            );
        assert(programs[i] == key::parsed_pubkey(fixture.programs[i].pubkey@));
    }
    if exists|i: int| 0 <= i < programs.len() && (#[trigger] programs[i] matches Ok(r) && r == key) {
        let i = choose|i: int|
            0 <= i < programs.len() && (#[trigger] programs[i] matches Ok(r) && r == key);
        assert(reads_as(fixture.programs[i].pubkey@, key));
    }
    if lists_native(fixture, key) {
        let i = choose|i: int|
            0 <= i < fixture.native_programs.len() && reads_as(
                (#[trigger] fixture.native_programs[i])@,
                key,
            );
        assert(natives[i] == key::parsed_pubkey(fixture.native_programs[i]@));
    }
    if exists|i: int| 0 <= i < natives.len() && (#[trigger] natives[i] matches Ok(r) && r == key) {
        let i = choose|i: int|
            0 <= i < natives.len() && (#[trigger] natives[i] matches Ok(r) && r == key);
        assert(reads_as(fixture.native_programs[i]@, key));
    }
}

/// The accounts of a fixture can be built exactly when all texts of its
/// accounts and the addresses of its programs can be read.
pub proof fn accounts_are_built_when_all_texts_are_readable(fixture: Fixture, loader_key: Seq<u8>)
    ensures
        fixture_accounts(fixture, loader_key) is Ok <==> {
            &&& forall|i: int|
                0 <= i < fixture.accounts.len() ==> is_readable(#[trigger] fixture.accounts[i])
            &&& forall|i: int|
                0 <= i < fixture.programs.len() ==> key::parsed_pubkey(
                    (#[trigger] fixture.programs[i]).pubkey@,
                ) is Ok
            &&& forall|i: int|
                0 <= i < fixture.native_programs.len() ==> key::parsed_pubkey(
                    (#[trigger] fixture.native_programs[i])@,
                ) is Ok
        },
{
    let entries = fixture_entries(fixture);
    let programs = fixture_programs(fixture);
    let natives = fixture_natives(fixture);
    accounts_succeed_when_all_entries_do(entries, programs, natives, loader_key);
    assert forall|i: int| 0 <= i < entries.len() implies entry_account(#[trigger] entries[i]) is Ok
        == is_readable(fixture.accounts[i]) by {
        lemma_recorded_account(fixture.accounts[i]);
    }
    if fixture_accounts(fixture, loader_key) is Ok {
        assert forall|i: int| 0 <= i < fixture.accounts.len() implies is_readable(
            #[trigger] fixture.accounts[i],
        ) by {
            assert(entry_account(entries[i]) is Ok);
        }
        assert forall|i: int| 0 <= i < fixture.programs.len() implies key::parsed_pubkey(
            (#[trigger] fixture.programs[i]).pubkey@,
        ) is Ok by {
            assert(programs[i] is Ok);
        }
        assert forall|i: int| 0 <= i < fixture.native_programs.len() implies key::parsed_pubkey(
            (#[trigger] fixture.native_programs[i])@,
        ) is Ok by {
            assert(natives[i] is Ok);
        }
    }
    if (forall|i: int|
        0 <= i < fixture.accounts.len() ==> is_readable(#[trigger] fixture.accounts[i])) && (
    forall|i: int|
        0 <= i < fixture.programs.len() ==> key::parsed_pubkey(
            (#[trigger] fixture.programs[i]).pubkey@,
        ) is Ok) && (forall|i: int|
        0 <= i < fixture.native_programs.len() ==> key::parsed_pubkey(
            (#[trigger] fixture.native_programs[i])@,
        ) is Ok) {
        assert forall|i: int| 0 <= i < entries.len() implies entry_account(#[trigger] entries[i])
            is Ok by {
            assert(is_readable(fixture.accounts[i]));
        }
        assert forall|i: int| 0 <= i < programs.len() implies #[trigger] programs[i] is Ok by {
            assert(key::parsed_pubkey(fixture.programs[i].pubkey@) is Ok);
        }
        assert forall|i: int| 0 <= i < natives.len() implies #[trigger] natives[i] is Ok by {
            assert(key::parsed_pubkey(fixture.native_programs[i]@) is Ok);
        }
    }
}

/// Every entry of a fixture whose accounts were built gives an account to the
/// address that its text reads as.
proof fn lemma_entry_addresses(fixture: Fixture, loader_key: Seq<u8>, key: Seq<u8>)
    requires
        fixture_accounts(fixture, loader_key) is Ok,
    ensures
        forall|i: int|
            0 <= i < fixture.accounts.len() ==> #[trigger] is_entry_of(
                fixture_entries(fixture),
                key,
                i,
            ) == reads_as(fixture.accounts[i].pubkey@, key),
{
    let entries = fixture_entries(fixture);
    accounts_are_built_when_all_texts_are_readable(fixture, loader_key);
    assert forall|i: int| 0 <= i < fixture.accounts.len() implies #[trigger] is_entry_of(
        entries,
        key,
        i,
    ) == reads_as(fixture.accounts[i].pubkey@, key) by {
        assert(is_readable(fixture.accounts[i]));
        lemma_recorded_account(fixture.accounts[i]);
        assert(entries[i] == entry_of(fixture.accounts[i]));
    }
}

/// An address has an account exactly when the fixture lists it, among its
/// accounts, its programs or its native programs.
pub proof fn accounts_are_those_of_the_fixture(
    fixture: Fixture,
    loader_key: Seq<u8>,
    key: Seq<u8>,
)
    requires
        fixture_accounts(fixture, loader_key) is Ok,
    ensures
        fixture_accounts(fixture, loader_key)->Ok_0.contains_key(key) <==> lists_account(
            fixture,
            key,
        ) || lists_program(fixture, key) || lists_native(fixture, key),
{
    let entries = fixture_entries(fixture);
    accounts_hold_the_listed_addresses(
        entries,
        fixture_programs(fixture),
        fixture_natives(fixture),
        loader_key,
        key,
    );
    lemma_listed_programs(fixture, key);
    lemma_entry_addresses(fixture, loader_key, key);
    if exists|i: int| #[trigger] is_entry_of(entries, key, i) {
        let i = choose|i: int| #[trigger] is_entry_of(entries, key, i);
        assert(reads_as(fixture.accounts[i].pubkey@, key));
    }
    if lists_account(fixture, key) {
        let i = choose|i: int|
            0 <= i < fixture.accounts.len() && reads_as(
                (#[trigger] fixture.accounts[i]).pubkey@,
                key,
            );
        assert(is_entry_of(entries, key, i));
    }
}

/// An address that is no program starts from the state that the last account
/// of that address records: its lamports, its data, its owner and its rent
/// epoch. One whose data the runtime makes up starts as a placeholder: one
/// lamport, no data, owned by the owner of the sysvars.
pub proof fn accounts_start_from_the_recorded_state(
    fixture: Fixture,
    loader_key: Seq<u8>,
    key: Seq<u8>,
    i: int,
)
    requires
        fixture_accounts(fixture, loader_key) is Ok,
        0 <= i < fixture.accounts.len(),
        reads_as(fixture.accounts[i].pubkey@, key),
        forall|j: int|
            i < j < fixture.accounts.len() ==> !reads_as(
                (#[trigger] fixture.accounts[j]).pubkey@,
                key,
            ),
        !lists_program(fixture, key),
        !lists_native(fixture, key),
    ensures
        ({
            let table = fixture_accounts(fixture, loader_key)->Ok_0;
            let recorded = fixture.accounts[i];
            let state = table[key];
            &&& table.contains_key(key)
            &&& recorded.virtual_kind is None ==> is_recorded_state(recorded, state)
            &&& recorded.virtual_kind is Some ==> {
                &&& state.lamports == 1
                &&& state.data.len() == 0
                &&& state.owner == ids::sysvar_owner_bytes()
                &&& !state.executable
                &&& state.rent_epoch == 0
            }
        }),
{
    let entries = fixture_entries(fixture);
    accounts_are_those_of_the_fixture(fixture, loader_key, key);
    lemma_listed_programs(fixture, key);
    lemma_entry_addresses(fixture, loader_key, key);
    assert(is_entry_of(entries, key, i));
    assert forall|j: int| i < j implies !is_entry_of(entries, key, j) by {
        if j < fixture.accounts.len() {
            assert(!reads_as(fixture.accounts[j].pubkey@, key));
        }
    }
    assert(is_last_entry_of(entries, key, i));
    accounts_rank_native_then_program_then_entry(
        entries,
        fixture_programs(fixture),
        fixture_natives(fixture),
        loader_key,
        key,
    );
    lemma_recorded_account(fixture.accounts[i]);
}

/// A program of the fixture that is no native one starts as one lamport with no
/// data, executable and owned by the loader, whatever its accounts say of the
/// address.
pub proof fn programs_start_owned_by_the_loader(
    fixture: Fixture,
    loader_key: Seq<u8>,
    key: Seq<u8>,
)
    requires
        fixture_accounts(fixture, loader_key) is Ok,
        lists_program(fixture, key),
        !lists_native(fixture, key),
    ensures
        ({
            let table = fixture_accounts(fixture, loader_key)->Ok_0;
            &&& table.contains_key(key)
            &&& table[key].lamports == 1
            &&& table[key].data.len() == 0
            &&& table[key].owner == loader_key
            &&& table[key].executable
            &&& table[key].rent_epoch == u64::MAX
        }),
{
    accounts_are_those_of_the_fixture(fixture, loader_key, key);
    lemma_listed_programs(fixture, key);
    accounts_rank_native_then_program_then_entry(
        fixture_entries(fixture),
        fixture_programs(fixture),
        fixture_natives(fixture),
        loader_key,
        key,
    );
}

/// A native program starts as the builtin of its address, or else as one
/// lamport with no data, executable and owned by the native loader, whatever
/// else the fixture says of the address.
pub proof fn native_programs_start_as_builtins(
    fixture: Fixture,
    loader_key: Seq<u8>,
    key: Seq<u8>,
)
    requires
        fixture_accounts(fixture, loader_key) is Ok,
        lists_native(fixture, key),
    ensures
        ({
            let table = fixture_accounts(fixture, loader_key)->Ok_0;
            &&& table.contains_key(key)
            &&& match builtin::builtin_account(key) {
                Some(account) => table[key] == account,
                None => {
                    &&& table[key].lamports == 1
                    &&& table[key].data.len() == 0
                    &&& table[key].owner == ids::native_loader_bytes()
                    &&& table[key].executable
                    &&& table[key].rent_epoch == u64::MAX
                },
            }
        }),
{
    accounts_are_those_of_the_fixture(fixture, loader_key, key);
    lemma_listed_programs(fixture, key);
    accounts_rank_native_then_program_then_entry(
        fixture_entries(fixture),
        fixture_programs(fixture),
        fixture_natives(fixture),
        loader_key,
        key,
    );
}

/// The first account with an unreadable text decides the error: that of its
/// address, or else that it has no owner, or of its owner's address, or of its
/// data, with the account's address.
pub proof fn the_first_unreadable_account_is_told(
    fixture: Fixture,
    loader_key: Seq<u8>,
    i: int,
)
    requires
        0 <= i < fixture.accounts.len(),
        forall|j: int| 0 <= j < i ==> is_readable(#[trigger] fixture.accounts[j]),
        !is_readable(fixture.accounts[i]),
    ensures
        ({
            let account = fixture.accounts[i];
            let built = fixture_accounts(fixture, loader_key);
            match key::parsed_pubkey(account.pubkey@) {
                Err(error) => built == Accounts::Err(error),
                Ok(key) => match account.owner {
                    None => built == Accounts::Err("account without owner"@),
                    Some(owner) => match key::parsed_pubkey(owner@) {
                        Err(error) => built == Accounts::Err(error),
                        Ok(_) => match account.data {
                            None => false,
                            Some(data) => match encoding::decoded_base64(data@) {
                                Ok(_) => false,
                                Err(error) => built == Accounts::Err(
                                    "invalid account data for "@ + key::pubkey_text(key) + ": "@
                                        + error,
                                ),
                            },
                        },
                    },
                },
            }
        }),
{
    let entries = fixture_entries(fixture);
    let programs = fixture_programs(fixture);
    lemma_entries_succeed(entries.take(i));
    assert forall|j: int| 0 <= j < i implies entry_account(#[trigger] entries.take(i)[j]) is Ok by {
        assert(is_readable(fixture.accounts[j]));
        lemma_recorded_account(fixture.accounts[j]);
    }
    lemma_recorded_account(fixture.accounts[i]);
    assert(entries.take(i + 1).drop_last() =~= entries.take(i));
    assert(entries.take(i + 1).last() == entry_of(fixture.accounts[i]));
    lemma_entry_error(entries, i + 1);
    lemma_start_error(entry_accounts(entries), programs, program_accounts(loader_key));
    lemma_start_error(
        with_keys(entry_accounts(entries), programs, program_accounts(loader_key)),
        fixture_natives(fixture),
        native_accounts(),
    );
}

/// Where all accounts can be read, the first program with an unreadable address
/// decides the error, and where these can be read too the first native one.
pub proof fn the_first_unreadable_program_is_told(
    fixture: Fixture,
    loader_key: Seq<u8>,
    i: int,
)
    requires
        forall|j: int|
            0 <= j < fixture.accounts.len() ==> is_readable(#[trigger] fixture.accounts[j]),
    ensures
        0 <= i < fixture.programs.len() && (forall|j: int|
            0 <= j < i ==> key::parsed_pubkey((#[trigger] fixture.programs[j]).pubkey@) is Ok) ==> (
        key::parsed_pubkey(fixture.programs[i].pubkey@) matches Err(error) ==> fixture_accounts(
            fixture,
            loader_key,
        ) == Accounts::Err(error)),
        0 <= i < fixture.native_programs.len() && (forall|j: int|
            0 <= j < fixture.programs.len() ==> key::parsed_pubkey(
                (#[trigger] fixture.programs[j]).pubkey@,
            ) is Ok) && (forall|j: int|
            0 <= j < i ==> key::parsed_pubkey((#[trigger] fixture.native_programs[j])@) is Ok) ==> (
        key::parsed_pubkey(fixture.native_programs[i]@) matches Err(error) ==> fixture_accounts(
            fixture,
            loader_key,
        ) == Accounts::Err(error)),
{
    let entries = fixture_entries(fixture);
    let programs = fixture_programs(fixture);
    let natives = fixture_natives(fixture);
    let first = entry_accounts(entries);
    let second = with_keys(first, programs, program_accounts(loader_key));
    lemma_entries_succeed(entries);
    assert forall|j: int| 0 <= j < entries.len() implies entry_account(#[trigger] entries[j])
        is Ok by {
        assert(is_readable(fixture.accounts[j]));
        lemma_recorded_account(fixture.accounts[j]);
    }
    if 0 <= i < programs.len() && (forall|j: int|
        0 <= j < i ==> key::parsed_pubkey((#[trigger] fixture.programs[j]).pubkey@) is Ok)
        && key::parsed_pubkey(fixture.programs[i].pubkey@) is Err {
        lemma_keys_succeed(first, programs.take(i), program_accounts(loader_key));
        assert forall|j: int| 0 <= j < i implies #[trigger] programs.take(i)[j] is Ok by {
            assert(key::parsed_pubkey(fixture.programs[j].pubkey@) is Ok);
        }
        assert(programs.take(i + 1).drop_last() =~= programs.take(i));
        assert(programs.take(i + 1).last() == programs[i]);
        lemma_key_error(first, programs, program_accounts(loader_key), i + 1);
        lemma_start_error(second, natives, native_accounts());
    }
    if 0 <= i < natives.len() && (forall|j: int|
        0 <= j < fixture.programs.len() ==> key::parsed_pubkey(
            (#[trigger] fixture.programs[j]).pubkey@,
        ) is Ok) && (forall|j: int|
        0 <= j < i ==> key::parsed_pubkey((#[trigger] fixture.native_programs[j])@) is Ok)
        && key::parsed_pubkey(fixture.native_programs[i]@) is Err {
        lemma_keys_succeed(first, programs, program_accounts(loader_key));
        assert forall|j: int| 0 <= j < programs.len() implies #[trigger] programs[j] is Ok by {
            assert(key::parsed_pubkey(fixture.programs[j].pubkey@) is Ok);
        }
        lemma_keys_succeed(second, natives.take(i), native_accounts());
        assert forall|j: int| 0 <= j < i implies #[trigger] natives.take(i)[j] is Ok by {
            assert(key::parsed_pubkey(fixture.native_programs[j]@) is Ok);
        }
        assert(natives.take(i + 1).drop_last() =~= natives.take(i));
        assert(natives.take(i + 1).last() == natives[i]);
        lemma_key_error(second, natives, native_accounts(), i + 1);
    }
}

/// The view of an entry holds each of its fields.
pub proof fn entry_views_hold_every_field(entry: AccountEntry)
    ensures
        match entry.key {
            Ok(key) => entry@.key == Result::<Seq<u8>, Seq<char>>::Ok(key@),
            Err(error) => entry@.key == Result::<Seq<u8>, Seq<char>>::Err(error@),
        },
        entry@.made_up == entry.made_up,
        match entry.owner {
            None => entry@.owner is None,
            Some(Ok(owner)) => entry@.owner == Some(Result::<Seq<u8>, Seq<char>>::Ok(owner@)),
            Some(Err(error)) => entry@.owner == Some(Result::<Seq<u8>, Seq<char>>::Err(error@)),
        },
        match entry.data {
            Ok(data) => entry@.data == Result::<Seq<u8>, Seq<char>>::Ok(data@),
            Err(error) => entry@.data == Result::<Seq<u8>, Seq<char>>::Err(error@),
        },
        entry@.lamports == entry.lamports,
        entry@.rent_epoch == entry.rent_epoch,
{
}

/// Entries and addresses come one for one in the view.
pub proof fn entry_lists_keep_their_places(
    entries: Seq<AccountEntry>,
    keys: Seq<Result<Key, String>>,
)
    ensures
        entry_views(entries).len() == entries.len(),
        forall|i: int| 0 <= i < entries.len() ==> #[trigger] entry_views(entries)[i] == entries[i]@,
        key_views(keys).len() == keys.len(),
        forall|i: int|
            0 <= i < keys.len() ==> match keys[i] {
                Ok(key) => #[trigger] key_views(keys)[i] == Result::<Seq<u8>, Seq<char>>::Ok(key@),
                Err(error) => key_views(keys)[i] == Result::<Seq<u8>, Seq<char>>::Err(error@),
            },
{
}

/// An entry gives its own address an account with its own owner, data and
/// amounts, an amount that is not given counting as zero; where the account is
/// made up, a placeholder. Its first error is told.
pub proof fn entries_become_accounts(entry: AccountEntryView)
    ensures
        entry.key matches Err(error) ==> entry_account(entry) == Result::<
            (Seq<u8>, AccountView),
            Seq<char>,
        >::Err(error),
        entry.key is Ok && !entry.made_up && entry.owner is None ==> entry_account(entry)
            == Result::<(Seq<u8>, AccountView), Seq<char>>::Err("account without owner"@),
        entry.key is Ok && !entry.made_up ==> (entry.owner matches Some(Err(error))
            ==> entry_account(entry) == Result::<(Seq<u8>, AccountView), Seq<char>>::Err(error)),
        entry.key is Ok && !entry.made_up && (entry.owner matches Some(Ok(_))) ==> (
        entry.data matches Err(error) ==> entry_account(entry) == Result::<
            (Seq<u8>, AccountView),
            Seq<char>,
        >::Err(error)),
        entry_account(entry) is Ok <==> entry.key is Ok && (entry.made_up || (
        entry.owner matches Some(Ok(_))) && entry.data is Ok),
        entry_account(entry) matches Ok((key, account)) ==> {
            &&& key == entry.key->Ok_0
            &&& !account.executable
            &&& entry.made_up ==> {
                &&& account.lamports == 1
                &&& account.data.len() == 0
                &&& account.owner == ids::sysvar_owner_bytes()
                &&& account.rent_epoch == 0
            }
            &&& !entry.made_up ==> {
                &&& account.owner == entry.owner->Some_0->Ok_0
                &&& account.data == entry.data->Ok_0
                &&& account.lamports == match entry.lamports {
                    Some(lamports) => lamports,
                    None => 0u64,
                }
                &&& account.rent_epoch == match entry.rent_epoch {
                    Some(rent_epoch) => rent_epoch,
                    None => 0u64,
                }
            }
        },
{
}

/// The account of a native program that is none of the builtin ones, and of a
/// loaded program.
pub proof fn programs_have_bare_accounts(key: Seq<u8>, loader_key: Seq<u8>)
    ensures
        builtin::builtin_account(key) matches Some(account) ==> native_account(key) == account,
        builtin::builtin_account(key) is None ==> native_account(key) == (AccountView {
            lamports: 1,
            data: Seq::empty(),
            owner: ids::native_loader_bytes(),
            executable: true,
            rent_epoch: u64::MAX,
        }),
        program_account(loader_key) == (AccountView {
            lamports: 1,
            data: Seq::empty(),
            owner: loader_key,
            executable: true,
            rent_epoch: u64::MAX,
        }),
{
}

} // verus!

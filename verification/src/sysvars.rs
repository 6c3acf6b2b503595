//! The sysvars that programs read without an account.

use solana_clock::Clock;
use solana_epoch_schedule::EpochSchedule;
use solana_program_runtime::sysvar_cache::SysvarCache;
use solana_rent::Rent;
use vstd::prelude::*;

use crate::account::{copy_bytes, AccountTable, AccountView};
use crate::ids;
use crate::key::Key;

verus! {

/// The rent sysvar with default values: 6960 lamports a byte, a threshold that
/// is no longer used, and fifty percent.
pub open spec fn default_rent_bytes() -> Seq<u8> {
    seq![48u8, 27, 0, 0, 0, 0, 0, 0, 0, 0, 0, 0, 0, 0, 240, 63, 50]
}

/// The clock sysvar with default values: five numbers that are all zero.
pub open spec fn default_clock_bytes() -> Seq<u8> {
    Seq::new(40, |i: int| 0u8)
}

/// The epoch schedule sysvar with default values: 432000 slots an epoch, the
/// leader schedule known one epoch ahead, and a warmup of 14 epochs that ends
/// at slot 524256.
pub open spec fn default_epoch_schedule_bytes() -> Seq<u8> {
    seq![
        128u8, 151, 6, 0, 0, 0, 0, 0,
        128, 151, 6, 0, 0, 0, 0, 0,
        1,
        14, 0, 0, 0, 0, 0, 0, 0,
        224, 255, 7, 0, 0, 0, 0, 0,
    ]
}

/// `bincode::serialize` of `Rent::default()` gives the bytes written out in
/// [`default_rent_bytes`].
#[verifier::external_body]
pub(crate) fn default_rent() -> (res: Vec<u8>)
    ensures
        res@ == default_rent_bytes(),
{
    bincode::serialize(&Rent::default()).unwrap()
}

/// `bincode::serialize` of `Clock::default()` gives the bytes written out in
/// [`default_clock_bytes`].
#[verifier::external_body]
pub(crate) fn default_clock() -> (res: Vec<u8>)
    ensures
        res@ == default_clock_bytes(),
{
    bincode::serialize(&Clock::default()).unwrap()
}

/// `bincode::serialize` of `EpochSchedule::default()` gives the bytes written
/// out in [`default_epoch_schedule_bytes`].
#[verifier::external_body]
pub(crate) fn default_epoch_schedule() -> (res: Vec<u8>)
    ensures
        res@ == default_epoch_schedule_bytes(),
{
    bincode::serialize(&EpochSchedule::default()).unwrap()
}

/// The data of a sysvar: that of its account where there is one with lamports,
/// else the default for the few sysvars that a program can read without an
/// account.
pub open spec fn sysvar_source(accounts: Map<Seq<u8>, AccountView>, key: Seq<u8>) -> Option<
    Seq<u8>,
> {
    if accounts.contains_key(key) && accounts[key].lamports > 0 {
        Some(accounts[key].data)
    } else if key == ids::rent_sysvar_bytes() {
        Some(default_rent_bytes())
    } else if key == ids::clock_sysvar_bytes() {
        Some(default_clock_bytes())
    } else if key == ids::epoch_schedule_sysvar_bytes() {
        Some(default_epoch_schedule_bytes())
    } else {
        None
    }
}

/// Finds the data of a sysvar, see [`sysvar_source`].
pub fn find_sysvar(accounts: &AccountTable, key: &Key) -> (res: Option<Vec<u8>>)
    ensures
        res is Some == sysvar_source(accounts@, key@) is Some,
        res matches Some(data) ==> sysvar_source(accounts@, key@) == Some(data@),
{
    if let Some(account) = accounts.get(key) {
        if account.lamports > 0 {
            return Some(copy_bytes(&account.data));
        }
    }
    if key.same(&ids::rent_sysvar_key()) {
        Some(default_rent())
    } else if key.same(&ids::clock_sysvar_key()) {
        Some(default_clock())
    } else if key.same(&ids::epoch_schedule_sysvar_key()) {
        Some(default_epoch_schedule())
    } else {
        None
    }
}

/// `SysvarCache` of `solana_program_runtime`, as an opaque type.
#[verifier::external_type_specification]
#[verifier::external_body]
pub struct ExSysvarCache(SysvarCache);

/// The data that a cache holds as it is, by the addresses of the sysvars.
pub uninterp spec fn cached_sysvars(cache: SysvarCache) -> Map<Seq<u8>, Seq<u8>>;

/// The sysvars that a cache holds only in decoded form, fees and recent
/// blockhashes: the bytes that write each of them, by their addresses.
pub uninterp spec fn decoded_sysvars(cache: SysvarCache) -> Map<Seq<u8>, Seq<u8>>;

/// The number that the first eight bytes write, the lowest first.
pub open spec fn item_count(data: Seq<u8>) -> nat {
    (data[0] + 0x100 * data[1] + 0x1_0000 * data[2] + 0x100_0000 * data[3] + 0x1_0000_0000 * data[4]
        + 0x100_0000_0000 * data[5] + 0x1_0000_0000_0000 * data[6] + 0x100_0000_0000_0000
        * data[7]) as nat
}

/// How many bytes a list takes: eight for the number of its items, and then
/// `size` for each of them.
pub open spec fn list_size(data: Seq<u8>, size: nat) -> nat {
    8 + item_count(data) * size
}

/// A list with items of `size` bytes, and maybe bytes to spare.
pub open spec fn holds_list(data: Seq<u8>, size: nat) -> bool {
    data.len() >= 8 && list_size(data, size) <= data.len()
}

/// Whether the data of a sysvar that is cached as it is can be decoded. Lists
/// apart, these sysvars have a fixed size, but there may be bytes to spare; a
/// byte that writes a truth value is zero or one. Slot hashes may take no more
/// than four mebibytes.
pub open spec fn is_decodable(key: Seq<u8>, data: Seq<u8>) -> bool {
    if key == ids::rent_sysvar_bytes() {
        data.len() >= 17
    } else if key == ids::clock_sysvar_bytes() {
        data.len() >= 40
    } else if key == ids::epoch_schedule_sysvar_bytes() {
        data.len() >= 33 && data[16] <= 1
    } else if key == ids::epoch_rewards_sysvar_bytes() {
        data.len() >= 81 && data[80] <= 1
    } else if key == ids::last_restart_slot_sysvar_bytes() {
        data.len() >= 8
    } else if key == ids::slot_hashes_sysvar_bytes() {
        holds_list(data, 40) && item_count(data) * 40 <= 4 * 1024 * 1024
    } else if key == ids::stake_history_sysvar_bytes() {
        holds_list(data, 32)
    } else {
        false
    }
}

/// What is cached of a sysvar: the data that was found for it, if it can be
/// decoded.
pub open spec fn cached_data(accounts: Map<Seq<u8>, AccountView>, key: Seq<u8>) -> Option<
    Seq<u8>,
> {
    match sysvar_source(accounts, key) {
        Some(data) => if is_decodable(key, data) {
            Some(data)
        } else {
            None
        },
        None => None,
    }
}

/// What is cached of a sysvar in decoded form: the fee for a signature takes
/// eight bytes, a recent blockhash with its fee forty.
pub open spec fn decoded_data(accounts: Map<Seq<u8>, AccountView>, key: Seq<u8>) -> Option<
    Seq<u8>,
> {
    match sysvar_source(accounts, key) {
        Some(data) => if key == ids::fees_sysvar_bytes() && data.len() >= 8 {
            Some(data.take(8))
        } else if key == ids::recent_blockhashes_sysvar_bytes() && holds_list(data, 40) {
            Some(data.take(list_size(data, 40) as int))
        } else {
            None
        },
        None => None,
    }
}

/// Everything that is cached as it is.
pub open spec fn all_cached(accounts: Map<Seq<u8>, AccountView>) -> Map<Seq<u8>, Seq<u8>> {
    Map::new(
        |key: Seq<u8>| cached_data(accounts, key) is Some,
        |key: Seq<u8>| cached_data(accounts, key)->Some_0,
    )
}

/// Everything that is cached in decoded form.
pub open spec fn all_decoded(accounts: Map<Seq<u8>, AccountView>) -> Map<Seq<u8>, Seq<u8>> {
    Map::new(
        |key: Seq<u8>| decoded_data(accounts, key) is Some,
        |key: Seq<u8>| decoded_data(accounts, key)->Some_0,
    )
}

/// Makes a cache and calls `SysvarCache::fill_missing_entries` on it, which
/// asks [`find_sysvar`] for the data of each of the nine sysvars that it knows
/// and keeps what it can decode: see [`cached_data`] and [`decoded_data`].
#[verifier::external_body]
pub(crate) fn fill_sysvar_cache(accounts: &AccountTable) -> (res: SysvarCache)
    ensures
        cached_sysvars(res) == all_cached(accounts@),
        decoded_sysvars(res) == all_decoded(accounts@),
{
    let mut cache = SysvarCache::default();
    cache.fill_missing_entries(|pubkey, set_sysvar| {
        find_sysvar(accounts, &Key { bytes: pubkey.to_bytes() }).map(|data| set_sysvar(&data));
    });
    cache
}

/// Fills a cache with the sysvars of some accounts, see [`cached_data`] and
/// [`decoded_data`].
pub fn sysvar_cache_from_accounts(accounts: &AccountTable) -> (res: SysvarCache)
    ensures
        cached_sysvars(res) == all_cached(accounts@),
        decoded_sysvars(res) == all_decoded(accounts@),
{
    fill_sysvar_cache(accounts)
}

/// The sysvars that a cache knows.
pub open spec fn is_sysvar(key: Seq<u8>) -> bool {
    ||| key == ids::rent_sysvar_bytes()
    ||| key == ids::clock_sysvar_bytes()
    ||| key == ids::epoch_schedule_sysvar_bytes()
    ||| key == ids::epoch_rewards_sysvar_bytes()
    ||| key == ids::last_restart_slot_sysvar_bytes()
    ||| key == ids::slot_hashes_sysvar_bytes()
    ||| key == ids::stake_history_sysvar_bytes()
    ||| key == ids::fees_sysvar_bytes()
    ||| key == ids::recent_blockhashes_sysvar_bytes()
}

/// An account with no lamports counts as none.
pub open spec fn is_funded(accounts: Map<Seq<u8>, AccountView>, key: Seq<u8>) -> bool {
    accounts.contains_key(key) && accounts[key].lamports > 0
}

/// The accounts that a cache depends on: those of sysvars, with lamports.
pub open spec fn funded_sysvars(accounts: Map<Seq<u8>, AccountView>) -> Map<Seq<u8>, AccountView> {
    accounts.restrict(Set::new(|key: Seq<u8>| is_sysvar(key) && is_funded(accounts, key)))
}

/// The whole cache is the same without the accounts that have no lamports or
/// are no sysvars: they count as absent.
pub proof fn only_funded_sysvars_count(accounts: Map<Seq<u8>, AccountView>)
    ensures
        all_cached(accounts) == all_cached(funded_sysvars(accounts)),
        all_decoded(accounts) == all_decoded(funded_sysvars(accounts)),
{
    let rest = funded_sysvars(accounts);
    assert forall|key: Seq<u8>| is_sysvar(key) implies #[trigger] sysvar_source(accounts, key)
        == sysvar_source(rest, key) by {
        assert(rest.contains_key(key) == is_funded(accounts, key));
    }
    assert forall|key: Seq<u8>| !is_sysvar(key) implies #[trigger] cached_data(accounts, key)
        == cached_data(rest, key) && decoded_data(accounts, key) == decoded_data(rest, key) by {}
    assert(all_cached(accounts) =~= all_cached(rest));
    assert(all_decoded(accounts) =~= all_decoded(rest));
}

/// Rent, clock and epoch schedule are cached with their default values where
/// no account with lamports has them: a program can always read them then.
pub proof fn defaults_are_cached(accounts: Map<Seq<u8>, AccountView>)
    ensures
        !is_funded(accounts, ids::rent_sysvar_bytes()) ==> cached_data(
            accounts,
            ids::rent_sysvar_bytes(),
        ) == Some(default_rent_bytes()),
        !is_funded(accounts, ids::clock_sysvar_bytes()) ==> cached_data(
            accounts,
            ids::clock_sysvar_bytes(),
        ) == Some(default_clock_bytes()),
        !is_funded(accounts, ids::epoch_schedule_sysvar_bytes()) ==> cached_data(
            accounts,
            ids::epoch_schedule_sysvar_bytes(),
        ) == Some(default_epoch_schedule_bytes()),
{
    lemma_default_ids_differ();
}

/// An account with lamports takes precedence: its data is cached as it is
/// where it can be decoded, and else nothing is.
pub proof fn funded_accounts_are_cached_unchanged(
    accounts: Map<Seq<u8>, AccountView>,
    key: Seq<u8>,
)
    requires
        is_funded(accounts, key),
    ensures
        cached_data(accounts, key) == if is_decodable(key, accounts[key].data) {
            Some(accounts[key].data)
        } else {
            None
        },
{
}

/// Nothing but rent, clock and epoch schedule is cached without an account
/// with lamports.
pub proof fn other_sysvars_need_an_account(accounts: Map<Seq<u8>, AccountView>, key: Seq<u8>)
    requires
        !is_funded(accounts, key),
        key != ids::rent_sysvar_bytes(),
        key != ids::clock_sysvar_bytes(),
        key != ids::epoch_schedule_sysvar_bytes(),
    ensures
        cached_data(accounts, key) is None,
        decoded_data(accounts, key) is None,
{
}

/// Rent, which every run needs, is missing only where an account with lamports
/// has fewer bytes for it than it takes.
pub proof fn rent_is_cached_unless_its_account_is_short(accounts: Map<Seq<u8>, AccountView>)
    ensures
        cached_data(accounts, ids::rent_sysvar_bytes()) is None <==> is_funded(
            accounts,
            ids::rent_sysvar_bytes(),
        ) && accounts[ids::rent_sysvar_bytes()].data.len() < 17,
{
}

/// The addresses of the sysvars with defaults are different.
proof fn lemma_default_ids_differ()
    ensures
        ids::clock_sysvar_bytes() != ids::rent_sysvar_bytes(),
        ids::epoch_schedule_sysvar_bytes() != ids::rent_sysvar_bytes(),
        ids::epoch_schedule_sysvar_bytes() != ids::clock_sysvar_bytes(),
{
    assert(ids::rent_sysvar_bytes()[4] == 25);
    assert(ids::clock_sysvar_bytes()[4] == 24);
    assert(ids::clock_sysvar_bytes()[5] == 199);
    assert(ids::epoch_schedule_sysvar_bytes()[4] == 24);
    assert(ids::epoch_schedule_sysvar_bytes()[5] == 220);
}

/// The data of any sysvar is that of its account, unchanged, where there is one
/// with lamports. Without one, rent, clock and epoch schedule have their
/// defaults and nothing else has data.
pub proof fn sysvars_come_from_accounts_or_defaults(
    accounts: Map<Seq<u8>, AccountView>,
    key: Seq<u8>,
)
    ensures
        accounts.contains_key(key) && accounts[key].lamports > 0 ==> sysvar_source(accounts, key)
            == Some(accounts[key].data),
        !(accounts.contains_key(key) && accounts[key].lamports > 0) ==> {
            &&& key == ids::rent_sysvar_bytes() ==> sysvar_source(accounts, key) == Some(
                default_rent_bytes(),
            )
            &&& key == ids::clock_sysvar_bytes() ==> sysvar_source(accounts, key) == Some(
                default_clock_bytes(),
            )
            &&& key == ids::epoch_schedule_sysvar_bytes() ==> sysvar_source(accounts, key) == Some(
                default_epoch_schedule_bytes(),
            )
            &&& key != ids::rent_sysvar_bytes() && key != ids::clock_sysvar_bytes() && key
                != ids::epoch_schedule_sysvar_bytes() ==> sysvar_source(accounts, key) is None
        },
{
    lemma_default_ids_differ();
}

} // verus!

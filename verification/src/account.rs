//! Accounts, and tables of them by address.

use vstd::prelude::*;

use crate::key::Key;

verus! {

/// The state of an account.
#[derive(Debug)]
pub struct Account {
    pub lamports: u64,
    pub data: Vec<u8>,
    pub owner: Key,
    pub executable: bool,
    pub rent_epoch: u64,
}

/// The state of an account, by views.
pub struct AccountView {
    pub lamports: u64,
    pub data: Seq<u8>,
    pub owner: Seq<u8>,
    pub executable: bool,
    pub rent_epoch: u64,
}

impl View for Account {
    type V = AccountView;

    open spec fn view(&self) -> AccountView {
        AccountView {
            lamports: self.lamports,
            data: self.data@,
            owner: self.owner@,
            executable: self.executable,
            rent_epoch: self.rent_epoch,
        }
    }
}

/// The account of an address that nothing is known of: no lamports, no data,
/// owned by the address of all zeros.
pub open spec fn absent_account() -> AccountView {
    AccountView {
        lamports: 0,
        data: Seq::empty(),
        owner: Seq::new(32, |i: int| 0u8),
        executable: false,
        rent_epoch: 0,
    }
}

/// A copy of some bytes.
pub fn copy_bytes(bytes: &Vec<u8>) -> (res: Vec<u8>)
    ensures
        res@ == bytes@,
{
    let res: Vec<u8> = bytes.clone();
    assert(res@ =~= bytes@);
    res
}

impl Account {
    /// See [`absent_account`].
    pub fn absent() -> (res: Account)
        ensures
            res@ == absent_account(),
            res.lamports == 0,
            res.data@.len() == 0,
            forall|i: int| 0 <= i < 32 ==> #[trigger] res.owner.bytes[i] == 0,
            !res.executable,
            res.rent_epoch == 0,
    {
        let res = Account {
            lamports: 0,
            data: Vec::new(),
            owner: Key { bytes: [0u8; 32] },
            executable: false,
            rent_epoch: 0,
        };
        assert(res.owner@ =~= absent_account().owner);
        res
    }

    /// A copy of the account.
    pub fn copied(&self) -> (res: Account)
        ensures
            res@ == self@,
            res.lamports == self.lamports,
            res.data@ == self.data@,
            res.owner == self.owner,
            res.executable == self.executable,
            res.rent_epoch == self.rent_epoch,
    {
        Account {
            lamports: self.lamports,
            data: copy_bytes(&self.data),
            owner: self.owner,
            executable: self.executable,
            rent_epoch: self.rent_epoch,
        }
    }
}

/// Accounts by address. No address occurs twice.
pub struct AccountTable {
    entries: Vec<(Key, Account)>,
}

/// Entry `i` is the one of `key`.
spec fn is_entry(entries: Seq<(Key, Account)>, key: Seq<u8>, i: int) -> bool {
    0 <= i < entries.len() && entries[i].0@ == key
}

/// No two entries have the same address.
spec fn distinct(entries: Seq<(Key, Account)>) -> bool {
    forall|i: int, j: int|
        0 <= i < j < entries.len() ==> #[trigger] entries[i].0@ != #[trigger] entries[j].0@
}

/// The accounts of the entries by their addresses.
spec fn entry_map(entries: Seq<(Key, Account)>) -> Map<Seq<u8>, AccountView> {
    Map::new(
        |key: Seq<u8>| exists|i: int| is_entry(entries, key, i),
        |key: Seq<u8>| entries[choose|i: int| is_entry(entries, key, i)].1@,
    )
}

/// Where the addresses are distinct, the map has what the entry has.
proof fn lemma_entry(entries: Seq<(Key, Account)>, i: int)
    requires
        distinct(entries),
        0 <= i < entries.len(),
    ensures
        entry_map(entries).contains_key(entries[i].0@),
        entry_map(entries)[entries[i].0@] == entries[i].1@,
{
    let key = entries[i].0@;
    assert(is_entry(entries, key, i));
    let j = choose|j: int| is_entry(entries, key, j);
    assert(is_entry(entries, key, j));
    assert(i == j) by {
        if i < j {
            assert(entries[i].0@ != entries[j].0@);
        } else if j < i {
            assert(entries[j].0@ != entries[i].0@);
        }
    }
}

impl View for AccountTable {
    type V = Map<Seq<u8>, AccountView>;

    closed spec fn view(&self) -> Map<Seq<u8>, AccountView> {
        entry_map(self.entries@)
    }
}

impl AccountTable {
    #[verifier::type_invariant]
    spec fn well_formed(self) -> bool {
        distinct(self.entries@)
    }

    /// The table with no account.
    pub fn new() -> (res: AccountTable)
        ensures
            res@ == Map::<Seq<u8>, AccountView>::empty(),
    {
        let res = AccountTable { entries: Vec::new() };
        assert(res@ =~= Map::<Seq<u8>, AccountView>::empty());
        res
    }

    /// Where the entry of an address is.
    fn position(&self, key: &Key) -> (res: Option<usize>)
        ensures
            res matches Some(i) ==> is_entry(self.entries@, key@, i as int),
            res is None ==> forall|i: int| !is_entry(self.entries@, key@, i),
    {
        let mut i: usize = 0;
        while i < self.entries.len()
            invariant
                0 <= i <= self.entries.len(),
                forall|j: int| 0 <= j < i ==> !is_entry(self.entries@, key@, j),
            decreases self.entries.len() - i,
        {
            if self.entries[i].0.same(key) {
                return Some(i);
            }
            i = i + 1;
        }
        None
    }

    /// Gives an address an account, in place of the one that it has, if any.
    pub fn insert(&mut self, key: Key, account: Account)
        ensures
            final(self)@ == old(self)@.insert(key@, account@),
    {
        proof {
            use_type_invariant(&*self);
        }
        let found: Option<usize> = self.position(&key);
        let mut entries: Vec<(Key, Account)> = Vec::new();
        std::mem::swap(&mut entries, &mut self.entries);
        let ghost before = entries@;
        let ghost state = account@;
        match found {
            Some(i) => {
                entries[i] = (key, account);
                proof {
                    let i = i as int;
                    assert(entries@ =~= before.update(i, entries@[i]));
                    assert(distinct(entries@));
                    assert forall|k: Seq<u8>| #![auto]
                        entry_map(entries@).contains_key(k) == entry_map(before).insert(
                            key@,
                            state,
                        ).contains_key(k) by {
                        assert(is_entry(entries@, key@, i));
                        if exists|j: int| is_entry(before, k, j) {
                            let j = choose|j: int| is_entry(before, k, j);
                            assert(is_entry(entries@, k, j));
                        }
                        if exists|j: int| is_entry(entries@, k, j) {
                            let j = choose|j: int| is_entry(entries@, k, j);
                            assert(is_entry(before, k, j));
                        }
                    }
                    assert forall|k: Seq<u8>| #[trigger]
                        entry_map(entries@).contains_key(k) implies entry_map(entries@)[k]
                        == entry_map(before).insert(key@, state)[k] by {
                        let j = choose|j: int| is_entry(entries@, k, j);
                        assert(is_entry(entries@, k, j));
                        lemma_entry(entries@, j);
                        lemma_entry(before, j);
                        if j != i {
                            assert(k != key@);
                        }
                    }
                }
            },
            None => {
                entries.push((key, account));
                proof {
                    assert forall|i: int, j: int| 0 <= i < j < entries@.len() implies #[trigger]
                        entries@[i].0@ != #[trigger] entries@[j].0@ by {
                        assert(!is_entry(before, key@, i));
                    }
                    assert forall|k: Seq<u8>| #![auto]
                        entry_map(entries@).contains_key(k) == entry_map(before).insert(
                            key@,
                            state,
                        ).contains_key(k) by {
                        if exists|j: int| is_entry(before, k, j) {
                            let j = choose|j: int| is_entry(before, k, j);
                            assert(is_entry(entries@, k, j));
                        }
                        assert(is_entry(entries@, key@, before.len() as int));
                        if exists|j: int| is_entry(entries@, k, j) {
                            let j = choose|j: int| is_entry(entries@, k, j);
                            if j < before.len() {
                                assert(is_entry(before, k, j));
                            }
                        }
                    }
                    assert forall|k: Seq<u8>| #[trigger]
                        entry_map(entries@).contains_key(k) implies entry_map(entries@)[k]
                        == entry_map(before).insert(key@, state)[k] by {
                        let j = choose|j: int| is_entry(entries@, k, j);
                        assert(is_entry(entries@, k, j));
                        lemma_entry(entries@, j);
                        if j < before.len() {
                            lemma_entry(before, j);
                            assert(!is_entry(before, key@, j));
                        }
                    }
                }
            },
        }
        proof {
            assert(entry_map(entries@) =~= entry_map(before).insert(key@, state));
        }
        self.entries = entries;
    }

    /// The account of an address.
    pub fn get(&self, key: &Key) -> (res: Option<&Account>)
        ensures
            res is Some == self@.contains_key(key@),
            res matches Some(account) ==> account@ == self@[key@],
    {
        proof {
            use_type_invariant(self);
        }
        match self.position(key) {
            Some(i) => {
                proof {
                    lemma_entry(self.entries@, i as int);
                }
                Some(&self.entries[i].1)
            },
            None => None,
        }
    }
}

/// The view of an account holds each of its fields.
pub proof fn account_views_hold_every_field(account: Account)
    ensures
        account@.lamports == account.lamports,
        account@.data == account.data@,
        account@.owner == account.owner@,
        account@.executable == account.executable,
        account@.rent_epoch == account.rent_epoch,
{
}

/// An account that nothing is known of has nothing: no lamports, no data, an
/// owner of 32 zeros.
pub proof fn absent_accounts_have_nothing()
    ensures
        absent_account().lamports == 0,
        absent_account().data.len() == 0,
        absent_account().owner.len() == 32,
        forall|i: int| 0 <= i < 32 ==> #[trigger] absent_account().owner[i] == 0,
        !absent_account().executable,
        absent_account().rent_epoch == 0,
{
}

} // verus!

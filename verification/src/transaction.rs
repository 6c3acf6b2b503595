//! What one run of a fixture executes: a single message over its accounts.

use solana_instruction::AccountMeta;
use solana_message::Message;
use solana_pubkey::Pubkey;
use vstd::prelude::*;

use crate::account::{self, Account, AccountTable, AccountView};
use crate::instructions::{self, Instruction, InstructionView, MetaView};
use crate::key::{self, pubkey_from_text, Key};
use crate::order;
use crate::text;

verus! {

/// What an instruction mentions: its program, which neither signs nor is
/// written, and then its accounts.
pub open spec fn instruction_mentions(instruction: InstructionView) -> Seq<MetaView> {
    seq![MetaView { key: instruction.program_id, signer: false, writable: false }]
        + instruction.accounts
}

/// What instructions mention, one after the other.
pub open spec fn mentions(instructions: Seq<InstructionView>) -> Seq<MetaView>
    decreases instructions.len(),
{
    if instructions.len() == 0 {
        Seq::empty()
    } else {
        mentions(instructions.drop_last()) + instruction_mentions(instructions.last())
    }
}

/// An address is mentioned.
pub open spec fn is_mentioned(metas: Seq<MetaView>, key: Seq<u8>) -> bool {
    exists|i: int| 0 <= i < metas.len() && (#[trigger] metas[i]).key == key
}

/// An address is mentioned as a signer.
pub open spec fn is_signer(metas: Seq<MetaView>, key: Seq<u8>) -> bool {
    exists|i: int| 0 <= i < metas.len() && (#[trigger] metas[i]).key == key && metas[i].signer
}

/// An address is mentioned as writable.
pub open spec fn is_writable(metas: Seq<MetaView>, key: Seq<u8>) -> bool {
    exists|i: int| 0 <= i < metas.len() && (#[trigger] metas[i]).key == key && metas[i].writable
}

/// The group of an address in a message: signers before the rest, and in each
/// of the two writable before read-only.
pub open spec fn key_group(metas: Seq<MetaView>, key: Seq<u8>) -> int {
    if is_signer(metas, key) {
        if is_writable(metas, key) {
            0
        } else {
            1
        }
    } else {
        if is_writable(metas, key) {
            2
        } else {
            3
        }
    }
}

/// The order of addresses in a message: by group, then by their bytes.
pub open spec fn key_precedes(metas: Seq<MetaView>, a: Seq<u8>, b: Seq<u8>) -> bool {
    ||| key_group(metas, a) < key_group(metas, b)
    ||| key_group(metas, a) == key_group(metas, b) && order::bytes_before(a, b)
}

/// The addresses of a message: each address that is mentioned, in order.
pub open spec fn are_message_keys(metas: Seq<MetaView>, keys: Seq<Seq<u8>>) -> bool {
    &&& forall|key: Seq<u8>| #[trigger] keys.contains(key) <==> is_mentioned(metas, key)
    &&& forall|i: int, j: int|
        0 <= i < j < keys.len() ==> key_precedes(metas, #[trigger] keys[i], #[trigger] keys[j])
}

/// The addresses that sign.
pub open spec fn signer_keys(metas: Seq<MetaView>) -> Set<Seq<u8>> {
    Set::new(|key: Seq<u8>| is_mentioned(metas, key) && is_signer(metas, key))
}

/// The addresses that neither sign nor are written.
pub open spec fn readonly_keys(metas: Seq<MetaView>) -> Set<Seq<u8>> {
    Set::new(
        |key: Seq<u8>|
            is_mentioned(metas, key) && !is_signer(metas, key) && !is_writable(metas, key),
    )
}

/// A message counts its signers and its read-only addresses with one byte
/// each.
pub open spec fn message_fits(metas: Seq<MetaView>) -> bool {
    signer_keys(metas).len() <= 255 && readonly_keys(metas).len() <= 255
}

/// Addresses, by views.
pub open spec fn key_bytes(keys: Seq<Key>) -> Seq<Seq<u8>> {
    keys.map_values(|key: Key| key@)
}

/// The addresses of the message that `Message::new` of `solana_message`
/// compiles from the instructions, without a payer. It panics where the signers
/// or the read-only addresses are too many to count.
#[verifier::external_body]
pub(crate) fn message_account_keys(instructions: &Vec<Instruction>) -> (res: Vec<Key>)
    requires
        message_fits(mentions(instructions::instruction_views(instructions@))),
    ensures
        are_message_keys(
            mentions(instructions::instruction_views(instructions@)),
            key_bytes(res@),
        ),
{
    let list: Vec<solana_instruction::Instruction> = instructions.iter()
        .map(|ix| solana_instruction::Instruction {
            program_id: Pubkey::from(ix.program_id.bytes),
            accounts: ix.accounts.iter()
                .map(|meta| AccountMeta {
                    pubkey: Pubkey::from(meta.key.bytes),
                    is_signer: meta.signer, is_writable: meta.writable,
                }).collect(),
            data: ix.data.clone(),
        }).collect();
    let message = Message::new(&list, None);
    message.account_keys.iter().map(|key| Key { bytes: key.to_bytes() }).collect()
}

/// Of two addresses at most one precedes the other.
proof fn lemma_precedes_one_way(metas: Seq<MetaView>)
    ensures
        order::goes_one_way(|a: Seq<u8>, b: Seq<u8>| key_precedes(metas, a, b)),
{
    let before = |a: Seq<u8>, b: Seq<u8>| key_precedes(metas, a, b);
    assert forall|a: Seq<u8>, b: Seq<u8>| !(#[trigger] before(a, b) && before(b, a)) by {
        order::bytes_come_one_way(a, b);
    }
}

/// No address comes twice in a message.
pub proof fn message_keys_are_distinct(metas: Seq<MetaView>, keys: Seq<Seq<u8>>)
    requires
        are_message_keys(metas, keys),
    ensures
        keys.no_duplicates(),
{
    assert forall|i: int, j: int| 0 <= i < j < keys.len() implies keys[i] != keys[j] by {
        order::bytes_come_one_way(keys[i], keys[j]);
        assert(key_precedes(metas, keys[i], keys[j]));
    }
}

/// What is mentioned fixes the addresses of the message and their order.
pub proof fn message_keys_are_determined(
    metas: Seq<MetaView>,
    keys: Seq<Seq<u8>>,
    others: Seq<Seq<u8>>,
)
    requires
        are_message_keys(metas, keys),
        are_message_keys(metas, others),
    ensures
        keys == others,
{
    let before = |a: Seq<u8>, b: Seq<u8>| key_precedes(metas, a, b);
    lemma_precedes_one_way(metas);
    assert(order::in_turn(keys, before));
    assert(order::in_turn(others, before));
    assert forall|key: Seq<u8>| #[trigger] keys.contains(key) <==> others.contains(key) by {
        assert(keys.contains(key) <==> is_mentioned(metas, key));
    }
    order::order_determines_a_list(keys, others, before);
}

/// How an address is used: whether any mention of it signs or writes.
struct KeyUse {
    key: Key,
    signer: bool,
    writable: bool,
}

/// The uses sum up the mentions: one use for each address.
spec fn sums_up(uses: Seq<KeyUse>, metas: Seq<MetaView>) -> bool {
    &&& forall|i: int, j: int|
        0 <= i < j < uses.len() ==> #[trigger] uses[i].key@ != #[trigger] uses[j].key@
    &&& forall|i: int|
        0 <= i < uses.len() ==> {
            &&& is_mentioned(metas, (#[trigger] uses[i]).key@)
            &&& uses[i].signer == is_signer(metas, uses[i].key@)
            &&& uses[i].writable == is_writable(metas, uses[i].key@)
        }
    &&& forall|key: Seq<u8>| #[trigger]
        is_mentioned(metas, key) ==> exists|i: int|
            0 <= i < uses.len() && (#[trigger] uses[i]).key@ == key
}

/// What one more mention changes.
proof fn lemma_one_more_mention(metas: Seq<MetaView>, meta: MetaView, key: Seq<u8>)
    ensures
        is_mentioned(metas.push(meta), key) == (is_mentioned(metas, key) || meta.key == key),
        is_signer(metas.push(meta), key) == (is_signer(metas, key) || meta.key == key
            && meta.signer),
        is_writable(metas.push(meta), key) == (is_writable(metas, key) || meta.key == key
            && meta.writable),
{
    let more = metas.push(meta);
    assert(forall|i: int| 0 <= i < metas.len() ==> more[i] == metas[i]);
    assert(more[metas.len() as int] == meta);
    if is_mentioned(metas, key) {
        let i = choose|i: int| 0 <= i < metas.len() && (#[trigger] metas[i]).key == key;
        assert(more[i].key == key);
    }
    if is_signer(metas, key) {
        let i = choose|i: int|
            0 <= i < metas.len() && (#[trigger] metas[i]).key == key && metas[i].signer;
        assert(more[i].key == key && more[i].signer);
    }
    if is_writable(metas, key) {
        let i = choose|i: int|
            0 <= i < metas.len() && (#[trigger] metas[i]).key == key && metas[i].writable;
        assert(more[i].key == key && more[i].writable);
    }
}

/// Adds a mention to the uses.
fn add_mention(
    uses: &mut Vec<KeyUse>,
    key: Key,
    signer: bool,
    writable: bool,
    Ghost(metas): Ghost<Seq<MetaView>>,
)
    requires
        sums_up(old(uses)@, metas),
    ensures
        sums_up(final(uses)@, metas.push(MetaView { key: key@, signer, writable })),
{
    let ghost before = uses@;
    let ghost meta = MetaView { key: key@, signer, writable };
    let ghost more = metas.push(meta);
    let mut i: usize = 0;
    while i < uses.len()
        invariant
            0 <= i <= uses.len(),
            uses@ == before,
            sums_up(before, metas),
            meta == (MetaView { key: key@, signer, writable }),
            more == metas.push(meta),
            forall|j: int| 0 <= j < i ==> (#[trigger] before[j]).key@ != key@,
        decreases uses.len() - i,
    {
        if uses[i].key.same(&key) {
            let changed = KeyUse {
                key,
                signer: uses[i].signer || signer,
                writable: uses[i].writable || writable,
            };
            uses[i] = changed;
            proof {
                let n = i as int;
                assert(uses@ =~= before.update(n, changed));
                assert forall|j: int| 0 <= j < uses.len() implies {
                    &&& is_mentioned(more, (#[trigger] uses@[j]).key@)
                    &&& uses@[j].signer == is_signer(more, uses@[j].key@)
                    &&& uses@[j].writable == is_writable(more, uses@[j].key@)
                } by {
                    lemma_one_more_mention(metas, meta, uses@[j].key@);
                    assert(is_mentioned(metas, before[j].key@));
                    if j != n {
                        assert(before[j].key@ != before[n].key@);
                    }
                }
                assert forall|k: Seq<u8>| #[trigger] is_mentioned(more, k) implies exists|j: int|
                    0 <= j < uses.len() && (#[trigger] uses@[j]).key@ == k by {
                    lemma_one_more_mention(metas, meta, k);
                    if is_mentioned(metas, k) {
                        let j = choose|j: int|
                            0 <= j < before.len() && (#[trigger] before[j]).key@ == k;
                        assert(uses@[j].key@ == k);
                    } else {
                        assert(uses@[n].key@ == k);
                    }
                }
                assert forall|a: int, b: int| 0 <= a < b < uses.len() implies #[trigger]
                    uses@[a].key@ != #[trigger] uses@[b].key@ by {
                    assert(before[a].key@ != before[b].key@);
                }
            }
            return;
        }
        i = i + 1;
    }
    uses.push(KeyUse { key, signer, writable });
    proof {
        let n = before.len() as int;
        assert(!is_mentioned(metas, key@)) by {
            if is_mentioned(metas, key@) {
                let j = choose|j: int| 0 <= j < before.len() && (#[trigger] before[j]).key@ == key@;
                assert(before[j].key@ != key@);
            }
        }
        assert(!is_signer(metas, key@) && !is_writable(metas, key@)) by {
            assert(forall|j: int| 0 <= j < metas.len() ==> (#[trigger] metas[j]).key != key@);
        }
        assert forall|j: int| 0 <= j < uses.len() implies {
            &&& is_mentioned(more, (#[trigger] uses@[j]).key@)
            &&& uses@[j].signer == is_signer(more, uses@[j].key@)
            &&& uses@[j].writable == is_writable(more, uses@[j].key@)
        } by {
            lemma_one_more_mention(metas, meta, uses@[j].key@);
            if j < n {
                assert(uses@[j] == before[j]);
                assert(is_mentioned(metas, before[j].key@));
            }
        }
        assert forall|k: Seq<u8>| #[trigger] is_mentioned(more, k) implies exists|j: int|
            0 <= j < uses.len() && (#[trigger] uses@[j]).key@ == k by {
            lemma_one_more_mention(metas, meta, k);
            if is_mentioned(metas, k) {
                let j = choose|j: int| 0 <= j < before.len() && (#[trigger] before[j]).key@ == k;
                assert(uses@[j].key@ == k);
            } else {
                assert(uses@[n].key@ == k);
            }
        }
        assert forall|a: int, b: int| 0 <= a < b < uses.len() implies #[trigger] uses@[a].key@
            != #[trigger] uses@[b].key@ by {
            if b < n {
                assert(before[a].key@ != before[b].key@);
            } else {
                assert(before[a].key@ != key@);
            }
        }
    }
}

/// Sums up what instructions mention.
fn key_uses(instructions: &Vec<Instruction>) -> (res: Vec<KeyUse>)
    ensures
        sums_up(res@, mentions(instructions::instruction_views(instructions@))),
{
    let ghost all = instructions::instruction_views(instructions@);
    let mut uses: Vec<KeyUse> = Vec::new();
    let mut i: usize = 0;
    while i < instructions.len()
        invariant
            0 <= i <= instructions.len(),
            all == instructions::instruction_views(instructions@),
            sums_up(uses@, mentions(all.take(i as int))),
        decreases instructions.len() - i,
    {
        let instruction: &Instruction = &instructions[i];
        let ghost before = mentions(all.take(i as int));
        let ghost program = MetaView {
            key: instruction.program_id@,
            signer: false,
            writable: false,
        };
        let ghost metas = instructions::meta_views(instruction.accounts@);
        add_mention(&mut uses, instruction.program_id, false, false, Ghost(before));
        let mut j: usize = 0;
        proof {
            assert(before.push(program) + metas.take(0) =~= before.push(program));
        }
        while j < instruction.accounts.len()
            invariant
                0 <= j <= instruction.accounts.len(),
                metas == instructions::meta_views(instruction.accounts@),
                sums_up(uses@, before.push(program) + metas.take(j as int)),
            decreases instruction.accounts.len() - j,
        {
            let meta = instruction.accounts[j];
            let ghost so_far = before.push(program) + metas.take(j as int);
            add_mention(&mut uses, meta.key, meta.signer, meta.writable, Ghost(so_far));
            proof {
                assert(metas[j as int] == meta@);
                assert(so_far.push(meta@) =~= before.push(program) + metas.take(j + 1));
            }
            j = j + 1;
        }
        proof {
            assert(metas.take(j as int) =~= metas);
            assert(all.take(i + 1).drop_last() =~= all.take(i as int));
            assert(all.take(i + 1).last() == instruction@);
            assert(mentions(all.take(i + 1)) =~= before.push(program) + metas);
        }
        i = i + 1;
    }
    proof {
        assert(all.take(i as int) =~= all);
    }
    uses
}

/// Whether the instructions can be compiled to a message, see
/// [`message_fits`].
pub fn fits_message(instructions: &Vec<Instruction>) -> (res: bool)
    ensures
        res == message_fits(mentions(instructions::instruction_views(instructions@))),
{
    let uses: Vec<KeyUse> = key_uses(instructions);
    let ghost metas = mentions(instructions::instruction_views(instructions@));
    let ghost mut signers: Seq<Seq<u8>> = Seq::empty();
    let ghost mut readonly: Seq<Seq<u8>> = Seq::empty();
    let mut signer_count: usize = 0;
    let mut readonly_count: usize = 0;
    let mut i: usize = 0;
    while i < uses.len()
        invariant
            0 <= i <= uses.len(),
            sums_up(uses@, metas),
            signer_count == signers.len() <= i,
            readonly_count == readonly.len() <= i,
            signers.no_duplicates(),
            readonly.no_duplicates(),
            forall|key: Seq<u8>| #[trigger]
                signers.contains(key) <==> exists|j: int|
                    0 <= j < i && (#[trigger] uses@[j]).key@ == key && uses@[j].signer,
            forall|key: Seq<u8>| #[trigger]
                readonly.contains(key) <==> exists|j: int|
                    0 <= j < i && (#[trigger] uses@[j]).key@ == key && !uses@[j].signer
                        && !uses@[j].writable,
        decreases uses.len() - i,
    {
        let ghost key = uses@[i as int].key@;
        proof {
            assert forall|j: int| 0 <= j < i implies (#[trigger] uses@[j]).key@ != key by {
                assert(uses@[j].key@ != uses@[i as int].key@);
            }
            assert(!signers.contains(key));
            assert(!readonly.contains(key));
        }
        if uses[i].signer {
            signer_count = signer_count + 1;
            proof {
                let before = signers;
                signers = signers.push(key);
                lemma_push_contains(before, key);
            }
        } else if !uses[i].writable {
            readonly_count = readonly_count + 1;
            proof {
                let before = readonly;
                readonly = readonly.push(key);
                lemma_push_contains(before, key);
            }
        }
        i = i + 1;
    }
    proof {
        signers.unique_seq_to_set();
        readonly.unique_seq_to_set();
        assert(signers.to_set() =~= signer_keys(metas)) by {
            assert forall|key: Seq<u8>| signers.to_set().contains(key) <==> signer_keys(
                metas,
            ).contains(key) by {
                assert(signers.to_set().contains(key) == signers.contains(key));
            }
        }
        assert(readonly.to_set() =~= readonly_keys(metas)) by {
            assert forall|key: Seq<u8>| readonly.to_set().contains(key) <==> readonly_keys(
                metas,
            ).contains(key) by {
                assert(readonly.to_set().contains(key) == readonly.contains(key));
            }
        }
    }
    signer_count <= 255 && readonly_count <= 255
}

/// What a list contains after one more element that it did not contain.
proof fn lemma_push_contains(list: Seq<Seq<u8>>, key: Seq<u8>)
    requires
        list.no_duplicates(),
        !list.contains(key),
    ensures
        list.push(key).no_duplicates(),
        forall|k: Seq<u8>| #[trigger] list.push(key).contains(k) <==> list.contains(k) || k == key,
{
    assert forall|k: Seq<u8>| #[trigger] list.push(key).contains(k) <==> list.contains(k) || k
        == key by {
        assert(list.push(key)[list.len() as int] == key);
        if list.contains(k) {
            let i = choose|i: int| 0 <= i < list.len() && list[i] == k;
            assert(list.push(key)[i] == k);
        }
        if list.push(key).contains(k) && k != key {
            let i = choose|i: int| 0 <= i < list.push(key).len() && list.push(key)[i] == k;
            assert(list[i] == k);
        }
    }
    assert forall|i: int, j: int| 0 <= i < j < list.push(key).len() implies list.push(key)[i]
        != list.push(key)[j] by {
        assert(list.contains(list[i]));
    }
}

/// The account of an address in a run; one that is not there has no state.
pub open spec fn account_or_absent(
    accounts: Map<Seq<u8>, AccountView>,
    key: Seq<u8>,
) -> AccountView {
    if accounts.contains_key(key) {
        accounts[key]
    } else {
        account::absent_account()
    }
}

/// The accounts that a message runs over: one for each of its addresses, in
/// their order.
pub open spec fn message_accounts(
    keys: Seq<Seq<u8>>,
    accounts: Map<Seq<u8>, AccountView>,
) -> Seq<(Seq<u8>, AccountView)> {
    keys.map_values(|key: Seq<u8>| (key, account_or_absent(accounts, key)))
}

/// Accounts with their addresses, by views.
pub open spec fn keyed_views(accounts: Seq<(Key, Account)>) -> Seq<(Seq<u8>, AccountView)> {
    accounts.map_values(|keyed: (Key, Account)| (keyed.0@, keyed.1@))
}

/// Looks up the accounts that a message runs over, see [`message_accounts`].
pub fn transaction_accounts(keys: &Vec<Key>, accounts: &AccountTable) -> (res: Vec<(Key, Account)>)
    ensures
        keyed_views(res@) == message_accounts(key_bytes(keys@), accounts@),
        res.len() == keys.len(),
        forall|i: int|
            0 <= i < keys.len() ==> (#[trigger] res[i]).0@ == keys[i]@ && (accounts@.contains_key(
                keys[i]@,
            ) ==> res[i].1@ == accounts@[keys[i]@]) && (!accounts@.contains_key(keys[i]@) ==> {
                &&& res[i].1.lamports == 0
                &&& res[i].1.data@.len() == 0
                &&& res[i].1.owner@ == Seq::new(32, |k: int| 0u8)
                &&& !res[i].1.executable
                &&& res[i].1.rent_epoch == 0
            }),
{
    let mut res: Vec<(Key, Account)> = Vec::new();
    let mut i: usize = 0;
    while i < keys.len()
        invariant
            0 <= i <= keys.len(),
            res.len() == i,
            forall|j: int|
                0 <= j < i ==> (#[trigger] res[j]).0@ == keys[j]@ && res[j].1@
                    == account_or_absent(accounts@, keys[j]@),
        decreases keys.len() - i,
    {
        let account: Account = match accounts.get(&keys[i]) {
            Some(account) => account.copied(),
            None => Account::absent(),
        };
        res.push((keys[i], account));
        i = i + 1;
    }
    proof {
        assert(keyed_views(res@) =~= message_accounts(key_bytes(keys@), accounts@));
    }
    res
}

/// Every address that the instructions mention has an account in a run: that of
/// the fixture, or the absent one. No other address has one.
pub proof fn mentioned_accounts_are_there(
    metas: Seq<MetaView>,
    keys: Seq<Seq<u8>>,
    accounts: Map<Seq<u8>, AccountView>,
    key: Seq<u8>,
)
    requires
        are_message_keys(metas, keys),
    ensures
        is_mentioned(metas, key) <==> message_accounts(keys, accounts).contains(
            (key, account_or_absent(accounts, key)),
        ),
{
    let list = message_accounts(keys, accounts);
    let wanted = (key, account_or_absent(accounts, key));
    assert(keys.contains(key) <==> is_mentioned(metas, key));
    if keys.contains(key) {
        let i = choose|i: int| 0 <= i < keys.len() && keys[i] == key;
        assert(list[i] == wanted);
    }
    if list.contains(wanted) {
        let i = choose|i: int| 0 <= i < list.len() && list[i] == wanted;
        assert(keys[i] == key);
    }
}

/// Every run of a fixture starts from the same accounts in the same order: they
/// follow from what the instructions mention and from the fixture's accounts.
pub proof fn runs_start_alike(
    metas: Seq<MetaView>,
    keys: Seq<Seq<u8>>,
    others: Seq<Seq<u8>>,
    accounts: Map<Seq<u8>, AccountView>,
)
    requires
        are_message_keys(metas, keys),
        are_message_keys(metas, others),
    ensures
        message_accounts(keys, accounts) == message_accounts(others, accounts),
{
    message_keys_are_determined(metas, keys, others);
}

/// The blockhash of a run: the transaction's own, which programs with a
/// durable nonce compare, or zeros where it has none or it is unreadable.
pub open spec fn run_blockhash(decoded: Option<Result<Seq<u8>, Seq<char>>>) -> Seq<u8> {
    match decoded {
        Some(Ok(bytes)) => bytes,
        _ => Seq::new(32, |i: int| 0u8),
    }
}

/// What reading a blockhash came to, by views.
pub open spec fn optional_outcome(decoded: Option<Result<Key, String>>) -> Option<
    Result<Seq<u8>, Seq<char>>,
> {
    match decoded {
        Some(decoded) => Some(text::outcome(decoded)),
        None => None,
    }
}

/// Chooses the blockhash of a run, see [`run_blockhash`].
pub fn blockhash_or_zeros(decoded: Option<Result<Key, String>>) -> (res: Key)
    ensures
        res@ == run_blockhash(optional_outcome(decoded)),
{
    match decoded {
        Some(Ok(key)) => key,
        _ => {
            let res = Key { bytes: [0u8; 32] };
            assert(res@ =~= Seq::new(32, |i: int| 0u8));
            res
        },
    }
}

/// The blockhash that the text of a fixture stands for.
pub open spec fn blockhash_of(recent_blockhash: Option<String>) -> Seq<u8> {
    run_blockhash(
        match recent_blockhash {
            Some(text) => Some(key::pubkey_of_text(text@)),
            None => None,
        },
    )
}

/// Reads the blockhash of a run, see [`blockhash_of`].
pub fn transaction_blockhash(recent_blockhash: &Option<String>) -> (res: Key)
    ensures
        res@ == blockhash_of(*recent_blockhash),
{
    let decoded: Option<Result<Key, String>> = match recent_blockhash {
        Some(text) => Some(pubkey_from_text(text.as_str())),
        None => None,
    };
    blockhash_or_zeros(decoded)
}

/// The fee for a signature, in lamports, that programs see.
pub const LAMPORTS_PER_SIGNATURE: u64 = 5000;

/// What one run executes, apart from the instructions themselves.
#[derive(Debug)]
pub struct TransactionPlan {
    pub accounts: Vec<(Key, Account)>,
    pub blockhash: Key,
    pub lamports_per_signature: u64,
}

/// The addresses of a plan, in the order of its accounts.
pub open spec fn plan_keys(plan: TransactionPlan) -> Seq<Seq<u8>> {
    plan.accounts@.map_values(|keyed: (Key, Account)| keyed.0@)
}

/// Plans a run of the instructions over the accounts: the accounts are those
/// of the addresses that the message has, in its order.
pub fn plan_transaction(
    instructions: &Vec<Instruction>,
    accounts: &AccountTable,
    recent_blockhash: &Option<String>,
) -> (res: TransactionPlan)
    requires
        message_fits(mentions(instructions::instruction_views(instructions@))),
    ensures
        are_message_keys(
            mentions(instructions::instruction_views(instructions@)),
            plan_keys(res),
        ),
        keyed_views(res.accounts@) == message_accounts(plan_keys(res), accounts@),
        res.blockhash@ == blockhash_of(*recent_blockhash),
        res.lamports_per_signature == LAMPORTS_PER_SIGNATURE,
        res.lamports_per_signature == 5000,
        forall|i: int|
            0 <= i < res.accounts.len() ==> (accounts@.contains_key(
                (#[trigger] res.accounts[i]).0@,
            ) ==> res.accounts[i].1@ == accounts@[res.accounts[i].0@]) && (
            !accounts@.contains_key(res.accounts[i].0@) ==> {
                &&& res.accounts[i].1.lamports == 0
                &&& res.accounts[i].1.data@.len() == 0
                &&& res.accounts[i].1.owner@ == Seq::new(32, |k: int| 0u8)
                &&& !res.accounts[i].1.executable
                &&& res.accounts[i].1.rent_epoch == 0
            }),
        match recent_blockhash {
            Some(text) => match key::pubkey_of_text(text@) {
                Ok(bytes) => res.blockhash@ == bytes,
                Err(_) => res.blockhash@ == Seq::new(32, |i: int| 0u8),
            },
            None => res.blockhash@ == Seq::new(32, |i: int| 0u8),
        },
{
    let keys: Vec<Key> = message_account_keys(instructions);
    let res = TransactionPlan {
        accounts: transaction_accounts(&keys, accounts),
        blockhash: transaction_blockhash(recent_blockhash),
        lamports_per_signature: LAMPORTS_PER_SIGNATURE,
    };
    proof {
        assert(keyed_views(res.accounts@).len() == message_accounts(
            key_bytes(keys@),
            accounts@,
        ).len());
        assert forall|i: int| 0 <= i < plan_keys(res).len() implies plan_keys(res)[i]
            == key_bytes(keys@)[i] by {
            assert(keyed_views(res.accounts@)[i] == message_accounts(
                key_bytes(keys@),
                accounts@,
            )[i]);
        }
        assert(plan_keys(res) =~= key_bytes(keys@));
    }
    res
}

/// The account of an address in a run is the recorded one, with its lamports,
/// its data, its owner, its flag and its rent epoch, wherever one is recorded;
/// an address without one has no lamports, no data, an owner of zeros.
pub proof fn runs_start_from_the_recorded_state(
    keys: Seq<Seq<u8>>,
    accounts: Map<Seq<u8>, AccountView>,
    i: int,
)
    requires
        0 <= i < keys.len(),
    ensures
        message_accounts(keys, accounts).len() == keys.len(),
        message_accounts(keys, accounts)[i].0 == keys[i],
        accounts.contains_key(keys[i]) ==> {
            let state = message_accounts(keys, accounts)[i].1;
            &&& state == accounts[keys[i]]
            &&& state.lamports == accounts[keys[i]].lamports
            &&& state.data == accounts[keys[i]].data
            &&& state.owner == accounts[keys[i]].owner
            &&& state.executable == accounts[keys[i]].executable
            &&& state.rent_epoch == accounts[keys[i]].rent_epoch
        },
        !accounts.contains_key(keys[i]) ==> {
            let state = message_accounts(keys, accounts)[i].1;
            &&& state.lamports == 0
            &&& state.data.len() == 0
            &&& state.owner == Seq::new(32, |k: int| 0u8)
            &&& !state.executable
            &&& state.rent_epoch == 0
        },
{
}

/// Accounts with their addresses keep their places in the view, and so do
/// addresses alone.
pub proof fn keyed_views_hold_every_account(accounts: Seq<(Key, Account)>, keys: Seq<Key>)
    ensures
        keyed_views(accounts).len() == accounts.len(),
        forall|i: int|
            0 <= i < accounts.len() ==> (#[trigger] keyed_views(accounts)[i]).0 == accounts[i].0@
                && keyed_views(accounts)[i].1 == accounts[i].1@,
        key_bytes(keys).len() == keys.len(),
        forall|i: int| 0 <= i < keys.len() ==> #[trigger] key_bytes(keys)[i] == keys[i]@,
{
}

/// A run has the blockhash that the fixture's text writes, and zeros where
/// there is no text or it writes none.
pub proof fn runs_have_the_recorded_blockhash(
    recent_blockhash: Option<String>,
    decoded: Option<Result<Key, String>>,
)
    ensures
        match recent_blockhash {
            Some(text) => match key::pubkey_of_text(text@) {
                Ok(bytes) => blockhash_of(recent_blockhash) == bytes,
                Err(_) => blockhash_of(recent_blockhash) == Seq::new(32, |i: int| 0u8),
            },
            None => blockhash_of(recent_blockhash) == Seq::new(32, |i: int| 0u8),
        },
        match decoded {
            Some(Ok(key)) => run_blockhash(optional_outcome(decoded)) == key@,
            _ => run_blockhash(optional_outcome(decoded)) == Seq::new(32, |i: int| 0u8),
        },
{
}

/// An address is an account of an instruction, as one that satisfies `wanted`.
pub open spec fn has_account(
    instruction: InstructionView,
    key: Seq<u8>,
    wanted: spec_fn(MetaView) -> bool,
) -> bool {
    exists|j: int|
        0 <= j < instruction.accounts.len() && (#[trigger] instruction.accounts[j]).key == key
            && wanted(instruction.accounts[j])
}

/// What is mentioned of an address by instructions and one more.
proof fn lemma_more_mentions(metas: Seq<MetaView>, instruction: InstructionView, key: Seq<u8>)
    ensures
        ({
            let all = metas + instruction_mentions(instruction);
            &&& is_mentioned(all, key) <==> is_mentioned(metas, key) || instruction.program_id
                == key || has_account(instruction, key, |meta: MetaView| true)
            &&& is_signer(all, key) <==> is_signer(metas, key) || has_account(
                instruction,
                key,
                |meta: MetaView| meta.signer,
            )
            &&& is_writable(all, key) <==> is_writable(metas, key) || has_account(
                instruction,
                key,
                |meta: MetaView| meta.writable,
            )
        }),
{
    let more = instruction_mentions(instruction);
    let all = metas + more;
    let n = metas.len() as int;
    assert(all[n].key == instruction.program_id && !all[n].signer && !all[n].writable);
    assert(forall|i: int| 0 <= i < n ==> all[i] == metas[i]);
    assert(forall|j: int|
        0 <= j < instruction.accounts.len() ==> all[n + 1 + j] == #[trigger] instruction.accounts[j]);
    assert forall|i: int| n < i < all.len() implies #[trigger] all[i] == instruction.accounts[i - n
        - 1] by {}
    if is_mentioned(metas, key) {
        let i = choose|i: int| 0 <= i < metas.len() && (#[trigger] metas[i]).key == key;
        assert(all[i].key == key);
    }
    if is_signer(metas, key) {
        let i = choose|i: int|
            0 <= i < metas.len() && (#[trigger] metas[i]).key == key && metas[i].signer;
        assert(all[i].key == key && all[i].signer);
    }
    if is_writable(metas, key) {
        let i = choose|i: int|
            0 <= i < metas.len() && (#[trigger] metas[i]).key == key && metas[i].writable;
        assert(all[i].key == key && all[i].writable);
    }
    if is_mentioned(all, key) {
        let i = choose|i: int| 0 <= i < all.len() && (#[trigger] all[i]).key == key;
        if i < n {
            assert(metas[i].key == key);
        } else if i > n {
            assert(instruction.accounts[i - n - 1].key == key);
        }
    }
    if is_signer(all, key) {
        let i = choose|i: int|
            0 <= i < all.len() && (#[trigger] all[i]).key == key && all[i].signer;
        if i < n {
            assert(metas[i].key == key && metas[i].signer);
        } else if i > n {
            assert(instruction.accounts[i - n - 1].key == key);
        }
    }
    if is_writable(all, key) {
        let i = choose|i: int|
            0 <= i < all.len() && (#[trigger] all[i]).key == key && all[i].writable;
        if i < n {
            assert(metas[i].key == key && metas[i].writable);
        } else if i > n {
            assert(instruction.accounts[i - n - 1].key == key);
        }
    }
}

/// An address is mentioned exactly when it is the program or an account of an
/// instruction. It signs exactly when an instruction has it as an account that
/// signs, and is written exactly when one has it as an account that is written.
pub proof fn mentions_are_those_of_the_instructions(
    instructions: Seq<InstructionView>,
    key: Seq<u8>,
)
    ensures
        is_mentioned(mentions(instructions), key) <==> exists|i: int|
            0 <= i < instructions.len() && ((#[trigger] instructions[i]).program_id == key
                || has_account(instructions[i], key, |meta: MetaView| true)),
        is_signer(mentions(instructions), key) <==> exists|i: int|
            0 <= i < instructions.len() && has_account(
                #[trigger] instructions[i],
                key,
                |meta: MetaView| meta.signer,
            ),
        is_writable(mentions(instructions), key) <==> exists|i: int|
            0 <= i < instructions.len() && has_account(
                #[trigger] instructions[i],
                key,
                |meta: MetaView| meta.writable,
            ),
    decreases instructions.len(),
{
    if instructions.len() > 0 {
        let rest = instructions.drop_last();
        let last = instructions.len() - 1;
        mentions_are_those_of_the_instructions(rest, key);
        lemma_more_mentions(mentions(rest), instructions.last(), key);
        assert(instructions[last] == instructions.last());
        assert(forall|i: int| 0 <= i < rest.len() ==> rest[i] == instructions[i]);
        if is_mentioned(mentions(rest), key) {
            let i = choose|i: int|
                0 <= i < rest.len() && ((#[trigger] rest[i]).program_id == key || has_account(
                    rest[i],
                    key,
                    |meta: MetaView| true,
                ));
            assert(instructions[i] == rest[i]);
        }
        if is_signer(mentions(rest), key) {
            let i = choose|i: int|
                0 <= i < rest.len() && has_account(
                    #[trigger] rest[i],
                    key,
                    |meta: MetaView| meta.signer,
                );
            assert(instructions[i] == rest[i]);
        }
        if is_writable(mentions(rest), key) {
            let i = choose|i: int|
                0 <= i < rest.len() && has_account(
                    #[trigger] rest[i],
                    key,
                    |meta: MetaView| meta.writable,
                );
            assert(instructions[i] == rest[i]);
        }
    }
}

/// Instructions fit a message exactly when no more than 255 addresses sign, and
/// no more than 255 are mentioned that neither sign nor are written.
pub proof fn messages_count_to_255(instructions: Seq<InstructionView>)
    ensures
        message_fits(mentions(instructions)) <==> {
            &&& Set::new(|key: Seq<u8>| is_signer(mentions(instructions), key)).len() <= 255
            &&& Set::new(
                |key: Seq<u8>|
                    is_mentioned(mentions(instructions), key) && !is_signer(
                        mentions(instructions),
                        key,
                    ) && !is_writable(mentions(instructions), key),
            ).len() <= 255
        },
{
    let metas = mentions(instructions);
    assert forall|key: Seq<u8>| is_signer(metas, key) implies is_mentioned(metas, key) by {
        let i = choose|i: int|
            0 <= i < metas.len() && (#[trigger] metas[i]).key == key && metas[i].signer;
        assert(metas[i].key == key);
    }
    assert(signer_keys(metas) =~= Set::new(|key: Seq<u8>| is_signer(metas, key)));
    assert(readonly_keys(metas) =~= Set::new(
        |key: Seq<u8>|
            is_mentioned(metas, key) && !is_signer(metas, key) && !is_writable(metas, key),
    ));
}

/// The addresses of a plan are those of its accounts, in their places.
pub proof fn plan_keys_are_those_of_the_accounts(plan: TransactionPlan)
    ensures
        plan_keys(plan).len() == plan.accounts.len(),
        forall|i: int|
            0 <= i < plan.accounts.len() ==> #[trigger] plan_keys(plan)[i] == plan.accounts[i].0@,
{
}

/// In a message addresses that sign come before all others; of those that agree
/// in that, the ones that are written come first; and those that agree in both
/// come in the order of their bytes.
pub proof fn messages_put_signers_and_written_addresses_first(
    metas: Seq<MetaView>,
    keys: Seq<Seq<u8>>,
    i: int,
    j: int,
)
    requires
        are_message_keys(metas, keys),
        0 <= i < j < keys.len(),
    ensures
        is_signer(metas, keys[j]) ==> is_signer(metas, keys[i]),
        is_signer(metas, keys[i]) == is_signer(metas, keys[j]) && is_writable(metas, keys[j])
            ==> is_writable(metas, keys[i]),
        is_signer(metas, keys[i]) == is_signer(metas, keys[j]) && is_writable(metas, keys[i])
            == is_writable(metas, keys[j]) ==> order::bytes_before(keys[i], keys[j]),
{
    assert(key_precedes(metas, keys[i], keys[j]));
}

} // verus!

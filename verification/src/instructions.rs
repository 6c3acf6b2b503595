//! The instructions of a fixture.

use vstd::prelude::*;

use crate::account::copy_bytes;
use crate::encoding::{self, decode_base64};
use crate::fixture::{Fixture, FixtureInstruction, FixtureMeta};
use crate::key::{self, parse_pubkey, Key};
use crate::text::{self, joined};

verus! {

/// An account as an instruction refers to it.
#[derive(Clone, Copy, Debug)]
pub struct InstructionMeta {
    pub key: Key,
    pub signer: bool,
    pub writable: bool,
}

/// An account as an instruction refers to it, by views.
pub struct MetaView {
    pub key: Seq<u8>,
    pub signer: bool,
    pub writable: bool,
}

impl View for InstructionMeta {
    type V = MetaView;

    open spec fn view(&self) -> MetaView {
        MetaView { key: self.key@, signer: self.signer, writable: self.writable }
    }
}

/// A call of a program.
#[derive(Debug)]
pub struct Instruction {
    pub program_id: Key,
    pub accounts: Vec<InstructionMeta>,
    pub data: Vec<u8>,
}

/// A call of a program, by views.
pub struct InstructionView {
    pub program_id: Seq<u8>,
    pub accounts: Seq<MetaView>,
    pub data: Seq<u8>,
}

/// The accounts of an instruction, by views.
pub open spec fn meta_views(metas: Seq<InstructionMeta>) -> Seq<MetaView> {
    metas.map_values(|meta: InstructionMeta| meta@)
}

impl View for Instruction {
    type V = InstructionView;

    open spec fn view(&self) -> InstructionView {
        InstructionView {
            program_id: self.program_id@,
            accounts: meta_views(self.accounts@),
            data: self.data@,
        }
    }
}

/// Instructions, by views.
pub open spec fn instruction_views(instructions: Seq<Instruction>) -> Seq<InstructionView> {
    instructions.map_values(|instruction: Instruction| instruction@)
}

/// An account of an instruction with its text read.
#[derive(Debug)]
pub struct MetaEntry {
    pub key: Result<Key, String>,
    pub signer: bool,
    pub writable: bool,
}

/// An account of an instruction with its text read, by views.
pub struct MetaEntryView {
    pub key: Result<Seq<u8>, Seq<char>>,
    pub signer: bool,
    pub writable: bool,
}

impl View for MetaEntry {
    type V = MetaEntryView;

    open spec fn view(&self) -> MetaEntryView {
        MetaEntryView {
            key: text::outcome(self.key),
            signer: self.signer,
            writable: self.writable,
        }
    }
}

/// An instruction with its texts read.
#[derive(Debug)]
pub struct InstructionEntry {
    pub program_id: Result<Key, String>,
    pub accounts: Vec<MetaEntry>,
    pub data: Result<Vec<u8>, String>,
}

/// An instruction with its texts read, by views.
pub struct InstructionEntryView {
    pub program_id: Result<Seq<u8>, Seq<char>>,
    pub accounts: Seq<MetaEntryView>,
    pub data: Result<Seq<u8>, Seq<char>>,
}

/// The accounts of an instruction with their texts read, by views.
pub open spec fn meta_entry_views(entries: Seq<MetaEntry>) -> Seq<MetaEntryView> {
    entries.map_values(|entry: MetaEntry| entry@)
}

impl View for InstructionEntry {
    type V = InstructionEntryView;

    open spec fn view(&self) -> InstructionEntryView {
        InstructionEntryView {
            program_id: text::outcome(self.program_id),
            accounts: meta_entry_views(self.accounts@),
            data: text::outcome(self.data),
        }
    }
}

/// Instructions with their texts read, by views.
pub open spec fn instruction_entry_views(entries: Seq<InstructionEntry>) -> Seq<
    InstructionEntryView,
> {
    entries.map_values(|entry: InstructionEntry| entry@)
}

/// The accounts of an instruction, in order; the first address with an error
/// decides.
pub open spec fn entry_metas(entries: Seq<MetaEntryView>) -> Result<Seq<MetaView>, Seq<char>>
    decreases entries.len(),
{
    if entries.len() == 0 {
        Ok(Seq::empty())
    } else {
        let entry = entries.last();
        match (entry_metas(entries.drop_last()), entry.key) {
            (Err(error), _) => Err(error),
            (Ok(_), Err(error)) => Err(error),
            (Ok(metas), Ok(key)) => Ok(
                metas.push(MetaView { key, signer: entry.signer, writable: entry.writable }),
            ),
        }
    }
}

/// An instruction, or the first error: of its program's address, of the
/// addresses of its accounts, of its data.
pub open spec fn entry_instruction(entry: InstructionEntryView) -> Result<
    InstructionView,
    Seq<char>,
> {
    match (entry.program_id, entry_metas(entry.accounts), entry.data) {
        (Err(error), _, _) => Err(error),
        (Ok(_), Err(error), _) => Err(error),
        (Ok(_), Ok(_), Err(error)) => Err(error),
        (Ok(program_id), Ok(accounts), Ok(data)) => Ok(
            InstructionView { program_id, accounts, data },
        ),
    }
}

/// The instructions, in order; the first one with an error decides.
pub open spec fn entry_instructions(entries: Seq<InstructionEntryView>) -> Result<
    Seq<InstructionView>,
    Seq<char>,
>
    decreases entries.len(),
{
    if entries.len() == 0 {
        Ok(Seq::empty())
    } else {
        match (entry_instructions(entries.drop_last()), entry_instruction(entries.last())) {
            (Err(error), _) => Err(error),
            (Ok(_), Err(error)) => Err(error),
            (Ok(instructions), Ok(instruction)) => Ok(instructions.push(instruction)),
        }
    }
}

/// An error among the first accounts is the error of all of them.
proof fn lemma_meta_error(entries: Seq<MetaEntryView>, n: int)
    requires
        0 <= n <= entries.len(),
        entry_metas(entries.take(n)) is Err,
    ensures
        entry_metas(entries) == entry_metas(entries.take(n)),
    decreases entries.len(),
{
    if n == entries.len() {
        assert(entries.take(n) =~= entries);
    } else {
        assert(entries.drop_last().take(n) =~= entries.take(n));
        lemma_meta_error(entries.drop_last(), n);
    }
}

/// An error among the first instructions is the error of all of them.
proof fn lemma_instruction_error(entries: Seq<InstructionEntryView>, n: int)
    requires
        0 <= n <= entries.len(),
        entry_instructions(entries.take(n)) is Err,
    ensures
        entry_instructions(entries) == entry_instructions(entries.take(n)),
    decreases entries.len(),
{
    if n == entries.len() {
        assert(entries.take(n) =~= entries);
    } else {
        assert(entries.drop_last().take(n) =~= entries.take(n));
        lemma_instruction_error(entries.drop_last(), n);
    }
}

/// What collecting the accounts of an instruction came to, by views.
pub open spec fn metas_outcome(res: Result<Vec<InstructionMeta>, String>) -> Result<
    Seq<MetaView>,
    Seq<char>,
> {
    match res {
        Ok(metas) => Ok(meta_views(metas@)),
        Err(error) => Err(error@),
    }
}

/// What collecting instructions came to, by views.
pub open spec fn instructions_outcome(res: Result<Vec<Instruction>, String>) -> Result<
    Seq<InstructionView>,
    Seq<char>,
> {
    match res {
        Ok(instructions) => Ok(instruction_views(instructions@)),
        Err(error) => Err(error@),
    }
}

/// Collects the accounts of an instruction, see [`entry_metas`].
pub fn collect_metas(entries: &Vec<MetaEntry>) -> (res: Result<Vec<InstructionMeta>, String>)
    ensures
        metas_outcome(res) == entry_metas(meta_entry_views(entries@)),
{
    let ghost all = meta_entry_views(entries@);
    let mut metas: Vec<InstructionMeta> = Vec::new();
    let mut i: usize = 0;
    proof {
        assert(meta_views(metas@) =~= Seq::<MetaView>::empty());
    }
    while i < entries.len()
        invariant
            0 <= i <= entries.len(),
            all == meta_entry_views(entries@),
            entry_metas(all.take(i as int)) == Result::<Seq<MetaView>, Seq<char>>::Ok(
                meta_views(metas@),
            ),
        decreases entries.len() - i,
    {
        let entry: &MetaEntry = &entries[i];
        proof {
            assert(all.take(i + 1).drop_last() =~= all.take(i as int));
            assert(all.take(i + 1).last() == entry@);
        }
        match &entry.key {
            Err(error) => {
                proof {
                    lemma_meta_error(all, i + 1);
                }
                return Err(error.clone());
            },
            Ok(key) => {
                let meta = InstructionMeta {
                    key: *key,
                    signer: entry.signer,
                    writable: entry.writable,
                };
                proof {
                    assert(meta_views(metas@.push(meta)) =~= meta_views(metas@).push(meta@));
                }
                metas.push(meta);
            },
        }
        i = i + 1;
    }
    proof {
        assert(all.take(i as int) =~= all);
    }
    Ok(metas)
}

/// Collects one instruction, see [`entry_instruction`].
pub fn collect_instruction(entry: &InstructionEntry) -> (res: Result<Instruction, String>)
    ensures
        text::outcome(res) == entry_instruction(entry@),
{
    let program_id: Key = match &entry.program_id {
        Ok(key) => *key,
        Err(error) => {
            return Err(error.clone());
        },
    };
    match collect_metas(&entry.accounts) {
        Err(error) => Err(error),
        Ok(accounts) => match &entry.data {
            Err(error) => Err(error.clone()),
            Ok(data) => Ok(Instruction { program_id, accounts, data: copy_bytes(data) }),
        },
    }
}

/// Collects the instructions whose texts are read, see
/// [`entry_instructions`].
pub fn collect_instructions(entries: &Vec<InstructionEntry>) -> (res: Result<
    Vec<Instruction>,
    String,
>)
    ensures
        instructions_outcome(res) == entry_instructions(instruction_entry_views(entries@)),
{
    let ghost all = instruction_entry_views(entries@);
    let mut instructions: Vec<Instruction> = Vec::new();
    let mut i: usize = 0;
    proof {
        assert(instruction_views(instructions@) =~= Seq::<InstructionView>::empty());
    }
    while i < entries.len()
        invariant
            0 <= i <= entries.len(),
            all == instruction_entry_views(entries@),
            entry_instructions(all.take(i as int)) == Result::<
                Seq<InstructionView>,
                Seq<char>,
            >::Ok(instruction_views(instructions@)),
        decreases entries.len() - i,
    {
        proof {
            assert(all.take(i + 1).drop_last() =~= all.take(i as int));
            assert(all.take(i + 1).last() == entries[i as int]@);
        }
        match collect_instruction(&entries[i]) {
            Err(error) => {
                proof {
                    lemma_instruction_error(all, i + 1);
                }
                return Err(error);
            },
            Ok(instruction) => {
                proof {
                    assert(instruction_views(instructions@.push(instruction))
                        =~= instruction_views(instructions@).push(instruction@));
                }
                instructions.push(instruction);
            },
        }
        i = i + 1;
    }
    proof {
        assert(all.take(i as int) =~= all);
    }
    Ok(instructions)
}

/// The result of reading instruction data.
pub open spec fn instruction_data(decoded: Result<Seq<u8>, Seq<char>>) -> Result<
    Seq<u8>,
    Seq<char>,
> {
    match decoded {
        Ok(data) => Ok(data),
        Err(error) => Err("invalid instruction data: "@ + error),
    }
}

/// What the text of an account of an instruction says.
pub open spec fn meta_entry_of(meta: FixtureMeta) -> MetaEntryView {
    MetaEntryView {
        key: key::parsed_pubkey(meta.pubkey@),
        signer: meta.signer,
        writable: meta.writable,
    }
}

/// What the texts of an instruction say.
pub open spec fn instruction_entry_of(instruction: FixtureInstruction) -> InstructionEntryView {
    InstructionEntryView {
        program_id: key::parsed_pubkey(instruction.program_id@),
        accounts: instruction.accounts@.map_values(|meta: FixtureMeta| meta_entry_of(meta)),
        data: instruction_data(encoding::decoded_base64(instruction.data@)),
    }
}

/// What the texts of a fixture's instructions say.
pub open spec fn fixture_instruction_entries(fixture: Fixture) -> Seq<InstructionEntryView> {
    fixture.instructions@.map_values(
        |instruction: FixtureInstruction| instruction_entry_of(instruction),
    )
}

/// The instructions of a fixture.
pub open spec fn fixture_instructions(fixture: Fixture) -> Result<
    Seq<InstructionView>,
    Seq<char>,
> {
    entry_instructions(fixture_instruction_entries(fixture))
}

/// Says of unreadable data that it is that of an instruction.
pub fn explain_instruction_data(decoded: Result<Vec<u8>, String>) -> (res: Result<Vec<u8>, String>)
    ensures
        text::outcome(res) == instruction_data(text::outcome(decoded)),
        decoded matches Ok(data) ==> res is Ok && res->Ok_0@ == data@,
        decoded matches Err(error) ==> res is Err && res->Err_0@ == "invalid instruction data: "@
            + error@,
{
    match decoded {
        Ok(data) => Ok(data),
        Err(error) => Err(joined("invalid instruction data: ", error.as_str())),
    }
}

/// Reads the texts of an instruction, see [`instruction_entry_of`].
pub fn read_instruction(instruction: &FixtureInstruction) -> (res: InstructionEntry)
    ensures
        res@ == instruction_entry_of(*instruction),
        res.accounts.len() == instruction.accounts.len(),
        forall|j: int|
            0 <= j < instruction.accounts.len() ==> {
                &&& text::outcome((#[trigger] res.accounts[j]).key) == key::parsed_pubkey(
                    instruction.accounts[j].pubkey@,
                )
                &&& res.accounts[j].signer == instruction.accounts[j].signer
                &&& res.accounts[j].writable == instruction.accounts[j].writable
            },
{
    let mut accounts: Vec<MetaEntry> = Vec::new();
    let mut i: usize = 0;
    while i < instruction.accounts.len()
        invariant
            0 <= i <= instruction.accounts.len(),
            accounts.len() == i,
            forall|j: int|
                0 <= j < i ==> (#[trigger] accounts[j])@ == meta_entry_of(instruction.accounts[j]),
        decreases instruction.accounts.len() - i,
    {
        let meta: &FixtureMeta = &instruction.accounts[i];
        accounts.push(
            MetaEntry {
                key: parse_pubkey(meta.pubkey.as_str()),
                signer: meta.signer,
                writable: meta.writable,
            },
        );
        i = i + 1;
    }
    let res = InstructionEntry {
        program_id: parse_pubkey(instruction.program_id.as_str()),
        accounts,
        data: explain_instruction_data(decode_base64(instruction.data.as_str())),
    };
    proof {
        assert(res@.accounts =~= instruction_entry_of(*instruction).accounts);
    }
    res
}

/// Builds the instructions of a fixture, see [`fixture_instructions`].
pub fn build_instructions(fixture: &Fixture) -> (res: Result<Vec<Instruction>, String>)
    ensures
        instructions_outcome(res) == fixture_instructions(*fixture),
        res matches Ok(list) ==> {
            &&& list.len() == fixture.instructions.len()
            &&& forall|i: int|
                0 <= i < list.len() ==> (#[trigger] list[i]).accounts.len()
                    == fixture.instructions[i].accounts.len()
            &&& forall|i: int, j: int|
                0 <= i < list.len() && 0 <= j < list[i].accounts.len() ==> {
                    &&& (#[trigger] list[i].accounts[j]).signer
                        == fixture.instructions[i].accounts[j].signer
                    &&& list[i].accounts[j].writable == fixture.instructions[i].accounts[j].writable
                }
        },
{
    let mut entries: Vec<InstructionEntry> = Vec::new();
    let mut i: usize = 0;
    while i < fixture.instructions.len()
        invariant
            0 <= i <= fixture.instructions.len(),
            entries.len() == i,
            forall|j: int|
                0 <= j < i ==> (#[trigger] entries[j])@ == instruction_entry_of(
                    fixture.instructions[j],
                ),
        decreases fixture.instructions.len() - i,
    {
        entries.push(read_instruction(&fixture.instructions[i]));
        i = i + 1;
    }
    proof {
        assert(instruction_entry_views(entries@) =~= fixture_instruction_entries(*fixture));
    }
    let res: Result<Vec<Instruction>, String> = collect_instructions(&entries);
    proof {
        instructions_are_those_of_the_fixture(*fixture);
        if res is Ok {
            let list = res->Ok_0;
            let seen = instruction_views(list@);
            assert forall|i: int| 0 <= i < list.len() implies (#[trigger] list[i]).accounts.len()
                == fixture.instructions[i].accounts.len() by {
                assert(seen[i].accounts.len() == list[i].accounts.len());
            }
            assert forall|i: int, j: int|
                0 <= i < list.len() && 0 <= j < list[i].accounts.len() implies {
                &&& (#[trigger] list[i].accounts[j]).signer
                    == fixture.instructions[i].accounts[j].signer
                &&& list[i].accounts[j].writable == fixture.instructions[i].accounts[j].writable
            } by {
                assert(seen[i].accounts[j] == list[i].accounts[j]@);
            }
        }
    }
    res
}

/// Every account of an instruction with a readable address comes through, in
/// its place and with its flags.
pub proof fn metas_come_one_for_one(entries: Seq<MetaEntryView>)
    ensures
        entry_metas(entries) is Ok <==> forall|i: int|
            0 <= i < entries.len() ==> (#[trigger] entries[i]).key is Ok,
        entry_metas(entries) matches Ok(metas) ==> metas.len() == entries.len() && forall|i: int|
            0 <= i < entries.len() ==> #[trigger] metas[i] == (MetaView {
                key: entries[i].key->Ok_0,
                signer: entries[i].signer,
                writable: entries[i].writable,
            }),
    decreases entries.len(),
{
    if entries.len() > 0 {
        let rest = entries.drop_last();
        metas_come_one_for_one(rest);
        assert(forall|i: int| 0 <= i < rest.len() ==> rest[i] == entries[i]);
        assert(entries[entries.len() - 1] == entries.last());
    }
}

/// The instructions can be collected exactly when each of them can, and then
/// each comes through in its place.
pub proof fn instructions_come_one_for_one(entries: Seq<InstructionEntryView>)
    ensures
        entry_instructions(entries) is Ok <==> forall|i: int|
            0 <= i < entries.len() ==> entry_instruction(#[trigger] entries[i]) is Ok,
        entry_instructions(entries) matches Ok(instructions) ==> instructions.len() == entries.len()
            && forall|i: int|
            0 <= i < entries.len() ==> entry_instruction(entries[i]) == Result::<
                InstructionView,
                Seq<char>,
            >::Ok(#[trigger] instructions[i]),
    decreases entries.len(),
{
    if entries.len() > 0 {
        let rest = entries.drop_last();
        instructions_come_one_for_one(rest);
        assert(forall|i: int| 0 <= i < rest.len() ==> rest[i] == entries[i]);
        assert(entries[entries.len() - 1] == entries.last());
    }
}

/// The views of an instruction and of its accounts hold each of their fields.
pub proof fn instruction_views_hold_every_field(instruction: Instruction)
    ensures
        instruction@.program_id == instruction.program_id@,
        instruction@.data == instruction.data@,
        instruction@.accounts.len() == instruction.accounts.len(),
        forall|j: int|
            0 <= j < instruction.accounts.len() ==> {
                &&& (#[trigger] instruction@.accounts[j]).key == instruction.accounts[j].key@
                &&& instruction@.accounts[j].signer == instruction.accounts[j].signer
                &&& instruction@.accounts[j].writable == instruction.accounts[j].writable
            },
{
}

/// A list of instructions has its instructions in the view, in their places,
/// and an error is told as it is.
pub proof fn instruction_lists_keep_their_places(list: Vec<Instruction>, error: String)
    ensures
        ({
            let seen = instructions_outcome(Result::<Vec<Instruction>, String>::Ok(list));
            &&& seen is Ok
            &&& seen->Ok_0.len() == list.len()
            &&& forall|i: int| 0 <= i < list.len() ==> #[trigger] seen->Ok_0[i] == list[i]@
        }),
        instructions_outcome(Result::<Vec<Instruction>, String>::Err(error)) == Result::<
            Seq<InstructionView>,
            Seq<char>,
        >::Err(error@),
        forall|i: int| 0 <= i < list.len() ==> #[trigger] instruction_views(list@)[i] == list[i]@,
        instruction_views(list@).len() == list.len(),
{
}

/// The texts of an instruction can all be read.
pub open spec fn is_readable(instruction: FixtureInstruction) -> bool {
    &&& key::parsed_pubkey(instruction.program_id@) is Ok
    &&& forall|j: int|
        0 <= j < instruction.accounts.len() ==> key::parsed_pubkey(
            (#[trigger] instruction.accounts[j]).pubkey@,
        ) is Ok
    &&& encoding::decoded_base64(instruction.data@) is Ok
}

/// What one instruction of a fixture comes to.
proof fn lemma_read_instruction(instruction: FixtureInstruction)
    ensures
        ({
            let built = entry_instruction(instruction_entry_of(instruction));
            &&& built is Ok <==> is_readable(instruction)
            &&& built matches Ok(built) ==> {
                &&& key::parsed_pubkey(instruction.program_id@) == Result::<
                    Seq<u8>,
                    Seq<char>,
                >::Ok(built.program_id)
                &&& encoding::decoded_base64(instruction.data@) == Result::<
                    Seq<u8>,
                    Seq<char>,
                >::Ok(built.data)
                &&& built.accounts.len() == instruction.accounts.len()
                &&& forall|j: int|
                    0 <= j < instruction.accounts.len() ==> {
                        &&& key::parsed_pubkey(instruction.accounts[j].pubkey@) == Result::<
                            Seq<u8>,
                            Seq<char>,
                        >::Ok((#[trigger] built.accounts[j]).key)
                        &&& built.accounts[j].signer == instruction.accounts[j].signer
                        &&& built.accounts[j].writable == instruction.accounts[j].writable
                    }
            }
        }),
{
    let entry = instruction_entry_of(instruction);
    metas_come_one_for_one(entry.accounts);
    assert(entry.accounts.len() == instruction.accounts.len());
    assert(forall|j: int|
        0 <= j < instruction.accounts.len() ==> #[trigger] entry.accounts[j] == meta_entry_of(
            instruction.accounts[j],
        ));
    if entry_metas(entry.accounts) is Ok {
        assert forall|j: int| 0 <= j < instruction.accounts.len() implies key::parsed_pubkey(
            (#[trigger] instruction.accounts[j]).pubkey@,
        ) is Ok by {
            assert(entry.accounts[j].key is Ok);
        }
    }
}

/// A fixture's instructions can be built exactly when all their texts can be
/// read. Each comes in its place: with the program that its text names, the
/// bytes that its data writes, and its accounts in their places, each with the
/// address that its text names, signing where the fixture says that it signs,
/// and written where the fixture says that it is written.
pub proof fn instructions_are_those_of_the_fixture(fixture: Fixture)
    ensures
        fixture_instructions(fixture) is Ok <==> forall|i: int|
            0 <= i < fixture.instructions.len() ==> is_readable(#[trigger] fixture.instructions[i]),
        fixture_instructions(fixture) matches Ok(list) ==> {
            &&& list.len() == fixture.instructions.len()
            &&& forall|i: int|
                0 <= i < fixture.instructions.len() ==> {
                    &&& key::parsed_pubkey(fixture.instructions[i].program_id@) == Result::<
                        Seq<u8>,
                        Seq<char>,
                    >::Ok((#[trigger] list[i]).program_id)
                    &&& encoding::decoded_base64(fixture.instructions[i].data@) == Result::<
                        Seq<u8>,
                        Seq<char>,
                    >::Ok(list[i].data)
                    &&& list[i].accounts.len() == fixture.instructions[i].accounts.len()
                }
            &&& forall|i: int, j: int|
                0 <= i < fixture.instructions.len() && 0 <= j
                    < fixture.instructions[i].accounts.len() ==> {
                    &&& key::parsed_pubkey(fixture.instructions[i].accounts[j].pubkey@)
                        == Result::<Seq<u8>, Seq<char>>::Ok((#[trigger] list[i].accounts[j]).key)
                    &&& list[i].accounts[j].signer == fixture.instructions[i].accounts[j].signer
                    &&& list[i].accounts[j].writable == fixture.instructions[i].accounts[j].writable
                }
        },
{
    let entries = fixture_instruction_entries(fixture);
    instructions_come_one_for_one(entries);
    assert(entries.len() == fixture.instructions.len());
    assert forall|i: int| 0 <= i < fixture.instructions.len() implies #[trigger] entries[i]
        == instruction_entry_of(fixture.instructions[i]) && (entry_instruction(entries[i]) is Ok
        <==> is_readable(fixture.instructions[i])) by {
        lemma_read_instruction(fixture.instructions[i]);
    }
    if fixture_instructions(fixture) is Ok {
        let list = fixture_instructions(fixture)->Ok_0;
        assert forall|i: int| 0 <= i < fixture.instructions.len() implies is_readable(
            #[trigger] fixture.instructions[i],
        ) by {
            assert(entry_instruction(entries[i]) is Ok);
        }
        assert forall|i: int| 0 <= i < fixture.instructions.len() implies {
            &&& key::parsed_pubkey(fixture.instructions[i].program_id@) == Result::<
                Seq<u8>,
                Seq<char>,
            >::Ok((#[trigger] list[i]).program_id)
            &&& encoding::decoded_base64(fixture.instructions[i].data@) == Result::<
                Seq<u8>,
                Seq<char>,
            >::Ok(list[i].data)
            &&& list[i].accounts.len() == fixture.instructions[i].accounts.len()
        } by {
            lemma_read_instruction(fixture.instructions[i]);
            assert(entry_instruction(entries[i]) == Result::<InstructionView, Seq<char>>::Ok(
                list[i],
            ));
        }
        assert forall|i: int, j: int|
            0 <= i < fixture.instructions.len() && 0 <= j
                < fixture.instructions[i].accounts.len() implies {
            &&& key::parsed_pubkey(fixture.instructions[i].accounts[j].pubkey@) == Result::<
                Seq<u8>,
                Seq<char>,
            >::Ok((#[trigger] list[i].accounts[j]).key)
            &&& list[i].accounts[j].signer == fixture.instructions[i].accounts[j].signer
            &&& list[i].accounts[j].writable == fixture.instructions[i].accounts[j].writable
        } by {
            lemma_read_instruction(fixture.instructions[i]);
            assert(entry_instruction(entries[i]) == Result::<InstructionView, Seq<char>>::Ok(
                list[i],
            ));
        }
    } else {
        let i = choose|i: int|
            0 <= i < entries.len() && !(entry_instruction(#[trigger] entries[i]) is Ok);
        assert(!is_readable(fixture.instructions[i]));
    }
}

/// The error of an instruction is that of its program's address, or else of
/// the first of its accounts without an address, or else of its data.
proof fn lemma_instruction_problem(instruction: FixtureInstruction, j: int)
    ensures
        ({
            let built = entry_instruction(instruction_entry_of(instruction));
            let program = key::parsed_pubkey(instruction.program_id@);
            &&& program matches Err(error) ==> built == Result::<InstructionView, Seq<char>>::Err(
                error,
            )
            &&& program is Ok && 0 <= j < instruction.accounts.len() && (forall|k: int|
                0 <= k < j ==> key::parsed_pubkey((#[trigger] instruction.accounts[k]).pubkey@)
                    is Ok) ==> (key::parsed_pubkey(instruction.accounts[j].pubkey@) matches Err(
                error,
            ) ==> built == Result::<InstructionView, Seq<char>>::Err(error))
            &&& program is Ok && (forall|k: int|
                0 <= k < instruction.accounts.len() ==> key::parsed_pubkey(
                    (#[trigger] instruction.accounts[k]).pubkey@,
                ) is Ok) ==> (encoding::decoded_base64(instruction.data@) matches Err(error)
                ==> built == Result::<InstructionView, Seq<char>>::Err(
                "invalid instruction data: "@ + error,
            ))
        }),
{
    let entry = instruction_entry_of(instruction);
    let metas = entry.accounts;
    assert(forall|k: int|
        0 <= k < instruction.accounts.len() ==> #[trigger] metas[k] == meta_entry_of(
            instruction.accounts[k],
        ));
    metas_come_one_for_one(metas);
    if 0 <= j < instruction.accounts.len() && (forall|k: int|
        0 <= k < j ==> key::parsed_pubkey((#[trigger] instruction.accounts[k]).pubkey@) is Ok)
        && key::parsed_pubkey(instruction.accounts[j].pubkey@) is Err {
        metas_come_one_for_one(metas.take(j));
        assert forall|k: int| 0 <= k < j implies (#[trigger] metas.take(j)[k]).key is Ok by {
            assert(key::parsed_pubkey(instruction.accounts[k].pubkey@) is Ok);
        }
        assert(metas.take(j + 1).drop_last() =~= metas.take(j));
        assert(metas.take(j + 1).last() == metas[j]);
        lemma_meta_error(metas, j + 1);
    }
}

/// The first instruction with an unreadable text decides the error: that of
/// its program's address, or else of the first of its accounts with an
/// unreadable address, or else of its data.
pub proof fn the_first_unreadable_instruction_is_told(fixture: Fixture, i: int, j: int)
    requires
        0 <= i < fixture.instructions.len(),
        forall|k: int| 0 <= k < i ==> is_readable(#[trigger] fixture.instructions[k]),
        !is_readable(fixture.instructions[i]),
    ensures
        ({
            let instruction = fixture.instructions[i];
            let built = fixture_instructions(fixture);
            let program = key::parsed_pubkey(instruction.program_id@);
            &&& program matches Err(error) ==> built == Result::<
                Seq<InstructionView>,
                Seq<char>,
            >::Err(error)
            &&& program is Ok && 0 <= j < instruction.accounts.len() && (forall|k: int|
                0 <= k < j ==> key::parsed_pubkey((#[trigger] instruction.accounts[k]).pubkey@)
                    is Ok) ==> (key::parsed_pubkey(instruction.accounts[j].pubkey@) matches Err(
                error,
            ) ==> built == Result::<Seq<InstructionView>, Seq<char>>::Err(error))
            &&& program is Ok && (forall|k: int|
                0 <= k < instruction.accounts.len() ==> key::parsed_pubkey(
                    (#[trigger] instruction.accounts[k]).pubkey@,
                ) is Ok) ==> (encoding::decoded_base64(instruction.data@) matches Err(error)
                ==> built == Result::<Seq<InstructionView>, Seq<char>>::Err(
                "invalid instruction data: "@ + error,
            ))
        }),
{
    let entries = fixture_instruction_entries(fixture);
    lemma_instruction_problem(fixture.instructions[i], j);
    lemma_read_instruction(fixture.instructions[i]);
    instructions_come_one_for_one(entries.take(i));
    assert forall|k: int| 0 <= k < i implies entry_instruction(#[trigger] entries.take(i)[k])
        is Ok by {
        assert(is_readable(fixture.instructions[k]));
        lemma_read_instruction(fixture.instructions[k]);
    }
    assert(entries.take(i + 1).drop_last() =~= entries.take(i));
    assert(entries.take(i + 1).last() == instruction_entry_of(fixture.instructions[i]));
    lemma_instruction_error(entries, i + 1);
}

/// The views of instructions whose texts are read hold each of their fields.
pub proof fn instruction_entry_views_hold_every_field(entry: InstructionEntry)
    ensures
        match entry.program_id {
            Ok(key) => entry@.program_id == Result::<Seq<u8>, Seq<char>>::Ok(key@),
            Err(error) => entry@.program_id == Result::<Seq<u8>, Seq<char>>::Err(error@),
        },
        match entry.data {
            Ok(data) => entry@.data == Result::<Seq<u8>, Seq<char>>::Ok(data@),
            Err(error) => entry@.data == Result::<Seq<u8>, Seq<char>>::Err(error@),
        },
        entry@.accounts == meta_entry_views(entry.accounts@),
        meta_entry_views(entry.accounts@).len() == entry.accounts.len(),
        forall|j: int|
            0 <= j < entry.accounts.len() ==> {
                let meta = entry.accounts[j];
                let seen = #[trigger] meta_entry_views(entry.accounts@)[j];
                &&& match meta.key {
                    Ok(key) => seen.key == Result::<Seq<u8>, Seq<char>>::Ok(key@),
                    Err(error) => seen.key == Result::<Seq<u8>, Seq<char>>::Err(error@),
                }
                &&& seen.signer == meta.signer
                &&& seen.writable == meta.writable
            },
{
}

/// Lists of instructions whose texts are read, and lists of accounts, keep
/// their places in the view.
pub proof fn entry_lists_keep_their_places(
    entries: Seq<InstructionEntry>,
    metas: Vec<InstructionMeta>,
    error: String,
)
    ensures
        instruction_entry_views(entries).len() == entries.len(),
        forall|i: int|
            0 <= i < entries.len() ==> #[trigger] instruction_entry_views(entries)[i]
                == entries[i]@,
        ({
            let seen = metas_outcome(Result::<Vec<InstructionMeta>, String>::Ok(metas));
            &&& seen is Ok
            &&& seen->Ok_0.len() == metas.len()
            &&& forall|j: int|
                0 <= j < metas.len() ==> {
                    &&& (#[trigger] seen->Ok_0[j]).key == metas[j].key@
                    &&& seen->Ok_0[j].signer == metas[j].signer
                    &&& seen->Ok_0[j].writable == metas[j].writable
                }
        }),
        metas_outcome(Result::<Vec<InstructionMeta>, String>::Err(error)) == Result::<
            Seq<MetaView>,
            Seq<char>,
        >::Err(error@),
{
}

/// An instruction keeps its program, its accounts and its data; it has none of
/// them where one has an error, and the error of the program comes before that
/// of the accounts and this before that of the data.
pub proof fn instructions_keep_their_parts(entry: InstructionEntryView)
    ensures
        entry_instruction(entry) is Ok <==> entry.program_id is Ok && entry_metas(
            entry.accounts,
        ) is Ok && entry.data is Ok,
        entry_instruction(entry) matches Ok(instruction) ==> {
            &&& instruction.program_id == entry.program_id->Ok_0
            &&& instruction.accounts == entry_metas(entry.accounts)->Ok_0
            &&& instruction.data == entry.data->Ok_0
        },
        entry_instruction(entry) matches Err(error) ==> error == if entry.program_id is Err {
            entry.program_id->Err_0
        } else if entry_metas(entry.accounts) is Err {
            entry_metas(entry.accounts)->Err_0
        } else {
            entry.data->Err_0
        },
{
}

/// The first account with an error, and the first instruction with one, decides
/// the error of all.
pub proof fn the_first_error_is_told(
    metas: Seq<MetaEntryView>,
    entries: Seq<InstructionEntryView>,
    i: int,
)
    ensures
        0 <= i < metas.len() && (forall|k: int| 0 <= k < i ==> (#[trigger] metas[k]).key is Ok) ==> (
        metas[i].key matches Err(error) ==> entry_metas(metas) == Result::<
            Seq<MetaView>,
            Seq<char>,
        >::Err(error)),
        0 <= i < entries.len() && (forall|k: int|
            0 <= k < i ==> entry_instruction(#[trigger] entries[k]) is Ok) ==> (entry_instruction(
            entries[i],
        ) matches Err(error) ==> entry_instructions(entries) == Result::<
            Seq<InstructionView>,
            Seq<char>,
        >::Err(error)),
{
    if 0 <= i < metas.len() && (forall|k: int| 0 <= k < i ==> (#[trigger] metas[k]).key is Ok)
        && metas[i].key is Err {
        metas_come_one_for_one(metas.take(i));
        assert(forall|k: int| 0 <= k < i ==> #[trigger] metas.take(i)[k] == metas[k]);
        assert(metas.take(i + 1).drop_last() =~= metas.take(i));
        assert(metas.take(i + 1).last() == metas[i]);
        lemma_meta_error(metas, i + 1);
    }
    if 0 <= i < entries.len() && (forall|k: int|
        0 <= k < i ==> entry_instruction(#[trigger] entries[k]) is Ok) && entry_instruction(
        entries[i],
    ) is Err {
        instructions_come_one_for_one(entries.take(i));
        assert(forall|k: int| 0 <= k < i ==> #[trigger] entries.take(i)[k] == entries[k]);
        assert(entries.take(i + 1).drop_last() =~= entries.take(i));
        assert(entries.take(i + 1).last() == entries[i]);
        lemma_instruction_error(entries, i + 1);
    }
}

} // verus!

//! The sysvar that programs read the instructions of their transaction from.

use solana_instruction::{BorrowedAccountMeta, BorrowedInstruction};
use solana_instructions_sysvar::construct_instructions_data;
use solana_pubkey::Pubkey;
use vstd::prelude::*;

use crate::instructions::{self, Instruction, InstructionView, MetaView};
use crate::key::Key;
use crate::text::{self, joined};

verus! {

/// The low 16 bits of a number, the lowest eight first.
pub open spec fn le16(n: nat) -> Seq<u8> {
    seq![(n % 256) as u8, (n / 256 % 256) as u8]
}

/// An account of an instruction: a byte with the flags, signer in bit 0 and
/// writable in bit 1, and the address.
pub open spec fn meta_bytes(meta: MetaView) -> Seq<u8> {
    let signer: int = if meta.signer { 1 } else { 0 };
    let writable: int = if meta.writable { 2 } else { 0 };
    seq![(signer + writable) as u8] + meta.key
}

/// The accounts of an instruction, one after the other.
pub open spec fn metas_bytes(metas: Seq<MetaView>) -> Seq<u8>
    decreases metas.len(),
{
    if metas.len() == 0 {
        Seq::empty()
    } else {
        metas_bytes(metas.drop_last()) + meta_bytes(metas.last())
    }
}

/// An instruction: the number of its accounts, the accounts, the program, the
/// length of its data, and the data.
pub open spec fn instruction_bytes(instruction: InstructionView) -> Seq<u8> {
    le16(instruction.accounts.len()) + metas_bytes(instruction.accounts) + instruction.program_id
        + le16(instruction.data.len()) + instruction.data
}

/// Instructions, one after the other.
pub open spec fn instructions_bytes(instructions: Seq<InstructionView>) -> Seq<u8>
    decreases instructions.len(),
{
    if instructions.len() == 0 {
        Seq::empty()
    } else {
        instructions_bytes(instructions.drop_last()) + instruction_bytes(instructions.last())
    }
}

/// Where an instruction starts: behind the number of instructions, the table
/// of starts, and the instructions before it.
pub open spec fn start_of(instructions: Seq<InstructionView>, i: int) -> nat {
    2 + 2 * instructions.len() + instructions_bytes(instructions.take(i)).len()
}

/// Every start can be written with two bytes.
pub open spec fn starts_fit(instructions: Seq<InstructionView>) -> bool {
    forall|i: int| 0 <= i < instructions.len() ==> #[trigger] start_of(instructions, i) <= 0xffff
}

/// The starts of the first instructions, one after the other.
pub open spec fn starts_bytes(instructions: Seq<InstructionView>, count: nat) -> Seq<u8>
    decreases count,
{
    if count == 0 {
        Seq::empty()
    } else {
        starts_bytes(instructions, (count - 1) as nat) + le16(start_of(instructions, count - 1))
    }
}

/// The data of the instructions sysvar before any instruction runs: the number
/// of instructions, the table of their starts, the instructions, and the index
/// of the running one, which is zero.
pub open spec fn sysvar_bytes(instructions: Seq<InstructionView>) -> Seq<u8> {
    le16(instructions.len()) + starts_bytes(instructions, instructions.len()) + instructions_bytes(
        instructions,
    ) + le16(0)
}

/// What constructing the data of the instructions sysvar gives.
pub open spec fn constructed_data(instructions: Seq<InstructionView>) -> Result<
    Seq<u8>,
    Seq<char>,
> {
    if starts_fit(instructions) {
        Ok(sysvar_bytes(instructions))
    } else {
        Err("InstructionIndexOutOfBounds"@)
    }
}

/// Calls `construct_instructions_data` of `solana_instructions_sysvar`, with
/// the error written as `Debug` writes it. The data has the layout that is
/// documented there; the one error there is comes exactly when an instruction
/// would start beyond what two bytes can write. Numbers of accounts and lengths
/// of data that two bytes cannot write are cut off.
#[verifier::external_body]
pub(crate) fn construct_data(instructions: &Vec<Instruction>) -> (res: Result<Vec<u8>, String>)
    ensures
        text::outcome(res) == constructed_data(instructions::instruction_views(instructions@)),
{
    let read = |key: &Key| Pubkey::from(key.bytes);
    let keys: Vec<(Pubkey, Vec<Pubkey>)> = instructions.iter()
        .map(|ix| (read(&ix.program_id), ix.accounts.iter().map(|meta| read(&meta.key)).collect()))
        .collect();
    let borrowed: Vec<BorrowedInstruction> = instructions.iter().zip(&keys)
        .map(|(ix, (program_id, accounts))| BorrowedInstruction {
            program_id,
            accounts: ix.accounts.iter().zip(accounts)
                .map(|(meta, pubkey)| BorrowedAccountMeta {
                    pubkey, is_signer: meta.signer, is_writable: meta.writable,
                }).collect(),
            data: &ix.data,
        }).collect();
    construct_instructions_data(&borrowed).map_err(|error| format!("{error:?}"))
}

/// The data of the instructions sysvar, or an error that says that it is about
/// it.
pub open spec fn sysvar_data(instructions: Seq<InstructionView>) -> Result<Seq<u8>, Seq<char>> {
    if starts_fit(instructions) {
        Ok(sysvar_bytes(instructions))
    } else {
        Err("instructions sysvar: "@ + "InstructionIndexOutOfBounds"@)
    }
}

/// Makes up the data of the instructions sysvar, see [`sysvar_data`]. The
/// runtime writes the index of the running instruction into it and programs
/// read the other instructions from it, so it holds all of them.
pub fn instructions_sysvar_data(instructions: &Vec<Instruction>) -> (res: Result<Vec<u8>, String>)
    ensures
        text::outcome(res) == sysvar_data(instructions::instruction_views(instructions@)),
{
    match construct_data(instructions) {
        Ok(data) => Ok(data),
        Err(error) => Err(joined("instructions sysvar: ", error.as_str())),
    }
}

/// The number that two bytes write.
pub open spec fn read16(data: Seq<u8>, at: int) -> nat {
    (data[at] + 256 * data[at + 1]) as nat
}

/// The account of an instruction that stands at a place.
pub open spec fn read_meta(data: Seq<u8>, at: int) -> MetaView {
    MetaView {
        key: data.subrange(at + 1, at + 33),
        signer: data[at] % 2 == 1,
        writable: data[at] / 2 % 2 == 1,
    }
}

/// The instruction that stands at a place.
pub open spec fn read_instruction(data: Seq<u8>, at: int) -> InstructionView {
    let program = at + 2 + 33 * read16(data, at);
    InstructionView {
        program_id: data.subrange(program, program + 32),
        accounts: Seq::new(read16(data, at), |k: int| read_meta(data, at + 2 + 33 * k)),
        data: data.subrange(program + 34, program + 34 + read16(data, program + 32)),
    }
}

/// The instruction of an index: the one that stands where the table says.
pub open spec fn instruction_at(data: Seq<u8>, i: int) -> InstructionView {
    read_instruction(data, read16(data, 2 + 2 * i) as int)
}

/// An instruction whose addresses are addresses and whose number of accounts
/// and length of data can be written with two bytes.
pub open spec fn can_be_written(instruction: InstructionView) -> bool {
    &&& instruction.program_id.len() == 32
    &&& instruction.accounts.len() <= 0xffff
    &&& instruction.data.len() <= 0xffff
    &&& forall|k: int|
        0 <= k < instruction.accounts.len() ==> (#[trigger] instruction.accounts[k]).key.len() == 32
}

/// The accounts take 33 bytes each, in order.
proof fn lemma_metas_bytes(metas: Seq<MetaView>)
    requires
        forall|k: int| 0 <= k < metas.len() ==> (#[trigger] metas[k]).key.len() == 32,
    ensures
        metas_bytes(metas).len() == 33 * metas.len(),
        forall|k: int|
            0 <= k < metas.len() ==> metas_bytes(metas).subrange(33 * k, 33 * k + 33)
                == meta_bytes(#[trigger] metas[k]),
    decreases metas.len(),
{
    if metas.len() > 0 {
        let rest = metas.drop_last();
        assert(forall|k: int| 0 <= k < rest.len() ==> rest[k] == metas[k]);
        lemma_metas_bytes(rest);
        assert(metas[metas.len() - 1].key.len() == 32);
        assert forall|k: int| 0 <= k < metas.len() implies metas_bytes(metas).subrange(
            33 * k,
            33 * k + 33,
        ) == meta_bytes(#[trigger] metas[k]) by {
            if k < rest.len() {
                assert(rest[k] == metas[k]);
                assert(metas_bytes(rest).subrange(33 * k, 33 * k + 33) == meta_bytes(rest[k]));
                assert(metas_bytes(metas).subrange(33 * k, 33 * k + 33) =~= metas_bytes(
                    rest,
                ).subrange(33 * k, 33 * k + 33));
            } else {
                assert(metas_bytes(metas).subrange(33 * k, 33 * k + 33) =~= meta_bytes(metas[k]));
            }
        }
    }
}

/// What the two bytes of a number that they can write read as.
proof fn lemma_le16(n: nat)
    requires
        n <= 0xffff,
    ensures
        le16(n)[0] + 256 * le16(n)[1] == n,
{
}

/// An instruction can be read back from its bytes, wherever they stand.
proof fn lemma_read_instruction(data: Seq<u8>, at: int, instruction: InstructionView)
    requires
        can_be_written(instruction),
        0 <= at,
        at + instruction_bytes(instruction).len() <= data.len(),
        data.subrange(at, at + instruction_bytes(instruction).len()) == instruction_bytes(
            instruction,
        ),
    ensures
        read_instruction(data, at) == instruction,
{
    let metas = instruction.accounts;
    let bytes = instruction_bytes(instruction);
    let count = metas.len() as int;
    lemma_metas_bytes(metas);
    lemma_le16(metas.len());
    lemma_le16(instruction.data.len());
    assert(forall|j: int| 0 <= j < bytes.len() ==> #[trigger] data[at + j] == bytes[j]) by {
        assert forall|j: int| 0 <= j < bytes.len() implies #[trigger] data[at + j] == bytes[j] by {
            assert(data.subrange(at, at + bytes.len())[j] == data[at + j]);
        }
    }
    assert(data[at + 0] == bytes[0]);
    assert(data[at + 1] == bytes[1]);
    assert(bytes[0] == le16(metas.len())[0]);
    assert(bytes[1] == le16(metas.len())[1]);
    assert(read16(data, at) == count);
    let program = at + 2 + 33 * count;
    assert(data[at + (34 + 33 * count)] == bytes[34 + 33 * count]);
    assert(data[at + (35 + 33 * count)] == bytes[35 + 33 * count]);
    assert(bytes[34 + 33 * count] == le16(instruction.data.len())[0]);
    assert(bytes[35 + 33 * count] == le16(instruction.data.len())[1]);
    assert(read16(data, program + 32) == instruction.data.len());
    let found = read_instruction(data, at);
    assert(found.program_id =~= instruction.program_id) by {
        assert forall|j: int| 0 <= j < 32 implies found.program_id[j]
            == instruction.program_id[j] by {
            assert(data[at + (2 + 33 * count + j)] == bytes[2 + 33 * count + j]);
        }
    }
    assert(found.data =~= instruction.data) by {
        assert forall|j: int| 0 <= j < instruction.data.len() implies found.data[j]
            == instruction.data[j] by {
            assert(data[at + (36 + 33 * count + j)] == bytes[36 + 33 * count + j]);
        }
    }
    assert(found.accounts =~= metas) by {
        assert forall|k: int| 0 <= k < count implies found.accounts[k] == metas[k] by {
            let part = meta_bytes(metas[k]);
            assert(metas_bytes(metas).subrange(33 * k, 33 * k + 33) == part);
            assert forall|j: int| 0 <= j < 33 implies #[trigger] data[at + (2 + 33 * k + j)]
                == part[j] by {
                assert(data[at + (2 + 33 * k + j)] == bytes[2 + 33 * k + j]);
                assert(bytes[2 + 33 * k + j] == metas_bytes(metas)[33 * k + j]);
                assert(metas_bytes(metas).subrange(33 * k, 33 * k + 33)[j] == metas_bytes(
                    metas,
                )[33 * k + j]);
            }
            assert(data[at + (2 + 33 * k + 0)] == part[0]);
            let key = data.subrange(at + 2 + 33 * k + 1, at + 2 + 33 * k + 33);
            assert(key =~= metas[k].key) by {
                assert forall|j: int| 0 <= j < 32 implies key[j] == metas[k].key[j] by {
                    assert(data[at + (2 + 33 * k + (j + 1))] == part[j + 1]);
                }
            }
        }
    }
}

/// The table takes two bytes for each start, in order.
proof fn lemma_starts_bytes(instructions: Seq<InstructionView>, count: nat)
    ensures
        starts_bytes(instructions, count).len() == 2 * count,
        forall|i: int|
            #![trigger start_of(instructions, i)]
            0 <= i < count ==> starts_bytes(instructions, count)[2 * i] == le16(
                start_of(instructions, i),
            )[0] && starts_bytes(instructions, count)[2 * i + 1] == le16(
                start_of(instructions, i),
            )[1],
    decreases count,
{
    if count > 0 {
        lemma_starts_bytes(instructions, (count - 1) as nat);
    }
}

/// The bytes of an instruction stand behind those of the ones before it.
proof fn lemma_instructions_bytes(instructions: Seq<InstructionView>, i: int)
    requires
        0 <= i < instructions.len(),
    ensures
        ({
            let all = instructions_bytes(instructions);
            let start = instructions_bytes(instructions.take(i)).len() as int;
            let bytes = instruction_bytes(instructions[i]);
            start + bytes.len() <= all.len() && all.subrange(start, start + bytes.len()) == bytes
        }),
    decreases instructions.len(),
{
    let rest = instructions.drop_last();
    let all = instructions_bytes(instructions);
    if i == rest.len() {
        assert(instructions.take(i) =~= rest);
        let start = instructions_bytes(rest).len() as int;
        assert(all.subrange(start, all.len() as int) =~= instruction_bytes(instructions[i]));
    } else {
        lemma_instructions_bytes(rest, i);
        assert(rest.take(i) =~= instructions.take(i));
        let start = instructions_bytes(rest.take(i)).len() as int;
        let bytes = instruction_bytes(instructions[i]);
        assert(all.subrange(start, start + bytes.len()) =~= instructions_bytes(rest).subrange(
            start,
            start + bytes.len(),
        ));
    }
}

/// Programs find every instruction in the sysvar: the one of each index reads
/// back as it was, with its accounts, their flags and its data. Numbers of
/// accounts and lengths of data that two bytes cannot write are cut off and do
/// not read back.
pub proof fn instructions_read_back(instructions: Seq<InstructionView>, i: int)
    requires
        starts_fit(instructions),
        0 <= i < instructions.len(),
        can_be_written(instructions[i]),
    ensures
        instruction_at(sysvar_bytes(instructions), i) == instructions[i],
{
    let data = sysvar_bytes(instructions);
    let count = instructions.len();
    let start = start_of(instructions, i);
    let bytes = instruction_bytes(instructions[i]);
    lemma_starts_bytes(instructions, count);
    lemma_le16(start);
    assert(data[2 + 2 * i] == starts_bytes(instructions, count)[2 * i]);
    assert(data[2 + 2 * i + 1] == starts_bytes(instructions, count)[2 * i + 1]);
    assert(read16(data, 2 + 2 * i) == start);
    lemma_instructions_bytes(instructions, i);
    let all = instructions_bytes(instructions);
    let inner = start - 2 - 2 * count;
    assert(data.subrange(start as int, start as int + bytes.len()) =~= all.subrange(
        inner,
        inner + bytes.len(),
    ));
    lemma_read_instruction(data, start as int, instructions[i]);
}

/// The sysvar says how many instructions there are, and that the first one is
/// the running one.
pub proof fn sysvar_starts_at_the_first_instruction(instructions: Seq<InstructionView>)
    requires
        starts_fit(instructions),
    ensures
        read16(sysvar_bytes(instructions), 0) == instructions.len(),
        read16(sysvar_bytes(instructions), sysvar_bytes(instructions).len() - 2) == 0,
{
    if instructions.len() > 0 {
        assert(start_of(instructions, 0) <= 0xffff);
    }
    lemma_le16(instructions.len());
    let data = sysvar_bytes(instructions);
    assert(data[0] == le16(instructions.len())[0]);
    assert(data[1] == le16(instructions.len())[1]);
    assert(data[data.len() - 2] == le16(0)[0]);
    assert(data[data.len() - 1] == le16(0)[1]);
}

/// The data of the instructions sysvar is just what the outside layout gives,
/// nothing taken off or added; where that has an error, the error says that it
/// is about the sysvar.
pub proof fn the_sysvar_keeps_the_constructed_data(instructions: Seq<InstructionView>)
    ensures
        match constructed_data(instructions) {
            Ok(data) => sysvar_data(instructions) == Result::<Seq<u8>, Seq<char>>::Ok(data),
            Err(error) => sysvar_data(instructions) == Result::<Seq<u8>, Seq<char>>::Err(
                "instructions sysvar: "@ + error,
            ),
        },
{
}

/// Where there is data of the instructions sysvar, it has every instruction of
/// its index as it was, their number in front, and the first one as the running
/// one at the end. What is left out is as for [`instructions_read_back`].
pub proof fn sysvar_data_reads_back(instructions: Seq<InstructionView>, i: int)
    requires
        sysvar_data(instructions) is Ok,
        0 <= i < instructions.len(),
        can_be_written(instructions[i]),
    ensures
        ({
            let data = sysvar_data(instructions)->Ok_0;
            &&& instruction_at(data, i) == instructions[i]
            &&& read16(data, 0) == instructions.len()
            &&& read16(data, data.len() - 2) == 0
        }),
{
    instructions_read_back(instructions, i);
    sysvar_starts_at_the_first_instruction(instructions);
}

} // verus!

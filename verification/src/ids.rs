//! Well-known addresses.
//!
//! Each address has its bytes as a spec function; those that the library hands
//! out have a function that asks `solana_sdk_ids` for them.

use vstd::prelude::*;

use crate::key::Key;

verus! {

/// The owner of every sysvar account. In base 58: `Sysvar1111111111111111111111111111111111111`.
pub open spec fn sysvar_owner_bytes() -> Seq<u8> {
    seq![
        6u8, 167, 213, 23, 24, 117, 247, 41, 199, 61, 147, 64, 143, 33, 97, 32,
        6, 126, 216, 140, 118, 224, 140, 40, 127, 193, 148, 96, 0, 0, 0, 0,
    ]
}

/// `solana_sdk_ids::sysvar::id` gives the address written out in
/// [`sysvar_owner_bytes`].
#[verifier::external_body]
pub(crate) fn sysvar_owner_key() -> (res: Key)
    ensures
        res@ == sysvar_owner_bytes(),
{
    Key { bytes: solana_sdk_ids::sysvar::id().to_bytes() }
}

/// The instructions sysvar. In base 58: `Sysvar1nstructions1111111111111111111111111`.
pub open spec fn instructions_sysvar_bytes() -> Seq<u8> {
    seq![
        6u8, 167, 213, 23, 24, 123, 209, 102, 53, 218, 212, 4, 85, 253, 194, 192,
        193, 36, 198, 143, 33, 86, 117, 165, 219, 186, 203, 95, 8, 0, 0, 0,
    ]
}

/// `solana_sdk_ids::sysvar::instructions::id` gives the address written out in
/// [`instructions_sysvar_bytes`].
#[verifier::external_body]
pub(crate) fn instructions_sysvar_key() -> (res: Key)
    ensures
        res@ == instructions_sysvar_bytes(),
{
    Key { bytes: solana_sdk_ids::sysvar::instructions::id().to_bytes() }
}

/// The rent sysvar. In base 58: `SysvarRent111111111111111111111111111111111`.
pub open spec fn rent_sysvar_bytes() -> Seq<u8> {
    seq![
        6u8, 167, 213, 23, 25, 44, 92, 81, 33, 140, 201, 76, 61, 74, 241, 127,
        88, 218, 238, 8, 155, 161, 253, 68, 227, 219, 217, 138, 0, 0, 0, 0,
    ]
}

/// `solana_sdk_ids::sysvar::rent::id` gives the address written out in
/// [`rent_sysvar_bytes`].
#[verifier::external_body]
pub(crate) fn rent_sysvar_key() -> (res: Key)
    ensures
        res@ == rent_sysvar_bytes(),
{
    Key { bytes: solana_sdk_ids::sysvar::rent::id().to_bytes() }
}

/// The clock sysvar. In base 58: `SysvarC1ock11111111111111111111111111111111`.
pub open spec fn clock_sysvar_bytes() -> Seq<u8> {
    seq![
        6u8, 167, 213, 23, 24, 199, 116, 201, 40, 86, 99, 152, 105, 29, 94, 182,
        139, 94, 184, 163, 155, 75, 109, 92, 115, 85, 91, 33, 0, 0, 0, 0,
    ]
}

/// `solana_sdk_ids::sysvar::clock::id` gives the address written out in
/// [`clock_sysvar_bytes`].
#[verifier::external_body]
pub(crate) fn clock_sysvar_key() -> (res: Key)
    ensures
        res@ == clock_sysvar_bytes(),
{
    Key { bytes: solana_sdk_ids::sysvar::clock::id().to_bytes() }
}

/// The epoch schedule sysvar. In base 58: `SysvarEpochSchedu1e111111111111111111111111`.
pub open spec fn epoch_schedule_sysvar_bytes() -> Seq<u8> {
    seq![
        6u8, 167, 213, 23, 24, 220, 63, 238, 2, 211, 228, 127, 1, 0, 248, 176,
        84, 247, 148, 46, 96, 89, 30, 63, 80, 135, 25, 168, 5, 0, 0, 0,
    ]
}

/// `solana_sdk_ids::sysvar::epoch_schedule::id` gives the address written out in
/// [`epoch_schedule_sysvar_bytes`].
#[verifier::external_body]
pub(crate) fn epoch_schedule_sysvar_key() -> (res: Key)
    ensures
        res@ == epoch_schedule_sysvar_bytes(),
{
    Key { bytes: solana_sdk_ids::sysvar::epoch_schedule::id().to_bytes() }
}

/// The loader that owns the programs built into the runtime. In base 58: `NativeLoader1111111111111111111111111111111`.
pub open spec fn native_loader_bytes() -> Seq<u8> {
    seq![
        5u8, 135, 132, 191, 20, 139, 164, 40, 47, 176, 18, 87, 72, 136, 169, 241,
        83, 160, 125, 173, 247, 101, 192, 69, 92, 154, 151, 3, 128, 0, 0, 0,
    ]
}

/// `solana_sdk_ids::native_loader::id` gives the address written out in
/// [`native_loader_bytes`].
#[verifier::external_body]
pub(crate) fn native_loader_key() -> (res: Key)
    ensures
        res@ == native_loader_bytes(),
{
    Key { bytes: solana_sdk_ids::native_loader::id().to_bytes() }
}

/// The loader of upgradeable programs. In base 58: `BPFLoaderUpgradeab1e11111111111111111111111`.
pub open spec fn upgradeable_loader_bytes() -> Seq<u8> {
    seq![
        2u8, 168, 246, 145, 78, 136, 161, 176, 226, 16, 21, 62, 247, 99, 174, 43,
        0, 194, 185, 61, 22, 193, 36, 210, 192, 83, 122, 16, 4, 128, 0, 0,
    ]
}

/// `solana_sdk_ids::bpf_loader_upgradeable::id` gives the address written out in
/// [`upgradeable_loader_bytes`].
#[verifier::external_body]
pub(crate) fn upgradeable_loader_key() -> (res: Key)
    ensures
        res@ == upgradeable_loader_bytes(),
{
    Key { bytes: solana_sdk_ids::bpf_loader_upgradeable::id().to_bytes() }
}

/// The loader of programs that cannot be upgraded. In base 58: `BPFLoader2111111111111111111111111111111111`.
pub open spec fn loader_bytes() -> Seq<u8> {
    seq![
        2u8, 168, 246, 145, 78, 136, 161, 110, 57, 90, 225, 40, 148, 143, 250, 105,
        86, 147, 55, 104, 24, 221, 71, 67, 82, 33, 243, 198, 0, 0, 0, 0,
    ]
}

/// `solana_sdk_ids::bpf_loader::id` gives the address written out in
/// [`loader_bytes`].
#[verifier::external_body]
pub(crate) fn loader_key() -> (res: Key)
    ensures
        res@ == loader_bytes(),
{
    Key { bytes: solana_sdk_ids::bpf_loader::id().to_bytes() }
}

/// The first loader, kept for old programs. In base 58: `BPFLoader1111111111111111111111111111111111`.
pub open spec fn deprecated_loader_bytes() -> Seq<u8> {
    seq![
        2u8, 168, 246, 145, 78, 136, 161, 107, 189, 35, 149, 133, 95, 100, 4, 217,
        180, 244, 86, 183, 130, 27, 176, 20, 87, 73, 66, 140, 0, 0, 0, 0,
    ]
}

/// `solana_sdk_ids::bpf_loader_deprecated::id` gives the address written out in
/// [`deprecated_loader_bytes`].
#[verifier::external_body]
pub(crate) fn deprecated_loader_key() -> (res: Key)
    ensures
        res@ == deprecated_loader_bytes(),
{
    Key { bytes: solana_sdk_ids::bpf_loader_deprecated::id().to_bytes() }
}

/// The compute budget program. In base 58: `ComputeBudget111111111111111111111111111111`.
pub open spec fn compute_budget_bytes() -> Seq<u8> {
    seq![
        3u8, 6, 70, 111, 229, 33, 23, 50, 255, 236, 173, 186, 114, 195, 155, 231,
        188, 140, 229, 187, 197, 247, 18, 107, 44, 67, 155, 58, 64, 0, 0, 0,
    ]
}

/// `solana_sdk_ids::compute_budget::id` gives the address written out in
/// [`compute_budget_bytes`].
#[verifier::external_body]
pub(crate) fn compute_budget_key() -> (res: Key)
    ensures
        res@ == compute_budget_bytes(),
{
    Key { bytes: solana_sdk_ids::compute_budget::id().to_bytes() }
}

/// The system program. In base 58: `11111111111111111111111111111111`.
pub open spec fn system_program_bytes() -> Seq<u8> {
    seq![
        0u8, 0, 0, 0, 0, 0, 0, 0, 0, 0, 0, 0, 0, 0, 0, 0,
        0, 0, 0, 0, 0, 0, 0, 0, 0, 0, 0, 0, 0, 0, 0, 0,
    ]
}

/// `solana_sdk_ids::system_program::id` gives the address written out in
/// [`system_program_bytes`].
#[verifier::external_body]
pub(crate) fn system_program_key() -> (res: Key)
    ensures
        res@ == system_program_bytes(),
{
    Key { bytes: solana_sdk_ids::system_program::id().to_bytes() }
}

/// The epoch rewards sysvar. In base 58: `SysvarEpochRewards1111111111111111111111111`.
pub open spec fn epoch_rewards_sysvar_bytes() -> Seq<u8> {
    seq![
        6u8, 167, 213, 23, 24, 220, 63, 238, 2, 165, 88, 191, 131, 206, 102, 225,
        68, 66, 42, 28, 52, 149, 11, 39, 193, 134, 155, 90, 156, 0, 0, 0,
    ]
}

/// The slot hashes sysvar. In base 58: `SysvarS1otHashes111111111111111111111111111`.
pub open spec fn slot_hashes_sysvar_bytes() -> Seq<u8> {
    seq![
        6u8, 167, 213, 23, 25, 47, 10, 175, 198, 242, 101, 227, 251, 119, 204, 122,
        218, 130, 197, 41, 208, 190, 59, 19, 110, 45, 0, 85, 32, 0, 0, 0,
    ]
}

/// The stake history sysvar. In base 58: `SysvarStakeHistory1111111111111111111111111`.
pub open spec fn stake_history_sysvar_bytes() -> Seq<u8> {
    seq![
        6u8, 167, 213, 23, 25, 53, 132, 208, 254, 237, 155, 179, 67, 29, 19, 32,
        107, 229, 68, 40, 27, 87, 184, 86, 108, 197, 55, 95, 244, 0, 0, 0,
    ]
}

/// The last restart slot sysvar. In base 58: `SysvarLastRestartS1ot1111111111111111111111`.
pub open spec fn last_restart_slot_sysvar_bytes() -> Seq<u8> {
    seq![
        6u8, 167, 213, 23, 25, 6, 221, 225, 205, 63, 148, 125, 202, 180, 200, 244,
        244, 245, 27, 173, 15, 152, 19, 184, 0, 210, 137, 71, 31, 192, 0, 0,
    ]
}

/// The fees sysvar. In base 58: `SysvarFees111111111111111111111111111111111`.
pub open spec fn fees_sysvar_bytes() -> Seq<u8> {
    seq![
        6u8, 167, 213, 23, 24, 226, 90, 141, 131, 80, 60, 37, 26, 122, 240, 113,
        38, 253, 114, 0, 223, 111, 196, 237, 82, 106, 156, 144, 0, 0, 0, 0,
    ]
}

/// The recent blockhashes sysvar. In base 58: `SysvarRecentB1ockHashes11111111111111111111`.
pub open spec fn recent_blockhashes_sysvar_bytes() -> Seq<u8> {
    seq![
        6u8, 167, 213, 23, 25, 44, 86, 142, 224, 138, 132, 95, 115, 210, 151, 136,
        207, 3, 92, 49, 69, 178, 26, 179, 68, 216, 6, 46, 169, 64, 0, 0,
    ]
}

} // verus!

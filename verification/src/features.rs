//! The runtime features that a replay runs with.

use vstd::prelude::*;

use solana_svm_feature_set::SVMFeatureSet;

verus! {

/// The feature set of the program runtime, `solana_svm_feature_set::SVMFeatureSet`:
/// a public flag for each feature.
#[verifier::external_type_specification]
pub struct ExSVMFeatureSet(SVMFeatureSet);

/// The feature set with every flag set.
pub open spec fn every_feature() -> SVMFeatureSet {
    SVMFeatureSet {
        move_precompile_verification_to_svm: true,
        syscall_parameter_address_restrictions: true,
        virtual_address_space_adjustments: true,
        account_data_direct_mapping: true,
        enable_bpf_loader_set_authority_checked_ix: true,
        deplete_cu_meter_on_vm_failure: true,
        abort_on_invalid_curve: true,
        blake3_syscall_enabled: true,
        curve25519_syscall_enabled: true,
        disable_fees_sysvar: true,
        disable_sbpf_v0_execution: true,
        disable_sbpf_v0_v1_v2_deployment: true,
        enable_alt_bn128_compression_syscall: true,
        enable_alt_bn128_syscall: true,
        enable_big_mod_exp_syscall: true,
        enable_get_epoch_stake_syscall: true,
        enable_poseidon_syscall: true,
        enable_sbpf_v1_deployment_and_execution: true,
        enable_sbpf_v2_deployment_and_execution: true,
        enable_sbpf_v3_deployment_and_execution: true,
        get_sysvar_syscall_enabled: true,
        last_restart_slot_sysvar: true,
        reenable_sbpf_v0_execution: true,
        remaining_compute_units_syscall_enabled: true,
        remove_bpf_loader_incorrect_program_id: true,
        move_stake_and_move_lamports_ixs: true,
        deprecate_legacy_vote_ixs: true,
        simplify_alt_bn128_syscall_error_codes: true,
        fix_alt_bn128_multiplication_input_length: true,
        increase_tx_account_lock_limit: true,
        formalize_loaded_transaction_data_size: true,
        disable_zk_elgamal_proof_program: true,
        reenable_zk_elgamal_proof_program: true,
        delay_commission_updates: true,
        raise_cpi_nesting_limit_to_8: true,
        increase_cpi_account_info_limit: true,
        poseidon_enforce_padding: true,
        fix_alt_bn128_pairing_length_check: true,
        alt_bn128_little_endian: true,
        create_account_allow_prefund: true,
        bls_pubkey_management_in_vote_account: true,
        enable_alt_bn128_g2_syscalls: true,
        commission_rate_in_basis_points: true,
        custom_commission_collector: true,
        enable_bls12_381_syscall: true,
        block_revenue_sharing: true,
        vote_account_initialize_v2: true,
        direct_account_pointers_in_program_input: true,
        loader_v3_minimum_extend_program_size: true,
        enable_sha512_syscall: true,
        relax_post_exec_min_balance_check: true,
        define_ltds_fee_only_semantics: true,
    }
}

/// `SVMFeatureSet::all_enabled` sets every flag.
pub assume_specification[ SVMFeatureSet::all_enabled ]() -> (res: SVMFeatureSet)
    ensures
        res == every_feature(),
;

/// The features that a replay runs with: all of them, but the address space
/// adjustments only where they are asked for. Mainnet has not activated them,
/// and the runtime derives the aligned memory mapping and the stack frame gaps
/// from that flag: with it set, programs would run on the unaligned mapping.
pub open spec fn replay_features(virtual_address_space_adjustments: bool) -> SVMFeatureSet {
    SVMFeatureSet { virtual_address_space_adjustments, ..every_feature() }
}

/// The features that a replay runs with, see [`replay_features`].
pub fn feature_set(virtual_address_space_adjustments: bool) -> (res: SVMFeatureSet)
    ensures
        res == replay_features(virtual_address_space_adjustments),
{
    let mut set: SVMFeatureSet = SVMFeatureSet::all_enabled();
    set.virtual_address_space_adjustments = virtual_address_space_adjustments;
    set
}

/// The address space adjustments are on exactly where they are asked for, and
/// every other feature is on either way: with them the feature set is the full
/// one, and nothing else changes without them.
pub proof fn only_the_adjustments_can_be_off(asked: bool)
    ensures
        replay_features(asked).virtual_address_space_adjustments == asked,
        (SVMFeatureSet { virtual_address_space_adjustments: true, ..replay_features(asked) })
            == every_feature(),
        replay_features(true) == every_feature(),
{
}

/// Every flag but that of the address space adjustments is set in a replay.
pub proof fn every_other_flag_is_set(asked: bool)
    ensures
        replay_features(asked).move_precompile_verification_to_svm,
        replay_features(asked).syscall_parameter_address_restrictions,
        replay_features(asked).account_data_direct_mapping,
        replay_features(asked).enable_bpf_loader_set_authority_checked_ix,
        replay_features(asked).deplete_cu_meter_on_vm_failure,
        replay_features(asked).abort_on_invalid_curve,
        replay_features(asked).blake3_syscall_enabled,
        replay_features(asked).curve25519_syscall_enabled,
        replay_features(asked).disable_fees_sysvar,
        replay_features(asked).disable_sbpf_v0_execution,
        replay_features(asked).disable_sbpf_v0_v1_v2_deployment,
        replay_features(asked).enable_alt_bn128_compression_syscall,
        replay_features(asked).enable_alt_bn128_syscall,
        replay_features(asked).enable_big_mod_exp_syscall,
        replay_features(asked).enable_get_epoch_stake_syscall,
        replay_features(asked).enable_poseidon_syscall,
        replay_features(asked).enable_sbpf_v1_deployment_and_execution,
        replay_features(asked).enable_sbpf_v2_deployment_and_execution,
        replay_features(asked).enable_sbpf_v3_deployment_and_execution,
        replay_features(asked).get_sysvar_syscall_enabled,
        replay_features(asked).last_restart_slot_sysvar,
        replay_features(asked).reenable_sbpf_v0_execution,
        replay_features(asked).remaining_compute_units_syscall_enabled,
        replay_features(asked).remove_bpf_loader_incorrect_program_id,
        replay_features(asked).move_stake_and_move_lamports_ixs,
        replay_features(asked).deprecate_legacy_vote_ixs,
        replay_features(asked).simplify_alt_bn128_syscall_error_codes,
        replay_features(asked).fix_alt_bn128_multiplication_input_length,
        replay_features(asked).increase_tx_account_lock_limit,
        replay_features(asked).formalize_loaded_transaction_data_size,
        replay_features(asked).disable_zk_elgamal_proof_program,
        replay_features(asked).reenable_zk_elgamal_proof_program,
        replay_features(asked).delay_commission_updates,
        replay_features(asked).raise_cpi_nesting_limit_to_8,
        replay_features(asked).increase_cpi_account_info_limit,
        replay_features(asked).poseidon_enforce_padding,
        replay_features(asked).fix_alt_bn128_pairing_length_check,
        replay_features(asked).alt_bn128_little_endian,
        replay_features(asked).create_account_allow_prefund,
        replay_features(asked).bls_pubkey_management_in_vote_account,
        replay_features(asked).enable_alt_bn128_g2_syscalls,
        replay_features(asked).commission_rate_in_basis_points,
        replay_features(asked).custom_commission_collector,
        replay_features(asked).enable_bls12_381_syscall,
        replay_features(asked).block_revenue_sharing,
        replay_features(asked).vote_account_initialize_v2,
        replay_features(asked).direct_account_pointers_in_program_input,
        replay_features(asked).loader_v3_minimum_extend_program_size,
        replay_features(asked).enable_sha512_syscall,
        replay_features(asked).relax_post_exec_min_balance_check,
        replay_features(asked).define_ltds_fee_only_semantics,
{
}

} // verus!

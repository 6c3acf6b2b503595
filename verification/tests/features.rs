use mainnet_replay::features::feature_set;

#[test]
fn all_features_but_the_adjustments_are_on() {
    let set = feature_set(false);
    assert!(!set.virtual_address_space_adjustments);
    assert!(set.move_precompile_verification_to_svm);
    assert!(set.account_data_direct_mapping);
    assert!(set.raise_cpi_nesting_limit_to_8);
    assert!(set.define_ltds_fee_only_semantics);
}

#[test]
fn the_adjustments_come_on_when_asked_for() {
    let set = feature_set(true);
    assert!(set.virtual_address_space_adjustments);
    assert!(set.syscall_parameter_address_restrictions);
}

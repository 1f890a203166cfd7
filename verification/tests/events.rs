//! The event schema's exact JSON renderings.

use sedimentology::archive::build_state_bundle;
use sedimentology::events::{
    AdaptiveFeeConstants, AdaptiveFeeTierInitializedEventOrigin,
    AdaptiveFeeTierInitializedEventPayload, AdaptiveFeeTierUpdatedEventOrigin,
    AdaptiveFeeTierUpdatedEventPayload, PoolMigratedEventOrigin, PoolMigratedEventPayload,
    PositionBundleDeletedEventOrigin, PositionBundleDeletedEventPayload,
    ProtocolFeesCollectedEventOrigin, ProtocolFeesCollectedEventPayload,
    RewardInitializedEventOrigin, RewardInitializedEventPayload, TokenBadgeUpdatedEventOrigin,
    TokenBadgeUpdatedEventPayload, TokenProgram, TransferInfo,
};
use sedimentology::events::{
    AdaptiveFeeVariables, PoolInitializedEventOrigin, PositionClosedEventOrigin,
    PositionLockType, PositionLockedEventOrigin, PositionLockedTransferredEventOrigin,
    PositionOpenedEventOrigin, PositionRangeResetEventOrigin, PositionType,
};
use sedimentology::schema::{TokenDecimals, WhirlpoolStateAccount};
use std::io::Read;

fn constants() -> AdaptiveFeeConstants {
    AdaptiveFeeConstants {
        filter_period: 30,
        decay_period: 600,
        reduction_factor: 500,
        adaptive_fee_control_factor: 4000,
        max_volatility_accumulator: 350000,
        tick_group_size: 64,
        major_swap_threshold_ticks: 32,
    }
}

#[test]
fn transfer_info_renders_with_and_without_fee() {
    let plain = TransferInfo {
        mint: "M1".to_string(),
        amount: 12345678901234567890,
        decimals: 6,
        transfer_fee_bps: None,
        transfer_fee_max: None,
    };
    assert_eq!(plain.to_json(), "{\"m\":\"M1\",\"a\":\"12345678901234567890\",\"d\":6}");
    let with_fee = TransferInfo {
        mint: "M2".to_string(),
        amount: 5,
        decimals: 9,
        transfer_fee_bps: Some(100),
        transfer_fee_max: Some(77),
    };
    assert_eq!(
        with_fee.to_json(),
        "{\"m\":\"M2\",\"a\":\"5\",\"d\":9,\"tfb\":100,\"tfm\":\"77\"}"
    );
}

#[test]
fn pool_migrated_renders() {
    let p = PoolMigratedEventPayload {
        origin: PoolMigratedEventOrigin::MigrateRepurposeRewardAuthoritySpace,
        whirlpool: "W".to_string(),
    };
    assert_eq!(p.to_json(), "{\"o\":\"mrras\",\"w\":\"W\"}");
}

#[test]
fn position_bundle_deleted_renders() {
    let p = PositionBundleDeletedEventPayload {
        origin: PositionBundleDeletedEventOrigin::DeletePositionBundle,
        position_bundle: "PB".to_string(),
        position_bundle_mint: "PBM".to_string(),
        position_bundle_owner: "PBO".to_string(),
    };
    assert_eq!(
        p.to_json(),
        "{\"o\":\"dpb\",\"pb\":\"PB\",\"pbm\":\"PBM\",\"pbo\":\"PBO\"}"
    );
}

#[test]
fn protocol_fees_collected_renders() {
    let t = |m: &str| TransferInfo {
        mint: m.to_string(),
        amount: 1,
        decimals: 2,
        transfer_fee_bps: None,
        transfer_fee_max: None,
    };
    let p = ProtocolFeesCollectedEventPayload {
        origin: ProtocolFeesCollectedEventOrigin::CollectProtocolFeesV2,
        config: "C".to_string(),
        whirlpool: "W".to_string(),
        collect_protocol_fees_authority: "A".to_string(),
        transfer_a: t("MA"),
        transfer_b: t("MB"),
    };
    assert_eq!(
        p.to_json(),
        "{\"o\":\"cpfv2\",\"c\":\"C\",\"w\":\"W\",\"cpfa\":\"A\",\
         \"ta\":{\"m\":\"MA\",\"a\":\"1\",\"d\":2},\"tb\":{\"m\":\"MB\",\"a\":\"1\",\"d\":2}}"
    );
}

#[test]
fn reward_initialized_renders() {
    let p = RewardInitializedEventPayload {
        origin: RewardInitializedEventOrigin::InitializeReward,
        whirlpool: "W".to_string(),
        reward_index: 2,
        reward_mint: "RM".to_string(),
        reward_token_program: TokenProgram::Token2022,
        reward_decimal: 5,
    };
    assert_eq!(
        p.to_json(),
        "{\"o\":\"ir\",\"w\":\"W\",\"ri\":2,\"rm\":\"RM\",\"rtp\":\"t2\",\"rd\":5}"
    );
}

#[test]
fn token_badge_updated_renders() {
    let p = TokenBadgeUpdatedEventPayload {
        origin: TokenBadgeUpdatedEventOrigin::SetTokenBadgeAttribute,
        config: "C".to_string(),
        token_mint: "TM".to_string(),
        token_badge: "TB".to_string(),
        old_attribute_require_non_transferable_position: false,
        new_attribute_require_non_transferable_position: true,
    };
    assert_eq!(
        p.to_json(),
        "{\"o\":\"stba\",\"c\":\"C\",\"tm\":\"TM\",\"tb\":\"TB\",\
         \"oarntp\":false,\"narntp\":true}"
    );
}

#[test]
fn adaptive_fee_tier_initialized_renders() {
    let p = AdaptiveFeeTierInitializedEventPayload {
        origin: AdaptiveFeeTierInitializedEventOrigin::InitializeAdaptiveFeeTier,
        config: "C".to_string(),
        adaptive_fee_tier: "AFT".to_string(),
        fee_tier_index: 1,
        tick_spacing: 64,
        initialize_pool_authority: "IPA".to_string(),
        delegated_fee_authority: "DFA".to_string(),
        default_base_fee_rate: 3000,
        adaptive_fee_constants: constants(),
    };
    assert_eq!(
        p.to_json(),
        "{\"o\":\"iaft\",\"c\":\"C\",\"aft\":\"AFT\",\"fti\":1,\"ts\":64,\
         \"ipa\":\"IPA\",\"dfa\":\"DFA\",\"dbfr\":3000,\
         \"afc\":{\"fp\":30,\"dp\":600,\"rf\":500,\"afcf\":4000,\"mva\":350000,\
         \"tgs\":64,\"mstt\":32}}"
    );
}

#[test]
fn adaptive_fee_tier_updated_renders() {
    let p = AdaptiveFeeTierUpdatedEventPayload {
        origin: AdaptiveFeeTierUpdatedEventOrigin::SetDefaultBaseFeeRate,
        config: "C".to_string(),
        adaptive_fee_tier: "AFT".to_string(),
        fee_tier_index: 1,
        tick_spacing: 8,
        old_initialize_pool_authority: "O1".to_string(),
        new_initialize_pool_authority: "N1".to_string(),
        old_delegated_fee_authority: "O2".to_string(),
        new_delegated_fee_authority: "N2".to_string(),
        old_default_base_fee_rate: 100,
        new_default_base_fee_rate: 200,
        old_adaptive_fee_constants: constants(),
        new_adaptive_fee_constants: constants(),
    };
    let json = p.to_json();
    assert!(json.starts_with("{\"o\":\"sdbfr\",\"c\":\"C\",\"aft\":\"AFT\",\"fti\":1,\"ts\":8,"));
    assert!(json.contains("\"odbfr\":100,\"ndbfr\":200,"));
    assert!(json.contains("\"oafc\":{\"fp\":30,"));
    assert!(json.ends_with("\"tgs\":64,\"mstt\":32}}"));
}

#[test]
fn state_bundle_renders_accounts_decimals_and_program() {
    let accounts = vec![
        WhirlpoolStateAccount { pubkey: "A1".to_string(), data: vec![1, 2] },
        WhirlpoolStateAccount { pubkey: "A2".to_string(), data: vec![] },
    ];
    let decimals = vec![TokenDecimals { mint: "M".to_string(), decimals: 6 }];
    let bundle = build_state_bundle(500, 40, 123456, &accounts, decimals, &[9, 8]);
    let mut dec = flate2::read::GzDecoder::new(bundle.as_slice());
    let mut text = String::new();
    dec.read_to_string(&mut text).unwrap();
    assert_eq!(
        text,
        "{\"slot\":500,\"block_height\":40,\"block_time\":123456,\
         \"accounts\":[{\"pubkey\":\"A1\",\"data\":[1,2]},{\"pubkey\":\"A2\",\"data\":[]}],\
         \"decimals\":[{\"mint\":\"M\",\"decimals\":6}],\"program_data\":[9,8]}"
    );
}

#[test]
fn origin_tags_render() {
    let mut s = String::new();
    PoolInitializedEventOrigin::InitializePoolWithAdaptiveFee.append_json(&mut s);
    assert_eq!(s, "\"ipwaf\"");
    let mut s = String::new();
    PositionClosedEventOrigin::CloseBundledPosition.append_json(&mut s);
    assert_eq!(s, "\"cbp\"");
    let mut s = String::new();
    PositionOpenedEventOrigin::OpenPositionWithTokenExtensions.append_json(&mut s);
    assert_eq!(s, "\"opwte\"");
    let mut s = String::new();
    PositionType::BundledPosition.append_json(&mut s);
    assert_eq!(s, "\"bp\"");
    let mut s = String::new();
    PositionLockType::Permanent.append_json(&mut s);
    assert_eq!(s, "{\"n\":\"p\"}");
    let mut s = String::new();
    PositionLockedEventOrigin::LockPosition.append_json(&mut s);
    assert_eq!(s, "\"lp\"");
    let mut s = String::new();
    PositionLockedTransferredEventOrigin::TranssferLockedPosition.append_json(&mut s);
    assert_eq!(s, "\"tlp\"");
    let mut s = String::new();
    PositionRangeResetEventOrigin::ResetPositionRange.append_json(&mut s);
    assert_eq!(s, "\"rpr\"");
}

#[test]
fn adaptive_fee_variables_render() {
    let v = AdaptiveFeeVariables {
        last_reference_update_timestamp: 1704067200,
        last_major_swap_timestamp: 1704067100,
        volatility_reference: 10,
        tick_group_index_reference: -5,
        volatility_accumulator: 777,
    };
    assert_eq!(
        v.to_json(),
        "{\"lrut\":\"1704067200\",\"lmst\":\"1704067100\",\"vr\":10,\"tgir\":-5,\"va\":777}"
    );
}

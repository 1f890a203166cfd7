//! The archived event schema: payload records with their stable short JSON
//! keys, rendered exactly.
//!
//! Every field uses its fixed one- or two-letter key; wide integers that
//! would overflow a reader's floats are written as decimal strings; origin
//! tags are short strings; absent optional fields are left out.

use vstd::prelude::*;
use vstd::string::StringExecFns;
use crate::digits::{append_i64, append_u64, push_char, spec_i64_digits, spec_u64_digits};
use crate::jsontext::{append_json_string, spec_json_string};

verus! {

/// A public key in its text form.
pub type PubkeyString = String;

/// A token's decimal count.
pub type Decimals = u8;

/// A number rendered as a JSON string of its decimal digits.
pub open spec fn spec_u64_string_json(n: int) -> Seq<char> {
    seq!['"'] + spec_u64_digits(n) + seq!['"']
}

/// A boolean in JSON.
pub open spec fn spec_bool_json(b: bool) -> Seq<char> {
    if b {
        "true"@
    } else {
        "false"@
    }
}

/// Append a number as a JSON string.
fn append_u64_string(out: &mut String, n: u64)
    ensures
        final(out)@ == old(out)@ + spec_u64_string_json(n as int),
{
    push_char(out, '"');
    append_u64(out, n);
    push_char(out, '"');
    proof {
        assert(final(out)@ =~= old(out)@ + spec_u64_string_json(n as int));
    }
}

/// Append a boolean.
fn append_bool(out: &mut String, b: bool)
    ensures
        final(out)@ == old(out)@ + spec_bool_json(b),
{
    if b {
        out.append("true");
    } else {
        out.append("false");
    }
}

/// Which token program an account belongs to.
#[derive(Debug, Clone, Copy, PartialEq, Eq, Structural)]
pub enum TokenProgram {
    Token,
    Token2022,
}

/// A token program's JSON tag.
pub open spec fn spec_token_program_json(t: TokenProgram) -> Seq<char> {
    match t {
        TokenProgram::Token => "\"t\""@,
        TokenProgram::Token2022 => "\"t2\""@,
    }
}

impl TokenProgram {
    /// Append this token program's tag.
    pub fn append_json(&self, out: &mut String)
        ensures
            final(out)@ == old(out)@ + spec_token_program_json(*self),
    {
        match self {
            TokenProgram::Token => out.append("\"t\""),
            TokenProgram::Token2022 => out.append("\"t2\""),
        }
    }
}

/// One token transfer: mint, raw amount and decimals, with the transfer
/// fee's terms when the token carries one.
#[derive(Debug, Clone)]
pub struct TransferInfo {
    pub mint: PubkeyString,
    pub amount: u64,
    pub decimals: Decimals,
    pub transfer_fee_bps: Option<u16>,
    pub transfer_fee_max: Option<u64>,
}

/// A transfer's JSON object; the fee fields appear only when set.
pub open spec fn spec_transfer_info_json(t: TransferInfo) -> Seq<char> {
    "{\"m\":"@ + spec_json_string(t.mint@) + ",\"a\":"@ + spec_u64_string_json(t.amount as int)
        + ",\"d\":"@ + spec_u64_digits(t.decimals as int) + (match t.transfer_fee_bps {
        Some(b) => ",\"tfb\":"@ + spec_u64_digits(b as int),
        None => Seq::empty(),
    }) + (match t.transfer_fee_max {
        Some(m) => ",\"tfm\":"@ + spec_u64_string_json(m as int),
        None => Seq::empty(),
    }) + "}"@
}

impl TransferInfo {
    /// Append this transfer as JSON.
    pub fn append_json(&self, out: &mut String)
        ensures
            final(out)@ == old(out)@ + spec_transfer_info_json(*self),
    {
        out.append("{\"m\":");
        append_json_string(out, self.mint.as_str());
        out.append(",\"a\":");
        append_u64_string(out, self.amount);
        out.append(",\"d\":");
        append_u64(out, self.decimals as u64);
        match self.transfer_fee_bps {
            Some(b) => {
                out.append(",\"tfb\":");
                append_u64(out, b as u64);
            },
            None => {
            },
        }
        match self.transfer_fee_max {
            Some(m) => {
                out.append(",\"tfm\":");
                append_u64_string(out, m);
            },
            None => {
            },
        }
        out.append("}");
        proof {
            assert(final(out)@ =~= old(out)@ + spec_transfer_info_json(*self));
        }
    }

    /// This transfer as a JSON string.
    pub fn to_json(&self) -> (r: String)
        ensures
            r@ == spec_transfer_info_json(*self),
    {
        let mut out = String::new();
        self.append_json(&mut out);
        out
    }
}

/// An adaptive fee tier's fixed terms.
#[derive(Debug, Clone, Copy, PartialEq, Eq, Structural)]
pub struct AdaptiveFeeConstants {
    pub filter_period: u16,
    pub decay_period: u16,
    pub reduction_factor: u16,
    pub adaptive_fee_control_factor: u32,
    pub max_volatility_accumulator: u32,
    pub tick_group_size: u16,
    pub major_swap_threshold_ticks: u16,
}

/// The constants' JSON object.
pub open spec fn spec_adaptive_fee_constants_json(c: AdaptiveFeeConstants) -> Seq<char> {
    "{\"fp\":"@ + spec_u64_digits(c.filter_period as int) + ",\"dp\":"@ + spec_u64_digits(
        c.decay_period as int,
    ) + ",\"rf\":"@ + spec_u64_digits(c.reduction_factor as int) + ",\"afcf\":"@ + spec_u64_digits(
        c.adaptive_fee_control_factor as int,
    ) + ",\"mva\":"@ + spec_u64_digits(c.max_volatility_accumulator as int) + ",\"tgs\":"@
        + spec_u64_digits(c.tick_group_size as int) + ",\"mstt\":"@ + spec_u64_digits(
        c.major_swap_threshold_ticks as int,
    ) + "}"@
}

impl AdaptiveFeeConstants {
    /// Append these constants as JSON.
    pub fn append_json(&self, out: &mut String)
        ensures
            final(out)@ == old(out)@ + spec_adaptive_fee_constants_json(*self),
    {
        out.append("{\"fp\":");
        append_u64(out, self.filter_period as u64);
        out.append(",\"dp\":");
        append_u64(out, self.decay_period as u64);
        out.append(",\"rf\":");
        append_u64(out, self.reduction_factor as u64);
        out.append(",\"afcf\":");
        append_u64(out, self.adaptive_fee_control_factor as u64);
        out.append(",\"mva\":");
        append_u64(out, self.max_volatility_accumulator as u64);
        out.append(",\"tgs\":");
        append_u64(out, self.tick_group_size as u64);
        out.append(",\"mstt\":");
        append_u64(out, self.major_swap_threshold_ticks as u64);
        out.append("}");
        proof {
            assert(final(out)@ =~= old(out)@ + spec_adaptive_fee_constants_json(*self));
        }
    }
}

/// An adaptive fee tier's moving parts.
#[derive(Debug, Clone, Copy, PartialEq, Eq, Structural)]
pub struct AdaptiveFeeVariables {
    pub last_reference_update_timestamp: u64,
    pub last_major_swap_timestamp: u64,
    pub volatility_reference: u32,
    pub tick_group_index_reference: i32,
    pub volatility_accumulator: u32,
}

/// The variables' JSON object; the timestamps are written as strings.
pub open spec fn spec_adaptive_fee_variables_json(v: AdaptiveFeeVariables) -> Seq<char> {
    "{\"lrut\":"@ + spec_u64_string_json(v.last_reference_update_timestamp as int) + ",\"lmst\":"@
        + spec_u64_string_json(v.last_major_swap_timestamp as int) + ",\"vr\":"@ + spec_u64_digits(
        v.volatility_reference as int,
    ) + ",\"tgir\":"@ + spec_i64_digits(v.tick_group_index_reference as int) + ",\"va\":"@
        + spec_u64_digits(v.volatility_accumulator as int) + "}"@
}

impl AdaptiveFeeVariables {
    /// Append these variables as JSON.
    pub fn append_json(&self, out: &mut String)
        ensures
            final(out)@ == old(out)@ + spec_adaptive_fee_variables_json(*self),
    {
        out.append("{\"lrut\":");
        append_u64_string(out, self.last_reference_update_timestamp);
        out.append(",\"lmst\":");
        append_u64_string(out, self.last_major_swap_timestamp);
        out.append(",\"vr\":");
        append_u64(out, self.volatility_reference as u64);
        out.append(",\"tgir\":");
        append_i64(out, self.tick_group_index_reference as i64);
        out.append(",\"va\":");
        append_u64(out, self.volatility_accumulator as u64);
        out.append("}");
        proof {
            assert(final(out)@ =~= old(out)@ + spec_adaptive_fee_variables_json(*self));
        }
    }
}

/// Where an adaptive-fee-tier-initialized event came from.
#[derive(Debug, Clone, Copy, PartialEq, Eq, Structural)]
pub enum AdaptiveFeeTierInitializedEventOrigin {
    InitializeAdaptiveFeeTier,
}

/// The origin's JSON tag.
pub open spec fn spec_adaptive_fee_tier_initialized_origin_json(
    o: AdaptiveFeeTierInitializedEventOrigin,
) -> Seq<char> {
    "\"iaft\""@
}

/// Where an adaptive-fee-tier-updated event came from.
#[derive(Debug, Clone, Copy, PartialEq, Eq, Structural)]
pub enum AdaptiveFeeTierUpdatedEventOrigin {
    SetInitializePoolAuthority,
    SetDelegatedFeeAuthority,
    SetDefaultBaseFeeRate,
    SetPresetAdaptiveFeeConstants,
}

/// The origin's JSON tag.
pub open spec fn spec_adaptive_fee_tier_updated_origin_json(
    o: AdaptiveFeeTierUpdatedEventOrigin,
) -> Seq<char> {
    match o {
        AdaptiveFeeTierUpdatedEventOrigin::SetInitializePoolAuthority => "\"sipa\""@,
        AdaptiveFeeTierUpdatedEventOrigin::SetDelegatedFeeAuthority => "\"sdfa\""@,
        AdaptiveFeeTierUpdatedEventOrigin::SetDefaultBaseFeeRate => "\"sdbfr\""@,
        AdaptiveFeeTierUpdatedEventOrigin::SetPresetAdaptiveFeeConstants => "\"spafc\""@,
    }
}

/// Where a pool-initialized event came from.
#[derive(Debug, Clone, Copy, PartialEq, Eq, Structural)]
pub enum PoolInitializedEventOrigin {
    InitializePool,
    InitializePoolV2,
    InitializePoolWithAdaptiveFee,
}

/// The origin's JSON tag.
pub open spec fn spec_pool_initialized_origin_json(o: PoolInitializedEventOrigin) -> Seq<char> {
    match o {
        PoolInitializedEventOrigin::InitializePool => "\"ip\""@,
        PoolInitializedEventOrigin::InitializePoolV2 => "\"ipv2\""@,
        PoolInitializedEventOrigin::InitializePoolWithAdaptiveFee => "\"ipwaf\""@,
    }
}

/// Where a pool-migrated event came from.
#[derive(Debug, Clone, Copy, PartialEq, Eq, Structural)]
pub enum PoolMigratedEventOrigin {
    MigrateRepurposeRewardAuthoritySpace,
}

/// The origin's JSON tag.
pub open spec fn spec_pool_migrated_origin_json(o: PoolMigratedEventOrigin) -> Seq<char> {
    "\"mrras\""@
}

/// A pool was migrated to a new account layout.
#[derive(Debug, Clone)]
pub struct PoolMigratedEventPayload {
    pub origin: PoolMigratedEventOrigin,
    pub whirlpool: PubkeyString,
}

/// The payload's JSON object.
pub open spec fn spec_pool_migrated_json(p: PoolMigratedEventPayload) -> Seq<char> {
    "{\"o\":"@ + spec_pool_migrated_origin_json(p.origin) + ",\"w\":"@ + spec_json_string(
        p.whirlpool@,
    ) + "}"@
}

impl PoolMigratedEventPayload {
    /// This payload as a JSON string.
    pub fn to_json(&self) -> (r: String)
        ensures
            r@ == spec_pool_migrated_json(*self),
    {
        let mut out = String::new();
        out.append("{\"o\":");
        out.append("\"mrras\"");
        out.append(",\"w\":");
        append_json_string(&mut out, self.whirlpool.as_str());
        out.append("}");
        proof {
            assert(out@ =~= spec_pool_migrated_json(*self));
        }
        out
    }
}

/// Where a position-bundle-deleted event came from.
#[derive(Debug, Clone, Copy, PartialEq, Eq, Structural)]
pub enum PositionBundleDeletedEventOrigin {
    DeletePositionBundle,
}

/// The origin's JSON tag.
pub open spec fn spec_position_bundle_deleted_origin_json(
    o: PositionBundleDeletedEventOrigin,
) -> Seq<char> {
    "\"dpb\""@
}

/// A position bundle was deleted.
#[derive(Debug, Clone)]
pub struct PositionBundleDeletedEventPayload {
    pub origin: PositionBundleDeletedEventOrigin,
    pub position_bundle: PubkeyString,
    pub position_bundle_mint: PubkeyString,
    pub position_bundle_owner: PubkeyString,
}

/// The payload's JSON object.
pub open spec fn spec_position_bundle_deleted_json(
    p: PositionBundleDeletedEventPayload,
) -> Seq<char> {
    "{\"o\":"@ + spec_position_bundle_deleted_origin_json(p.origin) + ",\"pb\":"@
        + spec_json_string(p.position_bundle@) + ",\"pbm\":"@ + spec_json_string(
        p.position_bundle_mint@,
    ) + ",\"pbo\":"@ + spec_json_string(p.position_bundle_owner@) + "}"@
}

impl PositionBundleDeletedEventPayload {
    /// This payload as a JSON string.
    pub fn to_json(&self) -> (r: String)
        ensures
            r@ == spec_position_bundle_deleted_json(*self),
    {
        let mut out = String::new();
        out.append("{\"o\":");
        out.append("\"dpb\"");
        out.append(",\"pb\":");
        append_json_string(&mut out, self.position_bundle.as_str());
        out.append(",\"pbm\":");
        append_json_string(&mut out, self.position_bundle_mint.as_str());
        out.append(",\"pbo\":");
        append_json_string(&mut out, self.position_bundle_owner.as_str());
        out.append("}");
        proof {
            assert(out@ =~= spec_position_bundle_deleted_json(*self));
        }
        out
    }
}

/// Where a position-closed event came from.
#[derive(Debug, Clone, Copy, PartialEq, Eq, Structural)]
pub enum PositionClosedEventOrigin {
    ClosePosition,
    CloseBundledPosition,
    ClosePositionWithTokenExtensions,
}

/// The origin's JSON tag.
pub open spec fn spec_position_closed_origin_json(o: PositionClosedEventOrigin) -> Seq<char> {
    match o {
        PositionClosedEventOrigin::ClosePosition => "\"cp\""@,
        PositionClosedEventOrigin::CloseBundledPosition => "\"cbp\""@,
        PositionClosedEventOrigin::ClosePositionWithTokenExtensions => "\"cpwte\""@,
    }
}

/// Where a position-locked event came from.
#[derive(Debug, Clone, Copy, PartialEq, Eq, Structural)]
pub enum PositionLockedEventOrigin {
    LockPosition,
}

/// The origin's JSON tag.
pub open spec fn spec_position_locked_origin_json(o: PositionLockedEventOrigin) -> Seq<char> {
    "\"lp\""@
}

/// How a position is locked.
#[derive(Debug, Clone, Copy, PartialEq, Eq, Structural)]
pub enum PositionLockType {
    Permanent,
}

/// The lock type's JSON object, tagged under `n`.
pub open spec fn spec_position_lock_type_json(t: PositionLockType) -> Seq<char> {
    "{\"n\":\"p\"}"@
}

/// Where a locked-position transfer came from.
#[derive(Debug, Clone, Copy, PartialEq, Eq, Structural)]
pub enum PositionLockedTransferredEventOrigin {
    TranssferLockedPosition,
}

/// The origin's JSON tag.
pub open spec fn spec_position_locked_transferred_origin_json(
    o: PositionLockedTransferredEventOrigin,
) -> Seq<char> {
    "\"tlp\""@
}

/// Where a position-opened event came from.
#[derive(Debug, Clone, Copy, PartialEq, Eq, Structural)]
pub enum PositionOpenedEventOrigin {
    OpenPosition,
    OpenPositionWithMetadata,
    OpenBundledPosition,
    OpenPositionWithTokenExtensions,
}

/// The origin's JSON tag.
pub open spec fn spec_position_opened_origin_json(o: PositionOpenedEventOrigin) -> Seq<char> {
    match o {
        PositionOpenedEventOrigin::OpenPosition => "\"op\""@,
        PositionOpenedEventOrigin::OpenPositionWithMetadata => "\"opwm\""@,
        PositionOpenedEventOrigin::OpenBundledPosition => "\"obp\""@,
        PositionOpenedEventOrigin::OpenPositionWithTokenExtensions => "\"opwte\""@,
    }
}

/// Whether a position stands alone or inside a bundle.
#[derive(Debug, Clone, Copy, PartialEq, Eq, Structural)]
pub enum PositionType {
    Position,
    BundledPosition,
}

/// The position type's JSON tag.
pub open spec fn spec_position_type_json(t: PositionType) -> Seq<char> {
    match t {
        PositionType::Position => "\"p\""@,
        PositionType::BundledPosition => "\"bp\""@,
    }
}

/// Where a position-range reset came from.
#[derive(Debug, Clone, Copy, PartialEq, Eq, Structural)]
pub enum PositionRangeResetEventOrigin {
    ResetPositionRange,
}

/// The origin's JSON tag.
pub open spec fn spec_position_range_reset_origin_json(
    o: PositionRangeResetEventOrigin,
) -> Seq<char> {
    "\"rpr\""@
}

/// Where a protocol-fees collection came from.
#[derive(Debug, Clone, Copy, PartialEq, Eq, Structural)]
pub enum ProtocolFeesCollectedEventOrigin {
    CollectProtocolFees,
    CollectProtocolFeesV2,
}

/// The origin's JSON tag.
pub open spec fn spec_protocol_fees_collected_origin_json(
    o: ProtocolFeesCollectedEventOrigin,
) -> Seq<char> {
    match o {
        ProtocolFeesCollectedEventOrigin::CollectProtocolFees => "\"cpf\""@,
        ProtocolFeesCollectedEventOrigin::CollectProtocolFeesV2 => "\"cpfv2\""@,
    }
}

/// Protocol fees were collected from a pool.
#[derive(Debug, Clone)]
pub struct ProtocolFeesCollectedEventPayload {
    pub origin: ProtocolFeesCollectedEventOrigin,
    pub config: PubkeyString,
    pub whirlpool: PubkeyString,
    pub collect_protocol_fees_authority: PubkeyString,
    pub transfer_a: TransferInfo,
    pub transfer_b: TransferInfo,
}

/// The payload's JSON object.
pub open spec fn spec_protocol_fees_collected_json(
    p: ProtocolFeesCollectedEventPayload,
) -> Seq<char> {
    "{\"o\":"@ + spec_protocol_fees_collected_origin_json(p.origin) + ",\"c\":"@
        + spec_json_string(p.config@) + ",\"w\":"@ + spec_json_string(p.whirlpool@) + ",\"cpfa\":"@
        + spec_json_string(p.collect_protocol_fees_authority@) + ",\"ta\":"@
        + spec_transfer_info_json(p.transfer_a) + ",\"tb\":"@ + spec_transfer_info_json(
        p.transfer_b,
    ) + "}"@
}

impl ProtocolFeesCollectedEventPayload {
    /// This payload as a JSON string.
    pub fn to_json(&self) -> (r: String)
        ensures
            r@ == spec_protocol_fees_collected_json(*self),
    {
        let mut out = String::new();
        out.append("{\"o\":");
        match self.origin {
            ProtocolFeesCollectedEventOrigin::CollectProtocolFees => out.append("\"cpf\""),
            ProtocolFeesCollectedEventOrigin::CollectProtocolFeesV2 => out.append("\"cpfv2\""),
        }
        out.append(",\"c\":");
        append_json_string(&mut out, self.config.as_str());
        out.append(",\"w\":");
        append_json_string(&mut out, self.whirlpool.as_str());
        out.append(",\"cpfa\":");
        append_json_string(&mut out, self.collect_protocol_fees_authority.as_str());
        out.append(",\"ta\":");
        self.transfer_a.append_json(&mut out);
        out.append(",\"tb\":");
        self.transfer_b.append_json(&mut out);
        out.append("}");
        proof {
            assert(out@ =~= spec_protocol_fees_collected_json(*self));
        }
        out
    }
}

/// Where a reward initialization came from.
#[derive(Debug, Clone, Copy, PartialEq, Eq, Structural)]
pub enum RewardInitializedEventOrigin {
    InitializeReward,
    InitializeRewardV2,
}

/// The origin's JSON tag.
pub open spec fn spec_reward_initialized_origin_json(o: RewardInitializedEventOrigin) -> Seq<
    char,
> {
    match o {
        RewardInitializedEventOrigin::InitializeReward => "\"ir\""@,
        RewardInitializedEventOrigin::InitializeRewardV2 => "\"irv2\""@,
    }
}

/// A pool reward was initialized.
#[derive(Debug, Clone)]
pub struct RewardInitializedEventPayload {
    pub origin: RewardInitializedEventOrigin,
    pub whirlpool: PubkeyString,
    pub reward_index: u8,
    pub reward_mint: PubkeyString,
    pub reward_token_program: TokenProgram,
    pub reward_decimal: Decimals,
}

/// The payload's JSON object.
pub open spec fn spec_reward_initialized_json(p: RewardInitializedEventPayload) -> Seq<char> {
    "{\"o\":"@ + spec_reward_initialized_origin_json(p.origin) + ",\"w\":"@ + spec_json_string(
        p.whirlpool@,
    ) + ",\"ri\":"@ + spec_u64_digits(p.reward_index as int) + ",\"rm\":"@ + spec_json_string(
        p.reward_mint@,
    ) + ",\"rtp\":"@ + spec_token_program_json(p.reward_token_program) + ",\"rd\":"@
        + spec_u64_digits(p.reward_decimal as int) + "}"@
}

impl RewardInitializedEventPayload {
    /// This payload as a JSON string.
    pub fn to_json(&self) -> (r: String)
        ensures
            r@ == spec_reward_initialized_json(*self),
    {
        let mut out = String::new();
        out.append("{\"o\":");
        match self.origin {
            RewardInitializedEventOrigin::InitializeReward => out.append("\"ir\""),
            RewardInitializedEventOrigin::InitializeRewardV2 => out.append("\"irv2\""),
        }
        out.append(",\"w\":");
        append_json_string(&mut out, self.whirlpool.as_str());
        out.append(",\"ri\":");
        append_u64(&mut out, self.reward_index as u64);
        out.append(",\"rm\":");
        append_json_string(&mut out, self.reward_mint.as_str());
        out.append(",\"rtp\":");
        self.reward_token_program.append_json(&mut out);
        out.append(",\"rd\":");
        append_u64(&mut out, self.reward_decimal as u64);
        out.append("}");
        proof {
            assert(out@ =~= spec_reward_initialized_json(*self));
        }
        out
    }
}

/// Where a token-badge update came from.
#[derive(Debug, Clone, Copy, PartialEq, Eq, Structural)]
pub enum TokenBadgeUpdatedEventOrigin {
    SetTokenBadgeAttribute,
}

/// The origin's JSON tag.
pub open spec fn spec_token_badge_updated_origin_json(o: TokenBadgeUpdatedEventOrigin) -> Seq<
    char,
> {
    "\"stba\""@
}

/// A token badge's attribute changed.
#[derive(Debug, Clone)]
pub struct TokenBadgeUpdatedEventPayload {
    pub origin: TokenBadgeUpdatedEventOrigin,
    pub config: PubkeyString,
    pub token_mint: PubkeyString,
    pub token_badge: PubkeyString,
    pub old_attribute_require_non_transferable_position: bool,
    pub new_attribute_require_non_transferable_position: bool,
}

/// The payload's JSON object.
pub open spec fn spec_token_badge_updated_json(p: TokenBadgeUpdatedEventPayload) -> Seq<char> {
    "{\"o\":"@ + spec_token_badge_updated_origin_json(p.origin) + ",\"c\":"@ + spec_json_string(
        p.config@,
    ) + ",\"tm\":"@ + spec_json_string(p.token_mint@) + ",\"tb\":"@ + spec_json_string(
        p.token_badge@,
    ) + ",\"oarntp\":"@ + spec_bool_json(p.old_attribute_require_non_transferable_position)
        + ",\"narntp\":"@ + spec_bool_json(p.new_attribute_require_non_transferable_position)
        + "}"@
}

impl TokenBadgeUpdatedEventPayload {
    /// This payload as a JSON string.
    pub fn to_json(&self) -> (r: String)
        ensures
            r@ == spec_token_badge_updated_json(*self),
    {
        let mut out = String::new();
        out.append("{\"o\":");
        out.append("\"stba\"");
        out.append(",\"c\":");
        append_json_string(&mut out, self.config.as_str());
        out.append(",\"tm\":");
        append_json_string(&mut out, self.token_mint.as_str());
        out.append(",\"tb\":");
        append_json_string(&mut out, self.token_badge.as_str());
        out.append(",\"oarntp\":");
        append_bool(&mut out, self.old_attribute_require_non_transferable_position);
        out.append(",\"narntp\":");
        append_bool(&mut out, self.new_attribute_require_non_transferable_position);
        out.append("}");
        proof {
            assert(out@ =~= spec_token_badge_updated_json(*self));
        }
        out
    }
}

/// An adaptive fee tier was created.
#[derive(Debug, Clone)]
pub struct AdaptiveFeeTierInitializedEventPayload {
    pub origin: AdaptiveFeeTierInitializedEventOrigin,
    pub config: PubkeyString,
    pub adaptive_fee_tier: PubkeyString,
    pub fee_tier_index: u16,
    pub tick_spacing: u16,
    pub initialize_pool_authority: PubkeyString,
    pub delegated_fee_authority: PubkeyString,
    pub default_base_fee_rate: u16,
    pub adaptive_fee_constants: AdaptiveFeeConstants,
}

/// The payload's JSON object.
pub open spec fn spec_adaptive_fee_tier_initialized_json(
    p: AdaptiveFeeTierInitializedEventPayload,
) -> Seq<char> {
    "{\"o\":"@ + spec_adaptive_fee_tier_initialized_origin_json(p.origin) + ",\"c\":"@
        + spec_json_string(p.config@) + ",\"aft\":"@ + spec_json_string(p.adaptive_fee_tier@)
        + ",\"fti\":"@ + spec_u64_digits(p.fee_tier_index as int) + ",\"ts\":"@ + spec_u64_digits(
        p.tick_spacing as int,
    ) + ",\"ipa\":"@ + spec_json_string(p.initialize_pool_authority@) + ",\"dfa\":"@
        + spec_json_string(p.delegated_fee_authority@) + ",\"dbfr\":"@ + spec_u64_digits(
        p.default_base_fee_rate as int,
    ) + ",\"afc\":"@ + spec_adaptive_fee_constants_json(p.adaptive_fee_constants) + "}"@
}

impl AdaptiveFeeTierInitializedEventPayload {
    /// This payload as a JSON string.
    pub fn to_json(&self) -> (r: String)
        ensures
            r@ == spec_adaptive_fee_tier_initialized_json(*self),
    {
        let mut out = String::new();
        out.append("{\"o\":");
        out.append("\"iaft\"");
        out.append(",\"c\":");
        append_json_string(&mut out, self.config.as_str());
        out.append(",\"aft\":");
        append_json_string(&mut out, self.adaptive_fee_tier.as_str());
        out.append(",\"fti\":");
        append_u64(&mut out, self.fee_tier_index as u64);
        out.append(",\"ts\":");
        append_u64(&mut out, self.tick_spacing as u64);
        out.append(",\"ipa\":");
        append_json_string(&mut out, self.initialize_pool_authority.as_str());
        out.append(",\"dfa\":");
        append_json_string(&mut out, self.delegated_fee_authority.as_str());
        out.append(",\"dbfr\":");
        append_u64(&mut out, self.default_base_fee_rate as u64);
        out.append(",\"afc\":");
        self.adaptive_fee_constants.append_json(&mut out);
        out.append("}");
        proof {
            assert(out@ =~= spec_adaptive_fee_tier_initialized_json(*self));
        }
        out
    }
}

/// An adaptive fee tier's terms changed.
#[derive(Debug, Clone)]
pub struct AdaptiveFeeTierUpdatedEventPayload {
    pub origin: AdaptiveFeeTierUpdatedEventOrigin,
    pub config: PubkeyString,
    pub adaptive_fee_tier: PubkeyString,
    pub fee_tier_index: u16,
    pub tick_spacing: u16,
    pub old_initialize_pool_authority: PubkeyString,
    pub new_initialize_pool_authority: PubkeyString,
    pub old_delegated_fee_authority: PubkeyString,
    pub new_delegated_fee_authority: PubkeyString,
    pub old_default_base_fee_rate: u16,
    pub new_default_base_fee_rate: u16,
    pub old_adaptive_fee_constants: AdaptiveFeeConstants,
    pub new_adaptive_fee_constants: AdaptiveFeeConstants,
}

/// The payload's JSON object.
pub open spec fn spec_adaptive_fee_tier_updated_json(
    p: AdaptiveFeeTierUpdatedEventPayload,
) -> Seq<char> {
    "{\"o\":"@ + spec_adaptive_fee_tier_updated_origin_json(p.origin) + ",\"c\":"@
        + spec_json_string(p.config@) + ",\"aft\":"@ + spec_json_string(p.adaptive_fee_tier@)
        + ",\"fti\":"@ + spec_u64_digits(p.fee_tier_index as int) + ",\"ts\":"@ + spec_u64_digits(
        p.tick_spacing as int,
    ) + ",\"oipa\":"@ + spec_json_string(p.old_initialize_pool_authority@) + ",\"nipa\":"@
        + spec_json_string(p.new_initialize_pool_authority@) + ",\"odfa\":"@ + spec_json_string(
        p.old_delegated_fee_authority@,
    ) + ",\"ndfa\":"@ + spec_json_string(p.new_delegated_fee_authority@) + ",\"odbfr\":"@
        + spec_u64_digits(p.old_default_base_fee_rate as int) + ",\"ndbfr\":"@ + spec_u64_digits(
        p.new_default_base_fee_rate as int,
    ) + ",\"oafc\":"@ + spec_adaptive_fee_constants_json(p.old_adaptive_fee_constants)
        + ",\"nafc\":"@ + spec_adaptive_fee_constants_json(p.new_adaptive_fee_constants) + "}"@
}

impl AdaptiveFeeTierUpdatedEventPayload {
    /// This payload as a JSON string.
    pub fn to_json(&self) -> (r: String)
        ensures
            r@ == spec_adaptive_fee_tier_updated_json(*self),
    {
        let mut out = String::new();
        out.append("{\"o\":");
        match self.origin {
            AdaptiveFeeTierUpdatedEventOrigin::SetInitializePoolAuthority => out.append(
                "\"sipa\"",
            ),
            AdaptiveFeeTierUpdatedEventOrigin::SetDelegatedFeeAuthority => out.append("\"sdfa\""),
            AdaptiveFeeTierUpdatedEventOrigin::SetDefaultBaseFeeRate => out.append("\"sdbfr\""),
            AdaptiveFeeTierUpdatedEventOrigin::SetPresetAdaptiveFeeConstants => out.append(
                "\"spafc\"",
            ),
        }
        out.append(",\"c\":");
        append_json_string(&mut out, self.config.as_str());
        out.append(",\"aft\":");
        append_json_string(&mut out, self.adaptive_fee_tier.as_str());
        out.append(",\"fti\":");
        append_u64(&mut out, self.fee_tier_index as u64);
        out.append(",\"ts\":");
        append_u64(&mut out, self.tick_spacing as u64);
        out.append(",\"oipa\":");
        append_json_string(&mut out, self.old_initialize_pool_authority.as_str());
        out.append(",\"nipa\":");
        append_json_string(&mut out, self.new_initialize_pool_authority.as_str());
        out.append(",\"odfa\":");
        append_json_string(&mut out, self.old_delegated_fee_authority.as_str());
        out.append(",\"ndfa\":");
        append_json_string(&mut out, self.new_delegated_fee_authority.as_str());
        out.append(",\"odbfr\":");
        append_u64(&mut out, self.old_default_base_fee_rate as u64);
        out.append(",\"ndbfr\":");
        append_u64(&mut out, self.new_default_base_fee_rate as u64);
        out.append(",\"oafc\":");
        self.old_adaptive_fee_constants.append_json(&mut out);
        out.append(",\"nafc\":");
        self.new_adaptive_fee_constants.append_json(&mut out);
        out.append("}");
        proof {
            assert(out@ =~= spec_adaptive_fee_tier_updated_json(*self));
        }
        out
    }
}


impl PoolInitializedEventOrigin {
    /// Append this origin's tag.
    pub fn append_json(&self, out: &mut String)
        ensures
            final(out)@ == old(out)@ + spec_pool_initialized_origin_json(*self),
    {
        match self {
            PoolInitializedEventOrigin::InitializePool => out.append("\"ip\""),
            PoolInitializedEventOrigin::InitializePoolV2 => out.append("\"ipv2\""),
            PoolInitializedEventOrigin::InitializePoolWithAdaptiveFee => out.append(
                "\"ipwaf\"",
            ),
        }
    }
}

impl PositionClosedEventOrigin {
    /// Append this origin's tag.
    pub fn append_json(&self, out: &mut String)
        ensures
            final(out)@ == old(out)@ + spec_position_closed_origin_json(*self),
    {
        match self {
            PositionClosedEventOrigin::ClosePosition => out.append("\"cp\""),
            PositionClosedEventOrigin::CloseBundledPosition => out.append("\"cbp\""),
            PositionClosedEventOrigin::ClosePositionWithTokenExtensions => out.append(
                "\"cpwte\"",
            ),
        }
    }
}

impl PositionOpenedEventOrigin {
    /// Append this origin's tag.
    pub fn append_json(&self, out: &mut String)
        ensures
            final(out)@ == old(out)@ + spec_position_opened_origin_json(*self),
    {
        match self {
            PositionOpenedEventOrigin::OpenPosition => out.append("\"op\""),
            PositionOpenedEventOrigin::OpenPositionWithMetadata => out.append("\"opwm\""),
            PositionOpenedEventOrigin::OpenBundledPosition => out.append("\"obp\""),
            PositionOpenedEventOrigin::OpenPositionWithTokenExtensions => out.append(
                "\"opwte\"",
            ),
        }
    }
}

impl PositionType {
    /// Append this position type's tag.
    pub fn append_json(&self, out: &mut String)
        ensures
            final(out)@ == old(out)@ + spec_position_type_json(*self),
    {
        match self {
            PositionType::Position => out.append("\"p\""),
            PositionType::BundledPosition => out.append("\"bp\""),
        }
    }
}

impl PositionLockType {
    /// Append this lock type's tagged object.
    pub fn append_json(&self, out: &mut String)
        ensures
            final(out)@ == old(out)@ + spec_position_lock_type_json(*self),
    {
        out.append("{\"n\":\"p\"}");
    }
}

impl PositionLockedEventOrigin {
    /// Append this origin's tag.
    pub fn append_json(&self, out: &mut String)
        ensures
            final(out)@ == old(out)@ + spec_position_locked_origin_json(*self),
    {
        out.append("\"lp\"");
    }
}

impl PositionLockedTransferredEventOrigin {
    /// Append this origin's tag.
    pub fn append_json(&self, out: &mut String)
        ensures
            final(out)@ == old(out)@ + spec_position_locked_transferred_origin_json(*self),
    {
        out.append("\"tlp\"");
    }
}

impl PositionRangeResetEventOrigin {
    /// Append this origin's tag.
    pub fn append_json(&self, out: &mut String)
        ensures
            final(out)@ == old(out)@ + spec_position_range_reset_origin_json(*self),
    {
        out.append("\"rpr\"");
    }
}

impl AdaptiveFeeVariables {
    /// These variables as a JSON string.
    pub fn to_json(&self) -> (r: String)
        ensures
            r@ == spec_adaptive_fee_variables_json(*self),
    {
        let mut out = String::new();
        self.append_json(&mut out);
        out
    }
}

} // verus!

//! Configurable slippage and commission models, and the limit-fill policy.
use crate::data::types::{Bar, Money, Price, Quantity};
use crate::events::Side;
use crate::fixed::{clamp64, mul_div, mul_mul_div, sat_add, sat_sub, wide_mul, SCALE};
use vstd::prelude::*;

verus! {

/// How much a fill's price moves *against* the trader, relative to a
/// reference price (a market order's reference is the fill bar's open).
#[derive(Debug, Clone, Copy, PartialEq, Eq, Structural)]
pub enum SlippageModel {
    /// No slippage: fills happen exactly at the reference price.
    Zero,
    /// A fixed adverse move in basis points (fixed-point: `SCALE` units per
    /// basis point), applied regardless of order size.
    FixedBps(i64),
    /// Price impact that grows with the order's share of the bar's volume:
    /// the adverse fraction is `impact_coefficient * quantity / bar_volume`,
    /// and the move is that fraction of the reference price, rounded down
    /// once, at the end.
    /// `participation_limit` is the fraction of a bar's volume one order
    /// may consume before the remainder rests as a partial fill. Both are
    /// fixed-point fractions (`SCALE` units per 1.0).
    VolumeImpact { participation_limit: i64, impact_coefficient: i64 },
}

/// `SCALE` basis points per 1.0, i.e. the divisor turning a fixed-point
/// basis-point count into a fraction.
pub open spec fn bps_divisor() -> int {
    100_000_000
}

/// The adverse move, in price units, that `model` applies to a trade of
/// `quantity` at `reference` within a bar that traded `volume`.
pub open spec fn adverse_amount(model: SlippageModel, reference: int, quantity: int, volume: int) -> int {
    match model {
        SlippageModel::Zero => 0,
        SlippageModel::FixedBps(bps) => clamp64((reference * bps) / bps_divisor()),
        SlippageModel::VolumeImpact { impact_coefficient, .. } => if volume > 0 {
            clamp64((reference * impact_coefficient * quantity) / (volume * SCALE as int))
        } else {
            0
        },
    }
}

/// The fill price after `model`'s adverse move: higher for a buy, lower for
/// a sell.
pub open spec fn adjusted_price_spec(
    model: SlippageModel,
    reference: int,
    side: Side,
    quantity: int,
    volume: int,
) -> int {
    let amount = adverse_amount(model, reference, quantity, volume);
    match side {
        Side::Buy => clamp64(reference + amount),
        Side::Sell => clamp64(reference - amount),
    }
}

impl Default for SlippageModel {
    fn default() -> (r: Self)
        ensures
            r == SlippageModel::Zero,
    {
        SlippageModel::Zero
    }
}

impl SlippageModel {
    /// The fill price after applying this model's adverse move to
    /// `reference_price`, for a trade of `quantity` on `side` within a bar
    /// that traded `bar_volume` in total.
    pub fn adjusted_price(
        &self,
        reference_price: Price,
        side: Side,
        quantity: Quantity,
        bar_volume: Quantity,
    ) -> (r: Price)
        ensures
            r == adjusted_price_spec(*self, reference_price as int, side, quantity as int, bar_volume as int),
    {
        let amount: i64 = match self {
            SlippageModel::Zero => 0,
            SlippageModel::FixedBps(bps) => mul_div(reference_price, *bps, 100_000_000),
            SlippageModel::VolumeImpact { impact_coefficient, .. } => {
                if bar_volume > 0 {
                    mul_mul_div(reference_price, *impact_coefficient, quantity, bar_volume)
                } else {
                    0
                }
            },
        };
        match side {
            Side::Buy => sat_add(reference_price, amount),
            Side::Sell => sat_sub(reference_price, amount),
        }
    }
}

/// Slippage always works against the trader: with non-negative prices,
/// volumes and model parameters, a buy never fills below its reference
/// price and a sell never fills above it.
pub proof fn lemma_slippage_is_adverse(model: SlippageModel, reference: i64, quantity: i64, volume: i64)
    requires
        reference >= 0,
        quantity >= 0,
        volume >= 0,
        model matches SlippageModel::FixedBps(bps) ==> bps >= 0,
        model matches SlippageModel::VolumeImpact { impact_coefficient, .. } ==> impact_coefficient >= 0,
    ensures
        adjusted_price_spec(model, reference as int, Side::Buy, quantity as int, volume as int) >= reference,
        adjusted_price_spec(model, reference as int, Side::Sell, quantity as int, volume as int) <= reference,
{
    let amount = adverse_amount(model, reference as int, quantity as int, volume as int);
    match model {
        SlippageModel::Zero => {},
        SlippageModel::FixedBps(bps) => {
            assert((reference * bps) / bps_divisor() >= 0) by (nonlinear_arith)
                requires
                    reference >= 0,
                    bps >= 0,
            ;
        },
        SlippageModel::VolumeImpact { impact_coefficient, .. } => {
            if volume > 0 {
                assert((reference * impact_coefficient * quantity) / (volume * SCALE as int) >= 0)
                    by (nonlinear_arith)
                    requires
                        reference >= 0,
                        impact_coefficient >= 0,
                        quantity >= 0,
                        volume > 0,
                ;
            }
        },
    }
    assert(amount >= 0);
}

/// How a fill's commission (trading fee) is computed.
#[derive(Debug, Clone, Copy, PartialEq, Eq, Structural)]
pub enum CommissionModel {
    /// A fee per share, in price units per share.
    PerShare(Price),
    /// A flat fee per trade, in money units, regardless of size.
    PerTradeFlat(Money),
    /// A fee proportional to the trade's notional, in basis points
    /// (fixed-point: `SCALE` units per basis point).
    BpsOfNotional(i64),
}

impl Default for CommissionModel {
    /// A zero flat fee: a no-cost baseline, not a realistic assumption.
    fn default() -> (r: Self)
        ensures
            r == CommissionModel::PerTradeFlat(0),
    {
        CommissionModel::PerTradeFlat(0)
    }
}

/// The commission, in money units, for `quantity` filled at `price`. The
/// basis-point fee is taken on the notional rounded down to price units.
pub open spec fn commission_spec(model: CommissionModel, quantity: int, price: int) -> int {
    match model {
        CommissionModel::PerShare(rate) => quantity * rate,
        CommissionModel::PerTradeFlat(fee) => fee as int,
        CommissionModel::BpsOfNotional(bps) => {
            let notional = clamp64((quantity * price) / (SCALE as int));
            (notional * bps) / (SCALE as int)
        },
    }
}

impl CommissionModel {
    pub fn commission(&self, quantity: Quantity, fill_price: Price) -> (r: Money)
        ensures
            r == commission_spec(*self, quantity as int, fill_price as int),
    {
        match self {
            CommissionModel::PerShare(rate) => wide_mul(quantity, *rate),
            CommissionModel::PerTradeFlat(fee) => *fee,
            CommissionModel::BpsOfNotional(bps) => {
                let notional = mul_div(quantity, fill_price, SCALE);
                crate::fixed::floor_div(wide_mul(notional, *bps), SCALE as i128)
            },
        }
    }
}

/// How strictly a limit order's trigger condition is checked against a
/// bar's price range.
#[derive(Debug, Clone, Copy, PartialEq, Eq, Structural)]
pub enum LimitFillPolicy {
    /// A buy limit triggers if the bar's low reached the limit or below; a
    /// sell limit if the bar's high reached it or above.
    Optimistic,
    /// Requires the bar's close to satisfy the condition instead.
    Conservative,
}

impl Default for LimitFillPolicy {
    fn default() -> (r: Self)
        ensures
            r == LimitFillPolicy::Optimistic,
    {
        LimitFillPolicy::Optimistic
    }
}

/// Whether a limit order on `side` at `limit` triggers against `bar`.
pub open spec fn limit_triggers(policy: LimitFillPolicy, side: Side, limit: int, bar: Bar) -> bool {
    match (side, policy) {
        (Side::Buy, LimitFillPolicy::Optimistic) => bar.low <= limit,
        (Side::Buy, LimitFillPolicy::Conservative) => bar.close <= limit,
        (Side::Sell, LimitFillPolicy::Optimistic) => bar.high >= limit,
        (Side::Sell, LimitFillPolicy::Conservative) => bar.close >= limit,
    }
}

impl LimitFillPolicy {
    /// The fill price if a limit order for `side` at `limit_price` would
    /// trigger against `bar` under this policy: always exactly the limit.
    pub fn fill_price(&self, side: Side, limit_price: Price, bar: &Bar) -> (r: Option<Price>)
        ensures
            r == (if limit_triggers(*self, side, limit_price as int, *bar) {
                Some(limit_price)
            } else {
                None
            }),
    {
        let triggered = match (side, self) {
            (Side::Buy, LimitFillPolicy::Optimistic) => bar.low <= limit_price,
            (Side::Buy, LimitFillPolicy::Conservative) => bar.close <= limit_price,
            (Side::Sell, LimitFillPolicy::Optimistic) => bar.high >= limit_price,
            (Side::Sell, LimitFillPolicy::Conservative) => bar.close >= limit_price,
        };
        if triggered {
            Some(limit_price)
        } else {
            None
        }
    }
}

} // verus!

//! `SimulatedExecution`: market and limit order fills, with configurable
//! slippage, commission, latency, limit-fill strictness, partial fills and
//! time-in-force.
//!
//! An order submitted while processing bar T is staged, not filled: it only
//! becomes eligible on the *next* call to [`ExecutionModel::on_bar`], which
//! the engine makes with bar T+1. `latency_bars` adds further delay on top.
use super::models::{
    adjusted_price_spec,
    commission_spec,
    limit_triggers,
    CommissionModel,
    LimitFillPolicy,
    SlippageModel,
};
use super::ExecutionModel;
use crate::data::types::Quantity;
use crate::events::{FillEvent, MarketEvent, OrderEvent, OrderType};
use crate::fixed::{clamp64, mul_div, SCALE};
use std::collections::VecDeque;
use vstd::prelude::*;

verus! {

/// An order waiting to fill: how many more bars must pass (beyond the
/// built-in one) before it is eligible, and for how many eligible bars it
/// has already gone unfilled (for time-in-force).
#[derive(Debug, Clone)]
pub struct RestingOrder {
    pub order: OrderEvent,
    pub bars_remaining: u32,
    pub bars_waited: u32,
}

/// `n + 1`, saturating at `u32::MAX`.
pub open spec fn inc_u32(n: u32) -> u32 {
    if n < u32::MAX {
        (n + 1) as u32
    } else {
        n
    }
}

/// Orders staged since the last bar, promoted to resting with `latency`
/// extra bars to wait.
pub open spec fn promote(staged: Seq<OrderEvent>, latency: u32) -> Seq<RestingOrder> {
    staged.map_values(|o: OrderEvent| RestingOrder { order: o, bars_remaining: latency, bars_waited: 0 })
}

/// `(fillable now, remaining)` for `quantity` in a bar of `volume`: only
/// `VolumeImpact` caps participation, at `participation_limit * volume`.
pub open spec fn split_spec(slippage: SlippageModel, quantity: int, volume: int) -> (int, int) {
    match slippage {
        SlippageModel::VolumeImpact { participation_limit, .. } => {
            let raw = clamp64((participation_limit * volume) / (SCALE as int));
            let cap = if raw > 0 { raw } else { 0 };
            if quantity <= cap {
                (quantity, 0)
            } else {
                (cap, quantity - cap)
            }
        },
        _ => (quantity, 0),
    }
}

/// What happens to one resting order `r` on bar `ev`: the fills it
/// produces and what (if anything) keeps resting.
pub open spec fn step_spec(
    r: RestingOrder,
    ev: MarketEvent,
    slippage: SlippageModel,
    commission: CommissionModel,
    policy: LimitFillPolicy,
    tif: Option<u32>,
) -> (Seq<FillEvent>, Seq<RestingOrder>) {
    let o = r.order;
    if r.bars_remaining > 0 {
        (seq![], seq![RestingOrder { bars_remaining: (r.bars_remaining - 1) as u32, ..r }])
    } else if tif matches Some(t) && r.bars_waited >= t {
        (seq![], seq![])
    } else {
        match o.order_type {
            OrderType::Market => {
                let (fill_qty, rest_qty) = split_spec(slippage, o.quantity as int, ev.bar.volume as int);
                let price = adjusted_price_spec(slippage, ev.bar.open as int, o.side, fill_qty, ev.bar.volume as int);
                let fills = if fill_qty > 0 {
                    seq![
                        FillEvent {
                            order_id: o.id,
                            symbol: o.symbol,
                            timestamp: ev.bar.timestamp,
                            side: o.side,
                            quantity_filled: fill_qty as i64,
                            fill_price: price as i64,
                            commission: commission_spec(commission, fill_qty, price) as i128,
                            reference_price: ev.bar.open,
                        },
                    ]
                } else {
                    seq![]
                };
                let rest = if rest_qty > 0 {
                    seq![
                        RestingOrder {
                            order: OrderEvent { quantity: rest_qty as i64, ..o },
                            bars_remaining: 0,
                            bars_waited: inc_u32(r.bars_waited),
                        },
                    ]
                } else {
                    seq![]
                };
                (fills, rest)
            },
            OrderType::Limit { price } => {
                if limit_triggers(policy, o.side, price as int, ev.bar) {
                    (
                        seq![
                            FillEvent {
                                order_id: o.id,
                                symbol: o.symbol,
                                timestamp: ev.bar.timestamp,
                                side: o.side,
                                quantity_filled: o.quantity,
                                fill_price: price,
                                commission: commission_spec(commission, o.quantity as int, price as int) as i128,
                                reference_price: price,
                            },
                        ],
                        seq![],
                    )
                } else {
                    (seq![], seq![RestingOrder { bars_waited: inc_u32(r.bars_waited), ..r }])
                }
            },
        }
    }
}

/// `step_spec` over every resting order in turn, concatenating the fills
/// and the orders that keep resting, in order.
pub open spec fn step_all(
    rs: Seq<RestingOrder>,
    ev: MarketEvent,
    slippage: SlippageModel,
    commission: CommissionModel,
    policy: LimitFillPolicy,
    tif: Option<u32>,
) -> (Seq<FillEvent>, Seq<RestingOrder>)
    decreases rs.len(),
{
    if rs.len() == 0 {
        (seq![], seq![])
    } else {
        let prev = step_all(rs.drop_last(), ev, slippage, commission, policy, tif);
        let last = step_spec(rs.last(), ev, slippage, commission, policy, tif);
        (prev.0 + last.0, prev.1 + last.1)
    }
}

/// Whether time in force `tif` cancels the eligible resting order `r` on
/// this bar: it has waited its full time in force without a fill.
pub open spec fn expires(r: RestingOrder, tif: Option<u32>) -> bool {
    r.bars_remaining == 0 && (tif matches Some(t) && r.bars_waited >= t)
}

/// The ids of the orders of `rs` that time in force cancels on this bar,
/// in order.
pub open spec fn expired_ids(rs: Seq<RestingOrder>, tif: Option<u32>) -> Seq<u64>
    decreases rs.len(),
{
    if rs.len() == 0 {
        seq![]
    } else {
        let prev = expired_ids(rs.drop_last(), tif);
        if expires(rs.last(), tif) {
            prev.push(rs.last().order.id)
        } else {
            prev
        }
    }
}

/// Anti-lookahead at the execution layer: every fill produced on bar `ev`
/// is stamped with that bar's time and belongs to an order that was
/// already resting (or staged) when the bar arrived, on the same symbol
/// and side.
pub proof fn lemma_fills_come_from_resting_orders(
    rs: Seq<RestingOrder>,
    ev: MarketEvent,
    slippage: SlippageModel,
    commission: CommissionModel,
    policy: LimitFillPolicy,
    tif: Option<u32>,
)
    ensures
        forall|i: int|
            0 <= i < step_all(rs, ev, slippage, commission, policy, tif).0.len() ==> {
                let f = #[trigger] step_all(rs, ev, slippage, commission, policy, tif).0[i];
                &&& f.timestamp == ev.bar.timestamp
                &&& exists|j: int|
                    0 <= j < rs.len() && rs[j].order.id == f.order_id && rs[j].order.symbol
                        == f.symbol && rs[j].order.side == f.side
            },
    decreases rs.len(),
{
    if rs.len() > 0 {
        let prev = rs.drop_last();
        lemma_fills_come_from_resting_orders(prev, ev, slippage, commission, policy, tif);
        let p = step_all(prev, ev, slippage, commission, policy, tif);
        let l = step_spec(rs.last(), ev, slippage, commission, policy, tif);
        let all = step_all(rs, ev, slippage, commission, policy, tif);
        assert forall|i: int| 0 <= i < all.0.len() implies {
            let f = #[trigger] all.0[i];
            &&& f.timestamp == ev.bar.timestamp
            &&& exists|j: int|
                0 <= j < rs.len() && rs[j].order.id == f.order_id && rs[j].order.symbol == f.symbol
                    && rs[j].order.side == f.side
        } by {
            if i < p.0.len() {
                assert(all.0[i] == p.0[i]);
                let j = choose|j: int|
                    0 <= j < prev.len() && prev[j].order.id == p.0[i].order_id && prev[j].order.symbol
                        == p.0[i].symbol && prev[j].order.side == p.0[i].side;
                assert(rs[j] == prev[j]);
            } else {
                assert(all.0[i] == l.0[i - p.0.len()]);
                assert(rs[rs.len() - 1] == rs.last());
            }
        }
    }
}

/// A limit order never fills at any price but its limit, and never
/// partially: when it fills, it fills its whole quantity at the limit.
pub proof fn lemma_limit_fills_at_limit(
    r: RestingOrder,
    ev: MarketEvent,
    slippage: SlippageModel,
    commission: CommissionModel,
    policy: LimitFillPolicy,
    tif: Option<u32>,
    limit: i64,
)
    requires
        r.order.order_type == (OrderType::Limit { price: limit }),
    ensures
        ({
            let s = step_spec(r, ev, slippage, commission, policy, tif);
            forall|i: int|
                0 <= i < s.0.len() ==> #[trigger] s.0[i].fill_price == limit && s.0[i].quantity_filled
                    == r.order.quantity && s.0[i].reference_price == limit
        }),
{
}

/// Latency: an order with bars still to wait is neither filled nor
/// cancelled on this bar; it keeps resting with one bar less to wait.
pub proof fn lemma_latency_defers(
    r: RestingOrder,
    ev: MarketEvent,
    slippage: SlippageModel,
    commission: CommissionModel,
    policy: LimitFillPolicy,
    tif: Option<u32>,
)
    requires
        r.bars_remaining > 0,
    ensures
        step_spec(r, ev, slippage, commission, policy, tif).0.len() == 0,
        step_spec(r, ev, slippage, commission, policy, tif).1 == seq![
            RestingOrder { bars_remaining: (r.bars_remaining - 1) as u32, ..r },
        ],
{
}

/// A partial fill neither creates nor loses quantity: what fills now plus
/// what keeps resting is the order's quantity, and with a non-negative
/// quantity neither part is negative.
pub proof fn lemma_split_conserves_quantity(slippage: SlippageModel, quantity: i64, volume: i64)
    ensures
        split_spec(slippage, quantity as int, volume as int).0 + split_spec(
            slippage,
            quantity as int,
            volume as int,
        ).1 == quantity,
        quantity >= 0 ==> split_spec(slippage, quantity as int, volume as int).0 >= 0
            && split_spec(slippage, quantity as int, volume as int).1 >= 0,
{
}

/// The fills one resting order produces over the bars `bars`, given to it
/// one at a time as `on_bar` does (each call applies [`step_spec`] to every
/// resting order on its own), for as long as it keeps resting.
pub open spec fn order_fills(
    r: RestingOrder,
    bars: Seq<MarketEvent>,
    slippage: SlippageModel,
    commission: CommissionModel,
    policy: LimitFillPolicy,
    tif: Option<u32>,
) -> Seq<FillEvent>
    decreases bars.len(),
{
    if bars.len() == 0 {
        Seq::empty()
    } else {
        let out = step_spec(r, bars[0], slippage, commission, policy, tif);
        if out.1.len() > 0 {
            out.0 + order_fills(out.1[0], bars.drop_first(), slippage, commission, policy, tif)
        } else {
            out.0
        }
    }
}

/// The total quantity of `fills`.
pub open spec fn filled_quantity(fills: Seq<FillEvent>) -> int
    decreases fills.len(),
{
    if fills.len() == 0 {
        0
    } else {
        filled_quantity(fills.drop_last()) + fills.last().quantity_filled
    }
}

proof fn lemma_filled_quantity_add(a: Seq<FillEvent>, b: Seq<FillEvent>)
    ensures
        filled_quantity(a + b) == filled_quantity(a) + filled_quantity(b),
    decreases b.len(),
{
    if b.len() > 0 {
        assert((a + b).drop_last() =~= a + b.drop_last());
        lemma_filled_quantity_add(a, b.drop_last());
    } else {
        assert(a + b =~= a);
    }
}

/// Latency: a market order with `L` bars still to wait, under a model that
/// never splits (no `VolumeImpact`) and no time in force, fills on no bar
/// before bar `L` and fills whole on bar `L`, at the slippage-adjusted open
/// of that bar, with that bar's time; it fills on no bar after.
pub proof fn lemma_latency_fills_once(
    r: RestingOrder,
    bars: Seq<MarketEvent>,
    slippage: SlippageModel,
    commission: CommissionModel,
    policy: LimitFillPolicy,
)
    requires
        r.order.order_type == OrderType::Market,
        r.order.quantity > 0,
        !(slippage is VolumeImpact),
        bars.len() > r.bars_remaining,
    ensures
        ({
            let b = bars[r.bars_remaining as int];
            let price = adjusted_price_spec(slippage, b.bar.open as int, r.order.side, r.order.quantity as int, b.bar.volume as int);
            order_fills(r, bars, slippage, commission, policy, None) == seq![
                FillEvent {
                    order_id: r.order.id,
                    symbol: r.order.symbol,
                    timestamp: b.bar.timestamp,
                    side: r.order.side,
                    quantity_filled: r.order.quantity,
                    fill_price: price as i64,
                    commission: commission_spec(commission, r.order.quantity as int, price) as i128,
                    reference_price: b.bar.open,
                },
            ]
        }),
    decreases r.bars_remaining,
{
    if r.bars_remaining > 0 {
        let next = RestingOrder { bars_remaining: (r.bars_remaining - 1) as u32, ..r };
        lemma_latency_fills_once(next, bars.drop_first(), slippage, commission, policy);
        assert(bars.drop_first()[next.bars_remaining as int] == bars[r.bars_remaining as int]);
        assert(Seq::<FillEvent>::empty() + order_fills(next, bars.drop_first(), slippage, commission, policy, None)
            =~= order_fills(next, bars.drop_first(), slippage, commission, policy, None));
    }
}

/// Partial fills never over-fill: however many bars a resting market or
/// limit order meets, the quantities it fills add up to at most its
/// quantity, and each fill is for a positive quantity.
pub proof fn lemma_partial_fills_bounded(
    r: RestingOrder,
    bars: Seq<MarketEvent>,
    slippage: SlippageModel,
    commission: CommissionModel,
    policy: LimitFillPolicy,
    tif: Option<u32>,
)
    requires
        r.order.quantity > 0,
    ensures
        filled_quantity(order_fills(r, bars, slippage, commission, policy, tif)) <= r.order.quantity,
        forall|i: int|
            0 <= i < order_fills(r, bars, slippage, commission, policy, tif).len() ==> #[trigger] order_fills(
                r,
                bars,
                slippage,
                commission,
                policy,
                tif,
            )[i].quantity_filled > 0,
    decreases bars.len(),
{
    if bars.len() > 0 {
        let out = step_spec(r, bars[0], slippage, commission, policy, tif);
        let all = order_fills(r, bars, slippage, commission, policy, tif);
        assert(out.0.len() <= 1);
        if out.0.len() == 1 {
            assert(out.0.drop_last() =~= Seq::<FillEvent>::empty());
            assert(filled_quantity(Seq::<FillEvent>::empty()) == 0);
            assert(filled_quantity(out.0.drop_last()) == 0);
            assert(out.0.last() == out.0[0]);
            assert(filled_quantity(out.0) == out.0[0].quantity_filled);
            match r.order.order_type {
                OrderType::Market => {
                    let sp = split_spec(slippage, r.order.quantity as int, bars[0].bar.volume as int);
                    assert(0 < sp.0 <= r.order.quantity);
                    assert(out.0[0].quantity_filled == sp.0);
                },
                OrderType::Limit { .. } => {},
            }
        }
        assert(out.0.len() == 0 ==> filled_quantity(out.0) == 0);
        if out.1.len() > 0 {
            let rest = out.1[0];
            lemma_partial_fills_bounded(rest, bars.drop_first(), slippage, commission, policy, tif);
            let tail = order_fills(rest, bars.drop_first(), slippage, commission, policy, tif);
            lemma_filled_quantity_add(out.0, tail);
            assert(filled_quantity(out.0) + rest.order.quantity <= r.order.quantity);
            assert forall|i: int| 0 <= i < all.len() implies #[trigger] all[i].quantity_filled > 0 by {
                if i < out.0.len() {
                    assert(all[i] == out.0[i]);
                } else {
                    assert(all[i] == tail[i - out.0.len()]);
                }
            }
        }
    }
}

/// Time in force: a limit order with time in force `t` that has waited `w`
/// eligible bars and meets `t - w` more eligible bars none of which
/// triggers it is cancelled without a fill, whatever bars come later.
pub proof fn lemma_time_in_force_cancels(
    r: RestingOrder,
    bars: Seq<MarketEvent>,
    slippage: SlippageModel,
    commission: CommissionModel,
    policy: LimitFillPolicy,
    t: u32,
)
    requires
        r.order.order_type is Limit,
        r.bars_remaining == 0,
        r.bars_waited <= t,
        forall|i: int|
            0 <= i < bars.len() && i < t - r.bars_waited ==> !limit_triggers(
                policy,
                r.order.side,
                r.order.order_type->price as int,
                #[trigger] bars[i].bar,
            ),
    ensures
        order_fills(r, bars, slippage, commission, policy, Some(t)).len() == 0,
    decreases bars.len(),
{
    if bars.len() > 0 && r.bars_waited < t {
        let next = RestingOrder { bars_waited: inc_u32(r.bars_waited), ..r };
        assert(!limit_triggers(policy, r.order.side, r.order.order_type->price as int, bars[0].bar));
        assert forall|i: int|
            0 <= i < bars.drop_first().len() && i < t - next.bars_waited implies !limit_triggers(
                policy,
                next.order.side,
                next.order.order_type->price as int,
                #[trigger] bars.drop_first()[i].bar,
            ) by {
            assert(bars.drop_first()[i] == bars[i + 1]);
        }
        lemma_time_in_force_cancels(next, bars.drop_first(), slippage, commission, policy, t);
        assert(Seq::<FillEvent>::empty() + order_fills(next, bars.drop_first(), slippage, commission, policy, Some(t))
            =~= Seq::<FillEvent>::empty());
    }
}

/// Fills orders against bar data: market orders at the open of the bar
/// after they were submitted (plus `latency_bars`), limit orders once a
/// bar's range satisfies the limit under the [`LimitFillPolicy`].
#[derive(Debug)]
pub struct SimulatedExecution {
    resting: VecDeque<RestingOrder>,
    staged: VecDeque<OrderEvent>,
    slippage: SlippageModel,
    commission: CommissionModel,
    limit_fill_policy: LimitFillPolicy,
    latency_bars: u32,
    time_in_force_bars: Option<u32>,
    expired: Vec<u64>,
}

impl SimulatedExecution {
    pub closed spec fn spec_resting(&self) -> Seq<RestingOrder> {
        self.resting@
    }

    pub closed spec fn spec_staged(&self) -> Seq<OrderEvent> {
        self.staged@
    }

    pub closed spec fn spec_slippage(&self) -> SlippageModel {
        self.slippage
    }

    pub closed spec fn spec_commission(&self) -> CommissionModel {
        self.commission
    }

    pub closed spec fn spec_policy(&self) -> LimitFillPolicy {
        self.limit_fill_policy
    }

    pub closed spec fn spec_latency(&self) -> u32 {
        self.latency_bars
    }

    pub closed spec fn spec_tif(&self) -> Option<u32> {
        self.time_in_force_bars
    }

    /// The ids of the orders time in force has cancelled so far, in the
    /// order they were cancelled.
    pub closed spec fn spec_expired(&self) -> Seq<u64> {
        self.expired@
    }

    /// The ids of the orders time in force has cancelled so far, oldest
    /// first.
    pub fn expired_orders(&self) -> (r: &[u64])
        ensures
            r@ == self.spec_expired(),
    {
        self.expired.as_slice()
    }

    /// Whether two executions share the same configuration.
    pub open spec fn same_config(&self, other: &Self) -> bool {
        &&& self.spec_slippage() == other.spec_slippage()
        &&& self.spec_commission() == other.spec_commission()
        &&& self.spec_policy() == other.spec_policy()
        &&& self.spec_latency() == other.spec_latency()
        &&& self.spec_tif() == other.spec_tif()
    }

    /// No orders, no slippage, zero commission, optimistic limit fills, no
    /// extra latency and no expiry.
    pub fn new() -> (r: Self)
        ensures
            r.spec_resting().len() == 0,
            r.spec_staged().len() == 0,
            r.spec_slippage() == SlippageModel::Zero,
            r.spec_commission() == CommissionModel::PerTradeFlat(0),
            r.spec_policy() == LimitFillPolicy::Optimistic,
            r.spec_latency() == 0,
            r.spec_tif() == None::<u32>,
            r.spec_expired().len() == 0,
    {
        SimulatedExecution {
            resting: VecDeque::new(),
            staged: VecDeque::new(),
            slippage: SlippageModel::Zero,
            commission: CommissionModel::PerTradeFlat(0),
            limit_fill_policy: LimitFillPolicy::Optimistic,
            latency_bars: 0,
            time_in_force_bars: None,
            expired: Vec::new(),
        }
    }

    /// Configures the slippage model.
    pub fn with_slippage(self, model: SlippageModel) -> (r: Self)
        ensures
            r.spec_resting() == self.spec_resting(),
            r.spec_staged() == self.spec_staged(),
            r.spec_slippage() == model,
            r.spec_commission() == self.spec_commission(),
            r.spec_policy() == self.spec_policy(),
            r.spec_latency() == self.spec_latency(),
            r.spec_tif() == self.spec_tif(),
            r.spec_expired() == self.spec_expired(),
    {
        SimulatedExecution { slippage: model, ..self }
    }

    /// Configures the commission model.
    pub fn with_commission(self, model: CommissionModel) -> (r: Self)
        ensures
            r.spec_resting() == self.spec_resting(),
            r.spec_staged() == self.spec_staged(),
            r.spec_slippage() == self.spec_slippage(),
            r.spec_commission() == model,
            r.spec_policy() == self.spec_policy(),
            r.spec_latency() == self.spec_latency(),
            r.spec_tif() == self.spec_tif(),
            r.spec_expired() == self.spec_expired(),
    {
        SimulatedExecution { commission: model, ..self }
    }

    /// Configures how strictly limit orders are checked.
    pub fn with_limit_fill_policy(self, policy: LimitFillPolicy) -> (r: Self)
        ensures
            r.spec_resting() == self.spec_resting(),
            r.spec_staged() == self.spec_staged(),
            r.spec_slippage() == self.spec_slippage(),
            r.spec_commission() == self.spec_commission(),
            r.spec_policy() == policy,
            r.spec_latency() == self.spec_latency(),
            r.spec_tif() == self.spec_tif(),
            r.spec_expired() == self.spec_expired(),
    {
        SimulatedExecution { limit_fill_policy: policy, ..self }
    }

    /// Configures extra bars of delay before an order becomes eligible.
    pub fn with_latency_bars(self, bars: u32) -> (r: Self)
        ensures
            r.spec_resting() == self.spec_resting(),
            r.spec_staged() == self.spec_staged(),
            r.spec_slippage() == self.spec_slippage(),
            r.spec_commission() == self.spec_commission(),
            r.spec_policy() == self.spec_policy(),
            r.spec_latency() == bars,
            r.spec_tif() == self.spec_tif(),
            r.spec_expired() == self.spec_expired(),
    {
        SimulatedExecution { latency_bars: bars, ..self }
    }

    /// Configures time-in-force: an order still resting unfilled after
    /// this many eligible bars is cancelled.
    pub fn with_time_in_force(self, bars: u32) -> (r: Self)
        ensures
            r.spec_resting() == self.spec_resting(),
            r.spec_staged() == self.spec_staged(),
            r.spec_slippage() == self.spec_slippage(),
            r.spec_commission() == self.spec_commission(),
            r.spec_policy() == self.spec_policy(),
            r.spec_latency() == self.spec_latency(),
            r.spec_tif() == Some(bars),
            r.spec_expired() == self.spec_expired(),
    {
        SimulatedExecution { time_in_force_bars: Some(bars), ..self }
    }

    /// Splits `quantity` into (fillable now, remaining to keep resting).
    fn split_for_volume_cap(&self, quantity: Quantity, bar_volume: Quantity) -> (r: (Quantity, Quantity))
        ensures
            (r.0 as int, r.1 as int) == split_spec(self.slippage, quantity as int, bar_volume as int),
    {
        match self.slippage {
            SlippageModel::VolumeImpact { participation_limit, .. } => {
                let raw = mul_div(participation_limit, bar_volume, SCALE);
                let cap = if raw > 0 {
                    raw
                } else {
                    0
                };
                if quantity <= cap {
                    (quantity, 0)
                } else {
                    (cap, quantity - cap)
                }
            },
            _ => (quantity, 0),
        }
    }

    /// One resting order's outcome on `bar` (see [`step_spec`]).
    fn step(
        &self,
        r: RestingOrder,
        bar: &MarketEvent,
        fills: &mut Vec<FillEvent>,
        still: &mut VecDeque<RestingOrder>,
        expired: &mut Vec<u64>,
    )
        ensures
            final(expired)@ == if expires(r, self.time_in_force_bars) {
                old(expired)@.push(r.order.id)
            } else {
                old(expired)@
            },
            ({
                let s = step_spec(
                    r,
                    *bar,
                    self.slippage,
                    self.commission,
                    self.limit_fill_policy,
                    self.time_in_force_bars,
                );
                &&& final(fills)@ == old(fills)@ + s.0
                &&& final(still)@ == old(still)@ + s.1
            }),
    {
        let ghost s = step_spec(
            r,
            *bar,
            self.slippage,
            self.commission,
            self.limit_fill_policy,
            self.time_in_force_bars,
        );
        if r.bars_remaining > 0 {
            let kept = RestingOrder { order: r.order, bars_remaining: r.bars_remaining - 1, bars_waited: r.bars_waited };
            still.push_back(kept);
            assert(final(still)@ =~= old(still)@ + s.1);
            assert(fills@ =~= old(fills)@ + s.0);
            return;
        }
        if let Some(tif) = self.time_in_force_bars {
            if r.bars_waited >= tif {
                expired.push(r.order.id);
                assert(fills@ =~= old(fills)@ + s.0);
                assert(still@ =~= old(still)@ + s.1);
                return;
            }
        }
        let waited = r.bars_waited.saturating_add(1);
        match r.order.order_type {
            OrderType::Market => {
                let (fill_qty, rest_qty) = self.split_for_volume_cap(r.order.quantity, bar.bar.volume);
                if fill_qty > 0 {
                    let fill_price = self.slippage.adjusted_price(bar.bar.open, r.order.side, fill_qty, bar.bar.volume);
                    let commission = self.commission.commission(fill_qty, fill_price);
                    fills.push(
                        FillEvent {
                            order_id: r.order.id,
                            symbol: r.order.symbol.clone(),
                            timestamp: bar.bar.timestamp,
                            side: r.order.side,
                            quantity_filled: fill_qty,
                            fill_price,
                            commission,
                            reference_price: bar.bar.open,
                        },
                    );
                }
                assert(fills@ =~= old(fills)@ + s.0);
                if rest_qty > 0 {
                    let mut rest = r.order.copy();
                    rest.quantity = rest_qty;
                    still.push_back(RestingOrder { order: rest, bars_remaining: 0, bars_waited: waited });
                }
                assert(still@ =~= old(still)@ + s.1);
            },
            OrderType::Limit { price } => {
                match self.limit_fill_policy.fill_price(r.order.side, price, &bar.bar) {
                    Some(fill_price) => {
                        let commission = self.commission.commission(r.order.quantity, fill_price);
                        fills.push(
                            FillEvent {
                                order_id: r.order.id,
                                symbol: r.order.symbol.clone(),
                                timestamp: bar.bar.timestamp,
                                side: r.order.side,
                                quantity_filled: r.order.quantity,
                                fill_price,
                                commission,
                                reference_price: price,
                            },
                        );
                        assert(fills@ =~= old(fills)@ + s.0);
                        assert(still@ =~= old(still)@ + s.1);
                    },
                    None => {
                        still.push_back(RestingOrder { order: r.order, bars_remaining: 0, bars_waited: waited });
                        assert(fills@ =~= old(fills)@ + s.0);
                        assert(still@ =~= old(still)@ + s.1);
                    },
                }
            },
        }
    }
}

impl ExecutionModel for SimulatedExecution {
    /// The staged orders are promoted, then every resting order, oldest
    /// first, gets its chance to fill against `bar` (see [`step_all`]).
    open spec fn bar_step(&self, bar: &MarketEvent, next: &Self, fills: Seq<FillEvent>) -> bool {
        let outcome = step_all(
            self.spec_resting() + promote(self.spec_staged(), self.spec_latency()),
            *bar,
            self.spec_slippage(),
            self.spec_commission(),
            self.spec_policy(),
            self.spec_tif(),
        );
        &&& fills == outcome.0
        &&& next.spec_resting() == outcome.1
        &&& next.spec_staged().len() == 0
        &&& next.same_config(self)
        &&& next.spec_expired() == self.spec_expired() + expired_ids(
            self.spec_resting() + promote(self.spec_staged(), self.spec_latency()),
            self.spec_tif(),
        )
    }

    /// The order is staged for the next bar.
    open spec fn submit_step(&self, order: &OrderEvent, next: &Self) -> bool {
        &&& next.spec_staged() == self.spec_staged().push(*order)
        &&& next.spec_resting() == self.spec_resting()
        &&& next.same_config(self)
        &&& next.spec_expired() == self.spec_expired()
    }

    /// Promotes the staged orders, then gives every resting order, oldest
    /// first, its chance to fill against `bar`.
    fn on_bar(&mut self, bar: &MarketEvent) -> (r: Vec<FillEvent>)
        ensures
            ({
                let outcome = step_all(
                    old(self).spec_resting() + promote(old(self).spec_staged(), old(self).spec_latency()),
                    *bar,
                    old(self).spec_slippage(),
                    old(self).spec_commission(),
                    old(self).spec_policy(),
                    old(self).spec_tif(),
                );
                &&& r@ == outcome.0
                &&& final(self).spec_resting() == outcome.1
                &&& final(self).spec_staged().len() == 0
                &&& final(self).same_config(old(self))
                &&& final(self).spec_expired() == old(self).spec_expired() + expired_ids(
                    old(self).spec_resting() + promote(old(self).spec_staged(), old(self).spec_latency()),
                    old(self).spec_tif(),
                )
            }),
    {
        let ghost staged0 = self.staged@;
        let ghost all = self.resting@ + promote(self.staged@, self.latency_bars);
        let ghost k0 = self.resting@.len();
        while self.staged.len() > 0
            invariant
                self.slippage == old(self).slippage,
                self.commission == old(self).commission,
                self.limit_fill_policy == old(self).limit_fill_policy,
                self.latency_bars == old(self).latency_bars,
                self.time_in_force_bars == old(self).time_in_force_bars,
                staged0 == old(self).staged@,
                self.expired == old(self).expired,
                all == old(self).resting@ + promote(staged0, self.latency_bars),
                self.staged@.len() <= staged0.len(),
                self.staged@ == staged0.skip(staged0.len() - self.staged@.len()),
                self.resting@ == all.take(k0 + staged0.len() - self.staged@.len()),
                k0 == old(self).resting@.len(),
            decreases self.staged@.len(),
        {
            let ghost before = self.staged@;
            let ghost idx = staged0.len() - before.len();
            let ghost before_resting = self.resting@;
            let order = self.staged.pop_front().unwrap();
            assert(order == staged0[idx]);
            assert(all[k0 + idx] == RestingOrder { order: staged0[idx], bars_remaining: self.latency_bars, bars_waited: 0 });
            self.resting.push_back(RestingOrder { order, bars_remaining: self.latency_bars, bars_waited: 0 });
            assert(self.staged@ =~= staged0.skip(staged0.len() - self.staged@.len()));
            assert(self.resting@ =~= all.take(k0 + staged0.len() - self.staged@.len()));
        }
        assert(self.resting@ =~= all);
        assert(all.take(0) =~= Seq::<RestingOrder>::empty());
        assert(old(self).expired@ + Seq::<u64>::empty() =~= old(self).expired@);
        let mut fills: Vec<FillEvent> = Vec::new();
        let mut still: VecDeque<RestingOrder> = VecDeque::new();
        let mut expired: Vec<u64> = Vec::new();
        std::mem::swap(&mut expired, &mut self.expired);
        let ghost n = all.len();
        while self.resting.len() > 0
            invariant
                self.slippage == old(self).slippage,
                self.commission == old(self).commission,
                self.limit_fill_policy == old(self).limit_fill_policy,
                self.latency_bars == old(self).latency_bars,
                self.time_in_force_bars == old(self).time_in_force_bars,
                self.staged@.len() == 0,
                n == all.len(),
                self.resting@.len() <= n,
                self.resting@ == all.skip(n - self.resting@.len()),
                ({
                    let done = step_all(
                        all.take(n - self.resting@.len()),
                        *bar,
                        self.slippage,
                        self.commission,
                        self.limit_fill_policy,
                        self.time_in_force_bars,
                    );
                    fills@ == done.0 && still@ == done.1
                }),
                expired@ == old(self).expired@ + expired_ids(
                    all.take(n - self.resting@.len()),
                    self.time_in_force_bars,
                ),
            decreases self.resting@.len(),
        {
            let ghost k = n - self.resting@.len();
            let ghost before = self.resting@;
            let r = self.resting.pop_front().unwrap();
            assert(r == before[0]);
            assert(before[0] == all[k]);
            assert(all.take(k + 1).drop_last() =~= all.take(k));
            assert(all.take(k + 1).last() == r);
            self.step(r, bar, &mut fills, &mut still, &mut expired);
            assert(self.resting@ =~= all.skip(n - self.resting@.len()));
        }
        assert(all.take(n as int) =~= all);
        self.resting = still;
        self.expired = expired;
        fills
    }

    /// Stages `order` for the next bar.
    fn submit(&mut self, order: OrderEvent)
        ensures
            final(self).spec_staged() == old(self).spec_staged().push(order),
            final(self).spec_resting() == old(self).spec_resting(),
            final(self).same_config(old(self)),
            final(self).spec_expired() == old(self).spec_expired(),
    {
        self.staged.push_back(order);
    }
}

/// `bar_step` holds for each call in a run of `on_bar` calls, with nothing
/// submitted between them: `execs[i]` is the model before the call on
/// `bars[i]`, which returned `fills[i]`.
pub open spec fn on_bar_calls(
    execs: Seq<SimulatedExecution>,
    bars: Seq<MarketEvent>,
    fills: Seq<Seq<FillEvent>>,
) -> bool {
    &&& execs.len() == bars.len() + 1
    &&& fills.len() == bars.len()
    &&& forall|i: int| 0 <= i < bars.len() ==> #[trigger] call_at(execs, bars, fills, i)
}

/// Call `i` of a run of `on_bar` calls: `execs[i]` shown `bars[i]` became
/// `execs[i + 1]` and returned `fills[i]`.
pub open spec fn call_at(
    execs: Seq<SimulatedExecution>,
    bars: Seq<MarketEvent>,
    fills: Seq<Seq<FillEvent>>,
    i: int,
) -> bool {
    execs[i].bar_step(&bars[i], &execs[i + 1], fills[i])
}

/// What `x` holds before its next `on_bar`: the resting orders, then the
/// staged ones promoted with its latency.
pub open spec fn pending_orders(x: SimulatedExecution) -> Seq<RestingOrder> {
    x.spec_resting() + promote(x.spec_staged(), x.spec_latency())
}

proof fn lemma_step_all_one(
    r: RestingOrder,
    ev: MarketEvent,
    slippage: SlippageModel,
    commission: CommissionModel,
    policy: LimitFillPolicy,
    tif: Option<u32>,
)
    ensures
        step_all(seq![r], ev, slippage, commission, policy, tif) == step_spec(r, ev, slippage, commission, policy, tif),
{
    let rs = seq![r];
    assert(rs.drop_last() =~= Seq::<RestingOrder>::empty());
    assert(step_all(rs.drop_last(), ev, slippage, commission, policy, tif) == (
        Seq::<FillEvent>::empty(),
        Seq::<RestingOrder>::empty(),
    ));
    let out = step_spec(r, ev, slippage, commission, policy, tif);
    assert(Seq::<FillEvent>::empty() + out.0 =~= out.0);
    assert(Seq::<RestingOrder>::empty() + out.1 =~= out.1);
}

/// The calls after `i` are a run of `on_bar` calls too.
proof fn lemma_on_bar_calls_tail(execs: Seq<SimulatedExecution>, bars: Seq<MarketEvent>, fills: Seq<Seq<FillEvent>>)
    requires
        on_bar_calls(execs, bars, fills),
        bars.len() > 0,
    ensures
        on_bar_calls(execs.drop_first(), bars.drop_first(), fills.drop_first()),
        fills.flatten() == fills[0] + fills.drop_first().flatten(),
{
    assert forall|i: int| 0 <= i < bars.drop_first().len() implies #[trigger] call_at(
        execs.drop_first(),
        bars.drop_first(),
        fills.drop_first(),
        i,
    ) by {
        assert(call_at(execs, bars, fills, i + 1));
    }
}

/// A model with nothing resting or staged fills nothing, however many bars
/// it is shown.
proof fn lemma_idle_calls_fill_nothing(
    execs: Seq<SimulatedExecution>,
    bars: Seq<MarketEvent>,
    fills: Seq<Seq<FillEvent>>,
)
    requires
        on_bar_calls(execs, bars, fills),
        pending_orders(execs[0]).len() == 0,
    ensures
        fills.flatten().len() == 0,
    decreases bars.len(),
{
    if bars.len() > 0 {
        let x = execs[0];
        assert(call_at(execs, bars, fills, 0));
        assert(pending_orders(x) =~= Seq::<RestingOrder>::empty());
        assert(pending_orders(execs[1]) =~= Seq::<RestingOrder>::empty());
        lemma_on_bar_calls_tail(execs, bars, fills);
        lemma_idle_calls_fill_nothing(execs.drop_first(), bars.drop_first(), fills.drop_first());
    }
}

proof fn lemma_lone_order_calls(
    r: RestingOrder,
    execs: Seq<SimulatedExecution>,
    bars: Seq<MarketEvent>,
    fills: Seq<Seq<FillEvent>>,
)
    requires
        on_bar_calls(execs, bars, fills),
        pending_orders(execs[0]) == seq![r],
    ensures
        forall|i: int| 0 <= i < execs.len() ==> (#[trigger] execs[i]).same_config(&execs[0]),
        fills.flatten() == order_fills(
            r,
            bars,
            execs[0].spec_slippage(),
            execs[0].spec_commission(),
            execs[0].spec_policy(),
            execs[0].spec_tif(),
        ),
    decreases bars.len(),
{
    if bars.len() > 0 {
        let x = execs[0];
        let ev = bars[0];
        assert(call_at(execs, bars, fills, 0));
        lemma_step_all_one(r, ev, x.spec_slippage(), x.spec_commission(), x.spec_policy(), x.spec_tif());
        let out = step_spec(r, ev, x.spec_slippage(), x.spec_commission(), x.spec_policy(), x.spec_tif());
        lemma_on_bar_calls_tail(execs, bars, fills);
        let x1 = execs[1];
        assert(promote(x1.spec_staged(), x1.spec_latency()) =~= Seq::<RestingOrder>::empty());
        assert(pending_orders(x1) =~= out.1);
        if out.1.len() > 0 {
            assert(out.1 =~= seq![out.1[0]]);
            lemma_lone_order_calls(out.1[0], execs.drop_first(), bars.drop_first(), fills.drop_first());
            assert forall|i: int| 0 <= i < execs.len() implies (#[trigger] execs[i]).same_config(&execs[0]) by {
                if i > 0 {
                    assert(execs[i] == execs.drop_first()[i - 1]);
                }
            }
        } else {
            lemma_idle_calls_fill_nothing(execs.drop_first(), bars.drop_first(), fills.drop_first());
            assert(fills.drop_first().flatten() =~= Seq::<FillEvent>::empty());
            assert(fills.flatten() =~= out.0);
            lemma_same_config_along(execs, bars, fills);
        }
    }
}

/// Every model along a run of `on_bar` calls keeps the first one's
/// configuration.
proof fn lemma_same_config_along(execs: Seq<SimulatedExecution>, bars: Seq<MarketEvent>, fills: Seq<Seq<FillEvent>>)
    requires
        on_bar_calls(execs, bars, fills),
    ensures
        forall|i: int| 0 <= i < execs.len() ==> (#[trigger] execs[i]).same_config(&execs[0]),
    decreases bars.len(),
{
    if bars.len() > 0 {
        assert(call_at(execs, bars, fills, 0));
        lemma_on_bar_calls_tail(execs, bars, fills);
        lemma_same_config_along(execs.drop_first(), bars.drop_first(), fills.drop_first());
        assert forall|i: int| 0 <= i < execs.len() implies (#[trigger] execs[i]).same_config(&execs[0]) by {
            if i > 0 {
                assert(execs[i] == execs.drop_first()[i - 1]);
            }
        }
    }
}

/// A run of `on_bar` calls, with nothing submitted in between, gives a
/// lone order `r` (resting, or staged and promoted on the first call) the
/// fills that [`order_fills`] describes for it: after the first `k` calls,
/// the fills returned so far are `order_fills` over the first `k` bars.
pub proof fn lemma_on_bar_calls_follow_order_fills(
    r: RestingOrder,
    execs: Seq<SimulatedExecution>,
    bars: Seq<MarketEvent>,
    fills: Seq<Seq<FillEvent>>,
)
    requires
        on_bar_calls(execs, bars, fills),
        pending_orders(execs[0]) == seq![r],
    ensures
        forall|k: int|
            0 <= k <= bars.len() ==> (#[trigger] fills.take(k)).flatten() == order_fills(
                r,
                bars.take(k),
                execs[0].spec_slippage(),
                execs[0].spec_commission(),
                execs[0].spec_policy(),
                execs[0].spec_tif(),
            ),
{
    assert forall|k: int| 0 <= k <= bars.len() implies (#[trigger] fills.take(k)).flatten() == order_fills(
        r,
        bars.take(k),
        execs[0].spec_slippage(),
        execs[0].spec_commission(),
        execs[0].spec_policy(),
        execs[0].spec_tif(),
    ) by {
        let e = execs.take(k + 1);
        let b = bars.take(k);
        let f = fills.take(k);
        assert forall|i: int| 0 <= i < b.len() implies #[trigger] call_at(e, b, f, i) by {
            assert(call_at(execs, bars, fills, i));
        }
        assert(e[0] == execs[0]);
        lemma_lone_order_calls(r, e, b, f);
    }
}

/// The fills of the first `i + 1` calls are those of the first `i`, then
/// those of call `i`.
proof fn lemma_fills_through_call(fills: Seq<Seq<FillEvent>>, i: int)
    requires
        0 <= i < fills.len(),
    ensures
        fills.take(i + 1).flatten() == fills.take(i).flatten() + fills[i],
{
    let a = fills.take(i + 1);
    a.lemma_flatten_and_flatten_alt_are_equivalent();
    fills.take(i).lemma_flatten_and_flatten_alt_are_equivalent();
    assert(a.drop_last() =~= fills.take(i));
}

/// An order still waiting out its latency over all of `bars` fills on none
/// of them.
proof fn lemma_waiting_fills_nothing(
    r: RestingOrder,
    bars: Seq<MarketEvent>,
    slippage: SlippageModel,
    commission: CommissionModel,
    policy: LimitFillPolicy,
    tif: Option<u32>,
)
    requires
        r.bars_remaining >= bars.len(),
    ensures
        order_fills(r, bars, slippage, commission, policy, tif).len() == 0,
    decreases bars.len(),
{
    if bars.len() > 0 {
        let next = RestingOrder { bars_remaining: (r.bars_remaining - 1) as u32, ..r };
        lemma_waiting_fills_nothing(next, bars.drop_first(), slippage, commission, policy, tif);
    }
}

/// Latency over a run of `on_bar` calls: a market order submitted to a
/// model with latency `L` that never splits orders (no `VolumeImpact`) and
/// has no time in force, with nothing else pending, gets no fill from the
/// first `L` calls, one fill of its whole quantity from call `L`, at the
/// slippage-adjusted open of that call's bar and with that bar's time, and
/// no fill from any later call.
pub proof fn lemma_market_order_fills_once_after_latency(
    o: OrderEvent,
    execs: Seq<SimulatedExecution>,
    bars: Seq<MarketEvent>,
    fills: Seq<Seq<FillEvent>>,
)
    requires
        on_bar_calls(execs, bars, fills),
        execs[0].spec_resting().len() == 0,
        execs[0].spec_staged() == seq![o],
        o.order_type == OrderType::Market,
        o.quantity > 0,
        !(execs[0].spec_slippage() is VolumeImpact),
        execs[0].spec_tif() is None,
    ensures
        forall|i: int|
            0 <= i < bars.len() ==> #[trigger] fills[i] == if i == execs[0].spec_latency() {
                let b = bars[i];
                let x = execs[0];
                let price = adjusted_price_spec(x.spec_slippage(), b.bar.open as int, o.side, o.quantity as int, b.bar.volume as int);
                seq![
                    FillEvent {
                        order_id: o.id,
                        symbol: o.symbol,
                        timestamp: b.bar.timestamp,
                        side: o.side,
                        quantity_filled: o.quantity,
                        fill_price: price as i64,
                        commission: commission_spec(x.spec_commission(), o.quantity as int, price) as i128,
                        reference_price: b.bar.open,
                    },
                ]
            } else {
                Seq::<FillEvent>::empty()
            },
{
    let x = execs[0];
    let lat = x.spec_latency();
    let r = RestingOrder { order: o, bars_remaining: lat, bars_waited: 0 };
    assert(pending_orders(x) =~= seq![r]);
    lemma_on_bar_calls_follow_order_fills(r, execs, bars, fills);
    assert forall|i: int| 0 <= i < bars.len() implies #[trigger] fills[i] == if i == lat {
        let b = bars[i];
        let price = adjusted_price_spec(x.spec_slippage(), b.bar.open as int, o.side, o.quantity as int, b.bar.volume as int);
        seq![
            FillEvent {
                order_id: o.id,
                symbol: o.symbol,
                timestamp: b.bar.timestamp,
                side: o.side,
                quantity_filled: o.quantity,
                fill_price: price as i64,
                commission: commission_spec(x.spec_commission(), o.quantity as int, price) as i128,
                reference_price: b.bar.open,
            },
        ]
    } else {
        Seq::<FillEvent>::empty()
    } by {
        lemma_fills_through_call(fills, i);
        let before = fills.take(i).flatten();
        let through = fills.take(i + 1).flatten();
        assert(before == order_fills(r, bars.take(i), x.spec_slippage(), x.spec_commission(), x.spec_policy(), x.spec_tif()));
        assert(through == order_fills(r, bars.take(i + 1), x.spec_slippage(), x.spec_commission(), x.spec_policy(), x.spec_tif()));
        if i < lat {
            lemma_waiting_fills_nothing(r, bars.take(i + 1), x.spec_slippage(), x.spec_commission(), x.spec_policy(), x.spec_tif());
            assert(fills[i] =~= Seq::<FillEvent>::empty());
        } else {
            lemma_latency_fills_once(r, bars.take(i + 1), x.spec_slippage(), x.spec_commission(), x.spec_policy());
            assert(bars.take(i + 1)[lat as int] == bars[lat as int]);
            if i == lat {
                lemma_waiting_fills_nothing(r, bars.take(i), x.spec_slippage(), x.spec_commission(), x.spec_policy(), x.spec_tif());
                assert(before.len() == 0);
                assert(through =~= fills[i]);
            } else {
                lemma_latency_fills_once(r, bars.take(i), x.spec_slippage(), x.spec_commission(), x.spec_policy());
                assert(bars.take(i)[lat as int] == bars[lat as int]);
                assert(before == through);
                assert(fills[i] =~= Seq::<FillEvent>::empty());
            }
        }
    }
}

/// Time in force over a run of `on_bar` calls: a limit order submitted to
/// a model with no latency and time in force `t`, with nothing else
/// pending, whose first `t` bars do not trigger it, gets no fill from any
/// call: it is cancelled after those bars, whatever later bars do.
pub proof fn lemma_time_in_force_over_calls(
    o: OrderEvent,
    execs: Seq<SimulatedExecution>,
    bars: Seq<MarketEvent>,
    fills: Seq<Seq<FillEvent>>,
    t: u32,
)
    requires
        on_bar_calls(execs, bars, fills),
        execs[0].spec_resting().len() == 0,
        execs[0].spec_staged() == seq![o],
        o.order_type is Limit,
        execs[0].spec_latency() == 0,
        execs[0].spec_tif() == Some(t),
        forall|i: int|
            0 <= i < bars.len() && i < t ==> !limit_triggers(
                execs[0].spec_policy(),
                o.side,
                o.order_type->price as int,
                #[trigger] bars[i].bar,
            ),
    ensures
        forall|i: int| 0 <= i < bars.len() ==> (#[trigger] fills[i]).len() == 0,
{
    let x = execs[0];
    let r = RestingOrder { order: o, bars_remaining: 0, bars_waited: 0 };
    assert(pending_orders(x) =~= seq![r]);
    lemma_on_bar_calls_follow_order_fills(r, execs, bars, fills);
    assert(fills.take(bars.len() as int) =~= fills);
    assert(bars.take(bars.len() as int) =~= bars);
    lemma_time_in_force_cancels(r, bars, x.spec_slippage(), x.spec_commission(), x.spec_policy(), t);
    let whole = fills.take(bars.len() as int);
    assert(whole.flatten() == order_fills(r, bars.take(bars.len() as int), x.spec_slippage(), x.spec_commission(), x.spec_policy(), x.spec_tif()));
    assert(fills.flatten().len() == 0);
    fills.lemma_flatten_and_flatten_alt_are_equivalent();
    assert forall|i: int| 0 <= i < bars.len() implies (#[trigger] fills[i]).len() == 0 by {
        fills.lemma_flatten_length_ge_single_element_length(i);
    }
}

/// Partial fills over a run of `on_bar` calls: whatever bars a lone resting
/// or submitted order meets, every fill the calls return is for a positive
/// quantity, and all of them together fill at most the order's quantity.
pub proof fn lemma_partial_fills_over_calls(
    r: RestingOrder,
    execs: Seq<SimulatedExecution>,
    bars: Seq<MarketEvent>,
    fills: Seq<Seq<FillEvent>>,
)
    requires
        on_bar_calls(execs, bars, fills),
        pending_orders(execs[0]) == seq![r],
        r.order.quantity > 0,
    ensures
        filled_quantity(fills.flatten()) <= r.order.quantity,
        forall|i: int| 0 <= i < fills.flatten().len() ==> (#[trigger] fills.flatten()[i]).quantity_filled > 0,
{
    let x = execs[0];
    lemma_on_bar_calls_follow_order_fills(r, execs, bars, fills);
    assert(fills.take(bars.len() as int) =~= fills);
    assert(bars.take(bars.len() as int) =~= bars);
    let whole = fills.take(bars.len() as int);
    assert(whole.flatten() == order_fills(r, bars.take(bars.len() as int), x.spec_slippage(), x.spec_commission(), x.spec_policy(), x.spec_tif()));
    lemma_partial_fills_bounded(r, bars, x.spec_slippage(), x.spec_commission(), x.spec_policy(), x.spec_tif());
}

/// What every fill of `fills` satisfies under `slippage` and `commission`
/// on bar `ev`: it carries the bar's time, its price is either its
/// reference price (a limit fill) or the slippage-adjusted reference for
/// its own quantity in the bar's volume (a market fill, whose reference is
/// the bar's open), and its commission is the commission model applied to
/// its own quantity and price.
pub open spec fn fills_priced_on_own_quantity(
    fills: Seq<FillEvent>,
    ev: MarketEvent,
    slippage: SlippageModel,
    commission: CommissionModel,
) -> bool {
    forall|i: int|
        0 <= i < fills.len() ==> {
            let f = #[trigger] fills[i];
            &&& f.timestamp == ev.bar.timestamp
            &&& f.commission == commission_spec(commission, f.quantity_filled as int, f.fill_price as int) as i128
            &&& f.fill_price == f.reference_price || (f.reference_price == ev.bar.open && f.fill_price
                == adjusted_price_spec(
                slippage,
                f.reference_price as int,
                f.side,
                f.quantity_filled as int,
                ev.bar.volume as int,
            ))
        }
}

proof fn lemma_step_prices_own_quantity(
    r: RestingOrder,
    ev: MarketEvent,
    slippage: SlippageModel,
    commission: CommissionModel,
    policy: LimitFillPolicy,
    tif: Option<u32>,
)
    ensures
        fills_priced_on_own_quantity(step_spec(r, ev, slippage, commission, policy, tif).0, ev, slippage, commission),
{
    let o = r.order;
    if r.bars_remaining == 0 && !(tif matches Some(t) && r.bars_waited >= t) {
        if o.order_type is Market {
            let (fill_qty, rest_qty) = split_spec(slippage, o.quantity as int, ev.bar.volume as int);
            assert(i64::MIN <= fill_qty <= i64::MAX);
            let price = adjusted_price_spec(slippage, ev.bar.open as int, o.side, fill_qty, ev.bar.volume as int);
            assert(i64::MIN <= price <= i64::MAX);
        }
    }
}

proof fn lemma_step_all_prices_own_quantity(
    rs: Seq<RestingOrder>,
    ev: MarketEvent,
    slippage: SlippageModel,
    commission: CommissionModel,
    policy: LimitFillPolicy,
    tif: Option<u32>,
)
    ensures
        fills_priced_on_own_quantity(step_all(rs, ev, slippage, commission, policy, tif).0, ev, slippage, commission),
    decreases rs.len(),
{
    if rs.len() > 0 {
        let prev = step_all(rs.drop_last(), ev, slippage, commission, policy, tif);
        let last = step_spec(rs.last(), ev, slippage, commission, policy, tif);
        lemma_step_all_prices_own_quantity(rs.drop_last(), ev, slippage, commission, policy, tif);
        lemma_step_prices_own_quantity(rs.last(), ev, slippage, commission, policy, tif);
        let all = prev.0 + last.0;
        assert forall|i: int| 0 <= i < all.len() implies #[trigger] all[i] == if i < prev.0.len() {
            prev.0[i]
        } else {
            last.0[i - prev.0.len()]
        } by {}
    }
}

/// Each fill that `on_bar` returns is charged for itself: its commission
/// is the model's commission on that fill's own quantity and price (a
/// partial fill pays only for the part that filled), its price is its
/// limit or the slippage-adjusted open for its own quantity, and it
/// carries the bar's time.
pub proof fn lemma_fills_charged_on_own_quantity(
    x: SimulatedExecution,
    bar: MarketEvent,
    next: SimulatedExecution,
    fills: Seq<FillEvent>,
)
    requires
        x.bar_step(&bar, &next, fills),
    ensures
        forall|i: int|
            0 <= i < fills.len() ==> (#[trigger] fills[i]).commission == commission_spec(
                x.spec_commission(),
                fills[i].quantity_filled as int,
                fills[i].fill_price as int,
            ) as i128,
        fills_priced_on_own_quantity(fills, bar, x.spec_slippage(), x.spec_commission()),
{
    lemma_step_all_prices_own_quantity(
        pending_orders(x),
        bar,
        x.spec_slippage(),
        x.spec_commission(),
        x.spec_policy(),
        x.spec_tif(),
    );
}

} // verus!

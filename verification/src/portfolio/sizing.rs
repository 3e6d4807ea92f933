//! Concrete `SizingModel` implementations.
use super::{Portfolio, SizingModel};
use super::value_fold;
use crate::data::types::Price;
use crate::events::{Direction, OrderEvent, OrderType, Side, SignalEvent};
use crate::fixed::{clamp64, floor_div, mul_div, narrow, SCALE};
use vstd::prelude::*;

verus! {

/// The target position size, in quantity units, for a `fraction` of
/// `equity` at `price`: the equity in price units, then the fraction of
/// it, then the number of units that buys; each step rounds down.
pub open spec fn target_quantity(fraction: int, equity: int, price: int) -> int {
    let budget = clamp64(equity / (SCALE as int));
    let allocation = clamp64((budget * fraction) / (SCALE as int));
    clamp64((allocation * SCALE) / price)
}

/// The order (side, quantity) a fixed-fraction sizer wants for `direction`,
/// given the current position `current`, or `None` if none is needed.
pub open spec fn fixed_fraction_order(
    direction: Direction,
    current: int,
    fraction: int,
    equity: int,
    price: int,
) -> Option<(Side, int)> {
    match direction {
        Direction::Exit => if current == 0 {
            None
        } else if current > 0 {
            Some((Side::Sell, clamp64(current)))
        } else {
            Some((Side::Buy, clamp64(-current)))
        },
        _ => {
            let t = target_quantity(fraction, equity, price);
            let signed = if direction == Direction::Long {
                t
            } else {
                -t
            };
            let delta = signed - current;
            if delta == 0 {
                None
            } else if delta > 0 {
                Some((Side::Buy, clamp64(delta)))
            } else {
                Some((Side::Sell, clamp64(-delta)))
            }
        },
    }
}

/// Filling a fixed-fraction order lands on the target: for `Long` (or
/// `Short`) the position plus the order's signed quantity is the target
/// quantity (negated for `Short`), and for `Exit` it is flat, whenever the
/// needed trade fits in a quantity; no order is sized exactly when the
/// position already stands there.
pub proof fn lemma_fixed_fraction_reaches_target(
    direction: Direction,
    current: i64,
    fraction: int,
    equity: int,
    price: int,
)
    requires
        direction == Direction::Exit ==> current != i64::MIN,
        direction != Direction::Exit ==> ({
            let t = target_quantity(fraction, equity, price);
            let signed = if direction == Direction::Long { t } else { -t };
            i64::MIN <= signed - current <= i64::MAX && signed - current != i64::MIN
        }),
    ensures
        ({
            let goal = match direction {
                Direction::Exit => 0,
                Direction::Long => target_quantity(fraction, equity, price),
                Direction::Short => -target_quantity(fraction, equity, price),
            };
            match fixed_fraction_order(direction, current as int, fraction, equity, price) {
                None => current == goal,
                Some(o) => current + (if o.0 == Side::Buy { o.1 } else { -o.1 }) == goal,
            }
        }),
{
}

/// Sizes every new position at a fixed fraction of current equity
/// (fixed-point: `SCALE` units per 1.0, so 1_000 is 10%). `Exit` signals
/// close whatever position is open, regardless of fraction.
#[derive(Debug, Clone, Copy, PartialEq, Eq, Structural)]
pub struct FixedFraction {
    pub fraction: i64,
}

impl FixedFraction {
    pub fn new(fraction: i64) -> (r: Self)
        ensures
            r.fraction == fraction,
    {
        FixedFraction { fraction }
    }
}

impl SizingModel for FixedFraction {
    /// `None` when the symbol has no positive last price, or when no trade
    /// is needed; otherwise a market order (id 0, assigned later by the
    /// engine) that moves the position to the target.
    open spec fn sizes(&self, signal: &SignalEvent, portfolio: &Portfolio, order: Option<OrderEvent>) -> bool {
        ({
            let prices = portfolio.spec_last_prices();
            let known = prices.dom().contains(signal.symbol@);
            if !known || prices[signal.symbol@] <= 0 {
                order is None
            } else {
                let equity = value_fold(
                    portfolio.cash as int,
                    portfolio.spec_position_entries(),
                    prices,
                    false,
                );
                match fixed_fraction_order(
                    signal.direction,
                    portfolio.spec_position(signal.symbol@).quantity as int,
                    self.fraction as int,
                    equity,
                    prices[signal.symbol@] as int,
                ) {
                    None => order is None,
                    Some(o) => order == Some(
                        OrderEvent {
                            id: 0,
                            symbol: signal.symbol,
                            timestamp: signal.timestamp,
                            side: o.0,
                            order_type: OrderType::Market,
                            quantity: o.1 as i64,
                        },
                    ),
                }
            }
        })
    }

    fn size(&self, signal: &SignalEvent, portfolio: &Portfolio) -> (r: Option<OrderEvent>)
    {
        let price: Price = match portfolio.last_price(&signal.symbol) {
            Some(p) => p,
            None => return None,
        };
        if price <= 0 {
            return None;
        }
        let current = portfolio.position(&signal.symbol).quantity as i128;
        let (side, quantity) = match signal.direction {
            Direction::Exit => {
                if current == 0 {
                    return None;
                }
                if current > 0 {
                    (Side::Sell, narrow(current))
                } else {
                    (Side::Buy, narrow(-current))
                }
            },
            Direction::Long | Direction::Short => {
                let equity = portfolio.equity();
                let budget = narrow(floor_div(equity, SCALE as i128));
                let allocation = mul_div(budget, self.fraction, SCALE);
                let target = mul_div(allocation, SCALE, price);
                let signed: i128 = if signal.direction == Direction::Long {
                    target as i128
                } else {
                    -(target as i128)
                };
                let delta = signed - current;
                if delta == 0 {
                    return None;
                }
                if delta > 0 {
                    (Side::Buy, narrow(delta))
                } else {
                    (Side::Sell, narrow(-delta))
                }
            },
        };
        Some(
            OrderEvent {
                id: 0,
                symbol: signal.symbol.clone(),
                timestamp: signal.timestamp,
                side,
                order_type: OrderType::Market,
                quantity,
            },
        )
    }
}

} // verus!

//! The event loop: pulls market events from a [`DataFeed`] one at a time,
//! advances the simulation clock, lets resting orders fill against the new
//! bar, marks the portfolio, shows the strategy the history it may see,
//! sizes and submits its signals, and records equity.
use crate::data::types::{Bar, Money, SymbolId, Timestamp};
use crate::data::DataFeed;
use crate::events::{FillEvent, MarketEvent, OrderEvent, OrderType, Side, SignalEvent};
use crate::execution::ExecutionModel;
use crate::execution::simulated::{lemma_fills_come_from_resting_orders, promote, SimulatedExecution};
use crate::portfolio::{equity_sampled, fill_booked, price_marked, EquityPoint, Portfolio, SizingModel};
use crate::strategy::{RingBuffer, Strategy, StrategyContext};
use vstd::prelude::*;

verus! {

/// Tracks simulated "now". Time may only move forward.
#[derive(Debug, Default)]
pub struct SimClock {
    current: Option<Timestamp>,
}

impl SimClock {
    pub closed spec fn spec_now(&self) -> Option<Timestamp> {
        self.current
    }

    pub fn new() -> (r: Self)
        ensures
            r.spec_now() == None::<Timestamp>,
    {
        SimClock { current: None }
    }

    pub fn now(&self) -> (r: Option<Timestamp>)
        ensures
            r == self.spec_now(),
    {
        self.current
    }

    /// Advances the clock to `timestamp`, which must not be before now.
    pub fn advance_to(&mut self, timestamp: Timestamp)
        requires
            old(self).spec_now() matches Some(now) ==> timestamp >= now,
        ensures
            final(self).spec_now() == Some(timestamp),
    {
        self.current = Some(timestamp);
    }
}

/// Summary counters returned after a run.
#[derive(Debug, Default, Clone, Copy, PartialEq, Eq, Structural)]
pub struct RunSummary {
    pub market_events: usize,
    pub orders_submitted: usize,
    pub orders_rejected: usize,
    pub fills: usize,
}

/// Whether the equity points `pts` are in non-decreasing time order.
pub open spec fn forward_in_time(pts: Seq<EquityPoint>) -> bool {
    forall|i: int, j: int| 0 <= i <= j < pts.len() ==> pts[i].timestamp <= pts[j].timestamp
}

/// The timestamps of the equity samples of `curve` from index `from` on.
pub open spec fn sample_times(curve: Seq<EquityPoint>, from: int) -> Seq<Timestamp> {
    Seq::new((curve.len() - from) as nat, |i: int| curve[from + i].timestamp)
}

/// The events of `events` that a run starting with the clock at `now`
/// processes, in order: an event dated before the clock is passed over,
/// any other one is processed and moves the clock to its time.
pub open spec fn accepted_events(events: Seq<MarketEvent>, now: Option<Timestamp>) -> Seq<MarketEvent>
    decreases events.len(),
{
    if events.len() == 0 {
        Seq::empty()
    } else {
        let t = events[0].bar.timestamp;
        if now matches Some(n) && t < n {
            accepted_events(events.drop_first(), now)
        } else {
            seq![events[0]] + accepted_events(events.drop_first(), Some(t))
        }
    }
}

/// The bar times of `events`.
pub open spec fn event_times(events: Seq<MarketEvent>) -> Seq<Timestamp> {
    Seq::new(events.len(), |i: int| events[i].bar.timestamp)
}

/// The bars of the events of `events` for `symbol`, in order.
pub open spec fn symbol_bars(events: Seq<MarketEvent>, symbol: Seq<char>) -> Seq<Bar>
    decreases events.len(),
{
    if events.len() == 0 {
        Seq::empty()
    } else {
        let e = events.last();
        let before = symbol_bars(events.drop_last(), symbol);
        if e.symbol@ == symbol {
            before.push(e.bar)
        } else {
            before
        }
    }
}

/// The last `n` elements of `s` (all of them if there are fewer).
pub open spec fn last_n(s: Seq<Bar>, n: int) -> Seq<Bar> {
    if s.len() > n {
        s.skip(s.len() - n)
    } else {
        s
    }
}

/// The size of the history window for a strategy that needs `warmup` bars.
pub open spec fn window_size(warmup: usize) -> int {
    if warmup == 0 {
        1
    } else {
        warmup as int
    }
}

/// What the engine did for one processed event, from the moment the bar
/// arrived to the equity sample that closed the step.
pub struct StepLog<S, X> {
    pub event: MarketEvent,
    /// The execution model when the bar arrived, and after `on_bar`.
    pub exec_before: X,
    pub exec_after_bar: X,
    /// The fills `on_bar` returned.
    pub fills: Ghost<Seq<FillEvent>>,
    /// The portfolio before each fill and after the last one.
    pub books: Ghost<Seq<Portfolio>>,
    /// The portfolio once the bar's close is recorded as the mark.
    pub marked: Portfolio,
    /// The bars of the event's symbol kept for the strategy, ending with this bar.
    pub window: Ghost<Seq<Bar>>,
    /// The strategy before and after the step.
    pub strategy_before: S,
    pub strategy_after: S,
    /// The context the strategy was shown, or `None` while warming up.
    pub context: Option<StrategyContext>,
    pub signals: Ghost<Seq<SignalEvent>>,
    /// What the sizing model answered for each signal.
    pub sized: Ghost<Seq<Option<OrderEvent>>>,
    /// The next order id before each signal, and after the last.
    pub ids: Ghost<Seq<u64>>,
    /// The execution model before each signal's order, and after the last.
    pub execs: Ghost<Seq<X>>,
    /// The portfolio after the equity sample.
    pub after: Portfolio,
}

/// `id + 1`, saturating.
pub open spec fn next_id(id: u64) -> u64 {
    if id < u64::MAX {
        (id + 1) as u64
    } else {
        id
    }
}

/// The price an order is checked against: the bar's close for a market
/// order, the limit for a limit order.
pub open spec fn check_price(order: OrderEvent, event: MarketEvent) -> i64 {
    match order.order_type {
        OrderType::Market => event.bar.close,
        OrderType::Limit { price } => price,
    }
}

/// Whether `portfolio` can afford `order` at `price`: a buy needs its
/// notional in cash, a sell is always affordable.
pub open spec fn affordable(portfolio: Portfolio, order: OrderEvent, price: i64) -> bool {
    match order.side {
        Side::Buy => order.quantity * price <= portfolio.cash,
        Side::Sell => true,
    }
}

/// How one sized answer is handled: a sized order gets the id `id` and the
/// next id is taken; it is submitted (moving the execution model from `x`
/// to `x2`) if `portfolio` can afford it, and dropped otherwise.
pub open spec fn order_handled<X: ExecutionModel>(
    sized: Option<OrderEvent>,
    id: u64,
    id2: u64,
    x: X,
    x2: X,
    portfolio: Portfolio,
    event: MarketEvent,
) -> bool {
    match sized {
        None => id2 == id && x2 == x,
        Some(o) => {
            let order = OrderEvent { id, ..o };
            &&& id2 == next_id(id)
            &&& if affordable(portfolio, order, check_price(order, event)) {
                x.submit_step(&order, &x2)
            } else {
                x2 == x
            }
        },
    }
}

/// How many of the sizing answers `sized` are orders that `portfolio` can
/// afford at their check price on `event` (`afford`), or cannot (`!afford`).
pub open spec fn orders_with(sized: Seq<Option<OrderEvent>>, portfolio: Portfolio, event: MarketEvent, afford: bool) -> nat
    decreases sized.len(),
{
    if sized.len() == 0 {
        0
    } else {
        let rest = orders_with(sized.drop_last(), portfolio, event, afford);
        match sized.last() {
            Some(o) => if affordable(portfolio, o, check_price(o, event)) == afford {
                rest + 1
            } else {
                rest
            },
            None => rest,
        }
    }
}

/// The orders of the steps of `logs` that were submitted (`afford`), or
/// rejected for want of cash (`!afford`).
pub open spec fn logged_orders<S, X>(logs: Seq<StepLog<S, X>>, afford: bool) -> nat
    decreases logs.len(),
{
    if logs.len() == 0 {
        0
    } else {
        let l = logs.last();
        logged_orders(logs.drop_last(), afford) + orders_with(l.sized@, l.marked, l.event, afford)
    }
}

/// `n` as a saturating `usize` counter holds it.
pub open spec fn saturated(n: int) -> int {
    if n > usize::MAX {
        usize::MAX as int
    } else {
        n
    }
}

/// Whether `l` is one step of the engine with sizing model `sizing` and a
/// strategy needing `warmup` bars: resting orders meet the bar first and
/// their fills are booked in order, the close becomes the mark, the
/// strategy is shown the symbol's window once it holds `warmup` bars, each
/// signal is sized and, when affordable, submitted, and equity is sampled.
pub open spec fn step_ok<S: Strategy, Z: SizingModel, X: ExecutionModel>(
    l: StepLog<S, X>,
    sizing: Z,
    warmup: usize,
) -> bool {
    let ev = l.event;
    let fills = l.fills@;
    let books = l.books@;
    let signals = l.signals@;
    let w = l.window@;
    &&& l.exec_before.bar_step(&ev, &l.exec_after_bar, fills)
    &&& books.len() == fills.len() + 1
    &&& forall|k: int| 0 <= k < fills.len() ==> fill_booked(books[k], #[trigger] fills[k], books[k + 1])
    &&& price_marked(books.last(), ev.symbol@, ev.bar.close, l.marked)
    &&& w.len() > 0 && w.last() == ev.bar
    &&& match l.context {
        None => w.len() < warmup && l.strategy_after == l.strategy_before && signals.len() == 0,
        Some(ctx) => {
            &&& w.len() >= warmup
            &&& ctx.history@ == w
            &&& ctx.position_quantity == l.marked.spec_position(ev.symbol@).quantity
            &&& ctx.cash == l.marked.cash
            &&& l.strategy_before.market_step(&ev, &ctx, &l.strategy_after, signals)
        },
    }
    &&& l.sized@.len() == signals.len()
    &&& l.ids@.len() == signals.len() + 1
    &&& l.execs@.len() == signals.len() + 1
    &&& l.execs@[0] == l.exec_after_bar
    &&& forall|j: int|
        0 <= j < signals.len() ==> sizing.sizes(&#[trigger] signals[j], &l.marked, l.sized@[j])
            && order_handled(
            l.sized@[j],
            l.ids@[j],
            l.ids@[j + 1],
            l.execs@[j],
            l.execs@[j + 1],
            l.marked,
            ev,
        )
    &&& equity_sampled(l.marked, ev.bar.timestamp, l.after)
}

/// The events of the steps of `logs`.
pub open spec fn logged_events<S, X>(logs: Seq<StepLog<S, X>>) -> Seq<MarketEvent> {
    Seq::new(logs.len(), |i: int| logs[i].event)
}

/// Whether consecutive steps of `logs` pick up where the one before left off.
pub open spec fn chained<S, X>(logs: Seq<StepLog<S, X>>) -> bool {
    forall|i: int|
        0 <= i < logs.len() - 1 ==> {
            &&& (#[trigger] logs[i]).after == logs[i + 1].books@[0]
            &&& logs[i].strategy_after == logs[i + 1].strategy_before
            &&& logs[i].execs@.last() == logs[i + 1].exec_before
            &&& logs[i].ids@.last() == logs[i + 1].ids@[0]
        }
}

/// Whether step `l` started from portfolio `p`, strategy `s`, execution
/// model `x` and next order id `id`.
pub open spec fn starts_from<S, X>(l: StepLog<S, X>, p: Portfolio, s: S, x: X, id: u64) -> bool {
    &&& l.books@[0] == p
    &&& l.strategy_before == s
    &&& l.exec_before == x
    &&& l.ids@[0] == id
}

/// Drives the simulation.
pub struct Engine<F: DataFeed, S: Strategy, Z: SizingModel, X: ExecutionModel> {
    data_feed: F,
    strategy: S,
    sizing: Z,
    execution: X,
    clock: SimClock,
    portfolio: Portfolio,
    histories: Vec<(SymbolId, RingBuffer)>,
    warmup: usize,
    next_order_id: u64,
    log: Ghost<Seq<StepLog<S, X>>>,
}

/// Bars kept in `window` after pushing `bar`: the last `cap` bars of the
/// symbol's bars so far, then `bar`.
proof fn lemma_window_push(s: Seq<Bar>, cap: int, bar: Bar)
    requires
        cap >= 1,
    ensures
        crate::strategy::context::pushed_window(last_n(s, cap), cap, bar) == last_n(s.push(bar), cap),
{
    let w = last_n(s, cap);
    let all = s.push(bar);
    if s.len() > cap {
        assert(w.push(bar).skip(w.push(bar).len() - cap) =~= all.skip(all.len() - cap));
    } else if all.len() > cap {
        assert(w.push(bar) =~= all);
    } else {
        assert(w.push(bar) =~= all);
    }
}

/// The history windows `h` hold, for each symbol seen in `events`, the
/// last `window_size(warmup)` bars of that symbol, one window per symbol.
spec fn histories_ok_for(h: Seq<(SymbolId, RingBuffer)>, events: Seq<MarketEvent>, warmup: usize) -> bool {
    &&& forall|i: int| 0 <= i < h.len() ==> (#[trigger] h[i]).1.spec_capacity() == window_size(warmup)
    &&& forall|i: int|
        0 <= i < h.len() ==> (#[trigger] h[i]).1@ == last_n(symbol_bars(events, h[i].0@), window_size(warmup))
    &&& forall|i: int, j: int| 0 <= i < j < h.len() ==> (#[trigger] h[i]).0@ != (#[trigger] h[j]).0@
    &&& forall|sym: Seq<char>|
        (forall|i: int| 0 <= i < h.len() ==> (#[trigger] h[i]).0@ != sym) ==> #[trigger] symbol_bars(
            events,
            sym,
        ).len() == 0
}

impl<F: DataFeed, S: Strategy, Z: SizingModel, X: ExecutionModel> Engine<F, S, Z, X> {
    pub closed spec fn spec_portfolio(&self) -> Portfolio {
        self.portfolio
    }

    pub closed spec fn spec_clock(&self) -> SimClock {
        self.clock
    }

    /// The data feed the engine pulls events from.
    pub closed spec fn spec_feed(&self) -> F {
        self.data_feed
    }

    /// The strategy, as it stands.
    pub closed spec fn spec_strategy(&self) -> S {
        self.strategy
    }

    /// The sizing model.
    pub closed spec fn spec_sizing(&self) -> Z {
        self.sizing
    }

    /// The execution model, as it stands.
    pub closed spec fn spec_execution(&self) -> X {
        self.execution
    }

    /// The number of bars the strategy needs before it is shown any.
    pub closed spec fn spec_warmup(&self) -> usize {
        self.warmup
    }

    /// The id the next sized order will get.
    pub closed spec fn spec_next_order_id(&self) -> u64 {
        self.next_order_id
    }

    /// Every step the engine has taken, oldest first.
    pub closed spec fn spec_log(&self) -> Seq<StepLog<S, X>> {
        self.log@
    }

    /// The history windows hold, for each symbol seen, the last
    /// `window_size(warmup)` bars of that symbol among the logged events.
    pub closed spec fn histories_ok(&self) -> bool {
        histories_ok_for(self.histories@, logged_events(self.log@), self.warmup)
    }

    /// `b` is well formed if `a` is and they differ at most in their feeds.
    proof fn lemma_feed_irrelevant(a: &Self, b: &Self)
        requires
            a.well_formed(),
            a.portfolio == b.portfolio,
            a.clock == b.clock,
            a.strategy == b.strategy,
            a.sizing == b.sizing,
            a.execution == b.execution,
            a.histories == b.histories,
            a.warmup == b.warmup,
            a.next_order_id == b.next_order_id,
            a.log == b.log,
        ensures
            b.well_formed(),
    {
    }

    /// The engine's standing invariant. Equity samples are in time order,
    /// and the latest one was taken at the clock's current time and shows
    /// the portfolio as it stands. Every logged step is a step of this
    /// engine (see [`step_ok`]), each picks up where the one before left
    /// off, the last one left the portfolio, strategy, execution model and
    /// order ids as they stand, and the window a step showed is the last
    /// bars of its symbol among the events up to and including its own.
    pub open spec fn well_formed(&self) -> bool {
        let logs = self.spec_log();
        &&& forward_in_time(self.spec_portfolio().equity_curve@)
        &&& self.spec_portfolio().equity_curve@.len() > 0 ==> {
            let last = self.spec_portfolio().equity_curve@.last();
            &&& self.spec_clock().spec_now() == Some(last.timestamp)
            &&& last == self.spec_portfolio().spec_snapshot(last.timestamp)
        }
        &&& forall|i: int| 0 <= i < logs.len() ==> step_ok(#[trigger] logs[i], self.spec_sizing(), self.spec_warmup())
        &&& forall|i: int|
            0 <= i < logs.len() ==> (#[trigger] logs[i]).window@ == last_n(
                symbol_bars(logged_events(logs.take(i + 1)), logs[i].event.symbol@),
                window_size(self.spec_warmup()),
            )
        &&& chained(logs)
        &&& logs.len() > 0 ==> {
            let l = logs.last();
            &&& l.after == self.spec_portfolio()
            &&& l.strategy_after == self.spec_strategy()
            &&& l.execs@.last() == self.spec_execution()
            &&& l.ids@.last() == self.spec_next_order_id()
        }
        &&& self.histories_ok()
    }

    /// An engine over `data_feed`, `strategy`, `sizing` and `execution`,
    /// with a portfolio holding `initial_cash` and nothing done yet.
    pub fn new(data_feed: F, strategy: S, sizing: Z, execution: X, initial_cash: Money) -> (r: Self)
        ensures
            r.spec_feed() == data_feed,
            r.spec_strategy() == strategy,
            r.spec_sizing() == sizing,
            r.spec_execution() == execution,
            strategy.warmup_is(r.spec_warmup()),
            r.spec_next_order_id() == 1,
            r.spec_log().len() == 0,
            r.spec_portfolio().cash == initial_cash,
            r.spec_portfolio().fills@.len() == 0,
            r.spec_portfolio().closed_trades@.len() == 0,
            r.spec_portfolio().equity_curve@.len() == 0,
            r.spec_portfolio().spec_positions() == Map::<Seq<char>, crate::portfolio::Position>::empty(),
            r.spec_portfolio().spec_position_entries().len() == 0,
            r.spec_portfolio().spec_last_prices() == Map::<Seq<char>, crate::data::types::Price>::empty(),
            r.spec_clock().spec_now() == None::<Timestamp>,
            r.well_formed(),
    {
        let warmup = strategy.warmup_bars();
        Engine {
            data_feed,
            strategy,
            sizing,
            execution,
            clock: SimClock::new(),
            portfolio: Portfolio::new(initial_cash),
            histories: Vec::new(),
            warmup,
            next_order_id: 1,
            log: Ghost(Seq::empty()),
        }
    }

    pub fn clock(&self) -> (r: &SimClock)
        ensures
            *r == self.spec_clock(),
    {
        &self.clock
    }

    pub fn portfolio(&self) -> (r: &Portfolio)
        ensures
            *r == self.spec_portfolio(),
    {
        &self.portfolio
    }

    /// The execution model, with whatever orders it still holds.
    pub fn execution(&self) -> (r: &X)
        ensures
            *r == self.spec_execution(),
    {
        &self.execution
    }

    /// The index of `symbol`'s history buffer, created (empty) on first sight.
    fn history_index(&mut self, symbol: &SymbolId) -> (r: usize)
        requires
            old(self).histories_ok(),
        ensures
            r < final(self).histories@.len(),
            final(self).histories@[r as int].0@ == symbol@,
            final(self).histories_ok(),
            final(self).portfolio == old(self).portfolio,
            final(self).clock == old(self).clock,
            final(self).next_order_id == old(self).next_order_id,
            final(self).warmup == old(self).warmup,
            final(self).data_feed == old(self).data_feed,
            final(self).strategy == old(self).strategy,
            final(self).sizing == old(self).sizing,
            final(self).execution == old(self).execution,
            final(self).log == old(self).log,
    {
        let n = self.histories.len();
        let mut i: usize = 0;
        while i < n
            invariant
                n == self.histories@.len(),
                i <= n,
                forall|j: int| 0 <= j < i ==> self.histories@[j].0@ != symbol@,
                *self == *old(self),
                self.histories_ok(),
            decreases n - i,
        {
            if self.histories[i].0.same_as(symbol) {
                return i;
            }
            i = i + 1;
        }
        let ghost h0 = self.histories@;
        let ghost events = logged_events(self.log@);
        assert(symbol_bars(events, symbol@).len() == 0);
        assert(last_n(symbol_bars(events, symbol@), window_size(self.warmup)) =~= Seq::<Bar>::empty());
        self.histories.push((symbol.clone(), RingBuffer::new(self.warmup)));
        proof {
            let h = self.histories@;
            assert forall|sym: Seq<char>|
                (forall|k: int| 0 <= k < h.len() ==> (#[trigger] h[k]).0@ != sym) implies #[trigger] symbol_bars(
                events,
                sym,
            ).len() == 0 by {
                assert forall|k: int| 0 <= k < h0.len() implies (#[trigger] h0[k]).0@ != sym by {
                    assert(h[k] == h0[k]);
                }
            }
            assert forall|k: int, j: int| 0 <= k < j < h.len() implies (#[trigger] h[k]).0@ != (#[trigger] h[j]).0@ by {
                if j == h.len() - 1 {
                    assert(h[k] == h0[k]);
                } else {
                    assert(h[k] == h0[k] && h[j] == h0[j]);
                }
            }
            assert forall|k: int| 0 <= k < h.len() implies (#[trigger] h[k]).1@ == last_n(
                symbol_bars(events, h[k].0@),
                window_size(self.warmup),
            ) && h[k].1.spec_capacity() == window_size(self.warmup) by {
                if k < h.len() - 1 {
                    assert(h[k] == h0[k]);
                }
            }
        }
        n
    }

    /// Processes one market event dated no earlier than the clock: resting
    /// orders fill against it first, then the mark moves, the strategy sees
    /// the history, its signals are sized and submitted, and equity is
    /// sampled; the step is logged.
    #[verifier::rlimit(100)]
    #[verifier::spinoff_prover]
    fn step(&mut self, event: MarketEvent, summary: &mut RunSummary)
        requires
            old(self).well_formed(),
            old(self).clock.spec_now() matches Some(now) ==> event.bar.timestamp >= now,
        ensures
            final(self).well_formed(),
            final(self).clock.spec_now() == Some(event.bar.timestamp),
            final(self).log@.len() == old(self).log@.len() + 1,
            final(self).log@.drop_last() == old(self).log@,
            final(self).log@.last().event == event,
            starts_from(
                final(self).log@.last(),
                old(self).portfolio,
                old(self).strategy,
                old(self).execution,
                old(self).next_order_id,
            ),
            final(self).sizing == old(self).sizing,
            final(self).warmup == old(self).warmup,
            final(self).portfolio.equity_curve@.drop_last() == old(self).portfolio.equity_curve@,
            final(self).portfolio.equity_curve@.len() == old(self).portfolio.equity_curve@.len() + 1,
            final(self).portfolio.equity_curve@.last().timestamp == event.bar.timestamp,
            old(self).portfolio.fills@.len() <= final(self).portfolio.fills@.len(),
            final(self).portfolio.fills@.subrange(0, old(self).portfolio.fills@.len() as int)
                == old(self).portfolio.fills@,
            final(summary).market_events == old(summary).market_events,
            final(summary).fills == old(summary).fills,
            final(summary).orders_submitted == saturated(
                old(summary).orders_submitted + orders_with(
                    final(self).log@.last().sized@,
                    final(self).log@.last().marked,
                    event,
                    true,
                ),
            ),
            final(summary).orders_rejected == saturated(
                old(summary).orders_rejected + orders_with(
                    final(self).log@.last().sized@,
                    final(self).log@.last().marked,
                    event,
                    false,
                ),
            ),
            final(self).data_feed == old(self).data_feed,
    {
        let ts = event.bar.timestamp;
        let ghost port0 = self.portfolio;
        let ghost strat0 = self.strategy;
        let ghost exec0 = self.execution;
        let ghost id0 = self.next_order_id;
        let ghost log0 = self.log@;
        let ghost events0 = logged_events(log0);
        self.clock.advance_to(ts);
        let fills = self.execution.on_bar(&event);
        let ghost exec1 = self.execution;
        let ghost mut books: Seq<Portfolio> = seq![self.portfolio];
        let mut k: usize = 0;
        while k < fills.len()
            invariant
                k <= fills@.len(),
                books.len() == k + 1,
                books[0] == port0,
                books.last() == self.portfolio,
                forall|j: int| 0 <= j < k ==> fill_booked(books[j], #[trigger] fills@[j], books[j + 1]),
                self.portfolio.fills@.len() == port0.fills@.len() + k,
                self.portfolio.fills@.subrange(0, port0.fills@.len() as int) == port0.fills@,
                self.portfolio.equity_curve == port0.equity_curve,
                self.clock.spec_now() == Some(ts),
                self.data_feed == old(self).data_feed,
                self.strategy == strat0,
                self.execution == exec1,
                self.histories == old(self).histories,
                self.log == old(self).log,
                self.next_order_id == id0,
                self.warmup == old(self).warmup,
                self.sizing == old(self).sizing,
            decreases fills@.len() - k,
        {
            let ghost before = self.portfolio.fills@;
            let ghost books_before = books;
            self.portfolio.apply_fill(&fills[k]);
            proof {
                books = books.push(self.portfolio);
                assert(self.portfolio.fills@.subrange(0, port0.fills@.len() as int)
                    =~= before.subrange(0, port0.fills@.len() as int));
                assert forall|j: int| 0 <= j < k + 1 implies fill_booked(books[j], #[trigger] fills@[j], books[j + 1]) by {
                    if j < k {
                        assert(books[j] == books_before[j] && books[j + 1] == books_before[j + 1]);
                    }
                }
            }
            k = k + 1;
        }
        self.portfolio.update_price(&event.symbol, event.bar.close);
        let ghost marked = self.portfolio;
        assert(self.histories_ok());
        let idx = self.history_index(&event.symbol);
        let ghost h_before = self.histories@;
        let ghost cap = window_size(self.warmup);
        self.histories[idx].1.push(event.bar);
        let ghost window = self.histories@[idx as int].1@;
        let ghost h_after = self.histories;
        let ghost mut context: Option<StrategyContext> = None;
        let ghost mut gsignals: Seq<SignalEvent> = Seq::empty();
        let ghost mut sized: Seq<Option<OrderEvent>> = Seq::empty();
        let ghost mut ids: Seq<u64> = seq![id0];
        let ghost mut execs: Seq<X> = seq![exec1];
        if self.histories[idx].1.len() >= self.warmup {
            let ctx = StrategyContext {
                history: self.histories[idx].1.as_vec(),
                position_quantity: self.portfolio.position(&event.symbol).quantity,
                cash: self.portfolio.cash,
            };
            proof {
                context = Some(ctx);
            }
            let signals = self.strategy.on_market(&event, &ctx);
            let ghost strat_after = self.strategy;
            proof {
                gsignals = signals@;
            }
            let mut j: usize = 0;
            while j < signals.len()
                invariant
                    j <= signals@.len(),
                    gsignals == signals@,
                    self.portfolio == marked,
                    sized.len() == j,
                    ids.len() == j + 1,
                    execs.len() == j + 1,
                    ids[0] == id0,
                    execs[0] == exec1,
                    ids.last() == self.next_order_id,
                    execs.last() == self.execution,
                    forall|jj: int|
                        0 <= jj < j ==> self.sizing.sizes(&#[trigger] signals@[jj], &marked, sized[jj])
                            && order_handled(sized[jj], ids[jj], ids[jj + 1], execs[jj], execs[jj + 1], marked, event),
                    summary.market_events == old(summary).market_events,
                    summary.fills == old(summary).fills,
                    summary.orders_submitted == saturated(
                        old(summary).orders_submitted + orders_with(sized, marked, event, true),
                    ),
                    summary.orders_rejected == saturated(
                        old(summary).orders_rejected + orders_with(sized, marked, event, false),
                    ),
                    self.clock.spec_now() == Some(ts),
                    self.data_feed == old(self).data_feed,
                    self.histories == h_after,
                    self.strategy == strat_after,
                    strat0.market_step(&event, &ctx, &strat_after, gsignals),
                    self.log == old(self).log,
                    self.warmup == old(self).warmup,
                    self.sizing == old(self).sizing,
                decreases signals@.len() - j,
            {
                let answer = self.sizing.size(&signals[j], &self.portfolio);
                let ghost ans = answer;
                let ghost sized_before = sized;
                let ghost ids_before = ids;
                let ghost execs_before = execs;
                match answer {
                    Some(mut order) => {
                        order.id = self.next_order_id;
                        self.next_order_id = self.next_order_id.saturating_add(1);
                        let price = match order.order_type {
                            OrderType::Market => event.bar.close,
                            OrderType::Limit { price } => price,
                        };
                        if self.portfolio.can_afford(&order, price) {
                            self.execution.submit(order);
                            summary.orders_submitted = summary.orders_submitted.saturating_add(1);
                        } else {
                            summary.orders_rejected = summary.orders_rejected.saturating_add(1);
                        }
                    },
                    None => {},
                }
                proof {
                    sized = sized.push(ans);
                    assert(sized.drop_last() =~= sized_before);
                    ids = ids.push(self.next_order_id);
                    execs = execs.push(self.execution);
                    assert forall|jj: int|
                        0 <= jj < j + 1 implies self.sizing.sizes(&#[trigger] signals@[jj], &marked, sized[jj])
                            && order_handled(sized[jj], ids[jj], ids[jj + 1], execs[jj], execs[jj + 1], marked, event) by {
                        if jj < j {
                            assert(sized[jj] == sized_before[jj]);
                            assert(ids[jj] == ids_before[jj] && ids[jj + 1] == ids_before[jj + 1]);
                            assert(execs[jj] == execs_before[jj] && execs[jj + 1] == execs_before[jj + 1]);
                        }
                    }
                }
                j = j + 1;
            }
        }
        let ghost strat1 = self.strategy;
        self.portfolio.snapshot_equity(ts);
        let ghost entry = StepLog {
            event,
            exec_before: exec0,
            exec_after_bar: exec1,
            fills: Ghost(fills@),
            books: Ghost(books),
            marked,
            window: Ghost(window),
            strategy_before: strat0,
            strategy_after: strat1,
            context,
            signals: Ghost(gsignals),
            sized: Ghost(sized),
            ids: Ghost(ids),
            execs: Ghost(execs),
            after: self.portfolio,
        };
        assert(step_ok(entry, self.sizing, self.warmup)) by {
            assert(books.last() == books[books.len() - 1]);
        }
        self.log = Ghost(log0.push(entry));
        assert(self.log@.drop_last() =~= log0);
        proof {
            let sym = event.symbol@;
            let new_log = self.log@;
            let events1 = logged_events(new_log);
            assert(events1 =~= events0.push(event));
            assert(events1.drop_last() =~= events0);
            assert(symbol_bars(events1, sym) == symbol_bars(events0, sym).push(event.bar));
            assert(h_before[idx as int].0@ == sym);
            assert(h_before[idx as int].1@ == last_n(symbol_bars(events0, sym), cap));
            lemma_window_push(symbol_bars(events0, sym), cap, event.bar);
            assert(window == last_n(symbol_bars(events1, sym), cap));
            assert(window.len() > 0 && window.last() == event.bar) by {
                let s1 = symbol_bars(events1, sym);
                if s1.len() > cap {
                    assert(window[window.len() - 1] == s1[s1.len() - 1]);
                }
            }
            assert(new_log.take(new_log.len() as int) =~= new_log);
            assert forall|i: int| 0 <= i < new_log.len() implies step_ok(#[trigger] new_log[i], self.sizing, self.warmup)
                && new_log[i].window@ == last_n(
                symbol_bars(logged_events(new_log.take(i + 1)), new_log[i].event.symbol@),
                window_size(self.warmup),
            ) by {
                if i < log0.len() {
                    assert(new_log[i] == log0[i]);
                    assert(new_log.take(i + 1) =~= log0.take(i + 1));
                }
            }
            assert(chained(new_log)) by {
                assert forall|i: int| 0 <= i < new_log.len() - 1 implies {
                    &&& (#[trigger] new_log[i]).after == new_log[i + 1].books@[0]
                    &&& new_log[i].strategy_after == new_log[i + 1].strategy_before
                    &&& new_log[i].execs@.last() == new_log[i + 1].exec_before
                    &&& new_log[i].ids@.last() == new_log[i + 1].ids@[0]
                } by {
                    assert(new_log[i] == log0[i]);
                    if i < log0.len() - 1 {
                        assert(new_log[i + 1] == log0[i + 1]);
                    }
                }
            }
            let h = self.histories@;
            assert forall|i: int| 0 <= i < h.len() implies (#[trigger] h[i]).1@ == last_n(
                symbol_bars(events1, h[i].0@),
                window_size(self.warmup),
            ) && h[i].1.spec_capacity() == window_size(self.warmup) by {
                if i != idx {
                    assert(h[i] == h_before[i]);
                    assert(h[i].0@ != sym);
                }
            }
            assert forall|sym2: Seq<char>|
                (forall|i: int| 0 <= i < h.len() ==> (#[trigger] h[i]).0@ != sym2) implies #[trigger] symbol_bars(
                events1,
                sym2,
            ).len() == 0 by {
                assert(h[idx as int].0@ != sym2);
                assert(symbol_bars(events1, sym2) == symbol_bars(events0, sym2));
                assert forall|i: int| 0 <= i < h_before.len() implies (#[trigger] h_before[i]).0@ != sym2 by {
                    if i != idx {
                        assert(h[i] == h_before[i]);
                    }
                }
            }
            assert forall|i: int, j: int| 0 <= i < j < h.len() implies (#[trigger] h[i]).0@ != (#[trigger] h[j]).0@ by {
                assert(h[i].0 == h_before[i].0 && h[j].0 == h_before[j].0);
            }
        }
    }

    /// Runs until the data feed is exhausted. Each event dated no earlier
    /// than the clock is processed in turn (see [`step_ok`] for what one
    /// step does); one dated before it (which a well-behaved feed never
    /// yields) is passed over, so the clock never moves backward.
    ///
    /// `market_events` counts the events processed, and equals the number
    /// of equity samples taken, one per processed event at its time, and
    /// of steps logged; `fills` counts the fills booked;
    /// `orders_submitted` and `orders_rejected` count (saturating) the sized
    /// orders of those steps that the portfolio could afford and submitted,
    /// and those it could not. The feed ends exhausted.
    #[verifier::rlimit(100)]
    #[verifier::spinoff_prover]
    pub fn run(&mut self) -> (summary: RunSummary)
        requires
            F::obeys_feed_laws(),
            old(self).well_formed(),
        ensures
            final(self).well_formed(),
            final(self).spec_feed().pending().len() == 0,
            final(self).spec_sizing() == old(self).spec_sizing(),
            final(self).spec_warmup() == old(self).spec_warmup(),
            ({
                let done = accepted_events(old(self).spec_feed().pending(), old(self).spec_clock().spec_now());
                let log0 = old(self).spec_log();
                let log = final(self).spec_log();
                let new_steps = log.skip(log0.len() as int);
                let curve0 = old(self).spec_portfolio().equity_curve@;
                let curve = final(self).spec_portfolio().equity_curve@;
                &&& summary.market_events == done.len()
                &&& summary.orders_submitted == saturated(logged_orders(new_steps, true) as int)
                &&& summary.orders_rejected == saturated(logged_orders(new_steps, false) as int)
                &&& log.take(log0.len() as int) == log0
                &&& logged_events(new_steps) == done
                &&& sample_times(curve, curve0.len() as int) == event_times(done)
                &&& new_steps.len() > 0 ==> starts_from(
                    new_steps[0],
                    old(self).spec_portfolio(),
                    old(self).spec_strategy(),
                    old(self).spec_execution(),
                    old(self).spec_next_order_id(),
                )
                &&& new_steps.len() == 0 ==> {
                    &&& final(self).spec_portfolio() == old(self).spec_portfolio()
                    &&& final(self).spec_strategy() == old(self).spec_strategy()
                    &&& final(self).spec_execution() == old(self).spec_execution()
                    &&& final(self).spec_next_order_id() == old(self).spec_next_order_id()
                    &&& final(self).spec_clock() == old(self).spec_clock()
                }
                &&& done.len() > 0 ==> final(self).spec_clock().spec_now() == Some(done.last().bar.timestamp)
            }),
            ({
                let curve0 = old(self).spec_portfolio().equity_curve@;
                let curve = final(self).spec_portfolio().equity_curve@;
                let fills0 = old(self).spec_portfolio().fills@;
                let fills = final(self).spec_portfolio().fills@;
                &&& curve.len() == curve0.len() + summary.market_events
                &&& curve.subrange(0, curve0.len() as int) == curve0
                &&& fills.len() == fills0.len() + summary.fills
                &&& fills.subrange(0, fills0.len() as int) == fills0
                &&& old(self).spec_clock().spec_now() matches Some(t0) ==> forall|i: int|
                    curve0.len() <= i < curve.len() ==> t0 <= #[trigger] curve[i].timestamp
            }),
    {
        let mut summary = RunSummary { market_events: 0, orders_submitted: 0, orders_rejected: 0, fills: 0 };
        let start_points = self.portfolio.equity_curve.len();
        let start_fills = self.portfolio.fills.len();
        let ghost curve0 = self.portfolio.equity_curve@;
        let ghost fills0 = self.portfolio.fills@;
        let ghost clock0 = self.clock.spec_now();
        let ghost events0 = self.data_feed.pending();
        let ghost log0 = self.log@;
        assert(self.log@.skip(log0.len() as int) =~= Seq::<StepLog<S, X>>::empty());
        loop
            invariant_except_break
                logged_events(self.log@.skip(log0.len() as int)) + accepted_events(
                    self.data_feed.pending(),
                    self.clock.spec_now(),
                ) == accepted_events(events0, clock0),
            invariant
                F::obeys_feed_laws(),
                self.well_formed(),
                log0.len() <= self.log@.len(),
                self.log@.take(log0.len() as int) == log0,
                self.log@.len() - log0.len() == self.portfolio.equity_curve@.len() - curve0.len(),
                sample_times(self.portfolio.equity_curve@, curve0.len() as int) == event_times(
                    logged_events(self.log@.skip(log0.len() as int)),
                ),
                self.log@.len() > log0.len() ==> starts_from(
                    self.log@[log0.len() as int],
                    old(self).portfolio,
                    old(self).strategy,
                    old(self).execution,
                    old(self).next_order_id,
                ),
                self.log@.len() == log0.len() ==> {
                    &&& self.portfolio == old(self).portfolio
                    &&& self.strategy == old(self).strategy
                    &&& self.execution == old(self).execution
                    &&& self.next_order_id == old(self).next_order_id
                    &&& self.clock == old(self).clock
                },
                self.log@.len() > log0.len() ==> self.clock.spec_now() == Some(self.log@.last().event.bar.timestamp),
                self.sizing == old(self).sizing,
                self.warmup == old(self).warmup,
                start_points == curve0.len(),
                start_fills == fills0.len(),
                curve0.len() <= self.portfolio.equity_curve@.len(),
                self.portfolio.equity_curve@.subrange(0, curve0.len() as int) == curve0,
                fills0.len() <= self.portfolio.fills@.len(),
                self.portfolio.fills@.subrange(0, fills0.len() as int) == fills0,
                summary.market_events == 0,
                summary.fills == 0,
                summary.orders_submitted == saturated(logged_orders(self.log@.skip(log0.len() as int), true) as int),
                summary.orders_rejected == saturated(logged_orders(self.log@.skip(log0.len() as int), false) as int),
                clock0 matches Some(t0) ==> (self.clock.spec_now() matches Some(t) && t0 <= t),
                clock0 matches Some(t0) ==> forall|i: int|
                    curve0.len() <= i < self.portfolio.equity_curve@.len() ==> t0
                        <= #[trigger] self.portfolio.equity_curve@[i].timestamp,
            ensures
                self.data_feed.pending().len() == 0,
                logged_events(self.log@.skip(log0.len() as int)) == accepted_events(events0, clock0),
            decreases self.data_feed.pending().len(),
        {
            let ghost pend = self.data_feed.pending();
            let ghost now0 = self.clock.spec_now();
            let ghost done_so_far = logged_events(self.log@.skip(log0.len() as int));
            let ghost before_next = *self;
            let next_event = self.data_feed.next();
            proof {
                Self::lemma_feed_irrelevant(&before_next, self);
            }
            match next_event {
                None => {
                    proof {
                        assert(done_so_far + accepted_events(pend, now0) =~= done_so_far);
                    }
                    break;
                },
                Some(event) => {
                    assert(event == pend[0]);
                    let in_order = match self.clock.now() {
                        Some(now) => event.bar.timestamp >= now,
                        None => true,
                    };
                    let ghost ev = event;
                    if in_order {
                        let ghost curve_before = self.portfolio.equity_curve@;
                        let ghost fills_before = self.portfolio.fills@;
                        let ghost log_before = self.log@;
                        self.step(event, &mut summary);
                        proof {
                            let c = self.portfolio.equity_curve@;
                            assert(c.subrange(0, curve0.len() as int) =~= curve_before.subrange(
                                0,
                                curve0.len() as int,
                            ));
                            let f = self.portfolio.fills@;
                            assert(f.subrange(0, fills0.len() as int) =~= fills_before.subrange(
                                0,
                                fills0.len() as int,
                            ));
                            assert forall|i: int|
                                curve0.len() <= i < c.len() implies (clock0 matches Some(t0) ==> t0
                                    <= #[trigger] c[i].timestamp) by {
                                if i < c.len() - 1 {
                                    assert(c[i] == curve_before[i]);
                                }
                            }
                            let log = self.log@;
                            assert(log.take(log0.len() as int) =~= log_before.take(log0.len() as int));
                            assert(log.skip(log0.len() as int) =~= log_before.skip(log0.len() as int).push(
                                log.last(),
                            ));
                            assert(log.skip(log0.len() as int).drop_last() =~= log_before.skip(log0.len() as int));
                            let d2 = logged_events(log.skip(log0.len() as int));
                            assert(d2 =~= done_so_far.push(ev));
                            assert(accepted_events(pend, now0) == seq![ev] + accepted_events(
                                pend.drop_first(),
                                Some(ev.bar.timestamp),
                            ));
                            assert(d2 + accepted_events(pend.drop_first(), Some(ev.bar.timestamp))
                                =~= done_so_far + (seq![ev] + accepted_events(
                                pend.drop_first(),
                                Some(ev.bar.timestamp),
                            )));
                            let st2 = sample_times(c, curve0.len() as int);
                            assert(st2 =~= event_times(d2)) by {
                                let st = sample_times(curve_before, curve0.len() as int);
                                assert forall|i: int| 0 <= i < st.len() implies st2[i] == st[i] by {
                                    assert(c[curve0.len() + i] == curve_before[curve0.len() + i]);
                                }
                                assert(st =~= event_times(done_so_far));
                            }
                            if log_before.len() > log0.len() {
                                assert(log[log0.len() as int] == log_before[log0.len() as int]);
                            }
                        }
                    } else {
                        proof {
                            assert(accepted_events(pend, now0) == accepted_events(pend.drop_first(), now0));
                        }
                    }
                },
            }
        }
        summary.market_events = self.portfolio.equity_curve.len() - start_points;
        summary.fills = self.portfolio.fills.len() - start_fills;
        proof {
            let done = accepted_events(events0, clock0);
            assert(self.log@.skip(log0.len() as int).len() == done.len());
            if done.len() > 0 {
                assert(self.log@.last() == self.log@.skip(log0.len() as int).last());
            }
        }
        summary
    }
}

/// No lookahead in execution: with the simulated broker, every fill booked
/// in a step is stamped with that step's bar and belongs to an order that
/// was already resting or staged when the bar arrived, on the same symbol
/// and side; orders the strategy's signals produce in the step are
/// submitted only after the bar's fills, so they can fill on a later bar
/// at the earliest.
pub proof fn lemma_fills_come_from_earlier_orders<S: Strategy, Z: SizingModel>(
    l: StepLog<S, SimulatedExecution>,
    sizing: Z,
    warmup: usize,
)
    requires
        step_ok(l, sizing, warmup),
    ensures
        forall|k: int|
            0 <= k < l.fills@.len() ==> {
                let f = #[trigger] l.fills@[k];
                let pending = l.exec_before.spec_resting() + promote(
                    l.exec_before.spec_staged(),
                    l.exec_before.spec_latency(),
                );
                &&& f.timestamp == l.event.bar.timestamp
                &&& exists|j: int|
                    0 <= j < pending.len() && pending[j].order.id == f.order_id && pending[j].order.symbol
                        == f.symbol && pending[j].order.side == f.side
            },
        l.execs@[0] == l.exec_after_bar,
{
    let x = l.exec_before;
    lemma_fills_come_from_resting_orders(
        x.spec_resting() + promote(x.spec_staged(), x.spec_latency()),
        l.event,
        x.spec_slippage(),
        x.spec_commission(),
        x.spec_policy(),
        x.spec_tif(),
    );
}

/// Whether `bar` is the bar of one of `events` for `symbol`.
pub open spec fn emitted_for(events: Seq<MarketEvent>, symbol: Seq<char>, bar: Bar) -> bool {
    exists|j: int| 0 <= j < events.len() && events[j].symbol@ == symbol && events[j].bar == bar
}

/// Each bar of `symbol_bars(events, symbol)` is the bar of one of
/// `events` for `symbol`.
proof fn lemma_symbol_bars_from_events(events: Seq<MarketEvent>, symbol: Seq<char>)
    ensures
        forall|k: int|
            0 <= k < symbol_bars(events, symbol).len() ==> emitted_for(
                events,
                symbol,
                #[trigger] symbol_bars(events, symbol)[k],
            ),
    decreases events.len(),
{
    if events.len() > 0 {
        let d = events.drop_last();
        lemma_symbol_bars_from_events(d, symbol);
        let sb = symbol_bars(events, symbol);
        let sd = symbol_bars(d, symbol);
        assert forall|k: int| 0 <= k < sb.len() implies emitted_for(events, symbol, #[trigger] sb[k]) by {
            if k < sd.len() {
                assert(sb[k] == sd[k]);
                assert(emitted_for(d, symbol, sd[k]));
                let j = choose|j: int| 0 <= j < d.len() && d[j].symbol@ == symbol && d[j].bar == sd[k];
                assert(events[j] == d[j]);
            } else {
                assert(sb.len() > sd.len());
                assert(events.last().symbol@ == symbol);
                assert(sb == sd.push(events.last().bar));
                assert(events[events.len() - 1] == events.last());
                assert(events[events.len() - 1].bar == sb[k]);
            }
        }
    }
}

/// No lookahead for strategies: in every step the engine has logged, the
/// history the strategy was shown ends with that step's bar and holds the
/// last bars of the step's symbol among the events processed up to and
/// including it, each the bar of such an event (`events` holds the events
/// of the steps up to and including step `i`), never a later one.
pub proof fn lemma_strategy_sees_only_emitted_bars<F: DataFeed, S: Strategy, Z: SizingModel, X: ExecutionModel>(
    engine: &Engine<F, S, Z, X>,
    i: int,
)
    requires
        engine.well_formed(),
        0 <= i < engine.spec_log().len(),
        engine.spec_log()[i].context is Some,
    ensures
        ({
            let logs = engine.spec_log();
            let l = logs[i];
            let h = l.context->0.history@;
            let events = logged_events(logs.take(i + 1));
            &&& h.len() > 0 && h.last() == l.event.bar
            &&& h == last_n(symbol_bars(events, l.event.symbol@), window_size(engine.spec_warmup()))
            &&& forall|k: int| 0 <= k < h.len() ==> emitted_for(events, l.event.symbol@, #[trigger] h[k])
        }),
{
    let logs = engine.spec_log();
    let l = logs[i];
    assert(step_ok(l, engine.spec_sizing(), engine.spec_warmup()));
    let events = logged_events(logs.take(i + 1));
    let sym = l.event.symbol@;
    let sb = symbol_bars(events, sym);
    let h = l.context->0.history@;
    lemma_symbol_bars_from_events(events, sym);
    assert forall|k: int| 0 <= k < h.len() implies emitted_for(events, sym, #[trigger] h[k]) by {
        let off = if sb.len() > window_size(engine.spec_warmup()) {
            sb.len() - window_size(engine.spec_warmup())
        } else {
            0
        };
        assert(h[k] == sb[k + off]);
        assert(emitted_for(events, sym, sb[k + off]));
    }
}

} // verus!

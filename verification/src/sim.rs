//! Walks bars forward through the same tick as the live desk. No orders.
pub mod laws;

use crate::continuation::{noted_all, SkipRow, SkipTally};
use crate::dec::{
    dec, decimal_text_fixed, decimal_text_signed, minus, n_add, n_div, n_mul, n_sub, negated, over, plus,
    prints, times, Dec, Num,
};
use crate::desk_orchestrator::HeatLimits;
use crate::engine::tick::{desk_knobs, first_or_hold, tick, tick_result, DeskKnobs, TickView};
use crate::live::book::one_or_none;
use crate::models::{
    fresh_state, opt_view, Account, Bar, Decision, EngineState, EngineStateView, MarketSnapshot, Position,
    Side, Ticker,
};
use crate::momentum::MomentumParams;
use crate::money::{legs_fee, long_pnl, net_long_pnl};
use crate::openmeta::{MetaView, OpenMeta};
use crate::scalp::ScalpParams;
use crate::snapshot::bars::{insert_series, series_map};
use crate::symbols::SymMap;
use crate::text::{int_text, left_in, own, pad_left, pad_right, print_i64, print_u64, right_in};
use crate::trend::TrendParams;
use vstd::prelude::*;
use vstd::string::StringExecFns;

verus! {

pub fn default_notional() -> (r: Dec)
    ensures
        r == dec(20, 0),
{
    Dec::from_int(20)
}

pub fn default_slip() -> (r: Dec)
    ensures
        r == dec(1, 4),
{
    Dec::new(1, 4)
}

/// A trade that was closed.
#[derive(Debug)]
pub struct ClosedTrade {
    pub symbol: String,
    pub strategy_id: i32,
    pub entry: Dec,
    pub exit: Dec,
    pub qty: Dec,
    pub pnl: Dec,
    pub fee: Dec,
    pub reason: String,
    pub bars_held: usize,
}

/// A trade with its texts as characters.
pub struct TradeView {
    pub symbol: Seq<char>,
    pub strategy_id: i32,
    pub entry: Dec,
    pub exit: Dec,
    pub qty: Dec,
    pub pnl: Dec,
    pub fee: Dec,
    pub reason: Seq<char>,
    pub bars_held: usize,
}

impl View for ClosedTrade {
    type V = TradeView;

    open spec fn view(&self) -> TradeView {
        TradeView {
            symbol: self.symbol@,
            strategy_id: self.strategy_id,
            entry: self.entry,
            exit: self.exit,
            qty: self.qty,
            pnl: self.pnl,
            fee: self.fee,
            reason: self.reason@,
            bars_held: self.bars_held,
        }
    }
}

pub open spec fn trade_views(v: Seq<ClosedTrade>) -> Seq<TradeView> {
    Seq::new(v.len(), |i: int| v[i]@)
}

/// What a walk came to.
#[derive(Debug)]
pub struct SimResult {
    pub name: String,
    pub strategy_id: i32,
    pub trades: Vec<ClosedTrade>,
    pub start_equity: Dec,
    pub end_equity: Dec,
    pub max_drawdown: Dec,
    pub holds: usize,
}

/// How many of the first `n` trades won.
pub open spec fn wins_in(v: Seq<TradeView>, n: int) -> int
    decreases n,
{
    if n <= 0 {
        0
    } else {
        wins_in(v, n - 1) + if v[n - 1].pnl.pos() {
            1int
        } else {
            0
        }
    }
}

/// What the winners among the first `n` trades made.
pub open spec fn gains_in(v: Seq<TradeView>, n: int) -> Num
    decreases n,
{
    if n <= 0 {
        Some(dec(0, 0))
    } else if v[n - 1].pnl.pos() {
        n_add(gains_in(v, n - 1), Some(v[n - 1].pnl))
    } else {
        gains_in(v, n - 1)
    }
}

/// What the losers among the first `n` trades lost.
pub open spec fn losses_in(v: Seq<TradeView>, n: int) -> Num
    decreases n,
{
    if n <= 0 {
        Some(dec(0, 0))
    } else if v[n - 1].pnl.units() < 0 {
        n_add(losses_in(v, n - 1), Some(negated(v[n - 1].pnl)))
    } else {
        losses_in(v, n - 1)
    }
}

/// Gains over losses; a thousand stands for gains without losses. The inner
/// `None` says that there was no trade, the outer one that a number left the
/// decimal range.
pub open spec fn factor_of(v: Seq<TradeView>) -> Option<Option<Dec>> {
    if v.len() == 0 {
        Some(None)
    } else {
        match (gains_in(v, v.len() as int), losses_in(v, v.len() as int)) {
            (Some(g), Some(l)) => if !l.pos() {
                Some(
                    Some(
                        if g.pos() {
                            dec(1000, 0)
                        } else {
                            dec(0, 0)
                        },
                    ),
                )
            } else {
                match n_div(Some(g), Some(l)) {
                    Some(f) => Some(Some(f)),
                    None => None,
                }
            },
            _ => None,
        }
    }
}

/// How the profit factor is shown.
pub open spec fn factor_text(f: Option<Dec>) -> Seq<char> {
    match f {
        None => "—"@,
        Some(v) => if dec(100, 0).le(v) {
            "∞"@
        } else {
            decimal_text_fixed(v, 2)
        },
    }
}

/// A result in one line; its win rate is given.
pub open spec fn summary_of(r: SimResult, rate: Seq<char>) -> Option<Seq<char>> {
    match (factor_of(trade_views(r.trades@)), n_sub(Some(r.end_equity), Some(r.start_equity))) {
        (Some(f), Some(p)) => if prints(p, 4) && prints(r.max_drawdown, 4) {
            Some(
                left_in(r.name@, 28) + " n="@ + right_in(int_text(r.trades@.len() as int), 4) + "  wr="@
                    + right_in(rate, 6) + "  pnl="@ + decimal_text_signed(p, 4) + "  pf="@ + factor_text(f)
                    + "  dd="@ + decimal_text_fixed(r.max_drawdown, 4),
            )
        } else {
            None
        },
        _ => None,
    }
}

impl SimResult {
    pub fn pnl(&self) -> (r: Num)
        ensures
            r == n_sub(Some(self.end_equity), Some(self.start_equity)),
    {
        minus(Some(self.end_equity), Some(self.start_equity))
    }

    pub fn wins(&self) -> (r: usize)
        ensures
            r == wins_in(trade_views(self.trades@), self.trades@.len() as int),
    {
        let ghost v = trade_views(self.trades@);
        let mut n: usize = 0;
        let mut i: usize = 0;
        while i < self.trades.len()
            invariant
                i <= self.trades@.len(),
                v == trade_views(self.trades@),
                n == wins_in(v, i as int),
                n <= i,
            decreases self.trades@.len() - i,
        {
            if self.trades[i].pnl.is_pos() {
                n = n + 1;
            }
            i = i + 1;
        }
        n
    }

    pub fn profit_factor(&self) -> (r: Option<Option<Dec>>)
        ensures
            r == factor_of(trade_views(self.trades@)),
    {
        let ghost v = trade_views(self.trades@);
        if self.trades.len() == 0 {
            return Some(None);
        }
        let mut gains: Num = Some(Dec::zero());
        let mut losses: Num = Some(Dec::zero());
        let mut i: usize = 0;
        while i < self.trades.len()
            invariant
                i <= self.trades@.len(),
                v == trade_views(self.trades@),
                gains == gains_in(v, i as int),
                losses == losses_in(v, i as int),
            decreases self.trades@.len() - i,
        {
            let p: Dec = self.trades[i].pnl;
            if p.is_pos() {
                gains = plus(gains, Some(p));
            } else if p.is_neg() {
                losses = plus(losses, Some(p.neg()));
            }
            i = i + 1;
        }
        let g: Dec = gains?;
        let l: Dec = losses?;
        if !l.is_pos() {
            return Some(
                Some(
                    if g.is_pos() {
                        Dec::from_int(1000)
                    } else {
                        Dec::zero()
                    },
                ),
            );
        }
        let f: Dec = over(Some(g), Some(l))?;
        Some(Some(f))
    }

    /// The result in one line. How the share of winners is written comes from the
    /// caller. `None` where a figure leaves the range of decimals or is too long to
    /// be shown.
    pub fn summary_line(&self, win_rate: &str) -> (r: Option<String>)
        ensures
            opt_view(r) == summary_of(*self, win_rate@),
    {
        let f: Option<Dec> = self.profit_factor()?;
        let p: Dec = self.pnl()?;
        let pf: String = match f {
            None => own("—"),
            Some(v) => if Dec::from_int(100) <= v {
                own("∞")
            } else {
                v.text_short(2)
            },
        };
        let mut t = pad_right(self.name.as_str(), 28);
        t.append(" n=");
        t.append(pad_left(print_u64(self.trades.len() as u64).as_str(), 4).as_str());
        t.append("  wr=");
        t.append(pad_left(win_rate, 6).as_str());
        t.append("  pnl=");
        t.append(p.text_signed(4)?.as_str());
        t.append("  pf=");
        t.append(pf.as_str());
        t.append("  dd=");
        t.append(self.max_drawdown.text_fixed(4)?.as_str());
        Some(t)
    }
}

/// A price moved against the trader.
pub open spec fn slipped(price: Dec, buy: bool, slip: Dec) -> Num {
    if !slip.pos() {
        Some(price)
    } else if buy {
        n_mul(Some(price), n_add(Some(dec(1, 0)), Some(slip)))
    } else {
        n_mul(Some(price), n_sub(Some(dec(1, 0)), Some(slip)))
    }
}

fn apply_slip(price: Dec, buy: bool, slip: Dec) -> (r: Num)
    ensures
        r == slipped(price, buy, slip),
{
    if !slip.is_pos() {
        return Some(price);
    }
    if buy {
        times(Some(price), plus(Some(Dec::one()), Some(slip)))
    } else {
        times(Some(price), minus(Some(Dec::one()), Some(slip)))
    }
}

/// Where a bar takes a long out: at its stop first, then at its take-profit.
pub open spec fn taken_out(p: Position, bar: Bar) -> Option<(Dec, Seq<char>)> {
    let hit_sl = p.stop_loss is Some && bar.low.le(p.stop_loss->0);
    let hit_tp = p.take_profit is Some && p.take_profit->0.le(bar.high);
    if hit_sl && hit_tp {
        Some((p.stop_loss->0, "stop (wick, both sides — assume SL)"@))
    } else if hit_sl {
        Some((p.stop_loss->0, "stop (wick)"@))
    } else if hit_tp {
        Some((p.take_profit->0, "take profit (wick)"@))
    } else {
        None
    }
}

fn hit_protectives(p: &Position, bar: &Bar) -> (r: Option<(Dec, &'static str)>)
    ensures
        match (r, taken_out(*p, *bar)) {
            (Some((d, t)), Some((px, why))) => d == px && t@ == why,
            (None, None) => true,
            _ => false,
        },
{
    let hit_tp: bool = match p.take_profit {
        Some(tp) => tp <= bar.high,
        None => false,
    };
    if let Some(sl) = p.stop_loss {
        if bar.low <= sl {
            if hit_tp {
                return Some((sl, "stop (wick, both sides — assume SL)"));
            }
            return Some((sl, "stop (wick)"));
        }
    }
    match p.take_profit {
        Some(tp) => if hit_tp {
            Some((tp, "take profit (wick)"))
        } else {
            None
        },
        None => None,
    }
}

/// How far the close moved over a number of bars, in percent; nothing where
/// there is no bar or no price.
pub open spec fn change_over(bars: Seq<Bar>, index: int, lookback: int) -> Num {
    if index >= bars.len() {
        Some(dec(0, 0))
    } else {
        let prev = bars[if index < lookback {
            0
        } else {
            index - lookback
        }].close;
        if !prev.pos() {
            Some(dec(0, 0))
        } else {
            n_mul(
                n_div(n_sub(Some(bars[index].close), Some(prev)), Some(prev)),
                Some(dec(100, 0)),
            )
        }
    }
}

pub fn change_percent(bars: &[Bar], index: usize, lookback: usize) -> (r: Num)
    ensures
        r == change_over(bars@, index as int, lookback as int),
{
    if index >= bars.len() {
        return Some(Dec::zero());
    }
    let at: usize = if index < lookback {
        0
    } else {
        index - lookback
    };
    let prev: Dec = bars[at].close;
    let last: Dec = bars[index].close;
    if !prev.is_pos() {
        return Some(Dec::zero());
    }
    times(over(minus(Some(last), Some(prev)), Some(prev)), Some(Dec::from_int(100)))
}

/// The highest of the first `n` bars; of equal ones the last counts.
pub open spec fn top_high(bars: Seq<Bar>, n: int) -> Dec
    decreases n,
{
    if n <= 1 {
        bars[0].high
    } else {
        let rest = top_high(bars, n - 1);
        if rest.le(bars[n - 1].high) {
            bars[n - 1].high
        } else {
            rest
        }
    }
}

fn find_high(bars: &[Bar]) -> (r: Dec)
    requires
        bars@.len() > 0,
    ensures
        r == top_high(bars@, bars@.len() as int),
{
    let mut top: Dec = bars[0].high;
    let mut i: usize = 1;
    while i < bars.len()
        invariant
            1 <= i <= bars@.len(),
            top == top_high(bars@, i as int),
        decreases bars@.len() - i,
    {
        if top <= bars[i].high {
            top = bars[i].high;
        }
        i = i + 1;
    }
    top
}

/// What a walk is given.
pub struct SimInput {
    pub strategy_id: i32,
    pub bars: Seq<Bar>,
    pub symbol: Seq<char>,
    pub notional: Dec,
    pub fee_rate: Dec,
    pub slip: Dec,
    pub lookback: int,
    pub knobs: DeskKnobs,
    pub orchestrated: bool,
    pub heat: HeatLimits,
    pub htf: Map<Seq<char>, Seq<Bar>>,
}

/// Higher-timeframe candles for a walk: those of its symbol and those of the
/// leading coin.
#[derive(Debug, Clone, Copy)]
pub struct SimOpts<'a> {
    pub htf: Option<&'a [Bar]>,
    pub btc_htf: Option<&'a [Bar]>,
}

/// The candles of the options by symbol; the walk's own symbol counts first.
pub open spec fn opts_map(opts: SimOpts, symbol: Seq<char>) -> Map<Seq<char>, Seq<Bar>> {
    let lead = match opts.btc_htf {
        Some(b) => Map::<Seq<char>, Seq<Bar>>::empty().insert("BTCUSDT"@, b@),
        None => Map::<Seq<char>, Seq<Bar>>::empty(),
    };
    match opts.htf {
        Some(b) => lead.insert(symbol, b@),
        None => lead,
    }
}

/// The candles that have opened by an instant.
pub open spec fn opened_by(bars: Seq<Bar>, at: i64) -> Seq<Bar> {
    bars.filter(|b: Bar| b.open_time <= at)
}

fn take_opened(bars: &[Bar], at: i64) -> (r: Vec<Bar>)
    ensures
        r@ == opened_by(bars@, at),
{
    let ghost test = |b: Bar| b.open_time <= at;
    let mut out: Vec<Bar> = Vec::new();
    let mut i: usize = 0;
    proof {
        reveal(Seq::filter);
        assert(bars@.take(0) =~= Seq::<Bar>::empty());
        assert(bars@.take(0).filter(test) =~= Seq::<Bar>::empty());
    }
    while i < bars.len()
        invariant
            i <= bars@.len(),
            test == (|b: Bar| b.open_time <= at),
            out@ == bars@.take(i as int).filter(test),
        decreases bars@.len() - i,
    {
        proof {
            reveal(Seq::filter);
            assert(bars@.take(i as int + 1).drop_last() =~= bars@.take(i as int));
        }
        if bars[i].open_time <= at {
            out.push(bars[i]);
        }
        i = i + 1;
    }
    proof {
        assert(bars@.take(i as int) =~= bars@);
    }
    out
}

/// What is seen of higher-timeframe candles at an instant.
pub open spec fn htf_at(m: Map<Seq<char>, Seq<Bar>>, at: i64) -> Map<Seq<char>, Seq<Bar>> {
    m.map_values(|v: Seq<Bar>| opened_by(v, at))
}

fn see_htf(opts: &SimOpts, symbol: &str, at: i64) -> (r: SymMap<Vec<Bar>>)
    ensures
        series_map(r@) == htf_at(opts_map(*opts, symbol@), at),
{
    let mut out: SymMap<Vec<Bar>> = SymMap::new();
    let ghost mut m: Map<Seq<char>, Seq<Bar>> = Map::empty();
    proof {
        assert(series_map(out@) =~= htf_at(m, at));
    }
    if let Some(b) = opts.btc_htf {
        insert_series(&mut out, "BTCUSDT", take_opened(b, at));
        proof {
            assert(htf_at(m.insert("BTCUSDT"@, b@), at) =~= htf_at(m, at).insert(
                "BTCUSDT"@,
                opened_by(b@, at),
            ));
            m = m.insert("BTCUSDT"@, b@);
        }
    }
    if let Some(b) = opts.htf {
        insert_series(&mut out, symbol, take_opened(b, at));
        proof {
            assert(htf_at(m.insert(symbol@, b@), at) =~= htf_at(m, at).insert(
                symbol@,
                opened_by(b@, at),
            ));
            m = m.insert(symbol@, b@);
        }
    }
    out
}

/// Where a walk is.
pub struct SimView {
    pub state: EngineStateView,
    pub pos: Option<Position>,
    pub pending: Option<Decision>,
    pub trades: Seq<TradeView>,
    pub equity: Dec,
    pub peak: Dec,
    pub drawdown: Dec,
    pub holds: int,
    pub meta: Map<Seq<char>, MetaView>,
    pub tally: Seq<SkipRow>,
}

/// What the desk saw at a bar, and what it decided first.
pub struct SimStep {
    pub snap: MarketSnapshot,
    pub decision: Decision,
}

/// The walk once an entry that waits is filled at the open.
pub open spec fn filled_at(inp: SimInput, v: SimView, bar: Bar) -> Option<SimView> {
    if v.pending is None || v.pos is Some {
        Some(v)
    } else {
        match v.pending->0 {
            Decision::EnterLong { symbol, stop_loss, take_profit, .. } => match slipped(
                bar.open,
                true,
                inp.slip,
            ) {
                None => None,
                Some(px) => match n_div(Some(inp.notional), Some(px)) {
                    None => None,
                    Some(qty) => {
                        let p = Position {
                            symbol,
                            side: Side::Long,
                            qty,
                            entry_price: px,
                            stop_loss: Some(stop_loss),
                            take_profit: Some(take_profit),
                            unrealized_pnl: dec(0, 0),
                            opened_bar_time: Some(bar.open_time),
                            leverage: 0,
                        };
                        Some(
                            SimView {
                                pos: Some(p),
                                pending: None,
                                state: EngineStateView { position: Some(p), ..v.state },
                                ..v
                            },
                        )
                    },
                },
            },
            _ => Some(SimView { pending: None, ..v }),
        }
    }
}

/// The trade that closing a position at a price comes to.
pub open spec fn closed_trade(inp: SimInput, p: Position, price: Dec, reason: Seq<char>) -> Option<TradeView> {
    match slipped(price, false, inp.slip) {
        None => None,
        Some(px) => match (
            net_long_pnl(p.entry_price, px, p.qty, inp.fee_rate),
            legs_fee(p.entry_price, px, p.qty, inp.fee_rate),
        ) {
            (Some(pnl), Some(fee)) => Some(
                TradeView {
                    symbol: p.symbol@,
                    strategy_id: inp.strategy_id,
                    entry: p.entry_price,
                    exit: px,
                    qty: p.qty,
                    pnl,
                    fee,
                    reason,
                    bars_held: 0,
                },
            ),
            _ => None,
        },
    }
}

fn close_trade(
    p: &Position,
    price: Dec,
    reason: &str,
    strategy_id: i32,
    fee_rate: Dec,
    slip: Dec,
    inp: Ghost<SimInput>,
) -> (r: Option<ClosedTrade>)
    requires
        inp@.strategy_id == strategy_id,
        inp@.fee_rate == fee_rate,
        inp@.slip == slip,
    ensures
        match (r, closed_trade(inp@, *p, price, reason@)) {
            (Some(t), Some(v)) => t@ == v,
            (None, None) => true,
            _ => false,
        },
{
    let px: Dec = apply_slip(price, false, slip)?;
    let (pnl, fee) = long_pnl(p.entry_price, px, p.qty, fee_rate)?;
    Some(
        ClosedTrade {
            symbol: own(p.symbol.as_str()),
            strategy_id,
            entry: p.entry_price,
            exit: px,
            qty: p.qty,
            pnl,
            fee,
            reason: own(reason),
            bars_held: 0,
        },
    )
}

/// The walk without its position, one trade richer.
pub open spec fn booked(v: SimView, t: TradeView, equity: Dec) -> SimView {
    SimView {
        trades: v.trades.push(t),
        equity,
        pos: None,
        state: EngineStateView { position: None, ..v.state },
        ..v
    }
}

/// The walk once a bar took its position out; peak and drawdown follow.
pub open spec fn stopped_at(inp: SimInput, v: SimView, price: Dec, reason: Seq<char>) -> Option<SimView> {
    match closed_trade(inp, v.pos->0, price, reason) {
        None => None,
        Some(t) => match n_add(Some(v.equity), Some(t.pnl)) {
            None => None,
            Some(equity) => {
                let peak = if v.peak.lt(equity) {
                    equity
                } else {
                    v.peak
                };
                match n_sub(Some(peak), Some(equity)) {
                    None => None,
                    Some(dd) => Some(
                        SimView {
                            peak,
                            drawdown: if v.drawdown.lt(dd) {
                                dd
                            } else {
                                v.drawdown
                            },
                            ..booked(v, t, equity)
                        },
                    ),
                }
            },
        },
    }
}

/// The bars that the desk sees at an index: the last 120.
pub open spec fn window_at(bars: Seq<Bar>, i: int) -> Seq<Bar> {
    bars.subrange(
        if i + 1 < 120 {
            0
        } else {
            i + 1 - 120
        },
        i + 1,
    )
}

/// How many bars a week goes back at an index.
pub open spec fn week_back(inp: SimInput, i: int) -> int {
    let n = if inp.lookback * 7 < i {
        inp.lookback * 7
    } else {
        i
    };
    if n < 1 {
        1
    } else {
        n
    }
}

/// Whether a snapshot shows the market and the account at an index.
pub open spec fn shows(s: MarketSnapshot, inp: SimInput, v: SimView, i: int, day: Dec, week: Dec) -> bool {
    let chunk = window_at(inp.bars, i);
    &&& s.tickers@.len() == 1
    &&& s.tickers@[0].symbol@ == inp.symbol
    &&& s.tickers@[0].last_price == inp.bars[i].close
    &&& s.tickers@[0].price_change_percent == day
    &&& s.tickers@[0].quote_volume == dec(50_000_000, 0)
    &&& s.tickers@[0].high_price == top_high(chunk, chunk.len() as int)
    &&& s.tickers@[0].low_price == dec(0, 0)
    &&& s.tickers@[0].week_change_percent == week
    &&& s.bars@ == chunk
    &&& s.account == (Account {
        wallet_balance: v.equity,
        unrealized_pnl: dec(0, 0),
        available_balance: v.equity,
        starting_equity: v.equity,
    })
    &&& s.position == v.pos
    &&& s.chart_symbol@ == inp.symbol
    &&& s.fetched && s.live_book && s.account_ok && !s.account_fresh && s.last_error is None
    &&& s.open_positions@ == one_or_none(v.pos)
    &&& s.last_bars@ == Map::<Seq<char>, Bar>::empty()
    &&& s.universe_bars@ == Map::<Seq<char>, Vec<Bar>>::empty()
    &&& series_map(s.htf_bars@) == htf_at(inp.htf, inp.bars[i].open_time)
}

/// What the desk makes of what it sees.
#[verifier::opaque]
pub open spec fn ticked(inp: SimInput, v: SimView, i: int, snap: MarketSnapshot) -> Option<TickView> {
    tick_result(
        v.state,
        snap,
        inp.knobs,
        v.meta,
        None,
        inp.orchestrated,
        inp.heat,
        inp.bars[i].open_time,
    )
}

/// The walk once the desk's first decision is carried out.
pub open spec fn carried_out(inp: SimInput, v: SimView, i: int, d: Decision) -> Option<SimView> {
    match d {
        Decision::EnterLong { .. } => if v.pos is None {
            Some(SimView { pending: Some(d), ..v })
        } else {
            Some(SimView { holds: v.holds + 1, ..v })
        },
        Decision::ExitPosition { reason, .. } => if v.pos is Some {
            match closed_trade(inp, v.pos->0, inp.bars[i].close, reason@) {
                None => None,
                Some(t) => match n_add(Some(v.equity), Some(t.pnl)) {
                    None => None,
                    Some(equity) => Some(booked(v, t, equity)),
                },
            }
        } else {
            Some(SimView { holds: v.holds + 1, ..v })
        },
        Decision::AmendStop { stop_loss, .. } => if v.pos is Some {
            let p = Position { stop_loss: Some(stop_loss), ..v.pos->0 };
            Some(
                SimView {
                    pos: Some(p),
                    state: EngineStateView { position: Some(p), ..v.state },
                    ..v
                },
            )
        } else {
            Some(SimView { holds: v.holds + 1, ..v })
        },
        _ => Some(SimView { holds: v.holds + 1, ..v }),
    }
}

/// Whether a bar takes the position out.
pub open spec fn is_out(v: SimView, bar: Bar) -> bool {
    v.pos is Some && taken_out(v.pos->0, bar) is Some
}

/// The walk after one bar.
#[verifier::opaque]
pub open spec fn stepped(inp: SimInput, v: SimView, i: int, x: SimStep) -> Option<SimView> {
    let bar = inp.bars[i];
    match filled_at(inp, v, bar) {
        None => None,
        Some(a) => if is_out(a, bar) {
            let (price, reason) = taken_out(a.pos->0, bar)->0;
            stopped_at(inp, a, price, reason)
        } else {
            match (
                change_over(inp.bars, i, inp.lookback),
                change_over(inp.bars, i, week_back(inp, i)),
                ticked(inp, a, i, x.snap),
            ) {
                (Some(_), Some(_), Some(t)) => carried_out(
                    inp,
                    SimView {
                        state: t.state,
                        meta: t.meta,
                        tally: noted_all(a.tally, t.skips),
                        ..a
                    },
                    i,
                    x.decision,
                ),
                _ => None,
            }
        },
    }
}

/// Whether a step is what the desk sees and decides at a bar.
#[verifier::opaque]
pub open spec fn is_step(inp: SimInput, v: SimView, i: int, x: SimStep) -> bool {
    let bar = inp.bars[i];
    match filled_at(inp, v, bar) {
        None => true,
        Some(a) => is_out(a, bar) || match (
            change_over(inp.bars, i, inp.lookback),
            change_over(inp.bars, i, week_back(inp, i)),
        ) {
            (Some(day), Some(week)) => shows(x.snap, inp, a, i, day, week) && match ticked(
                inp,
                a,
                i,
                x.snap,
            ) {
                Some(t) => x.decision@ == first_or_hold(t.decisions),
                None => true,
            },
            _ => true,
        },
    }
}

/// The walk after the first `n` bars past the warm-up.
pub open spec fn walked(inp: SimInput, start: SimView, from: int, xs: Seq<SimStep>, n: int) -> Option<SimView>
    decreases n,
{
    if n <= 0 {
        Some(start)
    } else {
        match walked(inp, start, from, xs, n - 1) {
            None => None,
            Some(v) => stepped(inp, v, from + n - 1, xs[n - 1]),
        }
    }
}

/// Whether steps are what the desk sees and decides, bar by bar.
pub open spec fn are_steps(inp: SimInput, start: SimView, from: int, xs: Seq<SimStep>, n: int) -> bool
    decreases n,
{
    n <= 0 || (are_steps(inp, start, from, xs, n - 1) && match walked(inp, start, from, xs, n - 1) {
        None => true,
        Some(v) => is_step(inp, v, from + n - 1, xs[n - 1]),
    })
}

proof fn lemma_walk_prefix(
    inp: SimInput,
    start: SimView,
    from: int,
    xs: Seq<SimStep>,
    ys: Seq<SimStep>,
    n: int,
)
    requires
        n <= xs.len(),
        n <= ys.len(),
        forall|k: int| 0 <= k < n ==> xs[k] == ys[k],
    ensures
        walked(inp, start, from, xs, n) == walked(inp, start, from, ys, n),
        are_steps(inp, start, from, xs, n) == are_steps(inp, start, from, ys, n),
    decreases n,
{
    if n > 0 {
        lemma_walk_prefix(inp, start, from, xs, ys, n - 1);
    }
}

proof fn lemma_walk_none(inp: SimInput, start: SimView, from: int, xs: Seq<SimStep>, n: int, m: int)
    requires
        0 <= n <= m,
        walked(inp, start, from, xs, n) is None,
        are_steps(inp, start, from, xs, n),
    ensures
        walked(inp, start, from, xs, m) is None,
        are_steps(inp, start, from, xs, m),
    decreases m - n,
{
    if n < m {
        lemma_walk_none(inp, start, from, xs, n, m - 1);
    }
}

/// The walk once a position that is still open is closed at the last close.
pub open spec fn wound_up(inp: SimInput, v: SimView) -> Option<SimView> {
    match v.pos {
        None => Some(v),
        Some(p) => match closed_trade(inp, p, inp.bars.last().close, "end of series"@) {
            None => None,
            Some(t) => match n_add(Some(v.equity), Some(t.pnl)) {
                None => None,
                Some(equity) => Some(SimView { trades: v.trades.push(t), equity, ..v }),
            },
        },
    }
}

/// Where a walk starts.
pub open spec fn walk_start(strategy_id: i32, equity: Dec, meta: Map<Seq<char>, MetaView>, tally: Seq<
    SkipRow,
>) -> SimView {
    SimView {
        state: fresh_state(strategy_id),
        pos: None,
        pending: None,
        trades: Seq::empty(),
        equity,
        peak: equity,
        drawdown: dec(0, 0),
        holds: 0,
        meta,
        tally,
    }
}

/// How many bars are left out at the start.
pub open spec fn warmup_of(strategy_id: i32, warmup: Option<usize>) -> int {
    match warmup {
        Some(n) => n as int,
        None => if strategy_id == 2 {
            80
        } else if strategy_id == 3 {
            70
        } else {
            40
        },
    }
}

/// How many bars a day goes back.
pub open spec fn day_back(bars: Seq<Bar>) -> int {
    if bars.len() >= 2 && bars[1].open_time - bars[0].open_time <= 60_000 {
        1440
    } else {
        288
    }
}

/// What a walk is called.
pub open spec fn walk_name(name: Seq<char>, strategy_id: i32, symbol: Seq<char>) -> Seq<char> {
    if name.len() == 0 {
        "s"@ + int_text(strategy_id as int) + ":"@ + symbol
    } else {
        name
    }
}

/// The result with its trades as views.
pub open spec fn result_is(r: SimResult, name: Seq<char>, inp: SimInput, start: Dec, v: SimView) -> bool {
    &&& r.name@ == name
    &&& r.strategy_id == inp.strategy_id
    &&& trade_views(r.trades@) == v.trades
    &&& r.start_equity == start
    &&& r.end_equity == v.equity
    &&& r.max_drawdown == v.drawdown
    &&& r.holds == v.holds
}

/// The executable form of `SimView`.
struct Walk {
    state: EngineState,
    pos: Option<Position>,
    pending: Option<Decision>,
    trades: Vec<ClosedTrade>,
    equity: Dec,
    peak: Dec,
    drawdown: Dec,
    holds: usize,
}

spec fn walk_view(w: Walk, meta: Map<Seq<char>, MetaView>, tally: Seq<SkipRow>) -> SimView {
    SimView {
        state: w.state@,
        pos: w.pos,
        pending: w.pending,
        trades: trade_views(w.trades@),
        equity: w.equity,
        peak: w.peak,
        drawdown: w.drawdown,
        holds: w.holds as int,
        meta,
        tally,
    }
}

fn fill_pending(
    w: &mut Walk,
    bar: &Bar,
    notional: Dec,
    slip: Dec,
    inp: Ghost<SimInput>,
    meta: Ghost<Map<Seq<char>, MetaView>>,
    tally: Ghost<Seq<SkipRow>>,
) -> (r: Option<()>)
    requires
        inp@.notional == notional,
        inp@.slip == slip,
    ensures
        match (r, filled_at(inp@, walk_view(*old(w), meta@, tally@), *bar)) {
            (Some(_), Some(v)) => walk_view(*final(w), meta@, tally@) == v,
            (None, None) => true,
            _ => false,
        },
        final(w).holds == old(w).holds,
{
    if w.pos.is_some() {
        return Some(());
    }
    match w.pending.take() {
        Some(Decision::EnterLong { symbol, stop_loss, take_profit, .. }) => {
            let px: Dec = apply_slip(bar.open, true, slip)?;
            let qty: Dec = over(Some(notional), Some(px))?;
            let p = Position {
                symbol,
                side: Side::Long,
                qty,
                entry_price: px,
                stop_loss: Some(stop_loss),
                take_profit: Some(take_profit),
                unrealized_pnl: Dec::zero(),
                opened_bar_time: Some(bar.open_time),
                leverage: 0,
            };
            w.state.position = Some(p.clone());
            w.pos = Some(p);
        },
        _ => {},
    }
    Some(())
}

fn book_trade(w: &mut Walk, t: ClosedTrade) -> (r: Option<()>)
    ensures
        match r {
            Some(_) => {
                &&& n_add(Some(old(w).equity), Some(t.pnl)) == Some(final(w).equity)
                &&& trade_views(final(w).trades@) == trade_views(old(w).trades@).push(t@)
                &&& final(w).pos is None
                &&& final(w).state@ == (EngineStateView { position: None, ..old(w).state@ })
                &&& final(w).pending == old(w).pending
                &&& final(w).peak == old(w).peak
                &&& final(w).drawdown == old(w).drawdown
                &&& final(w).holds == old(w).holds
            },
            None => n_add(Some(old(w).equity), Some(t.pnl)) is None,
        },
{
    w.equity = plus(Some(w.equity), Some(t.pnl))?;
    let ghost before = trade_views(w.trades@);
    let ghost tv = t@;
    w.trades.push(t);
    proof {
        assert(trade_views(w.trades@) =~= before.push(tv));
    }
    w.pos = None;
    w.state.position = None;
    Some(())
}

fn see_market(
    w: &Walk,
    bars: &[Bar],
    i: usize,
    symbol: &str,
    lookback: usize,
    opts: &SimOpts,
    inp: Ghost<SimInput>,
    meta: Ghost<Map<Seq<char>, MetaView>>,
    tally: Ghost<Seq<SkipRow>>,
) -> (r: Option<MarketSnapshot>)
    requires
        i < bars@.len(),
        inp@.bars == bars@,
        inp@.symbol == symbol@,
        inp@.htf == opts_map(*opts, symbol@),
        inp@.lookback == lookback,
        lookback <= 1440,
    ensures
        match (
            r,
            change_over(bars@, i as int, lookback as int),
            change_over(bars@, i as int, week_back(inp@, i as int)),
        ) {
            (Some(s), Some(day), Some(week)) => shows(
                s,
                inp@,
                walk_view(*w, meta@, tally@),
                i as int,
                day,
                week,
            ),
            (None, Some(_), Some(_)) => false,
            (Some(_), _, _) => false,
            _ => true,
        },
{
    let start: usize = if i < 119 {
        0
    } else {
        i - 119
    };
    let mut chunk: Vec<Bar> = Vec::new();
    let mut k: usize = start;
    while k <= i
        invariant
            start <= k <= i + 1,
            i < bars@.len(),
            chunk@ == bars@.subrange(start as int, k as int),
        decreases i + 1 - k,
    {
        chunk.push(bars[k]);
        proof {
            assert(bars@.subrange(start as int, k + 1) =~= bars@.subrange(
                start as int,
                k as int,
            ).push(bars@[k as int]));
        }
        k = k + 1;
    }
    let day: Dec = change_percent(bars, i, lookback)?;
    let far: usize = lookback * 7;
    let near: usize = if far < i {
        far
    } else {
        i
    };
    let back: usize = if near < 1 {
        1
    } else {
        near
    };
    let week: Dec = change_percent(bars, i, back)?;
    let mut ticker: Ticker = Ticker::new(symbol, bars[i].close, day, Dec::from_int(50_000_000));
    ticker.high_price = find_high(chunk.as_slice());
    ticker.week_change_percent = week;
    let mut snap: MarketSnapshot = MarketSnapshot::empty(w.equity);
    snap.tickers.push(ticker);
    snap.bars = chunk;
    snap.account = Account {
        wallet_balance: w.equity,
        unrealized_pnl: Dec::zero(),
        available_balance: w.equity,
        starting_equity: w.equity,
    };
    let mut open: Vec<Position> = Vec::new();
    if let Some(p) = &w.pos {
        snap.position = Some(p.clone());
        open.push(p.clone());
    } else {
        snap.position = None;
    }
    proof {
        assert(open@ =~= one_or_none(w.pos));
    }
    snap.open_positions = open;
    snap.chart_symbol = own(symbol);
    snap.fetched = true;
    snap.live_book = true;
    snap.account_ok = true;
    snap.htf_bars = see_htf(opts, symbol, bars[i].open_time);
    Some(snap)
}

fn carry_out(
    w: &mut Walk,
    d: Decision,
    bar: &Bar,
    i: usize,
    strategy_id: i32,
    fee_rate: Dec,
    slip: Dec,
    inp: Ghost<SimInput>,
    meta: Ghost<Map<Seq<char>, MetaView>>,
    tally: Ghost<Seq<SkipRow>>,
) -> (r: Option<()>)
    requires
        inp@.strategy_id == strategy_id,
        inp@.fee_rate == fee_rate,
        inp@.slip == slip,
        inp@.bars[i as int] == *bar,
        old(w).holds < usize::MAX,
    ensures
        match (r, carried_out(inp@, walk_view(*old(w), meta@, tally@), i as int, d)) {
            (Some(_), Some(v)) => walk_view(*final(w), meta@, tally@) == v,
            (None, None) => true,
            _ => false,
        },
        r is Some ==> final(w).holds <= old(w).holds + 1,
{
    match d {
        Decision::EnterLong { symbol, reason, take_profit, stop_loss } => {
            if w.pos.is_none() {
                w.pending = Some(Decision::EnterLong { symbol, reason, take_profit, stop_loss });
            } else {
                w.holds = w.holds + 1;
            }
        },
        Decision::ExitPosition { reason, .. } => match &w.pos {
            Some(p) => {
                let t: ClosedTrade = close_trade(
                    p,
                    bar.close,
                    reason.as_str(),
                    strategy_id,
                    fee_rate,
                    slip,
                    inp,
                )?;
                book_trade(w, t)?;
            },
            None => {
                w.holds = w.holds + 1;
            },
        },
        Decision::AmendStop { stop_loss, .. } => match &w.pos {
            Some(p) => {
                let mut q: Position = p.clone();
                q.stop_loss = Some(stop_loss);
                w.state.position = Some(q.clone());
                w.pos = Some(q);
            },
            None => {
                w.holds = w.holds + 1;
            },
        },
        _ => {
            w.holds = w.holds + 1;
        },
    }
    Some(())
}

/// One bar of a walk. Says last what the desk saw and decided.
fn walk_bar(
    w: &mut Walk,
    bars: &[Bar],
    i: usize,
    symbol: &str,
    lookback: usize,
    strategy_id: i32,
    notional: Dec,
    fee_rate: Dec,
    slip: Dec,
    momentum: Option<&MomentumParams>,
    scalp: Option<&ScalpParams>,
    trend: Option<&TrendParams>,
    meta: &mut OpenMeta,
    tally: &mut SkipTally,
    orchestrated: bool,
    heat: HeatLimits,
    opts: &SimOpts,
    inp: Ghost<SimInput>,
) -> (r: (Option<()>, Ghost<SimStep>))
    requires
        i < bars@.len(),
        lookback <= 1440,
        old(w).holds < usize::MAX,
        inp@ == (SimInput {
            strategy_id,
            bars: bars@,
            symbol: symbol@,
            notional,
            fee_rate,
            slip,
            lookback: lookback as int,
            knobs: desk_knobs(momentum, scalp, trend),
            orchestrated,
            heat,
            htf: opts_map(*opts, symbol@),
        }),
    ensures
        is_step(inp@, walk_view(*old(w), old(meta)@, old(tally)@), i as int, r.1@),
        match (
            r.0,
            stepped(inp@, walk_view(*old(w), old(meta)@, old(tally)@), i as int, r.1@),
        ) {
            (Some(_), Some(v)) => walk_view(*final(w), final(meta)@, final(tally)@) == v,
            (None, None) => true,
            _ => false,
        },
        r.0 is Some ==> final(w).holds <= old(w).holds + 1,
{
    let ghost any: SimStep = arbitrary();
    let bar: &Bar = &bars[i];
    proof {
        reveal(stepped);
        reveal(is_step);
    }
    if fill_pending(w, bar, notional, slip, inp, Ghost(meta@), Ghost(tally@)).is_none() {
        return (None, Ghost(any));
    }
    let out: Option<(Dec, &'static str)> = match &w.pos {
        Some(p) => hit_protectives(p, bar),
        None => None,
    };
    if let Some((price, why)) = out {
        return (
            stop_out(w, price, why, strategy_id, fee_rate, slip, inp, Ghost(meta@), Ghost(tally@)),
            Ghost(any),
        );
    }
    let snap: MarketSnapshot = match see_market(
        w,
        bars,
        i,
        symbol,
        lookback,
        opts,
        inp,
        Ghost(meta@),
        Ghost(tally@),
    ) {
        Some(s) => s,
        None => return (None, Ghost(any)),
    };
    let ghost gsnap = snap;
    proof {
        reveal(ticked);
    }
    let (next, d, _) = match tick(
        &w.state,
        &snap,
        bar.open_time,
        momentum,
        scalp,
        trend,
        meta,
        tally,
        None,
        orchestrated,
        heat,
    ) {
        Some(x) => x,
        None => return (None, Ghost(SimStep { snap: gsnap, decision: arbitrary() })),
    };
    let ghost x = SimStep { snap: gsnap, decision: d };
    w.state = next;
    (
        carry_out(
            w,
            d,
            bar,
            i,
            strategy_id,
            fee_rate,
            slip,
            inp,
            Ghost(meta@),
            Ghost(tally@),
        ),
        Ghost(x),
    )
}

fn stop_out(
    w: &mut Walk,
    price: Dec,
    why: &str,
    strategy_id: i32,
    fee_rate: Dec,
    slip: Dec,
    inp: Ghost<SimInput>,
    meta: Ghost<Map<Seq<char>, MetaView>>,
    tally: Ghost<Seq<SkipRow>>,
) -> (r: Option<()>)
    requires
        old(w).pos is Some,
        inp@.strategy_id == strategy_id,
        inp@.fee_rate == fee_rate,
        inp@.slip == slip,
    ensures
        match (r, stopped_at(inp@, walk_view(*old(w), meta@, tally@), price, why@)) {
            (Some(_), Some(v)) => walk_view(*final(w), meta@, tally@) == v,
            (None, None) => true,
            _ => false,
        },
        r is Some ==> final(w).holds == old(w).holds,
{
    let t: ClosedTrade = match &w.pos {
        Some(p) => close_trade(p, price, why, strategy_id, fee_rate, slip, inp)?,
        None => return None,
    };
    book_trade(w, t)?;
    if w.peak < w.equity {
        w.peak = w.equity;
    }
    let dd: Dec = minus(Some(w.peak), Some(w.equity))?;
    if w.drawdown < dd {
        w.drawdown = dd;
    }
    Some(())
}

/// Whether a result is what a walk comes to: there are steps, each what the desk
/// saw and decided at a bar, whose walk it is. `None` stands for a figure that left
/// the range of decimals.
pub open spec fn simulated(
    r: Option<SimResult>,
    name: Seq<char>,
    inp: SimInput,
    warmup: Option<usize>,
    start_equity: Dec,
    meta: Map<Seq<char>, MetaView>,
    tally: Seq<SkipRow>,
    meta_after: Map<Seq<char>, MetaView>,
    tally_after: Seq<SkipRow>,
) -> bool {
    let start = walk_start(inp.strategy_id, start_equity, meta, tally);
    let from = warmup_of(inp.strategy_id, warmup);
    let title = walk_name(name, inp.strategy_id, inp.symbol);
    if inp.bars.len() <= from + 2 {
        r is Some && result_is(r->0, title, inp, start_equity, start) && meta_after == meta
            && tally_after == tally
    } else {
        exists|xs: Seq<SimStep>|
            #![trigger are_steps(inp, start, from, xs, inp.bars.len() - from)]
            are_steps(inp, start, from, xs, inp.bars.len() - from) && match (
                r,
                walked(inp, start, from, xs, inp.bars.len() - from),
            ) {
                (Some(x), Some(v)) => wound_up(inp, v) is Some && result_is(
                    x,
                    title,
                    inp,
                    start_equity,
                    wound_up(inp, v)->0,
                ) && meta_after == v.meta && tally_after == v.tally,
                (None, Some(v)) => wound_up(inp, v) is None,
                (None, None) => true,
                (Some(_), None) => false,
            }
    }
}

/// Walks bars forward: an entry is filled at the next open, a bar's wick takes a
/// position out at its stop or its take-profit, and what is open at the end is
/// closed at the last close.
pub fn simulate_bars(
    strategy_id: i32,
    bars: &[Bar],
    symbol: &str,
    name: &str,
    notional: Dec,
    fee_rate: Dec,
    slip: Dec,
    warmup: Option<usize>,
    start_equity: Dec,
    momentum: Option<&MomentumParams>,
    scalp: Option<&ScalpParams>,
    trend: Option<&TrendParams>,
    meta: &mut OpenMeta,
    tally: &mut SkipTally,
    orchestrated: bool,
    heat: HeatLimits,
) -> (r: Option<SimResult>)
    ensures
        simulated(
            r,
            name@,
            SimInput {
                strategy_id,
                bars: bars@,
                symbol: symbol@,
                notional,
                fee_rate,
                slip,
                lookback: day_back(bars@),
                knobs: desk_knobs(momentum, scalp, trend),
                orchestrated,
                heat,
                htf: Map::empty(),
            },
            warmup,
            start_equity,
            old(meta)@,
            old(tally)@,
            final(meta)@,
            final(tally)@,
        ),
{
    simulate_bars_opts(
        strategy_id,
        bars,
        symbol,
        name,
        notional,
        fee_rate,
        slip,
        warmup,
        start_equity,
        momentum,
        scalp,
        trend,
        SimOpts { htf: None, btc_htf: None },
        meta,
        tally,
        orchestrated,
        heat,
    )
}

/// The same walk with higher-timeframe candles in sight.
pub fn simulate_bars_opts(
    strategy_id: i32,
    bars: &[Bar],
    symbol: &str,
    name: &str,
    notional: Dec,
    fee_rate: Dec,
    slip: Dec,
    warmup: Option<usize>,
    start_equity: Dec,
    momentum: Option<&MomentumParams>,
    scalp: Option<&ScalpParams>,
    trend: Option<&TrendParams>,
    opts: SimOpts,
    meta: &mut OpenMeta,
    tally: &mut SkipTally,
    orchestrated: bool,
    heat: HeatLimits,
) -> (r: Option<SimResult>)
    ensures
        simulated(
            r,
            name@,
            SimInput {
                strategy_id,
                bars: bars@,
                symbol: symbol@,
                notional,
                fee_rate,
                slip,
                lookback: day_back(bars@),
                knobs: desk_knobs(momentum, scalp, trend),
                orchestrated,
                heat,
                htf: opts_map(opts, symbol@),
            },
            warmup,
            start_equity,
            old(meta)@,
            old(tally)@,
            final(meta)@,
            final(tally)@,
        ),
{
    let skip: usize = match warmup {
        Some(n) => n,
        None => if strategy_id == 2 {
            80
        } else if strategy_id == 3 {
            70
        } else {
            40
        },
    };
    let title: String = if name.is_empty() {
        let mut t = own("s");
        t.append(print_i64(strategy_id as i64).as_str());
        t.append(":");
        t.append(symbol);
        t
    } else {
        own(name)
    };
    let mut w = Walk {
        state: EngineState::new(strategy_id),
        pos: None,
        pending: None,
        trades: Vec::new(),
        equity: start_equity,
        peak: start_equity,
        drawdown: Dec::zero(),
        holds: 0,
    };
    proof {
        assert(trade_views(w.trades@) =~= Seq::<TradeView>::empty());
    }
    if bars.len() <= skip || bars.len() - skip <= 2 {
        return Some(
            SimResult {
                name: title,
                strategy_id,
                trades: w.trades,
                start_equity,
                end_equity: start_equity,
                max_drawdown: w.drawdown,
                holds: 0,
            },
        );
    }
    let lookback: usize = if (bars[1].open_time as i128) - (bars[0].open_time as i128) <= 60_000 {
        1440
    } else {
        288
    };
    let ghost inp = SimInput {
        strategy_id,
        bars: bars@,
        symbol: symbol@,
        notional,
        fee_rate,
        slip,
        lookback: day_back(bars@),
        knobs: desk_knobs(momentum, scalp, trend),
        orchestrated,
        heat,
        htf: opts_map(opts, symbol@),
    };
    let ghost from = warmup_of(strategy_id, warmup);
    let ghost start = walk_start(strategy_id, start_equity, old(meta)@, old(tally)@);
    let ghost total = bars@.len() - from;
    let ghost mut xs: Seq<SimStep> = Seq::empty();
    let mut i: usize = skip;
    while i < bars.len()
        invariant
            skip <= i <= bars@.len(),
            from == skip,
            from == warmup_of(strategy_id, warmup),
            total == bars@.len() - from,
            bars@.len() > from + 2,
            lookback <= 1440,
            lookback == day_back(bars@),
            inp == (SimInput {
                strategy_id,
                bars: bars@,
                symbol: symbol@,
                notional,
                fee_rate,
                slip,
                lookback: day_back(bars@),
                knobs: desk_knobs(momentum, scalp, trend),
                orchestrated,
                heat,
                htf: opts_map(opts, symbol@),
            }),
            start == walk_start(strategy_id, start_equity, old(meta)@, old(tally)@),
            xs.len() == i - from,
            w.holds <= i - from,
            are_steps(inp, start, from, xs, i - from),
            walked(inp, start, from, xs, i - from) == Some(walk_view(w, meta@, tally@)),
        decreases bars@.len() - i,
    {
        let ghost n = i - from;
        let (done, x) = walk_bar(
            &mut w,
            bars,
            i,
            symbol,
            lookback,
            strategy_id,
            notional,
            fee_rate,
            slip,
            momentum,
            scalp,
            trend,
            meta,
            tally,
            orchestrated,
            heat,
            &opts,
            Ghost(inp),
        );
        proof {
            lemma_walk_prefix(inp, start, from, xs, xs.push(x@), n);
            xs = xs.push(x@);
        }
        if done.is_none() {
            proof {
                lemma_walk_none(inp, start, from, xs, n + 1, total);
            }
            return None;
        }
        i = i + 1;
    }
    proof {
        assert(are_steps(inp, start, from, xs, bars@.len() - from));
    }
    if let Some(p) = &w.pos {
        let t: ClosedTrade = close_trade(
            p,
            bars[bars.len() - 1].close,
            "end of series",
            strategy_id,
            fee_rate,
            slip,
            Ghost(inp),
        )?;
        book_trade(&mut w, t)?;
    }
    Some(
        SimResult {
            name: title,
            strategy_id,
            trades: w.trades,
            start_equity,
            end_equity: w.equity,
            max_drawdown: w.drawdown,
            holds: w.holds,
        },
    )
}

/// A bar that reaches both the stop and the take-profit counts as a stop.
pub proof fn law_both_sides_count_as_a_stop(p: Position, bar: Bar)
    requires
        p.stop_loss is Some,
        bar.low.le(p.stop_loss->0),
    ensures
        taken_out(p, bar) is Some,
        (taken_out(p, bar)->0).0 == p.stop_loss->0,
{
}

/// The drawdown of a walk never shrinks and its peak never falls when a bar takes
/// the position out.
pub proof fn law_drawdown_only_grows(inp: SimInput, v: SimView, price: Dec, reason: Seq<char>)
    requires
        v.pos is Some,
        stopped_at(inp, v, price, reason) is Some,
    ensures
        v.drawdown.le(stopped_at(inp, v, price, reason)->0.drawdown),
        v.peak.le(stopped_at(inp, v, price, reason)->0.peak),
        stopped_at(inp, v, price, reason)->0.equity.le(stopped_at(inp, v, price, reason)->0.peak),
{
}

/// An equity once the first `n` trades are added to it.
pub open spec fn equity_after(start: Dec, trades: Seq<TradeView>, n: int) -> Num
    decreases n,
{
    if n <= 0 {
        Some(start)
    } else {
        n_add(equity_after(start, trades, n - 1), Some(trades[n - 1].pnl))
    }
}

proof fn lemma_equity_prefix(start: Dec, a: Seq<TradeView>, b: Seq<TradeView>, n: int)
    requires
        n <= a.len(),
        n <= b.len(),
        forall|i: int| 0 <= i < n ==> a[i] == b[i],
    ensures
        equity_after(start, a, n) == equity_after(start, b, n),
    decreases n,
{
    if n > 0 {
        lemma_equity_prefix(start, a, b, n - 1);
    }
}

/// The equity of a walk is what it started with and all its trades, and nothing
/// else.
pub proof fn law_equity_is_the_sum_of_the_trades(
    inp: SimInput,
    start: SimView,
    from: int,
    xs: Seq<SimStep>,
    n: int,
)
    requires
        0 <= n,
        start.trades.len() == 0,
        walked(inp, start, from, xs, n) is Some,
    ensures
        ({
            let v = walked(inp, start, from, xs, n)->0;
            equity_after(start.equity, v.trades, v.trades.len() as int) == Some(v.equity)
        }),
    decreases n,
{
    reveal(stepped);
    if n > 0 {
        law_equity_is_the_sum_of_the_trades(inp, start, from, xs, n - 1);
        let before = walked(inp, start, from, xs, n - 1)->0;
        let after = walked(inp, start, from, xs, n)->0;
        lemma_equity_prefix(
            start.equity,
            before.trades,
            after.trades,
            before.trades.len() as int,
        );
    }
}

} // verus!

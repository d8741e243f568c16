//! What a walk over past bars does with a long, bar by bar.
use super::{
    change_over, factor_of, factor_text, gains_in, is_step, losses_in, opened_by, slipped, stepped,
    top_high, wins_in, wound_up, SimInput, SimStep, SimView, TradeView,
};
use crate::dec::{
    dec, decimal_difference, decimal_product, decimal_quotient, decimal_rules, decimal_sum,
    goes_into, law_even_quotients_are_exact, law_short_products_are_exact, law_short_sums_are_exact,
    lemma_dec_parts, lemma_units_neg, lemma_units_sign, lemma_wf, n_div, n_mul, negated, short,
    short_product, Dec,
};
use crate::models::{Bar, Decision, Position, Side};
use crate::money::{legs_fee, net_long_pnl};
use crate::snapshot::bars::series_map;
use vstd::prelude::*;

verus! {

/// What a sale at a price brings: the price itself, or a share less where the walk
/// is given slippage.
pub open spec fn is_sold_at(exit: Dec, price: Dec, slip: Dec) -> bool {
    if slip.pos() {
        Some(exit) == n_mul(Some(price), decimal_difference(dec(1, 0), slip))
    } else {
        exit == price
    }
}

/// Whether a walk sold a long at a price: the long is gone, one trade more is
/// booked, of the long's own name, quantity and entry, and the equity has changed
/// by what the trade made.
pub open spec fn sold(inp: SimInput, v: SimView, w: SimView, p: Position, price: Dec) -> bool {
    let t = w.trades.last();
    &&& w.pos is None
    &&& w.trades.len() == v.trades.len() + 1
    &&& w.trades.drop_last() == v.trades
    &&& t.symbol == p.symbol@
    &&& t.qty == p.qty
    &&& t.entry == p.entry_price
    &&& is_sold_at(t.exit, price, inp.slip)
    &&& Some(t.pnl) == net_long_pnl(p.entry_price, t.exit, p.qty, inp.fee_rate)
    &&& Some(t.fee) == legs_fee(p.entry_price, t.exit, p.qty, inp.fee_rate)
    &&& Some(w.equity) == decimal_sum(v.equity, t.pnl)
}

/// A bar whose low is at or below the stop takes the long out at the stop, whatever
/// its high.
pub proof fn law_walk_stops_out(inp: SimInput, v: SimView, i: int, x: SimStep, p: Position)
    requires
        v.pos == Some(p),
        stepped(inp, v, i, x) is Some,
        p.stop_loss is Some,
        inp.bars[i].low.le(p.stop_loss->0),
    ensures
        sold(inp, v, stepped(inp, v, i, x)->0, p, p.stop_loss->0),
{
    reveal(stepped);
    assert(stepped(inp, v, i, x)->0.trades.drop_last() =~= v.trades);
}

/// A bar that stays above the stop and whose high is at or above the take-profit
/// takes the long out at the take-profit.
pub proof fn law_walk_takes_profit(inp: SimInput, v: SimView, i: int, x: SimStep, p: Position)
    requires
        v.pos == Some(p),
        stepped(inp, v, i, x) is Some,
        p.stop_loss is Some ==> p.stop_loss->0.lt(inp.bars[i].low),
        p.take_profit is Some,
        p.take_profit->0.le(inp.bars[i].high),
    ensures
        sold(inp, v, stepped(inp, v, i, x)->0, p, p.take_profit->0),
        stepped(inp, v, i, x)->0.trades.last().reason == "take profit (wick)"@,
{
    reveal(stepped);
    assert(stepped(inp, v, i, x)->0.trades.drop_last() =~= v.trades);
}

/// A bar that stays between the stop and the take-profit takes nothing out: the
/// long goes only where the desk decides to let it go, and then at the close. It
/// keeps its quantity and entry, and only a moved stop changes its stop.
pub proof fn law_walk_leaves_the_long_between_its_lines(
    inp: SimInput,
    v: SimView,
    i: int,
    x: SimStep,
    p: Position,
)
    requires
        v.pos == Some(p),
        stepped(inp, v, i, x) is Some,
        p.stop_loss is Some ==> p.stop_loss->0.lt(inp.bars[i].low),
        p.take_profit is Some ==> inp.bars[i].high.lt(p.take_profit->0),
    ensures
        ({
            let w = stepped(inp, v, i, x)->0;
            &&& x.decision is ExitPosition ==> sold(inp, v, w, p, inp.bars[i].close)
            &&& !(x.decision is ExitPosition) ==> {
                &&& w.trades == v.trades
                &&& w.equity == v.equity
                &&& w.pos == Some(
                    Position {
                        stop_loss: match x.decision {
                            Decision::AmendStop { stop_loss, .. } => Some(stop_loss),
                            _ => p.stop_loss,
                        },
                        ..p
                    },
                )
                &&& w.state.position == w.pos || x.decision is Hold || x.decision is EnterLong
                    || x.decision is ReduceLong
            }
            &&& w.peak == v.peak && w.drawdown == v.drawdown
        }),
{
    reveal(stepped);
    if x.decision is ExitPosition {
        assert(stepped(inp, v, i, x)->0.trades.drop_last() =~= v.trades);
    }
}

/// Whether a bar leaves a long alone that has these lines.
pub open spec fn between(bar: Bar, stop_loss: Dec, take_profit: Dec) -> bool {
    stop_loss.lt(bar.low) && bar.high.lt(take_profit)
}

/// An entry that was decided on one bar is filled at the open of the next: at the
/// open, or a share above it where the walk is given slippage, for the notional,
/// with the decided stop and take-profit.
pub proof fn law_walk_fills_at_the_next_open(
    inp: SimInput,
    v: SimView,
    i: int,
    x: SimStep,
    stop_loss: Dec,
    take_profit: Dec,
)
    requires
        v.pos is None,
        v.pending matches Some(d) && d@->EnterLong_stop_loss == stop_loss
            && d@->EnterLong_take_profit == take_profit && d@ is EnterLong,
        between(inp.bars[i], stop_loss, take_profit),
        stepped(inp, v, i, x) is Some,
        x.decision is Hold,
    ensures
        ({
            let w = stepped(inp, v, i, x)->0;
            let open = inp.bars[i].open;
            &&& w.trades == v.trades && w.equity == v.equity && w.pending is None
            &&& w.pos matches Some(p) && p.side == Side::Long && p.symbol@
                == v.pending->0@->EnterLong_symbol && p.stop_loss == Some(stop_loss)
                && p.take_profit == Some(take_profit) && Some(p.qty) == decimal_quotient(
                inp.notional,
                p.entry_price,
            ) && p.opened_bar_time == Some(inp.bars[i].open_time)
            &&& inp.slip.pos() ==> Some(w.pos->0.entry_price) == n_mul(
                Some(open),
                decimal_sum(dec(1, 0), inp.slip),
            )
            &&& !inp.slip.pos() ==> w.pos->0.entry_price == open
        }),
{
    reveal(stepped);
}

/// A flat walk books nothing: it waits with an entry where one is decided, and
/// otherwise counts a hold.
pub proof fn law_flat_walk_waits(inp: SimInput, v: SimView, i: int, x: SimStep)
    requires
        v.pos is None,
        v.pending is None,
        stepped(inp, v, i, x) is Some,
    ensures
        ({
            let w = stepped(inp, v, i, x)->0;
            &&& w.pos is None && w.trades == v.trades && w.equity == v.equity
            &&& x.decision is EnterLong ==> w.pending == Some(x.decision) && w.holds == v.holds
            &&& !(x.decision is EnterLong) ==> w.pending is None && w.holds == v.holds + 1
        }),
{
    reveal(stepped);
}

/// After a bar took a long out, the peak is the highest equity so far, and the
/// drawdown the deepest fall from a peak.
pub proof fn law_drawdown_is_the_deepest_fall(
    inp: SimInput,
    v: SimView,
    i: int,
    x: SimStep,
    p: Position,
)
    requires
        v.pos == Some(p),
        stepped(inp, v, i, x) is Some,
        p.stop_loss is Some && inp.bars[i].low.le(p.stop_loss->0) || p.take_profit is Some
            && p.take_profit->0.le(inp.bars[i].high),
    ensures
        ({
            let w = stepped(inp, v, i, x)->0;
            let fall = decimal_difference(w.peak, w.equity);
            &&& v.peak.le(w.peak) && w.equity.le(w.peak)
            &&& w.peak == v.peak || w.peak == w.equity
            &&& fall is Some && fall->0.le(w.drawdown) && v.drawdown.le(w.drawdown)
            &&& w.drawdown == v.drawdown || w.drawdown == fall->0
        }),
{
    reveal(stepped);
}

/// A long that is still open at the end is sold at the last close.
pub proof fn law_walk_sells_what_is_left(inp: SimInput, v: SimView)
    requires
        wound_up(inp, v) is Some,
    ensures
        ({
            let w = wound_up(inp, v)->0;
            &&& v.pos is None ==> w == v
            &&& v.pos matches Some(p) ==> {
                let t = w.trades.last();
                &&& w.trades.len() == v.trades.len() + 1
                &&& t.symbol == p.symbol@ && t.qty == p.qty && t.entry == p.entry_price
                &&& is_sold_at(t.exit, inp.bars.last().close, inp.slip)
                &&& Some(t.pnl) == net_long_pnl(p.entry_price, t.exit, p.qty, inp.fee_rate)
                &&& Some(w.equity) == decimal_sum(v.equity, t.pnl)
            }
        }),
{
}

/// The desk never sees what comes later: the chart it is shown ends with the bar it
/// decides on, goes back at most 120 bars without a gap, the price is that bar's
/// close, and no candle of a higher timeframe opens after that bar.
pub proof fn law_walk_never_looks_ahead(
    inp: SimInput,
    v: SimView,
    i: int,
    x: SimStep,
    k: int,
    name: Seq<char>,
    j: int,
)
    requires
        0 <= i < inp.bars.len(),
        v.pos is None,
        v.pending is None,
        is_step(inp, v, i, x),
        stepped(inp, v, i, x) is Some,
    ensures
        ({
            let seen = x.snap.bars@;
            &&& 0 < seen.len() <= 120 && seen.len() <= i + 1
            &&& i + 1 <= 120 ==> seen.len() == i + 1
            &&& seen.last() == inp.bars[i]
            &&& 0 <= k < seen.len() ==> seen[k] == inp.bars[i + 1 - seen.len() + k]
            &&& x.snap.tickers@.len() == 1 && x.snap.tickers@[0].last_price == inp.bars[i].close
            &&& x.snap.position is None
            &&& series_map(x.snap.htf_bars@).contains_key(name) && 0 <= j < series_map(
                x.snap.htf_bars@,
            )[name].len() ==> series_map(x.snap.htf_bars@)[name][j].open_time
                <= inp.bars[i].open_time
        }),
{
    reveal(stepped);
    reveal(is_step);
    let at = inp.bars[i].open_time;
    let m = series_map(x.snap.htf_bars@);
    if m.contains_key(name) && 0 <= j < m[name].len() {
        let all = inp.htf[name];
        assert(m[name] == opened_by(all, at));
        let test = |b: Bar| b.open_time <= at;
        assert(opened_by(all, at) == all.filter(test));
        all.lemma_filter_pred(test, j);
    }
}

/// Slippage costs: a purchase is dearer and a sale cheaper than the price by that
/// share of it.
pub proof fn law_slippage_costs(price: Dec, slip: Dec)
    requires
        decimal_rules(),
        price.pos(),
        slip.pos(),
        short(dec(1, 0), slip),
        short_product(price, decimal_sum(dec(1, 0), slip)->0),
        short_product(price, decimal_difference(dec(1, 0), slip)->0),
    ensures
        slipped(price, true, slip) matches Some(x) && price.lt(x) && (x.units() - price.units()) * dec(
            1,
            0,
        ).units() == price.units() * slip.units(),
        slipped(price, false, slip) matches Some(x) && x.lt(price) && (price.units() - x.units()) * dec(
            1,
            0,
        ).units() == price.units() * slip.units(),
{
    broadcast use lemma_dec_parts;

    let one = dec(1, 0);
    lemma_wf(one);
    lemma_wf(slip);
    lemma_units_sign(one);
    law_short_sums_are_exact(one, slip);
    let up = decimal_sum(one, slip)->0;
    let down = decimal_difference(one, slip)->0;
    law_short_products_are_exact(price, up);
    law_short_products_are_exact(price, down);
    let a = decimal_product(price, up)->0.units();
    let b = decimal_product(price, down)->0.units();
    let u = one.units();
    let p = price.units();
    let q = slip.units();
    assert((a - p) * u == p * q && a > p) by (nonlinear_arith)
        requires
            a * u == p * (u + q),
            u > 0,
            p > 0,
            q > 0,
    ;
    assert((p - b) * u == p * q && b < p) by (nonlinear_arith)
        requires
            b * u == p * (u - q),
            u > 0,
            p > 0,
            q > 0,
    ;
}

/// What the winners among the first `n` trades made, as a value.
pub open spec fn units_gained(v: Seq<TradeView>, n: int) -> int
    decreases n,
{
    if n <= 0 {
        0
    } else {
        units_gained(v, n - 1) + if v[n - 1].pnl.units() > 0 {
            v[n - 1].pnl.units()
        } else {
            0
        }
    }
}

/// What the losers among the first `n` trades lost, as a positive value.
pub open spec fn units_lost(v: Seq<TradeView>, n: int) -> int
    decreases n,
{
    if n <= 0 {
        0
    } else {
        units_lost(v, n - 1) + if v[n - 1].pnl.units() < 0 {
            -v[n - 1].pnl.units()
        } else {
            0
        }
    }
}

/// Whether the results of trades can be added one by one without a figure being
/// rounded off.
pub open spec fn results_add_up(v: Seq<TradeView>, n: int) -> bool {
    forall|k: int|
        0 <= k < n ==> {
            &&& (#[trigger] v[k]).pnl.wf()
            &&& v[k].pnl.units() > 0 ==> (gains_in(v, k) matches Some(t) && short(t, v[k].pnl))
            &&& v[k].pnl.units() < 0 ==> (losses_in(v, k) matches Some(t) && short(
                t,
                negated(v[k].pnl),
            ))
        }
}

proof fn lemma_results(v: Seq<TradeView>, n: int)
    requires
        decimal_rules(),
        0 <= n <= v.len(),
        results_add_up(v, n),
    ensures
        gains_in(v, n) matches Some(t) && t.units() == units_gained(v, n) && t.wf(),
        losses_in(v, n) matches Some(t) && t.units() == units_lost(v, n) && t.wf(),
    decreases n,
{
    if n <= 0 {
        lemma_dec_parts(0, 0);
        lemma_wf(dec(0, 0));
        lemma_units_sign(dec(0, 0));
    } else {
        lemma_results(v, n - 1);
        let x = v[n - 1].pnl;
        lemma_wf(x);
        if x.units() > 0 {
            law_short_sums_are_exact(gains_in(v, n - 1)->0, x);
            assert(decimal_sum(gains_in(v, n - 1)->0, x) == gains_in(v, n));
        } else if x.units() < 0 {
            lemma_dec_parts(-x.m(), x.s());
            lemma_units_neg(negated(x), x);
            lemma_wf(negated(x));
            law_short_sums_are_exact(losses_in(v, n - 1)->0, negated(x));
            assert(decimal_sum(losses_in(v, n - 1)->0, negated(x)) == losses_in(v, n));
        }
    }
}

/// Where trades hold a loss, their profit factor is what was won over what was
/// lost: times the losses it is the gains, wherever the decimals divide evenly, and
/// it is above one exactly where the gains exceed the losses. Gains without a loss
/// count a thousand, and trades without either none.
pub proof fn law_walk_factor_is_gains_over_losses(v: Seq<TradeView>)
    requires
        decimal_rules(),
        v.len() > 0,
        results_add_up(v, v.len() as int),
    ensures
        ({
            let n = v.len() as int;
            let won = gains_in(v, n)->0;
            let lost = losses_in(v, n)->0;
            &&& won.units() == units_gained(v, n) && lost.units() == units_lost(v, n)
            &&& units_lost(v, n) > 0 ==> factor_of(v) == match decimal_quotient(won, lost) {
                Some(f) => Some(Some(f)),
                None => None,
            }
            &&& units_lost(v, n) > 0 && goes_into(lost, won) ==> {
                &&& factor_of(v) matches Some(Some(f)) && f.units() * units_lost(v, n)
                    == units_gained(v, n) * dec(1, 0).units()
                &&& dec(1, 0).lt(factor_of(v)->0->0) <==> units_gained(v, n) > units_lost(v, n)
            }
            &&& units_lost(v, n) <= 0 && units_gained(v, n) > 0 ==> factor_of(v) == Some(
                Some(dec(1000, 0)),
            )
            &&& units_lost(v, n) <= 0 && units_gained(v, n) <= 0 ==> factor_of(v) == Some(
                Some(dec(0, 0)),
            )
        }),
{
    let n = v.len() as int;
    lemma_results(v, n);
    let won = gains_in(v, n)->0;
    let lost = losses_in(v, n)->0;
    if lost.pos() && goes_into(lost, won) {
        law_even_quotients_are_exact(won, lost);
    }
}

/// How many trades won: one more exactly where the last one made money.
pub proof fn law_wins_made_money(v: Seq<TradeView>, n: int)
    requires
        0 < n <= v.len(),
    ensures
        wins_in(v, n) == wins_in(v, n - 1) + (if v[n - 1].pnl.units() > 0 {
            1int
        } else {
            0
        }),
        wins_in(v, 0) == 0,
{
}

/// How far the close moved: its way from the close that many bars before, or from
/// the first one, in per cent of it.
pub proof fn law_change_is_against_the_past(bars: Seq<Bar>, index: int, lookback: int)
    requires
        0 <= index < bars.len(),
        0 <= lookback,
    ensures
        ({
            let past = if lookback <= index {
                bars[index - lookback].close
            } else {
                bars[0].close
            };
            past.pos() ==> change_over(bars, index, lookback) == n_mul(
                n_div(decimal_difference(bars[index].close, past), Some(past)),
                Some(dec(100, 0)),
            )
        }),
{
}

/// The candles of a higher timeframe that a walk may see: those that opened by
/// then, and all of those.
pub proof fn law_seen_candles_have_opened(bars: Seq<Bar>, at: i64, b: Bar)
    ensures
        opened_by(bars, at).contains(b) <==> bars.contains(b) && b.open_time <= at,
{
    let test = |b: Bar| b.open_time <= at;
    assert(opened_by(bars, at) == bars.filter(test));
    if opened_by(bars, at).contains(b) {
        crate::models::lemma_filter_member(bars, test, b);
    }
}

/// The highest of the bars that are shown is at least every high of them.
pub proof fn law_shown_high_is_the_highest(bars: Seq<Bar>, n: int, i: int)
    requires
        0 <= i < n <= bars.len(),
    ensures
        bars[i].high.le(top_high(bars, n)),
    decreases n,
{
    if n > 1 && i < n - 1 {
        law_shown_high_is_the_highest(bars, n - 1, i);
    }
}

/// How a profit factor is shown: a sign from a hundred on, and two places below.
pub proof fn law_factor_is_shown(f: Dec)
    ensures
        dec(100, 0).le(f) ==> factor_text(Some(f)) == "∞"@,
        f.lt(dec(100, 0)) ==> factor_text(Some(f)) == crate::dec::decimal_text_fixed(f, 2),
{
}

} // verus!

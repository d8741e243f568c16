//! When the scalp buys and lets go, told by candles, means and prices.
use super::{
    bars_held, entry_peak, fast_at, has_fast, scalp_entry, scalp_manage, scalp_stop, scalp_view,
    ScalpView,
};
use crate::dec::{
    dec, decimal_difference, decimal_product, decimal_quotient, decimal_sum, n_add, n_mul, n_sub,
    Dec,
};
use crate::indicators::{
    atr_last, closes_of, ema_last, law_channel_bounds_its_bars, law_channel_edges_are_bars, lowest,
    mean_volume_of, rsi_last, vwap_of,
};
use crate::models::{Bar, Position};
use crate::sessions::entry_open;
use vstd::prelude::*;

verus! {

/// Whether the last two candles turned against a long: both fell, and the last one
/// closed below the entry and below the volume-weighted mean.
pub open spec fn turned_down(bars: Seq<Bar>, entry: Dec) -> bool {
    let n = bars.len() as int;
    &&& n >= 2
    &&& bars[n - 2].close.lt(bars[n - 2].open)
    &&& bars[n - 1].close.lt(bars[n - 1].open)
    &&& bars[n - 1].close.lt(entry)
    &&& vwap_of(bars) matches Some(Some(v)) && bars[n - 1].close.lt(v)
}

/// A scalp is let go at once where the price is at or above its take-profit or at
/// or below its stop, where its hours are over, where it was held for the most
/// candles, or where the last two candles turned against it. Where none of that
/// holds and it has no open risk to give back, it is kept.
pub proof fn law_scalp_lets_go(bars: Seq<Bar>, pos: Position, mark: Dec, p: ScalpView, ts: int)
    requires
        scalp_manage(bars, pos, mark, p, ts) is Some,
        vwap_of(bars) is Some,
    ensures
        ({
            let d = scalp_manage(bars, pos, mark, p, ts)->0;
            let out = {
                ||| pos.take_profit is Some && pos.take_profit->0.le(mark)
                ||| pos.stop_loss is Some && mark.le(pos.stop_loss->0)
                ||| !p.always_enter && p.entry_windows.len() > 0 && !entry_open(
                    ts,
                    Some(p.entry_windows),
                    false,
                )
                ||| pos.opened_bar_time is Some && bars_held(
                    bars,
                    pos.opened_bar_time->0 as int,
                    bars.len() as int,
                ) >= p.max_hold_bars
                ||| turned_down(bars, pos.entry_price)
            };
            &&& out ==> d is ExitPosition
            &&& d is ExitPosition && (pos.stop_loss is None || pos.entry_price.le(
                pos.stop_loss->0,
            )) ==> out
            &&& !(d is EnterLong) && !(d is ReduceLong)
        }),
{
}

/// How long a scalp was held: a candle counts exactly where it opened after the one
/// that the scalp was opened on.
pub proof fn law_held_candles_open_later(bars: Seq<Bar>, b: Bar, opened: int)
    ensures
        bars_held(bars.push(b), opened, bars.len() as int + 1) == bars_held(
            bars,
            opened,
            bars.len() as int,
        ) + (if b.open_time > opened {
            1int
        } else {
            0
        }),
        0 <= bars_held(bars, opened, bars.len() as int) <= bars.len(),
{
    lemma_held_prefix(bars, b, opened, bars.len() as int);
}

proof fn lemma_held_prefix(bars: Seq<Bar>, b: Bar, opened: int, n: int)
    requires
        0 <= n <= bars.len(),
    ensures
        bars_held(bars.push(b), opened, n) == bars_held(bars, opened, n),
        0 <= bars_held(bars, opened, n) <= n,
    decreases n,
{
    if n > 0 {
        lemma_held_prefix(bars, b, opened, n - 1);
    }
}

/// The scalp buys only a rising candle that closed above the one before it, above
/// the volume-weighted mean and not below the fast mean, with the fast mean above
/// the slow one, the range and the relative strength within bounds, not too far
/// from the fast mean, after a pullback to it, and on enough volume.
pub proof fn law_scalp_buys_a_resume(
    bars: Seq<Bar>,
    symbol: Seq<char>,
    p: ScalpView,
    ts: int,
    position: Option<Position>,
)
    requires
        scalp_view(bars, position, symbol, p, Some(ts)) matches Some(d) && d is EnterLong,
    ensures
        ({
            let n = bars.len() as int;
            let last = bars.last();
            let mark = last.close;
            let c = closes_of(bars);
            let fast = ema_last(c, p.ema_fast as int)->0->0;
            let slow = ema_last(c, p.ema_slow as int)->0->0;
            let atr = atr_last(bars, p.atr_period as int)->0->0;
            let rsi = rsi_last(c, p.rsi_period as int)->0->0;
            let width = decimal_quotient(atr, mark);
            let from = n - p.pullback_bars - 1;
            let band = decimal_product(p.pullback_atr, atr);
            &&& position is None || !position->0.qty.pos()
            &&& entry_open(ts, Some(p.entry_windows), p.always_enter)
            &&& mark.pos() && atr.pos()
            &&& last.open.lt(mark) && bars[n - 2].close.lt(mark)
            &&& slow.lt(fast) && fast.le(mark)
            &&& vwap_of(bars) matches Some(Some(v)) && v.lt(mark)
            &&& p.rsi_min.le(rsi) && rsi.le(p.rsi_max)
            &&& width is Some && p.min_atr_pct.le(width->0) && width->0.le(p.max_atr_pct)
            &&& decimal_difference(mark, fast) is Some && decimal_product(p.extend_atr, atr) is Some
            &&& decimal_difference(mark, fast)->0.le(decimal_product(p.extend_atr, atr)->0)
            &&& exists|i: int|
                from <= i < n - 1 && #[trigger] has_fast(bars, p, i) && bars[i].close.lt(
                    fast_at(bars, p, i)->0,
                )
            &&& exists|i: int|
                from <= i < n - 1 && #[trigger] has_fast(bars, p, i) && (bars[i].low.le(
                    n_add(fast_at(bars, p, i), band)->0,
                ) || bars[i].low.le(n_add(vwap_of(bars)->0, band)->0))
        }),
{
    let atr = atr_last(bars, p.atr_period as int)->0->0;
    let session = vwap_of(bars)->0->0;
    let n = bars.len() as int;
    let from = n - p.pullback_bars - 1;
    let band = n_mul(Some(p.pullback_atr), Some(atr));
    assert(super::dips(bars, p, from, n - 1));
    assert(super::tags(bars, p, session, band, from, n - 1));
    let i = choose|i: int|
        from <= i < n - 1 && #[trigger] has_fast(bars, p, i) && bars[i].low.le(
            super::touch_limit(fast_at(bars, p, i)->0, session, band)->0,
        );
    assert(has_fast(bars, p, i));
    assert(ema_last(closes_of(bars), p.ema_fast as int) is Some);
    lemma_fast_is_there(bars, p, i);
}

proof fn lemma_fast_is_there(bars: Seq<Bar>, p: ScalpView, i: int)
    requires
        has_fast(bars, p, i),
        ema_last(closes_of(bars), p.ema_fast as int) is Some,
    ensures
        fast_at(bars, p, i) is Some,
{
    let c = closes_of(bars);
    let at = |j: int| crate::indicators::ema_at(c, p.ema_fast as int, j);
    if at(i) is None {
        assert(crate::indicators::ema_first(c.len() as int, p.ema_fast as int) <= i < c.len());
    }
}

/// Where the scalp puts its stop: at the nearest below the price of three, the
/// lowest low of the pullback, the range's distance from the price, and a quarter
/// of the range below the fast mean; then no closer than the smallest distance.
pub proof fn law_scalp_stop_is_the_nearest_of_three(
    bars: Seq<Bar>,
    mark: Dec,
    ema: Dec,
    atr: Dec,
    p: ScalpView,
    i: int,
)
    requires
        scalp_stop(bars, mark, ema, atr, p) is Some,
        bars.len() > p.pullback_bars + 1,
        bars.len() - p.pullback_bars - 1 <= i < bars.len(),
    ensures
        ({
            let stop = scalp_stop(bars, mark, ema, atr, p)->0;
            let from = bars.len() - p.pullback_bars - 1;
            let reach = n_sub(Some(mark), decimal_product(p.sl_atr, atr))->0;
            let under = n_sub(Some(ema), decimal_product(dec(25, 2), atr))->0;
            &&& reach.lt(mark) ==> reach.le(stop) && stop.lt(mark)
            &&& under.lt(mark) ==> under.le(stop) && stop.lt(mark)
            &&& (forall|k: int| from <= k < bars.len() ==> (#[trigger] bars[k]).low.lt(mark)) ==> stop.lt(
                mark,
            ) && exists|k: int| from <= k < bars.len() && (#[trigger] bars[k]).low.le(stop)
            &&& stop == reach || stop == under || exists|k: int|
                from <= k < bars.len() && (#[trigger] bars[k]).low == stop && bars[k].low.le(
                    bars[i].low,
                )
        }),
{
    let n = bars.len() as int;
    let from = n - p.pullback_bars - 1;
    law_channel_edges_are_bars(bars, from, n);
    law_channel_bounds_its_bars(bars, from, n, i);
    let swing = lowest(bars, from, n);
    let k = choose|k: int| from <= k < n && swing == (#[trigger] bars[k]).low;
    assert(bars[k].low == swing);
    let reach = n_sub(Some(mark), decimal_product(p.sl_atr, atr))->0;
    let under = n_sub(Some(ema), decimal_product(dec(25, 2), atr))->0;
    let three = seq![swing, reach, under];
    reveal_with_fuel(super::best_below, 4);
    assert(three[0] == swing && three[1] == reach && three[2] == under);
}

/// How an entry of the scalp is bracketed: the take-profit lies above the price by
/// the decided multiple of the way to the stop.
pub proof fn law_scalp_bracket(
    bars: Seq<Bar>,
    mark: Dec,
    ema: Dec,
    atr: Dec,
    symbol: Seq<char>,
    p: ScalpView,
)
    requires
        scalp_entry(bars, mark, ema, atr, symbol, p) matches Some(d) && d is EnterLong,
    ensures
        ({
            let d = scalp_entry(bars, mark, ema, atr, symbol, p)->0;
            let sl = d->EnterLong_stop_loss;
            let raw = scalp_stop(bars, mark, ema, atr, p)->0;
            let floor = n_mul(Some(mark), decimal_difference(dec(1, 0), p.min_stop_pct));
            let risk = decimal_difference(mark, sl);
            &&& d->EnterLong_symbol == symbol
            &&& sl.pos() && sl.lt(mark)
            &&& sl.le(raw)
            &&& p.min_stop_pct.pos() ==> floor is Some && sl.le(floor->0)
            &&& sl == raw || Some(sl) == floor
            &&& risk is Some && risk->0.pos()
            &&& Some(d->EnterLong_take_profit) == n_add(
                Some(mark),
                decimal_product(p.reward_r, risk->0),
            )
        }),
{
}

/// Once a scalp is its risk ahead, its stop follows the price at the trail's
/// multiple of the range, but no lower than the entry and a twentieth of the range;
/// before that its stop stays.
pub proof fn law_scalp_trails_once_ahead(
    bars: Seq<Bar>,
    pos: Position,
    mark: Dec,
    p: ScalpView,
    ts: int,
    atr: Dec,
    risk: Dec,
    goal: Dec,
)
    requires
        atr_last(bars, p.atr_period as int) == Some(Some(atr)),
        atr.pos(),
        pos.stop_loss is Some && pos.stop_loss->0.pos(),
        pos.stop_loss->0.lt(pos.entry_price),
        decimal_difference(pos.entry_price, pos.stop_loss->0) == Some(risk),
        risk.pos(),
        decimal_sum(pos.entry_price, risk) == Some(goal),
        scalp_manage(bars, pos, mark, p, ts) matches Some(d) && d is AmendStop,
        n_add(Some(pos.entry_price), decimal_product(dec(25, 2), risk)) matches Some(x) && x.le(mark),
    ensures
        ({
            let stop = scalp_manage(bars, pos, mark, p, ts)->0->AmendStop_stop_loss;
            let even = n_add(Some(pos.entry_price), decimal_product(atr, dec(5, 2)));
            let behind = n_sub(Some(mark), decimal_product(p.trail_atr, atr));
            &&& goal.le(mark)
            &&& pos.stop_loss->0.lt(stop) && stop.lt(mark)
            &&& even is Some && even->0.le(stop)
            &&& behind is Some && behind->0.le(stop)
            &&& Some(stop) == even || Some(stop) == behind
        }),
{
}

/// The scalp buys only on volume: the last candle's is at least the share of the
/// mean of the last twenty that is asked for.
pub proof fn law_scalp_buys_on_volume(
    bars: Seq<Bar>,
    symbol: Seq<char>,
    p: ScalpView,
    ts: int,
    position: Option<Position>,
    mean: Dec,
)
    requires
        scalp_view(bars, position, symbol, p, Some(ts)) matches Some(d) && d is EnterLong,
        bars.len() > 20,
        mean_volume_of(bars.subrange(bars.len() - 20, bars.len() as int)) == Some(Some(mean)),
        mean.pos(),
    ensures
        decimal_product(mean, p.min_volume_frac) matches Some(need) && need.le(bars.last().volume),
{
}

/// A scalp that had been most of its risk ahead and gave all but a quarter of it
/// back goes.
pub proof fn law_scalp_giveback(
    bars: Seq<Bar>,
    pos: Position,
    mark: Dec,
    p: ScalpView,
    ts: int,
    atr: Dec,
    risk: Dec,
    most: Dec,
    little: Dec,
    peak: Dec,
)
    requires
        atr_last(bars, p.atr_period as int) == Some(Some(atr)),
        atr.pos(),
        pos.stop_loss is Some && pos.stop_loss->0.lt(pos.entry_price),
        decimal_difference(pos.entry_price, pos.stop_loss->0) == Some(risk),
        risk.pos(),
        n_add(Some(pos.entry_price), decimal_product(dec(8, 1), risk)) == Some(most),
        n_add(Some(pos.entry_price), decimal_product(dec(25, 2), risk)) == Some(little),
        entry_peak(bars, pos, mark) == Some(peak),
        most.le(peak),
        mark.lt(little),
        scalp_manage(bars, pos, mark, p, ts) is Some,
    ensures
        scalp_manage(bars, pos, mark, p, ts)->0 is ExitPosition,
{
}

} // verus!

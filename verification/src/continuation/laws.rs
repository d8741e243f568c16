//! When continuation buys and what it does with a long, told by candles, means and
//! prices.
use super::entry::{
    back, bar_return, candle_gate, continuation_result, entry_stop, history, impulse_held,
    law_continuation_enters_at_most_once, name_entry, name_gate, name_verdict, natural_stop,
    no_htf_trend, no_pullback, no_uptrend, pullback_depth, riders, same_move, scan_names, some_red,
    structural_low, swing_high, swing_low, tape_gate, ContinuationInput, NameContext,
};
use super::{
    first_since, floor_volume, is_forming, is_liquid, last_settled, leader_rows, leaders_kept,
    liquid_rows, max_volume, named_in, reverses, row_keyed, row_keys, signal_of, weekly_change,
    ContinuationView, SCAN_MS, WEEK_MS,
};
use crate::config::TradeInterval;
use crate::dec::{
    dec, decimal_difference, decimal_product, decimal_quotient, decimal_sum, n_add, n_div, n_mul,
    n_sub, Dec,
};
use crate::indicators::{atr_last, closes_of, ema_at, ema_last, mean_volume_of, vwap_of};
use crate::models::{Bar, MarketSnapshot, Position, Ticker};
use crate::momentum::{held_keys, pending_count};
use crate::money::round_trip;
use crate::ranking::{
    is_junk, is_liquid_major, law_ranking_is_in_order, law_ranking_keeps_the_rows, ranked,
    ranks_before, RankBy,
};
use crate::regime::{snapshot_regime, BtcRegime};
use crate::text::{lower, upper};
use vstd::prelude::*;

verus! {

/// The 4h gate refuses exactly where the last 4h close is at or below the mean of
/// the 4h closes; without 21 of them it refuses too.
pub proof fn law_htf_gate_is_the_mean(htf: Seq<Bar>, mean: Dec)
    requires
        htf.len() >= 21,
        ema_last(closes_of(htf), 20) == Some(Some(mean)),
    ensures
        (no_htf_trend(htf) matches Some(g) && g is Some) <==> htf.last().close.le(mean),
        no_htf_trend(htf) == Some(None::<Seq<char>>) <==> mean.lt(htf.last().close),
{
}

/// Without 21 candles of 4h no name passes.
pub proof fn law_htf_gate_needs_history(htf: Seq<Bar>)
    requires
        htf.len() < 21,
    ensures
        no_htf_trend(htf) matches Some(g) && g is Some,
{
}

/// On the traded timeframe a name passes exactly where the last close is above
/// the mean of the closes, and, on 1h, that mean rose into the signal candle.
pub proof fn law_uptrend_gate_is_the_mean(bars: Seq<Bar>, p: ContinuationView, mean: Dec)
    requires
        bars.len() >= 22,
        ema_last(closes_of(bars), 20) == Some(Some(mean)),
        no_uptrend(bars, p) is Some,
    ensures
        p.interval != TradeInterval::Hour1 ==> (no_uptrend(bars, p) == Some(None::<Seq<char>>)
            <==> mean.lt(bars.last().close)),
        p.interval == TradeInterval::Hour1 ==> (no_uptrend(bars, p) == Some(None::<Seq<char>>)
            <==> mean.lt(bars.last().close) && {
            let before = closes_of(bars).drop_last();
            let n = before.len() as int;
            &&& ema_at(before, 20, n - 1) is Some
            &&& ema_at(before, 20, n - 2)->0.lt(ema_at(before, 20, n - 1)->0)
        }),
{
    let c = closes_of(bars);
    assert(c.take(bars.len() - 1) =~= c.drop_last());
}

/// Whether the bars before a candle are the first `h` of a series.
pub open spec fn splits(bars: Seq<Bar>, last: Bar, h: int) -> bool {
    &&& 0 <= h <= bars.len()
    &&& forall|j: int| 0 <= j < h ==> (#[trigger] bars[j]).open_time < last.open_time
    &&& h < bars.len() ==> bars[h].open_time >= last.open_time
}

proof fn lemma_first_since(bars: Seq<Bar>, t: int, i: int, h: int)
    requires
        0 <= i <= h <= bars.len(),
        forall|j: int| i <= j < h ==> (#[trigger] bars[j]).open_time < t,
        h < bars.len() ==> bars[h].open_time >= t,
    ensures
        first_since(bars, t, i) == h,
    decreases h - i,
{
    if i < h {
        lemma_first_since(bars, t, i + 1, h);
    }
}

/// Whether a signal candle is fit: it rose, it closed in the upper half of its
/// range, and its range is no wider than the widest stop or six per cent of the
/// close.
pub open spec fn fit_candle(last: Bar, p: ContinuationView) -> bool {
    let range = decimal_difference(last.high, last.low);
    &&& last.open.lt(last.close)
    &&& range is Some
    &&& range->0.pos() ==> {
        let middle = n_add(Some(last.low), decimal_quotient(range->0, dec(2, 0)));
        middle is Some && middle->0.le(last.close)
    }
    &&& last.close.pos() ==> {
        let width = decimal_quotient(range->0, last.close);
        width is Some && (width->0.le(p.max_stop_pct) || width->0.le(dec(6, 2)))
    }
}

/// The pullback gate lets pass exactly a fit candle that resumes a pullback: one of
/// the five candles before it fell, it closed above the candle before it, on the
/// volume that is asked for and after a pullback as deep as is asked for.
pub proof fn law_pullback_gate(bars: Seq<Bar>, last: Bar, p: ContinuationView, h: int)
    requires
        splits(bars, last, h),
        no_pullback(bars, last, p) is Some,
    ensures
        no_pullback(bars, last, p) == Some(None::<Seq<char>>) <==> {
            &&& fit_candle(last, p)
            &&& h >= 2
            &&& exists|k: int|
                h - 5 <= k < h && 0 <= k && (#[trigger] bars[k]).close.lt(bars[k].open)
            &&& bars[h - 1].close.lt(last.close)
            &&& p.volume_confirm_frac.pos() ==> {
                let avg = mean_volume_of(bars.take(h));
                let need = decimal_product(avg->0->0, p.volume_confirm_frac);
                avg is Some && (avg->0 is Some && avg->0->0.pos() ==> need is Some && need->0.le(
                    last.volume,
                ))
            }
            &&& p.min_pullback_pct.pos() ==> {
                let depth = pullback_depth(bars.take(h));
                depth is Some && (depth->0 is Some ==> p.min_pullback_pct.le(depth->0->0))
            }
        },
{
    lemma_first_since(bars, last.open_time as int, 0, h);
    let hist = history(bars, last);
    assert(hist == bars.take(h));
    let from = back(h, 5);
    if exists|k: int| h - 5 <= k < h && 0 <= k && (#[trigger] bars[k]).close.lt(bars[k].open) {
        let k = choose|k: int|
            h - 5 <= k < h && 0 <= k && (#[trigger] bars[k]).close.lt(bars[k].open);
        assert(hist[k].close.lt(hist[k].open));
        assert(some_red(hist, from));
    }
    if some_red(hist, from) {
        let k = choose|k: int| from <= k < hist.len() && (#[trigger] hist[k]).close.lt(hist[k].open);
        assert(bars[k].close.lt(bars[k].open));
    }
    if h >= 1 {
        assert(hist[h - 1] == bars[h - 1]);
    }
    assert(candle_gate(last, p) == Some(None::<Seq<char>>) ==> fit_candle(last, p));
    assert(fit_candle(last, p) ==> candle_gate(last, p) == Some(None::<Seq<char>>));
}

/// How deep a pullback was: from the highest high of the last five bars down to
/// their lowest low, as part of that high.
pub proof fn law_pullback_depth(hist: Seq<Bar>, i: int)
    requires
        hist.len() > 0,
        hist.len() - 5 <= i < hist.len(),
        0 <= i,
    ensures
        exists|a: int, b: int|
            {
                &&& 0 <= a < hist.len() && hist.len() - 5 <= a
                &&& 0 <= b < hist.len() && hist.len() - 5 <= b
                &&& hist[i].high.le((#[trigger] hist[a]).high)
                &&& (#[trigger] hist[b]).low.le(hist[i].low)
                &&& hist[a].high.pos() ==> pullback_depth(hist) == match n_div(
                    decimal_difference(hist[a].high, hist[b].low),
                    Some(hist[a].high),
                ) {
                    Some(x) => Some(Some(x)),
                    None => None,
                }
                &&& !hist[a].high.pos() ==> pullback_depth(hist) == Some(None::<Dec>)
            },
{
    let from = back(hist.len() as int, 5);
    lemma_swings(hist, from, i);
    let a = choose|a: int| from <= a < hist.len() && (#[trigger] hist[a]).high == swing_high(hist, from);
    let b = choose|b: int| from <= b < hist.len() && (#[trigger] hist[b]).low == swing_low(hist, from);
    assert(hist[i].high.le(hist[a].high) && hist[b].low.le(hist[i].low));
}

proof fn lemma_swings(bars: Seq<Bar>, from: int, i: int)
    requires
        0 <= from < bars.len(),
    ensures
        exists|a: int| from <= a < bars.len() && (#[trigger] bars[a]).high == swing_high(bars, from),
        exists|b: int| from <= b < bars.len() && (#[trigger] bars[b]).low == swing_low(bars, from),
        from <= i < bars.len() ==> bars[i].high.le(swing_high(bars, from)) && swing_low(bars, from).le(
            bars[i].low,
        ),
    decreases bars.len() - from,
{
    let high = swing_high(bars, from);
    let low = swing_low(bars, from);
    if from + 1 < bars.len() {
        lemma_swings(bars, from + 1, i);
        let a = choose|a: int|
            from + 1 <= a < bars.len() && (#[trigger] bars[a]).high == swing_high(bars, from + 1);
        let b = choose|b: int|
            from + 1 <= b < bars.len() && (#[trigger] bars[b]).low == swing_low(bars, from + 1);
        assert(bars[a].high == high || bars[from].high == high);
        assert(bars[b].low == low || bars[from].low == low);
    } else {
        assert(bars[from].high == high && bars[from].low == low);
    }
}

/// The tape gate lets pass exactly a day that rose by at least the least change, by
/// no more than the largest one, and did not fall by the stretch.
pub proof fn law_tape_gate(t: Ticker, p: ContinuationView)
    requires
        p.stretch_pct.pos() && p.stretch_pct.wf(),
    ensures
        tape_gate(t, p) is None <==> {
            &&& t.price_change_percent.units() >= 0
            &&& p.min_change_percent.le(t.price_change_percent)
            &&& p.max_change_percent is Some ==> t.price_change_percent.le(p.max_change_percent->0)
        },
{
    crate::dec::lemma_wf(p.stretch_pct);
    crate::dec::lemma_dec_parts(-p.stretch_pct.m(), p.stretch_pct.s());
    crate::dec::lemma_units_neg(crate::dec::negated(p.stretch_pct), p.stretch_pct);
}

/// What a name that every gate lets pass looks like, told by its prices: no major,
/// no junk, liquid, not too cheap, its day within bounds, away from the day's high,
/// above the mean of 4h and of the traded timeframe, its signal candle a fit resume
/// after a pullback, not below the volume-weighted mean, and with a stop to set.
pub proof fn law_ready_names(
    s: MarketSnapshot,
    t: Ticker,
    p: ContinuationView,
    recent: Seq<Seq<char>>,
    liquid: Set<Seq<char>>,
    now: int,
)
    requires
        name_gate(s, t, p, recent, liquid, now) == Some(None::<Seq<char>>),
    ensures
        ({
            let htf = s.htf_series(t.symbol@);
            let bars = s.series(t.symbol@);
            let signal = signal_of(s, t.symbol@, p.interval, now);
            let hour1 = p.interval == TradeInterval::Hour1;
            &&& htf.len() >= 21
            &&& ema_last(closes_of(htf), 20) matches Some(Some(e)) && e.lt(htf.last().close)
            &&& bars.len() >= 21
            &&& ema_last(closes_of(bars), 20) matches Some(Some(e)) && e.lt(bars.last().close)
            &&& !is_liquid_major(t.symbol@) && !is_junk(t.symbol@)
            &&& liquid.contains(upper(t.symbol@))
            &&& p.min_price.le(t.last_price)
            &&& t.price_change_percent.units() >= 0
            &&& p.min_change_percent.le(t.price_change_percent)
            &&& p.max_change_percent is Some ==> t.price_change_percent.le(p.max_change_percent->0)
            &&& hour1 ==> now % 3_600_000 == 0 || now % 3_600_000 >= 180_000
            &&& t.high_price.pos() && t.last_price.pos() ==> {
                let limit = n_mul(
                    Some(t.high_price),
                    decimal_difference(dec(1, 0), p.near_high_frac),
                );
                limit is Some && t.last_price.lt(limit->0)
            }
            &&& vwap_of(bars) is Some
            &&& vwap_of(bars)->0 is Some ==> vwap_of(bars)->0->0.le(t.last_price)
            &&& signal is Some && fit_candle(signal->0, p)
            &&& hour1 ==> !is_forming(signal->0, p.interval, now)
            &&& entry_stop(bars, signal->0, t.last_price, p) matches Some(Some(sl)) && sl.pos()
                && sl.lt(t.last_price)
        }),
{
    if p.interval == TradeInterval::Hour1 {
        super::law_hourly_signal_has_closed(s, t.symbol@, now);
    }
}

/// If continuation buys a name, the last 4h close of that name is above the mean of
/// its 4h closes, and its last close is above the mean of its closes.
pub proof fn law_continuation_buys_above_its_means(
    i: ContinuationInput,
    p: ContinuationView,
    a: int,
)
    requires
        continuation_result(i, p) is Some,
        0 <= a < continuation_result(i, p)->0.decisions.len(),
        continuation_result(i, p)->0.decisions[a] is EnterLong,
    ensures
        ({
            let symbol = continuation_result(i, p)->0.decisions[a]->EnterLong_symbol;
            let htf = i.s.htf_series(symbol);
            let bars = i.s.series(symbol);
            &&& htf.len() >= 21
            &&& ema_last(closes_of(htf), 20) matches Some(Some(e)) && e.lt(htf.last().close)
            &&& bars.len() >= 21
            &&& ema_last(closes_of(bars), 20) matches Some(Some(e)) && e.lt(bars.last().close)
            &&& signal_of(i.s, symbol, p.interval, i.now) matches Some(b) && b.open.lt(b.close)
        }),
{
    law_continuation_enters_at_most_once(i, p, a, a);
    let rows = liquid_rows(i.s.tickers@, i.exclude, p)->0;
    let d = continuation_result(i, p)->0.decisions[a];
    let t = choose|t: Ticker|
        t.symbol@ == d.symbol() && #[trigger] name_gate(
            i.s,
            t,
            p,
            i.recent,
            row_keys(rows),
            i.now,
        ) == Some(None::<Seq<char>>);
    law_ready_names(i.s, t, p, i.recent, row_keys(rows), i.now);
}

proof fn lemma_structural_low(hist: Seq<Bar>, start: Dec, k: int, j: int)
    requires
        0 <= k <= hist.len(),
    ensures
        structural_low(hist, start, k).le(start),
        1 <= j <= k && hist[hist.len() - j].low.pos() ==> structural_low(hist, start, k).le(
            hist[hist.len() - j].low,
        ),
        structural_low(hist, start, k) == start || exists|m: int|
            1 <= m <= k && structural_low(hist, start, k) == #[trigger] hist[hist.len() - m].low,
    decreases k,
{
    if k > 0 {
        lemma_structural_low(hist, start, k - 1, j);
        let low = hist[hist.len() - k].low;
        assert(low == hist[hist.len() - k].low);
    }
}

/// Where the candles put a stop: at or below the low of the signal candle and every
/// low of the candles that are looked back on, and at or below the range's distance
/// from the price where one is asked for. Its risk is the way from the price to it,
/// as part of the price, and never more than the widest stop.
pub proof fn law_natural_stop(
    bars: Seq<Bar>,
    last: Bar,
    mark: Dec,
    p: ContinuationView,
    h: int,
    j: int,
)
    requires
        splits(bars, last, h),
        natural_stop(bars, last, mark, p) matches Some(x) && x is Some,
    ensures
        ({
            let (sl, risk) = natural_stop(bars, last, mark, p)->0->0;
            let reach = n_sub(Some(mark), decimal_product(p.atr_k, atr_last(bars, p.atr_period as int)->0->0));
            let ranged = p.atr_period > 0 && atr_last(bars, p.atr_period as int)->0 is Some && atr_last(
                bars,
                p.atr_period as int,
            )->0->0.pos();
            &&& sl.pos() && sl.lt(mark)
            &&& sl.le(last.low)
            &&& 1 <= j <= p.stop_lookback && j <= h && bars[h - j].low.pos() ==> sl.le(bars[h - j].low)
            &&& ranged && reach is Some && reach->0.pos() ==> sl.le(reach->0)
            &&& sl == last.low || (ranged && reach == Some(sl)) || exists|m: int|
                1 <= m <= p.stop_lookback && m <= h && sl == #[trigger] bars[h - m].low
            &&& n_div(decimal_difference(mark, sl), Some(mark)) == Some(risk)
            &&& risk.le(p.max_stop_pct)
        }),
{
    lemma_first_since(bars, last.open_time as int, 0, h);
    let hist = history(bars, last);
    assert(hist == bars.take(h));
    let k = if hist.len() < p.stop_lookback {
        hist.len() as int
    } else {
        p.stop_lookback as int
    };
    lemma_structural_low(hist, last.low, k, j);
    let low = structural_low(hist, last.low, k);
    if low != last.low {
        let m = choose|m: int| 1 <= m <= k && low == #[trigger] hist[hist.len() - m].low;
        assert(hist[hist.len() - m] == bars[h - m]);
    }
    if 1 <= j <= k {
        assert(hist[hist.len() - j] == bars[h - j]);
    }
}

/// The stop of an entry is the natural one; where that is closer than the smallest
/// distance it lies at the smallest distance below the price.
pub proof fn law_entry_stop_keeps_its_distance(
    bars: Seq<Bar>,
    last: Bar,
    mark: Dec,
    p: ContinuationView,
)
    requires
        entry_stop(bars, last, mark, p) matches Some(x) && x is Some,
    ensures
        ({
            let stop = entry_stop(bars, last, mark, p)->0->0;
            let natural = natural_stop(bars, last, mark, p);
            &&& natural is Some && natural->0 is Some
            &&& stop.pos() && stop.lt(mark)
            &&& p.min_stop_pct.le((natural->0->0).1) ==> stop == (natural->0->0).0
            &&& (natural->0->0).1.lt(p.min_stop_pct) ==> Some(stop) == n_mul(
                Some(mark),
                decimal_difference(dec(1, 0), p.min_stop_pct),
            )
        }),
{
}

/// How an entry is bracketed: its stop is the entry stop of the signal candle, and
/// its take-profit lies above the price by the decided multiple of the way to the
/// stop, the fees of both ways on top.
pub proof fn law_continuation_bracket(s: MarketSnapshot, t: Ticker, p: ContinuationView, now: int)
    requires
        name_entry(s, t, p, now) matches Some(d) && d is EnterLong,
    ensures
        ({
            let d = name_entry(s, t, p, now)->0;
            let signal = signal_of(s, t.symbol@, p.interval, now);
            let sl = d->EnterLong_stop_loss;
            let risk = decimal_difference(t.last_price, sl);
            &&& d->EnterLong_symbol == t.symbol@
            &&& signal is Some
            &&& entry_stop(s.series(t.symbol@), signal->0, t.last_price, p) == Some(Some(sl))
            &&& sl.lt(t.last_price) && t.last_price.lt(d->EnterLong_take_profit)
            &&& risk is Some && risk->0.pos()
            &&& Some(d->EnterLong_take_profit) == n_mul(
                n_add(Some(t.last_price), decimal_product(p.reward_r, risk->0)),
                decimal_sum(dec(1, 0), round_trip()),
            )
        }),
{
}

/// Two candles are one impulse exactly where both rose and neither rose by more
/// than twice the other.
pub proof fn law_same_move_is_symmetric(a: Bar, b: Bar, ra: Dec, rb: Dec)
    requires
        bar_return(a) == Some(Some(ra)),
        bar_return(b) == Some(Some(rb)),
        decimal_product(ra, dec(2, 0)) is Some,
        decimal_product(rb, dec(2, 0)) is Some,
    ensures
        a.open.pos() && n_div(decimal_difference(a.close, a.open), Some(a.open)) == Some(ra),
        ra.pos() && rb.pos() && ra.lt(rb) ==> same_move(a, b) == Some(
            rb.le(decimal_product(ra, dec(2, 0))->0),
        ),
        ra.pos() && rb.pos() && rb.lt(ra) ==> same_move(a, b) == Some(
            ra.le(decimal_product(rb, dec(2, 0))->0),
        ),
        !ra.pos() || !rb.pos() ==> same_move(a, b) == Some(false),
{
}

/// The names that may be bought: rows of the tape that are neither junk nor majors
/// nor left out, priced at least at the least price, traded at least at the floor;
/// the most traded first, and no more than asked for.
pub proof fn law_liquid_names(
    tickers: Seq<Ticker>,
    exclude: Seq<Seq<char>>,
    p: ContinuationView,
    floor: Dec,
    i: int,
    j: int,
)
    requires
        floor_volume(tickers, p) == Some(floor),
        0 <= i <= j < liquid_rows(tickers, exclude, p)->0.len(),
    ensures
        ({
            let rows = liquid_rows(tickers, exclude, p)->0;
            let t = rows[i];
            &&& tickers.contains(t)
            &&& !is_junk(t.symbol@) && !is_liquid_major(t.symbol@)
            &&& t.last_price.pos() && p.min_price.le(t.last_price)
            &&& floor.le(t.quote_volume)
            &&& rows[j].quote_volume.le(t.quote_volume)
            &&& rows.len() <= p.liquid_n || rows.len() <= 1
        }),
{
    let test = |t: Ticker| is_liquid(t, exclude, p, floor);
    let kept = tickers.filter(test);
    let all = ranked(RankBy::Volume, kept);
    law_ranking_is_in_order(RankBy::Volume, kept);
    law_ranking_keeps_the_rows(RankBy::Volume, kept);
    let rows = liquid_rows(tickers, exclude, p)->0;
    assert(rows[i] == all[i] && rows[j] == all[j]);
    if i < j {
        assert(!ranks_before(RankBy::Volume, all[j], all[i]));
    }
    lemma_ranked_member(all, kept, all[i]);
    crate::models::lemma_filter_member(tickers, test, all[i]);
}

proof fn lemma_ranked_member(a: Seq<Ticker>, b: Seq<Ticker>, x: Ticker)
    requires
        a.to_multiset() == b.to_multiset(),
        a.contains(x),
    ensures
        b.contains(x),
{
    broadcast use vstd::seq_lib::group_to_multiset_ensures;

    assert(a.to_multiset().count(x) > 0);
    assert(b.to_multiset().count(x) > 0);
}

/// The floor of the volume is the larger of the fixed one and the share of the
/// largest volume on the tape.
pub proof fn law_volume_floor(tickers: Seq<Ticker>, p: ContinuationView, part: Dec)
    requires
        decimal_product(max_volume(tickers), p.liquid_frac) == Some(part),
    ensures
        floor_volume(tickers, p) matches Some(f) && part.le(f) && p.min_quote_volume.le(f) && (f == part || f
            == p.min_quote_volume),
{
}

/// A former leader has turned exactly where it is no longer among the day's leaders
/// or its signal candle fell; a name that never led has not.
pub proof fn law_former_leaders_turn(
    s: MarketSnapshot,
    t: Ticker,
    recent: Seq<Seq<char>>,
    p: ContinuationView,
    now: int,
    week: Dec,
)
    requires
        weekly_change(t, s.series(t.symbol@)) == Some(week),
    ensures
        ({
            let led = named_in(recent, t.symbol@) || p.week_leader_pct.le(week);
            let leads = row_keyed(
                leader_rows(s.tickers@, leaders_kept(p), Seq::empty(), p),
                upper(t.symbol@),
            );
            let signal = signal_of(s, t.symbol@, p.interval, now);
            let fell = signal is Some && signal->0.close.lt(signal->0.open);
            reverses(s, t, recent, p, now) == Some(led && (!leads || fell))
        }),
{
}

/// On 1h no third name is bought into one impulse: of the held names fewer than two
/// have a signal candle of the same move.
pub proof fn law_one_impulse_takes_two_names(t: Ticker, c: NameContext)
    requires
        name_verdict(t, c) is Enter,
        c.p.interval == TradeInterval::Hour1,
    ensures
        impulse_held(c.s, c.positions, t.symbol@, c.now) matches Some(k) && k < 2,
{
    reveal(name_verdict);
}

/// How many held names ride an impulse: one more exactly where the last one has a
/// quantity, another name and a signal candle of the same move.
pub proof fn law_riders_are_counted(
    s: MarketSnapshot,
    positions: Seq<Position>,
    candidate: Seq<char>,
    bar: Bar,
    now: int,
    n: int,
    k: int,
)
    requires
        0 < n <= positions.len(),
        riders(s, positions, candidate, bar, now, n - 1) == Some(k),
        riders(s, positions, candidate, bar, now, n) is Some,
    ensures
        ({
            let p = positions[n - 1];
            let signal = signal_of(s, p.symbol@, TradeInterval::Hour1, now);
            let more = p.qty.pos() && lower(p.symbol@) != lower(candidate) && signal is Some && same_move(
                bar,
                signal->0,
            ) == Some(true);
            riders(s, positions, candidate, bar, now, n) == Some(
                if more {
                    k + 1
                } else {
                    k
                },
            )
        }),
{
}

/// The scan takes the first name that may be entered: no earlier one could have
/// been.
pub proof fn law_scan_takes_the_first(rows: Seq<Ticker>, i: int, c: NameContext, k: int)
    requires
        0 <= i <= k < rows.len(),
        scan_names(rows, i, c) is Some,
        name_verdict(rows[k], c) is Enter,
        forall|j: int| i <= j < k ==> !((#[trigger] name_verdict(rows[j], c)) is Enter),
    ensures
        scan_names(rows, i, c)->0.entered == Some(name_verdict(rows[k], c)->Enter_0),
    decreases k - i,
{
    if i < k {
        assert(!(name_verdict(rows[i], c) is Enter));
        law_scan_takes_the_first(rows, i + 1, c, k);
    }
}

/// A long is opened only while fewer are held and in flight than may be.
pub proof fn law_continuation_has_a_slot(i: ContinuationInput, p: ContinuationView, a: int)
    requires
        continuation_result(i, p) is Some,
        0 <= a < continuation_result(i, p)->0.decisions.len(),
        continuation_result(i, p)->0.decisions[a] is EnterLong,
    ensures
        held_keys(i.positions).len() + pending_count(
            i.inflight,
            held_keys(i.positions),
            i.inflight.len() as int,
        ) < p.max_positions,
        i.last_scan_ts <= 0 || i.now - i.last_scan_ts >= SCAN_MS,
        i.now >= i.desk_until,
        i.allow_enter,
{
    law_continuation_enters_at_most_once(i, p, a, a);
}

/// No name is ready while the leading coin's regime blocks.
pub proof fn law_ready_names_need_the_regime(
    s: MarketSnapshot,
    t: Ticker,
    p: ContinuationView,
    recent: Seq<Seq<char>>,
    liquid: Set<Seq<char>>,
    now: int,
)
    requires
        name_gate(s, t, p, recent, liquid, now) == Some(None::<Seq<char>>),
    ensures
        snapshot_regime(s) matches Some(g) && g != BtcRegime::Bear && g != BtcRegime::Panic,
{
}

/// A candle still forms while less than its interval has passed since it opened;
/// the signal on 1h is the newest that does not.
pub proof fn law_newest_whole_candle(bars: Seq<Bar>, interval: TradeInterval, now: int, n: int, k: int)
    requires
        0 <= k < n <= bars.len(),
        !(bars[k].open_time <= now && now - bars[k].open_time < interval.minutes() * 60_000),
        forall|j: int|
            k < j < n ==> (#[trigger] bars[j]).open_time <= now && now - bars[j].open_time
                < interval.minutes() * 60_000,
    ensures
        last_settled(bars, interval, now, n) == Some(bars[k]),
    decreases n,
{
    if n - 1 > k {
        law_newest_whole_candle(bars, interval, now, n - 1, k);
    }
}

/// A week's change is the one that the tape states, and else the last close against
/// the first candle of the week before it, in per cent.
pub proof fn law_weekly_change(t: Ticker, bars: Seq<Bar>, k: int)
    requires
        bars.len() >= 2,
        0 <= k < bars.len(),
        i64::MIN <= bars.last().open_time - WEEK_MS,
        bars[k].open_time >= bars.last().open_time - WEEK_MS,
        forall|j: int| 0 <= j < k ==> (#[trigger] bars[j]).open_time < bars.last().open_time - WEEK_MS,
        bars[k].close.pos(),
    ensures
        t.week_change_percent.units() != 0 ==> weekly_change(t, bars) == Some(t.week_change_percent),
        t.week_change_percent.units() == 0 ==> weekly_change(t, bars) == n_mul(
            n_div(decimal_difference(bars.last().close, bars[k].close), Some(bars[k].close)),
            Some(dec(100, 0)),
        ),
{
    lemma_first_since(bars, bars.last().open_time - WEEK_MS, 0, k);
}

} // verus!

//! Daily trend: Turtle-style Donchian 40/20, long-only.
//!
//! An outer `None` says that a price left the decimal range.
use crate::dec::{
    dec, decimal_difference, decimal_product, decimal_sum, minus, n_add, n_mul, n_sub, plus, times,
    Dec, Num,
};
use crate::indicators::{
    adx_last, atr_last, channel_bottom, channel_high, channel_low, channel_top, closes, closes_of,
    ema_last, highest, last_adx, last_atr, last_ema, law_channel_bounds_its_bars,
    law_channel_edges_are_bars, lowest,
};
use crate::models::{Bar, Decision, DecisionView, Position, Side};
use crate::momentum::{amend, amend_view, exit, exit_view, hold_view, opt_decision};
use crate::sessions::{clamp_ms, add_ms, entry_open, in_entry_window, HourWindow, MS_PER_DAY};
use crate::text::{int_text, own, print_u64};
use crate::trail::{long_stop_is_valid, trail_stop_upward, trailed, valid_long_stop, PriceView};
use vstd::prelude::*;
use vstd::string::StringExecFns;

verus! {

pub const CHART_INTERVAL: &'static str = "1d";

/// Closed daily bars to ask for.
pub const CHART_LIMIT: usize = 150;

/// The last closed daily bar is the signal for two hours only.
pub const ENTRY_GRACE_MS: i64 = 7_200_000;

/// Widest stop as a fraction of the price: 0.10.
pub fn max_stop_pct() -> (r: Dec)
    ensures
        r == dec(10, 2),
{
    Dec::new(10, 2)
}

/// How far the live price may have left the daily close: 0.03.
pub fn max_close_extension_pct() -> (r: Dec)
    ensures
        r == dec(3, 2),
{
    Dec::new(3, 2)
}

#[derive(Debug)]
pub struct TrendParams {
    pub channel: usize,
    pub exit_channel: usize,
    pub atr_period: usize,
    pub sl_atr: Dec,
    pub min_stop_pct: Dec,
    pub max_stop_pct: Dec,
    pub trail_atr: Dec,
    pub reward_r: Dec,
    pub ema_filter: usize,
    pub adx_period: usize,
    pub adx_min: Dec,
    pub cooldown_ms: i64,
    /// Zero switches the grace off.
    pub entry_grace_ms: i64,
    pub entry_windows: Vec<HourWindow>,
}

/// The knobs with their windows as a sequence.
pub struct TrendView {
    pub channel: usize,
    pub exit_channel: usize,
    pub atr_period: usize,
    pub sl_atr: Dec,
    pub min_stop_pct: Dec,
    pub max_stop_pct: Dec,
    pub trail_atr: Dec,
    pub reward_r: Dec,
    pub ema_filter: usize,
    pub adx_period: usize,
    pub adx_min: Dec,
    pub cooldown_ms: i64,
    pub entry_grace_ms: i64,
    pub entry_windows: Seq<HourWindow>,
}

impl View for TrendParams {
    type V = TrendView;

    open spec fn view(&self) -> TrendView {
        TrendView {
            channel: self.channel,
            exit_channel: self.exit_channel,
            atr_period: self.atr_period,
            sl_atr: self.sl_atr,
            min_stop_pct: self.min_stop_pct,
            max_stop_pct: self.max_stop_pct,
            trail_atr: self.trail_atr,
            reward_r: self.reward_r,
            ema_filter: self.ema_filter,
            adx_period: self.adx_period,
            adx_min: self.adx_min,
            cooldown_ms: self.cooldown_ms,
            entry_grace_ms: self.entry_grace_ms,
            entry_windows: self.entry_windows@,
        }
    }
}

pub open spec fn default_trend() -> TrendView {
    TrendView {
        channel: 40,
        exit_channel: 20,
        atr_period: 20,
        sl_atr: dec(2, 0),
        min_stop_pct: dec(6, 3),
        max_stop_pct: dec(10, 2),
        trail_atr: dec(25, 1),
        reward_r: dec(8, 0),
        ema_filter: 100,
        adx_period: 14,
        adx_min: dec(0, 0),
        cooldown_ms: 3_600_000,
        entry_grace_ms: ENTRY_GRACE_MS,
        entry_windows: Seq::empty(),
    }
}

impl Default for TrendParams {
    fn default() -> (r: Self)
        ensures
            r@ == default_trend(),
    {
        let r = TrendParams {
            channel: 40,
            exit_channel: 20,
            atr_period: 20,
            sl_atr: Dec::from_int(2),
            min_stop_pct: Dec::new(6, 3),
            max_stop_pct: max_stop_pct(),
            trail_atr: Dec::new(25, 1),
            reward_r: Dec::from_int(8),
            ema_filter: 100,
            adx_period: 14,
            adx_min: Dec::zero(),
            cooldown_ms: 3_600_000,
            entry_grace_ms: ENTRY_GRACE_MS,
            entry_windows: Vec::new(),
        };
        proof {
            assert(r.entry_windows@ =~= Seq::<HourWindow>::empty());
        }
        r
    }
}

pub open spec fn trend_knobs(p: Option<&TrendParams>) -> TrendView {
    match p {
        Some(t) => t@,
        None => default_trend(),
    }
}

/// When the daily bar that opened at `open_time_ms` closes.
pub fn daily_bar_close_ts(open_time_ms: i64) -> (r: i64)
    ensures
        r == clamp_ms(open_time_ms + MS_PER_DAY),
{
    add_ms(open_time_ms, MS_PER_DAY)
}

/// Why the live price is not the close that gave the signal; the inner `None`
/// where it still is.
pub open spec fn left_close(signal_close: Dec, live_mark: Dec, max_ext: Dec) -> Option<
    Option<Seq<char>>,
> {
    if !signal_close.pos() || !live_mark.pos() {
        Some(Some("нет цены"@))
    } else if live_mark.lt(signal_close) {
        Some(Some("цена ниже закрытия пробоя"@))
    } else if max_ext.pos() {
        match n_mul(Some(signal_close), n_add(Some(dec(1, 0)), Some(max_ext))) {
            Some(limit) => if limit.lt(live_mark) {
                Some(Some("цена ушла от закрытия дня"@))
            } else {
                Some(None)
            },
            None => None,
        }
    } else {
        Some(None)
    }
}

/// Live last price against the closed daily close that formed the signal.
pub fn live_left_daily_close(signal_close: Dec, live_mark: Dec, max_ext: Dec) -> (r: Option<
    Option<&'static str>,
>)
    ensures
        match r {
            Some(Some(t)) => left_close(signal_close, live_mark, max_ext) == Some(Some(t@)),
            Some(None) => left_close(signal_close, live_mark, max_ext) == Some(None::<Seq<char>>),
            None => left_close(signal_close, live_mark, max_ext) is None,
        },
{
    if !signal_close.is_pos() || !live_mark.is_pos() {
        return Some(Some("нет цены"));
    }
    if live_mark < signal_close {
        return Some(Some("цена ниже закрытия пробоя"));
    }
    if max_ext.is_pos() {
        return match times(Some(signal_close), plus(Some(Dec::one()), Some(max_ext))) {
            Some(limit) => if live_mark > limit {
                Some(Some("цена ушла от закрытия дня"))
            } else {
                Some(None)
            },
            None => None,
        };
    }
    Some(None)
}

/// The stop moved away from the mark to the smallest distance.
pub open spec fn stop_floor(mark: Dec, sl: Dec, min_pct: Dec) -> Num {
    if !min_pct.pos() {
        Some(sl)
    } else {
        match n_mul(Some(mark), n_sub(Some(dec(1, 0)), Some(min_pct))) {
            Some(floor) => Some(
                if sl.le(floor) {
                    sl
                } else {
                    floor
                },
            ),
            None => None,
        }
    }
}

/// Moves a stop away from the mark to the smallest distance.
pub fn at_least_min_stop(mark: Dec, sl: Dec, min_pct: Dec) -> (r: Num)
    ensures
        r == stop_floor(mark, sl, min_pct),
{
    if !min_pct.is_pos() {
        return Some(sl);
    }
    match times(Some(mark), minus(Some(Dec::one()), Some(min_pct))) {
        Some(floor) => if sl <= floor {
            Some(sl)
        } else {
            Some(floor)
        },
        None => None,
    }
}

/// The highest high of the first `n` bars since the position opened.
pub open spec fn held_peak(bars: Seq<Bar>, opened: Option<i64>, n: int) -> Option<Dec>
    decreases n,
{
    if n <= 0 {
        None
    } else {
        let rest = held_peak(bars, opened, n - 1);
        let b = bars[n - 1];
        if opened is Some && b.open_time < opened->0 {
            rest
        } else {
            match rest {
                Some(m) => Some(
                    if m.le(b.high) {
                        b.high
                    } else {
                        m
                    },
                ),
                None => Some(b.high),
            }
        }
    }
}

fn peak_held(bars: &[Bar], opened: Option<i64>) -> (r: Option<Dec>)
    ensures
        r == held_peak(bars@, opened, bars@.len() as int),
{
    let mut m: Option<Dec> = None;
    let mut i: usize = 0;
    while i < bars.len()
        invariant
            i <= bars@.len(),
            m == held_peak(bars@, opened, i as int),
        decreases bars@.len() - i,
    {
        let counts: bool = match opened {
            Some(t) => bars[i].open_time >= t,
            None => true,
        };
        if counts {
            let higher: bool = match m {
                Some(x) => x <= bars[i].high,
                None => true,
            };
            if higher {
                m = Some(bars[i].high);
            }
        }
        i = i + 1;
    }
    m
}

/// The peak since the position opened, at least the mark.
pub open spec fn peak_or_mark(bars: Seq<Bar>, opened: Option<i64>, mark: Dec) -> Dec {
    match held_peak(bars, opened, bars.len() as int) {
        Some(p) => if p.lt(mark) {
            mark
        } else {
            p
        },
        None => mark,
    }
}

/// What the trend does about a held long.
pub open spec fn trend_manage(
    bars: Seq<Bar>,
    pos: Position,
    mark: Dec,
    atr: Dec,
    p: TrendView,
) -> Option<DecisionView> {
    let sym = pos.symbol@;
    let exit_low = channel_bottom(bars, p.exit_channel as int, true);
    if pos.stop_loss is Some && mark.le(pos.stop_loss->0) {
        Some(exit_view("trend stop loss"@, sym))
    } else if exit_low is Some && mark.lt(exit_low->0) {
        Some(
            exit_view(
                "trend broken (Donchian "@ + int_text(p.exit_channel as int) + ")"@,
                sym,
            ),
        )
    } else if pos.take_profit is Some && pos.take_profit->0.le(mark) {
        Some(exit_view("trend take profit"@, sym))
    } else {
        let peak = peak_or_mark(bars, pos.opened_bar_time, mark);
        match n_sub(Some(peak), n_mul(Some(p.trail_atr), Some(atr))) {
            None => None,
            Some(chandelier) => match pos.stop_loss {
                None => if valid_long_stop(chandelier, mark) {
                    Some(amend_view(chandelier, "trend attach stop"@, sym))
                } else {
                    Some(hold_view("trend hold, cannot attach stop"@))
                },
                Some(sl) => match trailed(Some(sl), chandelier, "LONG"@) {
                    PriceView::Price(new_sl) => if sl.lt(new_sl) && valid_long_stop(new_sl, mark) {
                        Some(amend_view(new_sl, "trend chandelier trail"@, sym))
                    } else {
                        Some(hold_view("trend hold"@))
                    },
                    _ => Some(hold_view("trend hold"@)),
                },
            },
        }
    }
}

fn manage_long(bars: &[Bar], pos: &Position, mark: Dec, atr: Dec, p: &TrendParams) -> (r: Option<
    Decision,
>)
    ensures
        opt_decision(r) == trend_manage(bars@, *pos, mark, atr, p@),
{
    let sym: &str = pos.symbol.as_str();
    if let Some(sl) = pos.stop_loss {
        if mark <= sl {
            return Some(exit("trend stop loss", sym));
        }
    }
    if let Some(exit_low) = channel_low(bars, p.exit_channel, true) {
        if mark < exit_low {
            let mut reason = own("trend broken (Donchian ");
            reason.append(print_u64(p.exit_channel as u64).as_str());
            reason.append(")");
            return Some(exit(reason.as_str(), sym));
        }
    }
    if let Some(tp) = pos.take_profit {
        if mark >= tp {
            return Some(exit("trend take profit", sym));
        }
    }
    let peak: Dec = match peak_held(bars, pos.opened_bar_time) {
        Some(x) => if x < mark {
            mark
        } else {
            x
        },
        None => mark,
    };
    let chandelier: Dec = match minus(Some(peak), times(Some(p.trail_atr), Some(atr))) {
        Some(c) => c,
        None => return None,
    };
    match pos.stop_loss {
        None => if long_stop_is_valid(chandelier, mark) {
            Some(amend(chandelier, "trend attach stop", sym))
        } else {
            Some(Decision::hold("trend hold, cannot attach stop"))
        },
        Some(sl) => match trail_stop_upward(Some(sl), chandelier, "LONG") {
            Ok(new_sl) => if new_sl > sl && long_stop_is_valid(new_sl, mark) {
                Some(amend(new_sl, "trend chandelier trail", sym))
            } else {
                Some(Decision::hold("trend hold"))
            },
            Err(_) => Some(Decision::hold("trend hold")),
        },
    }
}

/// A managed trend stop only rises, and stays below the mark.
pub proof fn law_trend_stop_only_rises(
    bars: Seq<Bar>,
    pos: Position,
    mark: Dec,
    atr: Dec,
    p: TrendView,
)
    ensures
        trend_manage(bars, pos, mark, atr, p) matches Some(
            DecisionView::AmendStop { stop_loss, .. },
        ) ==> stop_loss.lt(mark) && (pos.stop_loss matches Some(sl) ==> sl.lt(stop_loss)),
{
}

/// How many bars the trend needs.
pub open spec fn trend_need(p: TrendView) -> int {
    crate::dec::max_int(
        crate::dec::max_int(
            crate::dec::max_int(p.channel + 2, p.exit_channel + 2),
            crate::dec::max_int(p.ema_filter + 1, p.atr_period + 2),
        ),
        2 * p.adx_period + 1,
    )
}

/// Whether the signal is too old: the day has closed, and its grace is over.
pub open spec fn grace_over(open_time: int, now: Option<int>, grace_ms: int) -> bool {
    let close_ts = clamp_ms(open_time + MS_PER_DAY);
    let at = match now {
        Some(n) => n,
        None => close_ts,
    };
    grace_ms > 0 && at + 1000 >= close_ts && at - close_ts > grace_ms
}

/// What the trend does without a position: stop, reward and their limits.
pub open spec fn trend_entry(mark: Dec, atr: Dec, symbol: Seq<char>, p: TrendView) -> Option<
    DecisionView,
> {
    match n_sub(Some(mark), n_mul(Some(p.sl_atr), Some(atr))) {
        None => None,
        Some(raw) => match stop_floor(mark, raw, p.min_stop_pct) {
            None => None,
            Some(sl) => if !valid_long_stop(sl, mark) {
                Some(hold_view("trend stop invalid"@))
            } else {
                match n_sub(Some(mark), Some(sl)) {
                    None => None,
                    Some(risk) => if !risk.pos() {
                        Some(hold_view("risk is zero"@))
                    } else {
                        trend_sized(mark, sl, risk, symbol, p)
                    },
                }
            },
        },
    }
}

/// The entry once the risk is known.
pub open spec fn trend_sized(
    mark: Dec,
    sl: Dec,
    risk: Dec,
    symbol: Seq<char>,
    p: TrendView,
) -> Option<DecisionView> {
    let limit = n_mul(Some(mark), Some(p.max_stop_pct));
    if p.max_stop_pct.pos() && limit is None {
        None
    } else if p.max_stop_pct.pos() && limit->0.lt(risk) {
        Some(hold_view("стоп слишком широкий"@))
    } else {
        match n_add(Some(mark), n_mul(Some(p.reward_r), Some(risk))) {
            None => None,
            Some(tp) => Some(
                DecisionView::EnterLong {
                    symbol,
                    reason: "тренд: пробой Donchian "@ + int_text(p.channel as int),
                    take_profit: tp,
                    stop_loss: sl,
                },
            ),
        }
    }
}

fn enter_trend(mark: Dec, atr: Dec, symbol: &str, p: &TrendParams) -> (r: Option<Decision>)
    ensures
        opt_decision(r) == trend_entry(mark, atr, symbol@, p@),
{
    let raw: Dec = match minus(Some(mark), times(Some(p.sl_atr), Some(atr))) {
        Some(x) => x,
        None => return None,
    };
    let sl: Dec = match at_least_min_stop(mark, raw, p.min_stop_pct) {
        Some(x) => x,
        None => return None,
    };
    if !long_stop_is_valid(sl, mark) {
        return Some(Decision::hold("trend stop invalid"));
    }
    let risk: Dec = match minus(Some(mark), Some(sl)) {
        Some(x) => x,
        None => return None,
    };
    if !risk.is_pos() {
        return Some(Decision::hold("risk is zero"));
    }
    if p.max_stop_pct.is_pos() {
        match times(Some(mark), Some(p.max_stop_pct)) {
            Some(limit) => {
                if risk > limit {
                    return Some(Decision::hold("стоп слишком широкий"));
                }
            },
            None => {
                return None;
            },
        }
    }
    match plus(Some(mark), times(Some(p.reward_r), Some(risk))) {
        Some(tp) => {
            let mut reason = own("тренд: пробой Donchian ");
            reason.append(print_u64(p.channel as u64).as_str());
            Some(
                Decision::EnterLong { symbol: own(symbol), reason, take_profit: tp, stop_loss: sl },
            )
        },
        None => None,
    }
}

/// What the filters say before an entry: a reason to hold, or nothing.
pub open spec fn trend_filters(bars: Seq<Bar>, mark: Dec, p: TrendView) -> Option<
    Option<Seq<char>>,
> {
    let last = bars.last();
    let prior_high = channel_top(bars, p.channel as int, true);
    let ema = ema_last(closes_of(bars), p.ema_filter as int);
    let adx = adx_last(bars, p.adx_period as int);
    if last.close.le(last.open) {
        Some(Some("нет подтверждения (красная свеча)"@))
    } else if prior_high is None {
        Some(Some("Donchian недоступен"@))
    } else if mark.le(prior_high->0) {
        Some(Some("нет пробоя Donchian "@ + int_text(p.channel as int)))
    } else if p.ema_filter > 0 && ema is None {
        None
    } else if p.ema_filter > 0 && (ema->0 is None || mark.le(ema->0->0)) {
        Some(Some("ниже EMA фильтра"@))
    } else if p.adx_min.pos() && adx is None {
        None
    } else if p.adx_min.pos() && (adx->0 is None || adx->0->0.lt(p.adx_min)) {
        Some(Some("нет тренда (ADX)"@))
    } else {
        Some(None)
    }
}

pub open spec fn opt_text(r: Option<Option<String>>) -> Option<Option<Seq<char>>> {
    match r {
        Some(Some(t)) => Some(Some(t@)),
        Some(None) => Some(None),
        None => None,
    }
}

fn filter_trend(bars: &[Bar], mark: Dec, p: &TrendParams) -> (r: Option<Option<String>>)
    requires
        bars@.len() > 0,
    ensures
        opt_text(r) == trend_filters(bars@, mark, p@),
{
    let last: Bar = bars[bars.len() - 1];
    if last.close <= last.open {
        return Some(Some(own("нет подтверждения (красная свеча)")));
    }
    match channel_high(bars, p.channel, true) {
        None => {
            return Some(Some(own("Donchian недоступен")));
        },
        Some(prior_high) => {
            if mark <= prior_high {
                let mut t = own("нет пробоя Donchian ");
                t.append(print_u64(p.channel as u64).as_str());
                return Some(Some(t));
            }
        },
    }
    if p.ema_filter > 0 {
        let c: Vec<Dec> = closes(bars);
        match last_ema(c.as_slice(), p.ema_filter) {
            None => {
                return None;
            },
            Some(None) => {
                return Some(Some(own("ниже EMA фильтра")));
            },
            Some(Some(e)) => {
                if mark <= e {
                    return Some(Some(own("ниже EMA фильтра")));
                }
            },
        }
    }
    if p.adx_min.is_pos() {
        match last_adx(bars, p.adx_period) {
            None => {
                return None;
            },
            Some(None) => {
                return Some(Some(own("нет тренда (ADX)")));
            },
            Some(Some(a)) => {
                if a < p.adx_min {
                    return Some(Some(own("нет тренда (ADX)")));
                }
            },
        }
    }
    Some(None)
}

/// The trend decision on a series.
pub open spec fn trend_view(
    bars: Seq<Bar>,
    position: Option<Position>,
    symbol: Seq<char>,
    p: TrendView,
    now: Option<int>,
) -> Option<DecisionView> {
    if bars.len() < trend_need(p) {
        Some(hold_view("not enough bars for trend"@))
    } else {
        let last = bars.last();
        let mark = last.close;
        if !mark.pos() {
            Some(hold_view("invalid mark"@))
        } else {
            match atr_last(bars, p.atr_period as int) {
                None => None,
                Some(a) => if a is None || !a->0.pos() {
                    Some(hold_view("trend ATR unavailable"@))
                } else if position is Some && position->0.qty.pos() {
                    if position->0.side != Side::Long {
                        Some(hold_view("trend is buy-only; short not managed"@))
                    } else {
                        trend_manage(bars, position->0, mark, a->0, p)
                    }
                } else if !entry_open(last.open_time as int, Some(p.entry_windows), false) {
                    Some(hold_view("вне сессии тренда"@))
                } else if grace_over(last.open_time as int, now, p.entry_grace_ms as int) {
                    Some(hold_view("пробой не на закрытии дня"@))
                } else {
                    match trend_filters(bars, mark, p) {
                        None => None,
                        Some(Some(reason)) => Some(hold_view(reason)),
                        Some(None) => trend_entry(mark, a->0, symbol, p),
                    }
                },
            }
        }
    }
}

pub open spec fn opt_ms(now: Option<i64>) -> Option<int> {
    match now {
        Some(n) => Some(n as int),
        None => None,
    }
}

fn bars_needed(p: &TrendParams) -> (r: u128)
    ensures
        r == trend_need(p@),
{
    let a: u128 = p.channel as u128 + 2;
    let b: u128 = p.exit_channel as u128 + 2;
    let c: u128 = p.ema_filter as u128 + 1;
    let d: u128 = p.atr_period as u128 + 2;
    let e: u128 = 2 * (p.adx_period as u128) + 1;
    let ab: u128 = if a >= b {
        a
    } else {
        b
    };
    let cd: u128 = if c >= d {
        c
    } else {
        d
    };
    let abcd: u128 = if ab >= cd {
        ab
    } else {
        cd
    };
    if abcd >= e {
        abcd
    } else {
        e
    }
}

pub fn trend_decision(
    bars: &[Bar],
    position: Option<&Position>,
    symbol: &str,
    params: Option<&TrendParams>,
    now: Option<i64>,
) -> (r: Option<Decision>)
    ensures
        opt_decision(r) == trend_view(
            bars@,
            crate::models::opt_deref(position),
            symbol@,
            trend_knobs(params),
            opt_ms(now),
        ),
{
    let owned: TrendParams = TrendParams::default();
    let p: &TrendParams = match params {
        Some(t) => t,
        None => &owned,
    };
    let n: usize = bars.len();
    let need: u128 = bars_needed(p);
    if (n as u128) < need {
        return Some(Decision::hold("not enough bars for trend"));
    }
    let last: Bar = bars[n - 1];
    let mark: Dec = last.close;
    if !mark.is_pos() {
        return Some(Decision::hold("invalid mark"));
    }
    let atr: Dec = match last_atr(bars, p.atr_period) {
        None => return None,
        Some(None) => return Some(Decision::hold("trend ATR unavailable")),
        Some(Some(a)) => a,
    };
    if !atr.is_pos() {
        return Some(Decision::hold("trend ATR unavailable"));
    }
    if let Some(pos) = position {
        if pos.qty.is_pos() {
            if pos.side != Side::Long {
                return Some(Decision::hold("trend is buy-only; short not managed"));
            }
            return manage_long(bars, pos, mark, atr, p);
        }
    }
    if !in_entry_window(last.open_time, Some(p.entry_windows.as_slice()), false) {
        return Some(Decision::hold("вне сессии тренда"));
    }
    if p.entry_grace_ms > 0 {
        let close_ts: i64 = daily_bar_close_ts(last.open_time);
        let at: i64 = match now {
            Some(t) => t,
            None => close_ts,
        };
        if at as i128 + 1000 >= close_ts as i128 && at as i128 - close_ts as i128
            > p.entry_grace_ms as i128 {
            return Some(Decision::hold("пробой не на закрытии дня"));
        }
    }
    match filter_trend(bars, mark, p) {
        None => None,
        Some(Some(reason)) => Some(Decision::hold(reason.as_str())),
        Some(None) => enter_trend(mark, atr, symbol, p),
    }
}

/// An entry of the trend has a positive stop below the last close.
pub proof fn law_trend_entry_has_a_stop_below(mark: Dec, atr: Dec, symbol: Seq<char>, p: TrendView)
    ensures
        trend_entry(mark, atr, symbol, p) matches Some(DecisionView::EnterLong { stop_loss, .. })
            ==> stop_loss.pos() && stop_loss.lt(mark),
{
}

/// How many bars a series must have before the trend looks at it, and a daily
/// range that is there.
pub open spec fn trend_sees(bars: Seq<Bar>, p: TrendView, atr: Dec) -> bool {
    &&& bars.len() >= p.channel + 2
    &&& bars.len() >= p.exit_channel + 2
    &&& bars.len() >= p.ema_filter + 1
    &&& bars.len() >= p.atr_period + 2
    &&& bars.len() >= 2 * p.adx_period + 1
    &&& bars.last().close.pos()
    &&& atr_last(bars, p.atr_period as int) == Some(Some(atr))
    &&& atr.pos()
}

/// Whether a price is below every low of the `n` bars before the last one.
pub open spec fn below_lows(mark: Dec, bars: Seq<Bar>, n: int) -> bool {
    forall|i: int| bars.len() - 1 - n <= i < bars.len() - 1 ==> mark.lt((#[trigger] bars[i]).low)
}

/// Whether a price is above every high of the `n` bars before the last one.
pub open spec fn above_highs(mark: Dec, bars: Seq<Bar>, n: int) -> bool {
    forall|i: int| bars.len() - 1 - n <= i < bars.len() - 1 ==> (#[trigger] bars[i]).high.lt(mark)
}

/// When the trend lets a long go: exactly where the last close is at or below the
/// stop, or below every low of the exit channel, or at or above the take-profit.
/// Wherever it does not, it holds or moves the stop.
pub proof fn law_trend_exits_at_its_three_lines(
    bars: Seq<Bar>,
    pos: Position,
    symbol: Seq<char>,
    p: TrendView,
    now: Option<int>,
    atr: Dec,
)
    requires
        trend_sees(bars, p, atr),
        p.exit_channel > 0,
        pos.side == Side::Long,
        pos.qty.pos(),
        trend_view(bars, Some(pos), symbol, p, now) is Some,
    ensures
        ({
            let d = trend_view(bars, Some(pos), symbol, p, now)->0;
            let mark = bars.last().close;
            &&& d is ExitPosition <==> {
                ||| pos.stop_loss is Some && mark.le(pos.stop_loss->0)
                ||| below_lows(mark, bars, p.exit_channel as int)
                ||| pos.take_profit is Some && pos.take_profit->0.le(mark)
            }
            &&& d is ExitPosition ==> d->ExitPosition_symbol == pos.symbol@
            &&& d is ExitPosition || d is AmendStop || d is Hold
            &&& (pos.stop_loss is Some ==> pos.stop_loss->0.lt(mark)) && !below_lows(
                mark,
                bars,
                p.exit_channel as int,
            ) ==> (d is ExitPosition <==> pos.take_profit is Some && pos.take_profit->0.le(mark))
        }),
{
    let n = bars.len() as int;
    let from = n - 1 - p.exit_channel;
    law_channel_edges_are_bars(bars, from, n - 1);
    let low = lowest(bars, from, n - 1);
    let mark = bars.last().close;
    let k = choose|k: int| from <= k < n - 1 && low == (#[trigger] bars[k]).low;
    if mark.lt(low) {
        assert forall|i: int| from <= i < n - 1 implies mark.lt((#[trigger] bars[i]).low) by {
            law_channel_bounds_its_bars(bars, from, n - 1, i);
        }
    } else {
        assert(!mark.lt(bars[k].low));
    }
}

/// When the trend buys: only on a rising last candle that closes above every high
/// of the channel, above the mean where one is asked for, and with the strength
/// that is asked for. Where all of that holds on a day that is not stale, it
/// never waits for want of a breakout.
pub proof fn law_trend_enters_on_a_breakout(
    bars: Seq<Bar>,
    position: Option<Position>,
    symbol: Seq<char>,
    p: TrendView,
    now: Option<int>,
    atr: Dec,
)
    requires
        trend_sees(bars, p, atr),
        p.channel > 0,
        position is None || !position->0.qty.pos(),
        trend_view(bars, position, symbol, p, now) is Some,
        entry_open(bars.last().open_time as int, Some(p.entry_windows), false),
        p.entry_grace_ms == 0,
    ensures
        ({
            let d = trend_view(bars, position, symbol, p, now)->0;
            let last = bars.last();
            let mark = last.close;
            let mean = ema_last(closes_of(bars), p.ema_filter as int);
            let strength = adx_last(bars, p.adx_period as int);
            let signal = {
                &&& last.open.lt(mark)
                &&& above_highs(mark, bars, p.channel as int)
                &&& p.ema_filter > 0 ==> (mean matches Some(Some(e)) && e.lt(mark))
                &&& p.adx_min.pos() ==> (strength matches Some(Some(x)) && p.adx_min.le(x))
            };
            &&& d is EnterLong ==> signal && d->EnterLong_symbol == symbol
            &&& signal ==> Some(d) == trend_entry(mark, atr, symbol, p)
            &&& d is EnterLong || d is Hold
        }),
{
    let n = bars.len() as int;
    let from = n - 1 - p.channel;
    law_channel_edges_are_bars(bars, from, n - 1);
    let high = highest(bars, from, n - 1);
    let mark = bars.last().close;
    let k = choose|k: int| from <= k < n - 1 && high == (#[trigger] bars[k]).high;
    if high.lt(mark) {
        assert forall|i: int| from <= i < n - 1 implies (#[trigger] bars[i]).high.lt(mark) by {
            law_channel_bounds_its_bars(bars, from, n - 1, i);
        }
    } else {
        assert(!bars[k].high.lt(mark));
    }
}

/// No long is opened outside the windows, nor once the grace after the day's close
/// is over.
pub proof fn law_trend_entry_is_timely(
    bars: Seq<Bar>,
    position: Option<Position>,
    symbol: Seq<char>,
    p: TrendView,
    now: int,
)
    requires
        trend_view(bars, position, symbol, p, Some(now)) matches Some(d) && d is EnterLong,
        bars.last().open_time + MS_PER_DAY <= i64::MAX,
        p.entry_grace_ms > 0,
    ensures
        entry_open(bars.last().open_time as int, Some(p.entry_windows), false),
        now <= bars.last().open_time + MS_PER_DAY + p.entry_grace_ms,
        position is None || !position->0.qty.pos(),
        bars.last().close.pos(),
{
}

/// How an entry of the trend is bracketed: the stop lies at the decided multiple of
/// the range below the mark, or lower where the smallest distance asks for it; the
/// take-profit lies above the mark by the decided multiple of the way to the stop.
pub proof fn law_trend_bracket(mark: Dec, atr: Dec, symbol: Seq<char>, p: TrendView)
    requires
        trend_entry(mark, atr, symbol, p) matches Some(d) && d is EnterLong,
    ensures
        ({
            let d = trend_entry(mark, atr, symbol, p)->0;
            let sl = d->EnterLong_stop_loss;
            let risk = decimal_difference(mark, sl);
            let range = n_sub(Some(mark), decimal_product(p.sl_atr, atr))->0;
            &&& d->EnterLong_symbol == symbol
            &&& sl.pos() && sl.lt(mark)
            &&& sl.le(range)
            &&& !p.min_stop_pct.pos() ==> sl == range
            &&& p.min_stop_pct.pos() ==> sl.le(
                n_mul(Some(mark), decimal_difference(dec(1, 0), p.min_stop_pct))->0,
            )
            &&& sl == range || p.min_stop_pct.pos() && Some(sl) == n_mul(
                Some(mark),
                decimal_difference(dec(1, 0), p.min_stop_pct),
            )
            &&& risk is Some && risk->0.pos()
            &&& p.max_stop_pct.pos() ==> risk->0.le(decimal_product(mark, p.max_stop_pct)->0)
            &&& Some(d->EnterLong_take_profit) == n_add(
                Some(mark),
                decimal_product(p.reward_r, risk->0),
            )
        }),
{
}

/// How a held long's stop is trailed: it follows the highest high since the long
/// was opened, or the mark where that is higher, at the decided multiple of the
/// range.
pub proof fn law_trend_trails_the_peak(
    bars: Seq<Bar>,
    pos: Position,
    mark: Dec,
    atr: Dec,
    p: TrendView,
    i: int,
)
    requires
        trend_manage(bars, pos, mark, atr, p) matches Some(d) && d is AmendStop,
        0 <= i < bars.len(),
        pos.opened_bar_time is Some ==> pos.opened_bar_time->0 <= bars[i].open_time,
        pos.stop_loss is Some ==> pos.stop_loss->0.pos(),
    ensures
        exists|peak: Dec|
            {
                &&& bars[i].high.le(peak) && mark.le(peak)
                &&& peak == mark || exists|k: int|
                    0 <= k < bars.len() && (#[trigger] bars[k]).high == peak && (
                    pos.opened_bar_time is Some ==> pos.opened_bar_time->0 <= bars[k].open_time)
                &&& Some(trend_manage(bars, pos, mark, atr, p)->0->AmendStop_stop_loss)
                    == #[trigger] n_sub(Some(peak), decimal_product(p.trail_atr, atr))
            },
        trend_manage(bars, pos, mark, atr, p)->0->AmendStop_symbol == pos.symbol@,
{
    lemma_held_peak(bars, pos.opened_bar_time, bars.len() as int, i);
    let peak = peak_or_mark(bars, pos.opened_bar_time, mark);
    assert(n_sub(Some(peak), decimal_product(p.trail_atr, atr)) == Some(
        trend_manage(bars, pos, mark, atr, p)->0->AmendStop_stop_loss,
    ));
}

proof fn lemma_held_peak(bars: Seq<Bar>, opened: Option<i64>, n: int, i: int)
    requires
        0 <= n <= bars.len(),
    ensures
        held_peak(bars, opened, n) matches Some(m) ==> exists|k: int|
            0 <= k < n && (#[trigger] bars[k]).high == m && (opened is Some ==> opened->0
                <= bars[k].open_time),
        0 <= i < n && (opened is Some ==> opened->0 <= bars[i].open_time) ==> (held_peak(
            bars,
            opened,
            n,
        ) matches Some(m) && bars[i].high.le(m)),
    decreases n,
{
    if n > 0 {
        lemma_held_peak(bars, opened, n - 1, i);
        assert(bars[n - 1] == bars[n - 1]);
    }
}

/// When a live price is no longer the close that gave the signal: without a price,
/// below the close, or above it by more than the share that is allowed.
pub proof fn law_live_price_stays_with_the_close(signal: Dec, live: Dec, share: Dec, limit: Dec)
    requires
        n_mul(Some(signal), decimal_sum(dec(1, 0), share)) == Some(limit),
    ensures
        left_close(signal, live, share) == Some(None::<Seq<char>>) <==> {
            &&& signal.pos() && live.pos()
            &&& signal.le(live)
            &&& share.pos() ==> live.le(limit)
        },
{
}

/// A held long without a stop gets one at the decided multiple of the range below
/// the peak, where that is positive and below the mark.
pub proof fn law_trend_attaches_a_stop(bars: Seq<Bar>, pos: Position, mark: Dec, atr: Dec, p: TrendView)
    requires
        pos.stop_loss is None,
        mark.pos(),
        trend_manage(bars, pos, mark, atr, p) matches Some(d) && !(d is ExitPosition),
    ensures
        ({
            let d = trend_manage(bars, pos, mark, atr, p)->0;
            let goal = n_sub(
                Some(peak_or_mark(bars, pos.opened_bar_time, mark)),
                decimal_product(p.trail_atr, atr),
            );
            &&& goal is Some
            &&& d is AmendStop <==> goal->0.pos() && goal->0.lt(mark)
            &&& d is AmendStop ==> d->AmendStop_stop_loss == goal->0
        }),
{
}

/// A held long's stop is moved exactly where the trail's price is above it,
/// positive and below the mark.
pub proof fn law_trend_raises_a_stop(bars: Seq<Bar>, pos: Position, mark: Dec, atr: Dec, p: TrendView, sl: Dec)
    requires
        pos.stop_loss == Some(sl),
        sl.pos(),
        mark.pos(),
        trend_manage(bars, pos, mark, atr, p) matches Some(d) && !(d is ExitPosition),
    ensures
        ({
            let d = trend_manage(bars, pos, mark, atr, p)->0;
            let goal = n_sub(
                Some(peak_or_mark(bars, pos.opened_bar_time, mark)),
                decimal_product(p.trail_atr, atr),
            );
            &&& goal is Some
            &&& d is AmendStop <==> goal->0.pos() && sl.lt(goal->0) && goal->0.lt(mark)
            &&& d is AmendStop ==> d->AmendStop_stop_loss == goal->0
        }),
{
    crate::trail::law_side_words();
}

} // verus!

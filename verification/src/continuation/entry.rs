//! When continuation opens a long, and what a tick of it decides.
use super::manage::{continuation_manage, manage_continuation_long};
use super::{
    continuation_knobs, default_continuation, first_since, for_interval, index_since, is_reversing,
    leader_count, leader_rows, leaders_kept, liquid_keys, liquid_rows, liquid_universe, noted,
    noted_all, pick_recent_leaders, reverses, row_keys, scan_due, signal_bar, signal_of, symbols_of,
    ContinuationParams, ContinuationView, SkipRow, SkipTally, SCAN_MS,
};
use crate::config::TradeInterval;
use crate::dec::{
    dec, decimal_text, larger, minus, n_add, n_div, n_mul, n_sub, negated, over, plus, smaller, times,
    Dec, Num,
};
use crate::indicators::{
    atr_last, closes, closes_of, ema_at, ema_last, ema_series, last_atr, last_ema, mean_volume,
    mean_volume_of, vwap, vwap_of,
};
use crate::models::{
    decision_views, near_24h_high, near_high, Bar, Decision, DecisionView, MarketSnapshot, Position,
    Ticker,
};
use crate::momentum::{
    acts_or_hold, count_pending, held_keys, held_symbols, hold_list, hold_view, is_blocked,
    opt_decision, opt_decisions, pending_count, scan_is_due, symbol_blocked,
};
use crate::money::{round_trip, round_trip_taker_pct};
use crate::ranking::{
    first_n, is_junk, is_junk_symbol, is_liquid_major, is_major_symbol, ranked, sort_ranked, RankBy,
};
use crate::regime::{block_alt_entry, snapshot_regime};
use crate::sessions::{entry_open, in_entry_window, outside_hours_note, outside_note};
use crate::symbols::{holds_ignoring_case, SymMap, SymSet};
use crate::text::{lower, own, same, strip_ending, trim, trimmed, upper, views, without_ending};
use crate::trail::{long_stop_is_valid, valid_long_stop};
use vstd::prelude::*;
use vstd::string::StringExecFns;

verus! {

/// What a gate says: the outer `None` where a number left the decimal range,
/// else a reason to stay out, or nothing.
pub open spec fn gate_view(r: Option<Option<String>>) -> Option<Option<Seq<char>>> {
    match r {
        Some(Some(t)) => Some(Some(t@)),
        Some(None) => Some(None),
        None => None,
    }
}

/// A gate, and a second one where the first lets pass.
pub open spec fn both(
    a: Option<Option<Seq<char>>>,
    b: Option<Option<Seq<char>>>,
) -> Option<Option<Seq<char>>> {
    if a == Some(None::<Seq<char>>) {
        b
    } else {
        a
    }
}

/// A gate that needs no arithmetic.
pub open spec fn stays_out(shut: bool, reason: Seq<char>) -> Option<Option<Seq<char>>> {
    Some(
        if shut {
            Some(reason)
        } else {
            None
        },
    )
}

fn refuse(reason: &str) -> (r: Option<Option<String>>)
    ensures
        gate_view(r) == Some(Some(reason@)),
{
    Some(Some(own(reason)))
}

fn refuse_on(head: &str, interval: TradeInterval, tail: &str) -> (r: Option<Option<String>>)
    ensures
        gate_view(r) == Some(Some(head@ + interval.ru() + tail@)),
{
    let mut out = own(head);
    out.append(interval.as_ru());
    out.append(tail);
    Some(Some(out))
}

/// Names that 1h does not buy: they fall as one book.
pub open spec fn is_privacy_name(symbol: Seq<char>) -> bool {
    let base = without_ending(upper(trimmed(symbol)), "USDT"@);
    base == "ZEC"@ || base == "DASH"@ || base == "ZEN"@ || base == "XMR"@
}

fn s5_skip_symbol(symbol: &str) -> (r: bool)
    ensures
        r == is_privacy_name(symbol@),
{
    let s = trim(symbol).to_ascii_uppercase();
    let base: &str = strip_ending(s.as_str(), "USDT");
    same(base, "ZEC") || same(base, "DASH") || same(base, "ZEN") || same(base, "XMR")
}

/// The return of a candle; the inner `None` where it has no open.
pub open spec fn bar_return(bar: Bar) -> Option<Option<Dec>> {
    if !bar.open.pos() {
        Some(None)
    } else {
        match n_div(n_sub(Some(bar.close), Some(bar.open)), Some(bar.open)) {
            Some(x) => Some(Some(x)),
            None => None,
        }
    }
}

fn hour1_bar_ret(bar: &Bar) -> (r: Option<Option<Dec>>)
    ensures
        r == bar_return(*bar),
{
    if !bar.open.is_pos() {
        return Some(None);
    }
    Some(Some(over(minus(Some(bar.close), Some(bar.open)), Some(bar.open))?))
}

/// Whether two candles are one impulse: both green, and neither return more
/// than twice the other.
pub open spec fn same_move(a: Bar, b: Bar) -> Option<bool> {
    match (bar_return(a), bar_return(b)) {
        (Some(Some(ra)), Some(Some(rb))) => if !ra.pos() || !rb.pos() {
            Some(false)
        } else {
            let lo = if ra.lt(rb) {
                ra
            } else {
                rb
            };
            let hi = if ra.lt(rb) {
                rb
            } else {
                ra
            };
            match n_mul(Some(lo), Some(dec(2, 0))) {
                Some(twice) => Some(hi.le(twice)),
                None => None,
            }
        },
        (Some(_), Some(_)) => Some(false),
        _ => None,
    }
}

fn same_hour1_move(a: &Bar, b: &Bar) -> (r: Option<bool>)
    ensures
        r == same_move(*a, *b),
{
    let pa: Option<Dec> = hour1_bar_ret(a)?;
    let pb: Option<Dec> = hour1_bar_ret(b)?;
    let ra: Dec = match pa {
        Some(x) => x,
        None => return Some(false),
    };
    let rb: Dec = match pb {
        Some(x) => x,
        None => return Some(false),
    };
    if !ra.is_pos() || !rb.is_pos() {
        return Some(false);
    }
    let (lo, hi) = if ra < rb {
        (ra, rb)
    } else {
        (rb, ra)
    };
    Some(times(Some(lo), Some(Dec::from_int(2)))? >= hi)
}

/// Whether a held row rides the impulse of the candidate's candle.
pub open spec fn rides(
    s: MarketSnapshot,
    pos: Position,
    candidate: Seq<char>,
    bar: Bar,
    now: int,
) -> Option<bool> {
    if !pos.qty.pos() || lower(pos.symbol@) == lower(candidate) {
        Some(false)
    } else {
        match signal_of(s, pos.symbol@, TradeInterval::Hour1, now) {
            Some(b) => same_move(bar, b),
            None => Some(false),
        }
    }
}

/// How many of the first `n` held rows ride the candidate's impulse.
pub open spec fn riders(
    s: MarketSnapshot,
    positions: Seq<Position>,
    candidate: Seq<char>,
    bar: Bar,
    now: int,
    n: int,
) -> Option<int>
    decreases n,
{
    if n <= 0 {
        Some(0)
    } else {
        match (
            riders(s, positions, candidate, bar, now, n - 1),
            rides(s, positions[n - 1], candidate, bar, now),
        ) {
            (Some(k), Some(true)) => Some(k + 1),
            (Some(k), Some(false)) => Some(k),
            _ => None,
        }
    }
}

/// How many held names already ride the candidate's impulse.
pub open spec fn impulse_held(
    s: MarketSnapshot,
    positions: Seq<Position>,
    candidate: Seq<char>,
    now: int,
) -> Option<int> {
    match signal_of(s, candidate, TradeInterval::Hour1, now) {
        Some(bar) => riders(s, positions, candidate, bar, now, positions.len() as int),
        None => Some(0),
    }
}

proof fn lemma_riders_none(
    s: MarketSnapshot,
    positions: Seq<Position>,
    candidate: Seq<char>,
    bar: Bar,
    now: int,
    n: int,
    m: int,
)
    requires
        0 <= n <= m,
        riders(s, positions, candidate, bar, now, n) is None,
    ensures
        riders(s, positions, candidate, bar, now, m) is None,
    decreases m - n,
{
    if n < m {
        lemma_riders_none(s, positions, candidate, bar, now, n, m - 1);
    }
}

fn s5_same_move_held(
    snapshot: &MarketSnapshot,
    positions: &[Position],
    candidate: &str,
    now: i64,
) -> (r: Option<usize>)
    ensures
        match r {
            Some(k) => impulse_held(*snapshot, positions@, candidate@, now as int) == Some(k as int),
            None => impulse_held(*snapshot, positions@, candidate@, now as int) is None,
        },
{
    let bar: Bar = match signal_bar(snapshot, candidate, TradeInterval::Hour1, now) {
        Some(b) => b,
        None => return Some(0),
    };
    let mut k: usize = 0;
    let mut i: usize = 0;
    while i < positions.len()
        invariant
            i <= positions@.len(),
            k <= i,
            signal_of(*snapshot, candidate@, TradeInterval::Hour1, now as int) == Some(bar),
            riders(*snapshot, positions@, candidate@, bar, now as int, i as int) == Some(k as int),
        decreases positions@.len() - i,
    {
        let pos: &Position = &positions[i];
        let mut rides_it: bool = false;
        if pos.qty.is_pos() && !pos.symbol.as_str().eq_ignore_ascii_case(candidate) {
            if let Some(b) = signal_bar(snapshot, pos.symbol.as_str(), TradeInterval::Hour1, now) {
                match same_hour1_move(&bar, &b) {
                    Some(x) => {
                        rides_it = x;
                    },
                    None => {
                        proof {
                            lemma_riders_none(
                                *snapshot,
                                positions@,
                                candidate@,
                                bar,
                                now as int,
                                i as int + 1,
                                positions@.len() as int,
                            );
                        }
                        return None;
                    },
                }
            }
        }
        if rides_it {
            k = k + 1;
        }
        i = i + 1;
    }
    Some(k)
}

/// How many names may ride one impulse.
pub const SAME_MOVE_CAP: usize = 2;

/// The bars strictly before the signal candle.
pub open spec fn history(bars: Seq<Bar>, last: Bar) -> Seq<Bar> {
    bars.take(first_since(bars, last.open_time as int, 0))
}

/// The bars strictly before the signal candle.
pub fn hist_bars<'a>(bars: &'a [Bar], last: &Bar) -> (r: &'a [Bar])
    ensures
        r@ == history(bars@, *last),
{
    let k: usize = index_since(bars, last.open_time);
    proof {
        assert(bars@.subrange(0, k as int) =~= bars@.take(k as int));
    }
    vstd::slice::slice_subrange(bars, 0, k)
}

/// Where the last `k` of `n` bars start.
pub open spec fn back(n: int, k: int) -> int {
    if n > k {
        n - k
    } else {
        0
    }
}

/// Whether one of the bars from `from` on is red.
pub open spec fn some_red(bars: Seq<Bar>, from: int) -> bool {
    exists|i: int| from <= i < bars.len() && (#[trigger] bars[i]).close.lt(bars[i].open)
}

fn any_red(bars: &[Bar], from: usize) -> (r: bool)
    ensures
        r == some_red(bars@, from as int),
{
    let mut i: usize = from;
    while i < bars.len()
        invariant
            from <= i,
            forall|j: int|
                from <= j < i && j < bars@.len() ==> !(#[trigger] bars@[j]).close.lt(bars@[j].open),
        decreases bars@.len() - i,
    {
        if bars[i].close < bars[i].open {
            return true;
        }
        i = i + 1;
    }
    false
}

/// The highest high of the bars from `from` on, looked through backwards.
pub open spec fn swing_high(bars: Seq<Bar>, from: int) -> Dec
    decreases bars.len() - from,
{
    if from + 1 >= bars.len() {
        bars[from].high
    } else {
        let m = swing_high(bars, from + 1);
        if m.le(bars[from].high) {
            bars[from].high
        } else {
            m
        }
    }
}

/// The lowest low of the bars from `from` on, looked through backwards.
pub open spec fn swing_low(bars: Seq<Bar>, from: int) -> Dec
    decreases bars.len() - from,
{
    if from + 1 >= bars.len() {
        bars[from].low
    } else {
        let m = swing_low(bars, from + 1);
        if bars[from].low.lt(m) {
            bars[from].low
        } else {
            m
        }
    }
}

/// The highest high and the lowest low of the bars from `from` on.
pub fn swing_range(bars: &[Bar], from: usize) -> (r: (Dec, Dec))
    requires
        from < bars@.len(),
    ensures
        r.0 == swing_high(bars@, from as int),
        r.1 == swing_low(bars@, from as int),
{
    let n: usize = bars.len();
    let mut i: usize = n - 1;
    let mut high: Dec = bars[i].high;
    let mut low: Dec = bars[i].low;
    while i > from
        invariant
            from <= i < bars@.len(),
            high == swing_high(bars@, i as int),
            low == swing_low(bars@, i as int),
        decreases i,
    {
        i = i - 1;
        if high <= bars[i].high {
            high = bars[i].high;
        }
        if bars[i].low < low {
            low = bars[i].low;
        }
    }
    (high, low)
}

/// How deep the pullback went, as part of the swing high; the inner `None`
/// where there is no swing high.
pub open spec fn pullback_depth(hist: Seq<Bar>) -> Option<Option<Dec>> {
    let from = back(hist.len() as int, 5);
    let high = swing_high(hist, from);
    if !high.pos() {
        Some(None)
    } else {
        match n_div(n_sub(Some(high), Some(swing_low(hist, from))), Some(high)) {
            Some(x) => Some(Some(x)),
            None => None,
        }
    }
}

/// How deep the pullback went.
pub fn depth_of_pullback(hist: &[Bar]) -> (r: Option<Option<Dec>>)
    requires
        hist@.len() > 0,
    ensures
        r == pullback_depth(hist@),
{
    let n: usize = hist.len();
    let from: usize = if n > 5 {
        n - 5
    } else {
        0
    };
    let (high, low) = swing_range(hist, from);
    if !high.is_pos() {
        return Some(None);
    }
    Some(Some(over(minus(Some(high), Some(low)), Some(high))?))
}

/// Whether the signal candle itself is unfit: red, weak at the close, or too wide.
pub open spec fn candle_gate(last: Bar, p: ContinuationView) -> Option<Option<Seq<char>>> {
    let tf = p.interval.ru();
    if last.close.le(last.open) {
        Some(Some(""@ + tf + " красная — не вхожу"@))
    } else {
        match n_sub(Some(last.high), Some(last.low)) {
            None => None,
            Some(range) => {
                let middle = n_add(Some(last.low), n_div(Some(range), Some(dec(2, 0))));
                let width = n_div(Some(range), Some(last.close));
                let limit = larger(p.max_stop_pct, dec(6, 2));
                if range.pos() && middle is None {
                    None
                } else if range.pos() && last.close.lt(middle->0) {
                    Some(Some("слабое закрытие "@ + tf + " — не вхожу"@))
                } else if last.close.pos() && width is None {
                    None
                } else {
                    stays_out(
                        last.close.pos() && limit.lt(width->0),
                        "свеча слишком широкая — не вхожу"@,
                    )
                }
            },
        }
    }
}

fn check_candle(last: &Bar, p: &ContinuationParams) -> (r: Option<Option<String>>)
    ensures
        gate_view(r) == candle_gate(*last, p@),
{
    if last.close <= last.open {
        return refuse_on("", p.interval, " красная — не вхожу");
    }
    let range: Dec = minus(Some(last.high), Some(last.low))?;
    if range.is_pos() {
        let middle: Dec = plus(Some(last.low), over(Some(range), Some(Dec::from_int(2))))?;
        if last.close < middle {
            return refuse_on("слабое закрытие ", p.interval, " — не вхожу");
        }
    }
    if last.close.is_pos() {
        let width: Dec = over(Some(range), Some(last.close))?;
        let limit: Dec = p.max_stop_pct.max(Dec::new(6, 2));
        if width > limit {
            return refuse("свеча слишком широкая — не вхожу");
        }
    }
    Some(None)
}

/// Whether the signal candle's volume is too weak against the mean before it.
pub open spec fn volume_gate(hist: Seq<Bar>, last: Bar, p: ContinuationView) -> Option<
    Option<Seq<char>>,
> {
    if !p.volume_confirm_frac.pos() {
        Some(None)
    } else {
        match mean_volume_of(hist) {
            None => None,
            Some(None) => Some(None),
            Some(Some(avg)) => {
                let need = n_mul(Some(avg), Some(p.volume_confirm_frac));
                if !avg.pos() {
                    Some(None)
                } else if need is None {
                    None
                } else {
                    stays_out(last.volume.lt(need->0), "слабый объём — не подтверждено"@)
                }
            },
        }
    }
}

fn check_volume(hist: &[Bar], last: &Bar, p: &ContinuationParams) -> (r: Option<Option<String>>)
    ensures
        gate_view(r) == volume_gate(hist@, *last, p@),
{
    if !p.volume_confirm_frac.is_pos() {
        return Some(None);
    }
    if let Some(avg) = mean_volume(hist)? {
        if avg.is_pos() {
            let need: Dec = times(Some(avg), Some(p.volume_confirm_frac))?;
            if last.volume < need {
                return refuse("слабый объём — не подтверждено");
            }
        }
    }
    Some(None)
}

/// Whether the pullback was too shallow.
pub open spec fn depth_gate(hist: Seq<Bar>, p: ContinuationView) -> Option<Option<Seq<char>>> {
    if !p.min_pullback_pct.pos() {
        Some(None)
    } else {
        match pullback_depth(hist) {
            None => None,
            Some(None) => Some(None),
            Some(Some(depth)) => stays_out(
                depth.lt(p.min_pullback_pct),
                "откат слишком мелкий — не вхожу"@,
            ),
        }
    }
}

/// Whether the candles are not a green resume after a pullback.
pub open spec fn no_pullback(bars: Seq<Bar>, last: Bar, p: ContinuationView) -> Option<
    Option<Seq<char>>,
> {
    let hist = history(bars, last);
    let n = hist.len() as int;
    both(
        candle_gate(last, p),
        if n < 2 || !some_red(hist, back(n, 5)) {
            Some(Some("нет отката — не догоняю"@))
        } else if last.close.le(hist[n - 1].close) {
            Some(Some("нет продолжения вверх — не вхожу"@))
        } else {
            both(volume_gate(hist, last, p), depth_gate(hist, p))
        },
    )
}

fn skip_no_pullback(bars: &[Bar], last: &Bar, p: &ContinuationParams) -> (r: Option<Option<String>>)
    ensures
        gate_view(r) == no_pullback(bars@, *last, p@),
{
    if let Some(reason) = check_candle(last, p)? {
        return Some(Some(reason));
    }
    let hist: &[Bar] = hist_bars(bars, last);
    let n: usize = hist.len();
    if n < 2 {
        return refuse("нет отката — не догоняю");
    }
    let from: usize = if n > 5 {
        n - 5
    } else {
        0
    };
    if !any_red(hist, from) {
        return refuse("нет отката — не догоняю");
    }
    if last.close <= hist[n - 1].close {
        return refuse("нет продолжения вверх — не вхожу");
    }
    if let Some(reason) = check_volume(hist, last, p)? {
        return Some(Some(reason));
    }
    if p.min_pullback_pct.is_pos() {
        if let Some(depth) = depth_of_pullback(hist)? {
            if depth < p.min_pullback_pct {
                return refuse("откат слишком мелкий — не вхожу");
            }
        }
    }
    Some(None)
}

/// Whether the last 4h close is not above its mean, or the 4h history is too short.
pub open spec fn no_htf_trend(htf: Seq<Bar>) -> Option<Option<Seq<char>>> {
    if htf.len() < 21 {
        Some(Some("нет 4ч истории — не вхожу"@))
    } else {
        match ema_last(closes_of(htf), 20) {
            None => None,
            Some(None) => Some(Some("нет 4ч истории — не вхожу"@)),
            Some(Some(ema)) => stays_out(
                htf[htf.len() - 1].close.le(ema),
                "4ч ниже EMA20 — не вхожу"@,
            ),
        }
    }
}

pub fn skip_no_htf_trend(snapshot: &MarketSnapshot, symbol: &str) -> (r: Option<Option<String>>)
    ensures
        gate_view(r) == no_htf_trend(snapshot.htf_series(symbol@)),
{
    let bars: &[Bar] = snapshot.htf_bars_for(symbol);
    let n: usize = bars.len();
    if n < 21 {
        return refuse("нет 4ч истории — не вхожу");
    }
    let c: Vec<Dec> = closes(bars);
    match last_ema(c.as_slice(), 20)? {
        None => refuse("нет 4ч истории — не вхожу"),
        Some(ema) => if bars[n - 1].close <= ema {
            refuse("4ч ниже EMA20 — не вхожу")
        } else {
            Some(None)
        },
    }
}

/// Whether the last close is not above its mean; on 1h also whether that mean
/// did not rise into the signal candle.
pub open spec fn no_uptrend(bars: Seq<Bar>, p: ContinuationView) -> Option<Option<Seq<char>>> {
    let n = bars.len() as int;
    let short = Some(Some("нет "@ + p.interval.ru() + " истории — не вхожу"@));
    let c = closes_of(bars);
    let prior = c.take(n - 1);
    if n < 21 {
        short
    } else {
        match ema_last(c, 20) {
            None => None,
            Some(None) => short,
            Some(Some(ema)) => if bars[n - 1].close.le(ema) {
                Some(Some("цена ниже EMA20 — не вхожу"@))
            } else if p.interval != TradeInterval::Hour1 {
                Some(None)
            } else if n < 22 {
                short
            } else {
                match ema_last(prior, 20) {
                    None => None,
                    Some(None) => short,
                    Some(Some(e1)) => stays_out(
                        e1.le(ema_at(prior, 20, n - 3)->0),
                        "EMA20 1ч не растёт — не вхожу"@,
                    ),
                }
            },
        }
    }
}

pub fn skip_no_uptrend(snapshot: &MarketSnapshot, symbol: &str, p: &ContinuationParams) -> (r: Option<
    Option<String>,
>)
    ensures
        gate_view(r) == no_uptrend(snapshot.series(symbol@), p@),
{
    let bars: &[Bar] = snapshot.bars_for(symbol);
    let n: usize = bars.len();
    if n < 21 {
        return refuse_on("нет ", p.interval, " истории — не вхожу");
    }
    let mut c: Vec<Dec> = closes(bars);
    let ema: Dec = match last_ema(c.as_slice(), 20)? {
        Some(x) => x,
        None => return refuse_on("нет ", p.interval, " истории — не вхожу"),
    };
    if bars[n - 1].close <= ema {
        return refuse("цена ниже EMA20 — не вхожу");
    }
    if p.interval == TradeInterval::Hour1 {
        if n < 22 {
            return refuse_on("нет ", p.interval, " истории — не вхожу");
        }
        let ghost all = c@;
        c.truncate(n - 1);
        proof {
            assert(c@ =~= all.take(n - 1));
        }
        let e1: Dec = match last_ema(c.as_slice(), 20)? {
            Some(x) => x,
            None => return refuse_on("нет ", p.interval, " истории — не вхожу"),
        };
        let prior: Vec<Option<Dec>> = match ema_series(c.as_slice(), 20) {
            Some(v) => v,
            None => return None,
        };
        let e0: Dec = match prior[n - 3] {
            Some(x) => x,
            None => return refuse_on("нет ", p.interval, " истории — не вхожу"),
        };
        if e1 <= e0 {
            return refuse("EMA20 1ч не растёт — не вхожу");
        }
    }
    Some(None)
}

/// The lowest positive low of the last `k` bars and a starting price.
pub open spec fn structural_low(hist: Seq<Bar>, start: Dec, k: int) -> Dec
    decreases k,
{
    if k <= 0 || k > hist.len() {
        start
    } else {
        let m = structural_low(hist, start, k - 1);
        let low = hist[hist.len() - k].low;
        if low.pos() {
            smaller(m, low)
        } else {
            m
        }
    }
}

fn low_of_structure(hist: &[Bar], start: Dec, lookback: usize) -> (r: Dec)
    ensures
        r == structural_low(
            hist@,
            start,
            if hist@.len() < lookback {
                hist@.len() as int
            } else {
                lookback as int
            },
        ),
{
    let n: usize = hist.len();
    let most: usize = if n < lookback {
        n
    } else {
        lookback
    };
    let mut low: Dec = start;
    let mut k: usize = 0;
    while k < most
        invariant
            k <= most <= n,
            n == hist@.len(),
            low == structural_low(hist@, start, k as int),
        decreases most - k,
    {
        let b: Bar = hist[n - k - 1];
        if b.low.is_pos() {
            low = low.min(b.low);
        }
        k = k + 1;
    }
    low
}

/// The stop as the candles give it, the ATR distance included.
pub open spec fn widest_stop(bars: Seq<Bar>, last: Bar, mark: Dec, p: ContinuationView) -> Num {
    let hist = history(bars, last);
    let k = if hist.len() < p.stop_lookback {
        hist.len() as int
    } else {
        p.stop_lookback as int
    };
    let sl = structural_low(hist, last.low, k);
    if p.atr_period == 0 {
        Some(sl)
    } else {
        match atr_last(bars, p.atr_period as int) {
            None => None,
            Some(None) => Some(sl),
            Some(Some(atr)) => if !atr.pos() {
                Some(sl)
            } else {
                match n_sub(Some(mark), n_mul(Some(p.atr_k), Some(atr))) {
                    None => None,
                    Some(x) => Some(
                        if x.pos() {
                            smaller(sl, x)
                        } else {
                            sl
                        },
                    ),
                }
            },
        }
    }
}

/// The natural stop and its risk as part of the mark; the inner `None` where
/// there is none or it is too wide.
pub open spec fn natural_stop(bars: Seq<Bar>, last: Bar, mark: Dec, p: ContinuationView) -> Option<
    Option<(Dec, Dec)>,
> {
    if !mark.pos() {
        Some(None)
    } else {
        match widest_stop(bars, last, mark, p) {
            None => None,
            Some(sl) => if !sl.pos() || mark.le(sl) {
                Some(None)
            } else {
                match n_div(n_sub(Some(mark), Some(sl)), Some(mark)) {
                    None => None,
                    Some(risk) => Some(
                        if p.max_stop_pct.lt(risk) {
                            None
                        } else {
                            Some((sl, risk))
                        },
                    ),
                }
            },
        }
    }
}

/// The natural stop and its risk as part of the mark.
pub fn stop_by_structure(bars: &[Bar], last: &Bar, mark: Dec, p: &ContinuationParams) -> (r: Option<
    Option<(Dec, Dec)>,
>)
    ensures
        r == natural_stop(bars@, *last, mark, p@),
{
    if !mark.is_pos() {
        return Some(None);
    }
    let mut sl: Dec = low_of_structure(hist_bars(bars, last), last.low, p.stop_lookback);
    if p.atr_period > 0 {
        if let Some(atr) = last_atr(bars, p.atr_period)? {
            if atr.is_pos() {
                let x: Dec = minus(Some(mark), times(Some(p.atr_k), Some(atr)))?;
                if x.is_pos() {
                    sl = sl.min(x);
                }
            }
        }
    }
    if !sl.is_pos() || sl >= mark {
        return Some(None);
    }
    let risk: Dec = over(minus(Some(mark), Some(sl)), Some(mark))?;
    if risk > p.max_stop_pct {
        return Some(None);
    }
    Some(Some((sl, risk)))
}

/// The entry stop: the natural one, held at least the smallest distance away.
pub open spec fn entry_stop(bars: Seq<Bar>, last: Bar, mark: Dec, p: ContinuationView) -> Option<
    Option<Dec>,
> {
    match natural_stop(bars, last, mark, p) {
        None => None,
        Some(None) => Some(None),
        Some(Some((sl, risk))) => {
            let at_floor = n_mul(Some(mark), n_sub(Some(dec(1, 0)), Some(p.min_stop_pct)));
            if risk.lt(p.min_stop_pct) && at_floor is None {
                None
            } else {
                let stop = if risk.lt(p.min_stop_pct) {
                    at_floor->0
                } else {
                    sl
                };
                Some(
                    if valid_long_stop(stop, mark) {
                        Some(stop)
                    } else {
                        None
                    },
                )
            }
        },
    }
}

fn structure_stop(bars: &[Bar], last: &Bar, mark: Dec, p: &ContinuationParams) -> (r: Option<
    Option<Dec>,
>)
    ensures
        r == entry_stop(bars@, *last, mark, p@),
{
    let (natural, risk) = match stop_by_structure(bars, last, mark, p)? {
        Some(x) => x,
        None => return Some(None),
    };
    let mut sl: Dec = natural;
    if risk < p.min_stop_pct {
        sl = times(Some(mark), minus(Some(Dec::one()), Some(p.min_stop_pct)))?;
    }
    if long_stop_is_valid(sl, mark) {
        Some(Some(sl))
    } else {
        Some(None)
    }
}

/// Whether the day's tape keeps a name out: a dump, a dead tape, or a day too far.
pub open spec fn tape_gate(t: Ticker, p: ContinuationView) -> Option<Seq<char>> {
    let c = t.price_change_percent;
    if c.le(negated(p.stretch_pct)) {
        Some("улетело за день — не догоняю"@)
    } else if c.units() < 0 || c.lt(p.min_change_percent) {
        Some("слабый рост 24h — не вхожу"@)
    } else if p.max_change_percent is Some && p.max_change_percent->0.lt(c) {
        Some("улетело за день — не догоняю"@)
    } else {
        None
    }
}

fn skip_24h_tape(t: &Ticker, p: &ContinuationParams) -> (r: Option<&'static str>)
    ensures
        match r {
            Some(x) => tape_gate(*t, p@) == Some(x@),
            None => tape_gate(*t, p@) is None,
        },
{
    let c: Dec = t.price_change_percent;
    if c <= p.stretch_pct.neg() {
        return Some("улетело за день — не догоняю");
    }
    if c.is_neg() || c < p.min_change_percent {
        return Some("слабый рост 24h — не вхожу");
    }
    if let Some(most) = p.max_change_percent {
        if c > most {
            return Some("улетело за день — не догоняю");
        }
    }
    None
}

/// Why the regime of the leading coin keeps entries out.
pub open spec fn regime_gate(s: MarketSnapshot) -> Option<Option<Seq<char>>> {
    match snapshot_regime(s) {
        Some(g) => Some(g.reason()),
        None => None,
    }
}

/// Why the name itself stays out.
pub open spec fn listing_gate(t: Ticker, p: ContinuationView, liquid: Set<Seq<char>>, now: int) -> Option<
    Seq<char>,
> {
    let hour1 = p.interval == TradeInterval::Hour1;
    if is_liquid_major(t.symbol@) {
        Some("мажор — не беру"@)
    } else if hour1 && is_privacy_name(t.symbol@) {
        Some("кластер privacy — не беру"@)
    } else if hour1 && 0 < now % 3_600_000 < 180_000 {
        Some("первые 3 мин часа — не вхожу"@)
    } else if is_junk(t.symbol@) || t.last_price.lt(p.min_price) {
        Some("мелочь — не гоняю"@)
    } else if !liquid.contains(upper(t.symbol@)) {
        Some("тонкий стакан — не гоняю"@)
    } else {
        tape_gate(t, p)
    }
}

fn skip_listing(t: &Ticker, p: &ContinuationParams, liquid: &SymSet, now: i64) -> (r: Option<
    &'static str,
>)
    ensures
        match r {
            Some(x) => listing_gate(*t, p@, liquid@, now as int) == Some(x@),
            None => listing_gate(*t, p@, liquid@, now as int) is None,
        },
{
    let sym: &str = t.symbol.as_str();
    if is_major_symbol(sym) {
        return Some("мажор — не беру");
    }
    if p.interval == TradeInterval::Hour1 {
        if s5_skip_symbol(sym) {
            return Some("кластер privacy — не беру");
        }
        let into: i64 = crate::sessions::ms_into_hour(now);
        if into > 0 && into < 180_000 {
            return Some("первые 3 мин часа — не вхожу");
        }
    }
    if is_junk_symbol(sym) || t.last_price < p.min_price {
        return Some("мелочь — не гоняю");
    }
    let key = sym.to_ascii_uppercase();
    if !liquid.contains(key.as_str()) {
        return Some("тонкий стакан — не гоняю");
    }
    skip_24h_tape(t, p)
}

/// Why the price is too close to the day's high.
pub open spec fn high_gate(t: Ticker, p: ContinuationView) -> Option<Option<Seq<char>>> {
    match near_high(t, p.near_high_frac) {
        None => None,
        Some(near) => stays_out(near, "у 24h high — не догоняю"@),
    }
}

/// Why the price below the volume-weighted mean stays out.
pub open spec fn vwap_gate(t: Ticker, bars: Seq<Bar>) -> Option<Option<Seq<char>>> {
    match vwap_of(bars) {
        None => None,
        Some(None) => Some(None),
        Some(Some(v)) => stays_out(t.last_price.lt(v), "цена ниже VWAP — не вхожу"@),
    }
}

/// Why a former leader that turned stays out.
pub open spec fn turn_gate(
    s: MarketSnapshot,
    t: Ticker,
    recent: Seq<Seq<char>>,
    p: ContinuationView,
    now: int,
) -> Option<Option<Seq<char>>> {
    match reverses(s, t, recent, p, now) {
        None => None,
        Some(turned) => stays_out(turned, "разворот бывшего лидера — не гоняю"@),
    }
}

/// Why no stop can be set.
pub open spec fn stop_gate(t: Ticker, bars: Seq<Bar>, bar: Bar, p: ContinuationView) -> Option<
    Option<Seq<char>>,
> {
    match entry_stop(bars, bar, t.last_price, p) {
        None => None,
        Some(stop) => stays_out(stop is None, "стоп слишком широкий — не вхожу"@),
    }
}

/// What the candles say, once there is a signal candle.
pub open spec fn chart_gate(
    s: MarketSnapshot,
    t: Ticker,
    bar: Bar,
    p: ContinuationView,
    recent: Seq<Seq<char>>,
    now: int,
) -> Option<Option<Seq<char>>> {
    let bars = s.series(t.symbol@);
    both(
        no_htf_trend(s.htf_series(t.symbol@)),
        both(
            no_pullback(bars, bar, p),
            both(
                no_uptrend(bars, p),
                both(
                    turn_gate(s, t, recent, p, now),
                    both(vwap_gate(t, bars), stop_gate(t, bars, bar, p)),
                ),
            ),
        ),
    )
}

/// Why a name is not bought; nothing where its setup is ready.
pub open spec fn name_gate(
    s: MarketSnapshot,
    t: Ticker,
    p: ContinuationView,
    recent: Seq<Seq<char>>,
    liquid: Set<Seq<char>>,
    now: int,
) -> Option<Option<Seq<char>>> {
    both(
        regime_gate(s),
        both(
            Some(listing_gate(t, p, liquid, now)),
            both(
                high_gate(t, p),
                match signal_of(s, t.symbol@, p.interval, now) {
                    None => Some(Some("нет "@ + p.interval.ru() + " бара — не вхожу"@)),
                    Some(bar) => chart_gate(s, t, bar, p, recent, now),
                },
            ),
        ),
    )
}

fn check_chart(
    snapshot: &MarketSnapshot,
    t: &Ticker,
    bar: &Bar,
    p: &ContinuationParams,
    recent: &[String],
    now: i64,
) -> (r: Option<Option<String>>)
    ensures
        gate_view(r) == chart_gate(*snapshot, *t, *bar, p@, views(recent@), now as int),
{
    let sym: &str = t.symbol.as_str();
    if let Some(reason) = skip_no_htf_trend(snapshot, sym)? {
        return Some(Some(reason));
    }
    let bars: &[Bar] = snapshot.bars_for(sym);
    if let Some(reason) = skip_no_pullback(bars, bar, p)? {
        return Some(Some(reason));
    }
    if let Some(reason) = skip_no_uptrend(snapshot, sym, p)? {
        return Some(Some(reason));
    }
    if is_reversing(snapshot, t, recent, p, now)? {
        return refuse("разворот бывшего лидера — не гоняю");
    }
    if let Some(v) = vwap(bars)? {
        if t.last_price < v {
            return refuse("цена ниже VWAP — не вхожу");
        }
    }
    if structure_stop(bars, bar, t.last_price, p)?.is_none() {
        return refuse("стоп слишком широкий — не вхожу");
    }
    Some(None)
}

fn skip_new_long(
    snapshot: &MarketSnapshot,
    t: &Ticker,
    p: &ContinuationParams,
    recent: &[String],
    liquid: &SymSet,
    now: i64,
) -> (r: Option<Option<String>>)
    ensures
        gate_view(r) == name_gate(*snapshot, *t, p@, views(recent@), liquid@, now as int),
{
    if let Some(reason) = block_alt_entry(snapshot)? {
        return Some(Some(reason));
    }
    if let Some(reason) = skip_listing(t, p, liquid, now) {
        return refuse(reason);
    }
    if near_24h_high(t, p.near_high_frac)? {
        return refuse("у 24h high — не догоняю");
    }
    match signal_bar(snapshot, t.symbol.as_str(), p.interval, now) {
        None => refuse_on("нет ", p.interval, " бара — не вхожу"),
        Some(bar) => check_chart(snapshot, t, &bar, p, recent, now),
    }
}

/// Why a name's setup is not ready, hours and halts aside.
pub open spec fn setup_gate(
    s: MarketSnapshot,
    t: Ticker,
    p: ContinuationView,
    exclude: Seq<Seq<char>>,
    now: int,
) -> Option<Option<Seq<char>>> {
    match liquid_rows(s.tickers@, exclude, p) {
        None => None,
        Some(rows) => {
            let leaders = symbols_of(leader_rows(s.tickers@, leaders_kept(p), exclude, p));
            name_gate(s, t, p, leaders, row_keys(rows), now)
        },
    }
}

/// Why a name's setup is not ready, hours and halts aside: its leaders are
/// those of the tape it is on.
pub fn s4_setup_skip(
    snapshot: &MarketSnapshot,
    ticker: &Ticker,
    p: &ContinuationParams,
    exclude: &[String],
    now: i64,
) -> (r: Option<Option<String>>)
    ensures
        gate_view(r) == setup_gate(*snapshot, *ticker, p@, views(exclude@), now as int),
{
    let liquid: SymSet = liquid_keys(snapshot.tickers.as_slice(), exclude, p)?;
    let leaders: Vec<String> = pick_recent_leaders(
        snapshot.tickers.as_slice(),
        leader_count(p),
        exclude,
        p,
    );
    skip_new_long(snapshot, ticker, p, leaders.as_slice(), &liquid, now)
}

/// The entry that a ready name gives.
pub open spec fn name_entry(s: MarketSnapshot, t: Ticker, p: ContinuationView, now: int) -> Option<
    DecisionView,
> {
    let bar = signal_of(s, t.symbol@, p.interval, now);
    if is_liquid_major(t.symbol@) {
        Some(hold_view("мажор — не беру"@))
    } else if p.interval == TradeInterval::Hour1 && is_privacy_name(t.symbol@) {
        Some(hold_view("кластер privacy — не беру"@))
    } else if is_junk(t.symbol@) || t.last_price.lt(p.min_price) {
        Some(hold_view("мелочь — не гоняю"@))
    } else if bar is None {
        Some(hold_view("нет "@ + p.interval.ru() + " бара — не вхожу"@))
    } else {
        match entry_stop(s.series(t.symbol@), bar->0, t.last_price, p) {
            None => None,
            Some(None) => Some(hold_view("стоп слишком широкий — не вхожу"@)),
            Some(Some(sl)) => match n_sub(Some(t.last_price), Some(sl)) {
                None => None,
                Some(risk) => {
                    let tp = n_mul(
                        n_add(Some(t.last_price), n_mul(Some(p.reward_r), Some(risk))),
                        n_add(Some(dec(1, 0)), Some(round_trip())),
                    );
                    if !risk.pos() {
                        Some(hold_view("computed stop invalid"@))
                    } else if tp is None {
                        None
                    } else if tp->0.le(t.last_price) {
                        Some(hold_view("computed stop invalid"@))
                    } else {
                        Some(
                            DecisionView::EnterLong {
                                symbol: t.symbol@,
                                reason: "откат ликвид "@ + decimal_text(t.price_change_percent)
                                    + "%"@,
                                take_profit: tp->0,
                                stop_loss: sl,
                            },
                        )
                    }
                },
            },
        }
    }
}

fn enter_from_ticker(snapshot: &MarketSnapshot, t: &Ticker, p: &ContinuationParams, now: i64) -> (r:
    Option<Decision>)
    ensures
        opt_decision(r) == name_entry(*snapshot, *t, p@, now as int),
{
    let sym: &str = t.symbol.as_str();
    if is_major_symbol(sym) {
        return Some(Decision::hold("мажор — не беру"));
    }
    if p.interval == TradeInterval::Hour1 && s5_skip_symbol(sym) {
        return Some(Decision::hold("кластер privacy — не беру"));
    }
    if is_junk_symbol(sym) || t.last_price < p.min_price {
        return Some(Decision::hold("мелочь — не гоняю"));
    }
    let last: Bar = match signal_bar(snapshot, sym, p.interval, now) {
        Some(b) => b,
        None => {
            let mut reason = own("нет ");
            reason.append(p.interval.as_ru());
            reason.append(" бара — не вхожу");
            return Some(Decision::Hold { reason });
        },
    };
    let sl: Dec = match structure_stop(snapshot.bars_for(sym), &last, t.last_price, p)? {
        Some(x) => x,
        None => return Some(Decision::hold("стоп слишком широкий — не вхожу")),
    };
    let risk: Dec = minus(Some(t.last_price), Some(sl))?;
    if !risk.is_pos() {
        return Some(Decision::hold("computed stop invalid"));
    }
    let tp: Dec = times(
        plus(Some(t.last_price), times(Some(p.reward_r), Some(risk))),
        plus(Some(Dec::one()), Some(round_trip_taker_pct())),
    )?;
    if tp <= t.last_price {
        return Some(Decision::hold("computed stop invalid"));
    }
    let mut reason = own("откат ликвид ");
    reason.append(t.price_change_percent.text().as_str());
    reason.append("%");
    Some(Decision::EnterLong { symbol: own(sym), reason, take_profit: tp, stop_loss: sl })
}

/// The reasons for which the tape keeps rows out, in the order of the rows.
pub open spec fn tape_skips(rows: Seq<Ticker>, p: ContinuationView) -> Seq<Seq<char>>
    decreases rows.len(),
{
    if rows.len() == 0 {
        Seq::empty()
    } else {
        match tape_gate(rows.last(), p) {
            Some(reason) => tape_skips(rows.drop_last(), p).push(reason),
            None => tape_skips(rows.drop_last(), p),
        }
    }
}

/// The rows of the book: liquid names that the tape lets pass, the most traded
/// first.
pub open spec fn strategy4_rows(liquid: Seq<Ticker>, n: int, p: ContinuationView) -> Seq<Ticker> {
    first_n(ranked(RankBy::Volume, liquid.filter(|t: Ticker| tape_gate(t, p) is None)), n)
}

pub fn pick_strategy4_book(
    tickers: &[Ticker],
    n: usize,
    exclude: &[String],
    params: Option<&ContinuationParams>,
    tally: &mut SkipTally,
) -> (r: Option<Vec<Ticker>>)
    ensures
        ({
            let p = continuation_knobs(params);
            if n == 0 {
                r is Some && r->0@.len() == 0 && final(tally)@ == old(tally)@
            } else {
                match (r, liquid_rows(tickers@, views(exclude@), p)) {
                    (Some(v), Some(rows)) => {
                        &&& v@ == strategy4_rows(rows, n as int, p)
                        &&& final(tally)@ == noted_all(old(tally)@, tape_skips(rows, p))
                    },
                    (None, None) => true,
                    _ => false,
                }
            }
        }),
{
    if n == 0 {
        return Some(Vec::new());
    }
    let owned: ContinuationParams = ContinuationParams::default();
    let p: &ContinuationParams = match params {
        Some(q) => q,
        None => &owned,
    };
    let rows: Vec<Ticker> = liquid_universe(tickers, exclude, p)?;
    let ghost start = tally@;
    let ghost test = |t: Ticker| tape_gate(t, p@) is None;
    let mut kept: Vec<Ticker> = Vec::new();
    let mut i: usize = 0;
    proof {
        reveal(Seq::filter);
        assert(rows@.take(0) =~= Seq::<Ticker>::empty());
        assert(rows@.take(0).filter(test) =~= Seq::<Ticker>::empty());
        assert(tape_skips(rows@.take(0), p@) =~= Seq::<Seq<char>>::empty());
    }
    while i < rows.len()
        invariant
            i <= rows@.len(),
            test == (|t: Ticker| tape_gate(t, p@) is None),
            kept@ == rows@.take(i as int).filter(test),
            tally@ == noted_all(start, tape_skips(rows@.take(i as int), p@)),
        decreases rows@.len() - i,
    {
        proof {
            reveal(Seq::filter);
            assert(rows@.take(i as int + 1).drop_last() =~= rows@.take(i as int));
        }
        match skip_24h_tape(&rows[i], p) {
            Some(reason) => {
                let ghost before = tape_skips(rows@.take(i as int), p@);
                tally.note_s4_skip(reason);
                proof {
                    assert(before.push(reason@).drop_last() =~= before);
                }
            },
            None => {
                kept.push(rows[i].clone());
            },
        }
        i = i + 1;
    }
    proof {
        assert(rows@.take(i as int) =~= rows@);
    }
    let mut out: Vec<Ticker> = sort_ranked(RankBy::Volume, kept);
    super::cut_rows(&mut out, n);
    Some(out)
}

/// The knobs that a long inherited from the 15m desk is managed by: it has no
/// hours.
pub open spec fn soak_knobs() -> ContinuationView {
    ContinuationView {
        always_enter: true,
        ..for_interval(default_continuation(), TradeInterval::Minute15)
    }
}

fn soak_params_for_inherited() -> (r: ContinuationParams)
    ensures
        r@ == soak_knobs(),
{
    let mut q = ContinuationParams::default().with_interval(TradeInterval::Minute15);
    q.always_enter = true;
    q
}

/// Everything the management of the open book reads besides the rows.
pub struct BookContext {
    pub s: MarketSnapshot,
    pub p: ContinuationView,
    pub now: int,
    pub scaled: Set<Seq<char>>,
    pub trailed_bars: Map<Seq<char>, i64>,
    pub inherited: Set<Seq<char>>,
}

/// What is done about one row of the book.
pub open spec fn row_action(pos: Position, c: BookContext) -> Option<DecisionView> {
    let p = if c.p.interval == TradeInterval::Hour1 && holds_ignoring_case(c.inherited, pos.symbol@) {
        soak_knobs()
    } else {
        c.p
    };
    continuation_manage(
        pos,
        c.s,
        p,
        c.now,
        holds_ignoring_case(c.scaled, pos.symbol@),
        c.trailed_bars,
    )
}

/// The actions on the first `n` rows of the book, holds left out.
pub open spec fn book_actions(positions: Seq<Position>, n: int, c: BookContext) -> Option<
    Seq<DecisionView>,
>
    decreases n,
{
    if n <= 0 {
        Some(Seq::empty())
    } else {
        match book_actions(positions, n - 1, c) {
            None => None,
            Some(rest) => if !positions[n - 1].qty.pos() {
                Some(rest)
            } else {
                match row_action(positions[n - 1], c) {
                    None => None,
                    Some(d) => if d is Hold {
                        Some(rest)
                    } else {
                        Some(rest.push(d))
                    },
                }
            },
        }
    }
}

proof fn lemma_actions_none(positions: Seq<Position>, n: int, m: int, c: BookContext)
    requires
        0 <= n <= m,
        book_actions(positions, n, c) is None,
    ensures
        book_actions(positions, m, c) is None,
    decreases m - n,
{
    if n < m {
        lemma_actions_none(positions, n, m - 1, c);
    }
}

fn manage_open_book(
    positions: &[Position],
    snapshot: &MarketSnapshot,
    p: &ContinuationParams,
    now: i64,
    scaled_one_r: &SymSet,
    hour1_trail_bar: &SymMap<i64>,
    inherited_s4: &SymSet,
) -> (r: Option<Vec<Decision>>)
    ensures
        opt_decisions(r) == book_actions(
            positions@,
            positions@.len() as int,
            BookContext {
                s: *snapshot,
                p: p@,
                now: now as int,
                scaled: scaled_one_r@,
                trailed_bars: hour1_trail_bar@,
                inherited: inherited_s4@,
            },
        ),
{
    let ghost c = BookContext {
        s: *snapshot,
        p: p@,
        now: now as int,
        scaled: scaled_one_r@,
        trailed_bars: hour1_trail_bar@,
        inherited: inherited_s4@,
    };
    let soak: ContinuationParams = soak_params_for_inherited();
    let mut out: Vec<Decision> = Vec::new();
    let mut i: usize = 0;
    proof {
        assert(decision_views(out@) =~= Seq::<DecisionView>::empty());
    }
    while i < positions.len()
        invariant
            i <= positions@.len(),
            soak@ == soak_knobs(),
            c == (BookContext {
                s: *snapshot,
                p: p@,
                now: now as int,
                scaled: scaled_one_r@,
                trailed_bars: hour1_trail_bar@,
                inherited: inherited_s4@,
            }),
            book_actions(positions@, i as int, c) == Some(decision_views(out@)),
        decreases positions@.len() - i,
    {
        let ghost before = decision_views(out@);
        let pos: &Position = &positions[i];
        if pos.qty.is_pos() {
            let sym: &str = pos.symbol.as_str();
            let inherited: bool = p.interval == TradeInterval::Hour1
                && inherited_s4.contains_ignoring_case(sym);
            let already: bool = scaled_one_r.contains_ignoring_case(sym);
            let d: Option<Decision> = if inherited {
                manage_continuation_long(pos, snapshot, &soak, now, already, hour1_trail_bar)
            } else {
                manage_continuation_long(pos, snapshot, p, now, already, hour1_trail_bar)
            };
            match d {
                Some(d) => {
                    if !d.is_hold() {
                        let ghost dv = d@;
                        out.push(d);
                        proof {
                            assert(decision_views(out@) =~= before.push(dv));
                        }
                    }
                },
                None => {
                    proof {
                        lemma_actions_none(positions@, i as int + 1, positions@.len() as int, c);
                    }
                    return None;
                },
            }
        }
        i = i + 1;
    }
    Some(out)
}

/// What looking at a name comes to.
pub enum NameVerdict {
    Enter(DecisionView),
    Skip(Seq<char>),
    Pass,
    Overflow,
}

/// Everything that decides about a name besides its row.
pub struct NameContext {
    pub s: MarketSnapshot,
    pub positions: Seq<Position>,
    pub inflight: Seq<Seq<char>>,
    pub cooldowns: Map<Seq<char>, i64>,
    pub recent: Seq<Seq<char>>,
    pub liquid: Set<Seq<char>>,
    pub now: int,
    pub p: ContinuationView,
}

/// The verdict on a name.
#[verifier::opaque]
pub open spec fn name_verdict(t: Ticker, c: NameContext) -> NameVerdict {
    let crowd = impulse_held(c.s, c.positions, t.symbol@, c.now);
    if is_blocked(upper(t.symbol@), held_keys(c.positions), c.inflight, c.cooldowns, c.now) {
        NameVerdict::Pass
    } else {
        match name_gate(c.s, t, c.p, c.recent, c.liquid, c.now) {
            None => NameVerdict::Overflow,
            Some(Some(reason)) => NameVerdict::Skip(reason),
            Some(None) => if c.p.interval == TradeInterval::Hour1 && crowd is None {
                NameVerdict::Overflow
            } else if c.p.interval == TradeInterval::Hour1 && crowd->0 >= SAME_MOVE_CAP {
                NameVerdict::Skip("кластер 1h хода — не беру"@)
            } else {
                match name_entry(c.s, t, c.p, c.now) {
                    None => NameVerdict::Overflow,
                    Some(d) => if d is EnterLong {
                        NameVerdict::Enter(d)
                    } else {
                        NameVerdict::Pass
                    },
                }
            },
        }
    }
}

/// What the scan of the names comes to: the entry, and the reasons on the way.
pub struct NameScan {
    pub entered: Option<DecisionView>,
    pub skips: Seq<Seq<char>>,
}

/// The scan of the rows from `i` on: it stops at the first entry.
pub open spec fn scan_names(rows: Seq<Ticker>, i: int, c: NameContext) -> Option<NameScan>
    decreases rows.len() - i,
{
    if i < 0 || i >= rows.len() {
        Some(NameScan { entered: None, skips: Seq::empty() })
    } else {
        match name_verdict(rows[i], c) {
            NameVerdict::Overflow => None,
            NameVerdict::Enter(d) => Some(NameScan { entered: Some(d), skips: Seq::empty() }),
            v => match scan_names(rows, i + 1, c) {
                None => None,
                Some(rest) => Some(
                    NameScan {
                        entered: rest.entered,
                        skips: match v {
                            NameVerdict::Skip(reason) => seq![reason] + rest.skips,
                            _ => rest.skips,
                        },
                    },
                ),
            },
        }
    }
}

fn judge_name(
    snapshot: &MarketSnapshot,
    t: &Ticker,
    positions: &[Position],
    held: &[String],
    inflight: &[String],
    cooldowns: &SymMap<i64>,
    p: &ContinuationParams,
    recent: &[String],
    liquid: &SymSet,
    now: i64,
) -> (r: Option<Result<Option<Decision>, String>>)
    requires
        views(held@) == held_keys(positions@),
    ensures
        match name_verdict(
            *t,
            NameContext {
                s: *snapshot,
                positions: positions@,
                inflight: views(inflight@),
                cooldowns: cooldowns@,
                recent: views(recent@),
                liquid: liquid@,
                now: now as int,
                p: p@,
            },
        ) {
            NameVerdict::Enter(d) => r matches Some(Ok(Some(x))) && x@ == d,
            NameVerdict::Pass => r matches Some(Ok(None)),
            NameVerdict::Skip(reason) => r matches Some(Err(x)) && x@ == reason,
            NameVerdict::Overflow => r is None,
        },
{
    proof {
        reveal(name_verdict);
    }
    let sym: &str = t.symbol.as_str();
    let key = sym.to_ascii_uppercase();
    if symbol_blocked(key.as_str(), held, inflight, cooldowns, now) {
        return Some(Ok(None));
    }
    if let Some(reason) = skip_new_long(snapshot, t, p, recent, liquid, now)? {
        return Some(Err(reason));
    }
    if p.interval == TradeInterval::Hour1 {
        if s5_same_move_held(snapshot, positions, sym, now)? >= SAME_MOVE_CAP {
            return Some(Err(own("кластер 1h хода — не беру")));
        }
    }
    let d: Decision = enter_from_ticker(snapshot, t, p, now)?;
    if d.is_enter_long() {
        Some(Ok(Some(d)))
    } else {
        Some(Ok(None))
    }
}

proof fn lemma_noted_all_append(rows: Seq<SkipRow>, a: Seq<Seq<char>>, reason: Seq<char>)
    ensures
        noted_all(rows, a.push(reason)) == noted(noted_all(rows, a), reason),
{
    assert(a.push(reason).drop_last() =~= a);
}

/// Scans the names for an entry and counts the reasons on the way; the last of
/// them comes back too.
fn scan_for_entry(
    rows: &[Ticker],
    snapshot: &MarketSnapshot,
    positions: &[Position],
    held: &[String],
    inflight: &[String],
    cooldowns: &SymMap<i64>,
    p: &ContinuationParams,
    recent: &[String],
    liquid: &SymSet,
    now: i64,
    tally: &mut SkipTally,
) -> (r: Option<(Option<Decision>, Option<String>)>)
    requires
        views(held@) == held_keys(positions@),
    ensures
        ({
            let c = NameContext {
                s: *snapshot,
                positions: positions@,
                inflight: views(inflight@),
                cooldowns: cooldowns@,
                recent: views(recent@),
                liquid: liquid@,
                now: now as int,
                p: p@,
            };
            match (r, scan_names(rows@, 0, c)) {
                (Some((d, last)), Some(scan)) => {
                    &&& opt_decision(d) == scan.entered
                    &&& match last {
                        Some(t) => scan.skips.len() > 0 && scan.skips.last() == t@,
                        None => scan.skips.len() == 0,
                    }
                    &&& final(tally)@ == noted_all(old(tally)@, scan.skips)
                },
                (None, None) => true,
                _ => false,
            }
        }),
{
    let ghost c = NameContext {
        s: *snapshot,
        positions: positions@,
        inflight: views(inflight@),
        cooldowns: cooldowns@,
        recent: views(recent@),
        liquid: liquid@,
        now: now as int,
        p: p@,
    };
    let ghost start = tally@;
    let ghost mut done: Seq<Seq<char>> = Seq::empty();
    let mut last: Option<String> = None;
    let mut i: usize = 0;
    proof {
        if scan_names(rows@, 0, c) is Some {
            let k = scan_names(rows@, 0, c)->0.skips;
            assert(done + k =~= k);
        }
    }
    while i < rows.len()
        invariant
            i <= rows@.len(),
            views(held@) == held_keys(positions@),
            c == (NameContext {
                s: *snapshot,
                positions: positions@,
                inflight: views(inflight@),
                cooldowns: cooldowns@,
                recent: views(recent@),
                liquid: liquid@,
                now: now as int,
                p: p@,
            }),
            start == old(tally)@,
            tally@ == noted_all(start, done),
            match last {
                Some(t) => done.len() > 0 && done.last() == t@,
                None => done.len() == 0,
            },
            match (scan_names(rows@, 0, c), scan_names(rows@, i as int, c)) {
                (Some(all), Some(rest)) => {
                    &&& all.entered == rest.entered
                    &&& all.skips == done + rest.skips
                },
                (None, None) => true,
                _ => false,
            },
        decreases rows@.len() - i,
    {
        match judge_name(
            snapshot,
            &rows[i],
            positions,
            held,
            inflight,
            cooldowns,
            p,
            recent,
            liquid,
            now,
        ) {
            None => {
                return None;
            },
            Some(Ok(Some(d))) => {
                proof {
                    assert(done + Seq::<Seq<char>>::empty() =~= done);
                }
                return Some((Some(d), last));
            },
            Some(Ok(None)) => {},
            Some(Err(reason)) => {
                tally.note_s4_skip(reason.as_str());
                proof {
                    lemma_noted_all_append(start, done, reason@);
                    if scan_names(rows@, i + 1, c) is Some {
                        let k = scan_names(rows@, i + 1, c)->0.skips;
                        assert(done + (seq![reason@] + k) =~= done.push(reason@) + k);
                    }
                    done = done.push(reason@);
                }
                last = Some(reason);
            },
        }
        i = i + 1;
    }
    proof {
        assert(done + Seq::<Seq<char>>::empty() =~= done);
    }
    Some((None, last))
}

/// What a tick of continuation reads.
pub struct ContinuationInput {
    pub s: MarketSnapshot,
    pub positions: Seq<Position>,
    pub now: int,
    pub last_scan_ts: int,
    pub inflight: Seq<Seq<char>>,
    pub cooldowns: Map<Seq<char>, i64>,
    pub exclude: Seq<Seq<char>>,
    pub allow_enter: bool,
    pub recent: Seq<Seq<char>>,
    pub desk_until: int,
    pub scaled: Set<Seq<char>>,
    pub trailed_bars: Map<Seq<char>, i64>,
    pub inherited: Set<Seq<char>>,
}

/// What a tick of continuation gives: decisions, the time of the last scan, the
/// leaders of the tape, and the reasons it skipped names for.
pub struct ContinuationResult {
    pub decisions: Seq<DecisionView>,
    pub scan_ts: int,
    pub leaders: Seq<Seq<char>>,
    pub skips: Seq<Seq<char>>,
}

/// How many longs may still be opened.
pub open spec fn open_slots(positions: Seq<Position>, inflight: Seq<Seq<char>>, p: ContinuationView) -> int {
    let held = held_keys(positions);
    p.max_positions - held.len() - pending_count(inflight, held, inflight.len() as int)
}

/// The scan for an entry, behind the actions on the open book: at most one
/// entry, else one hold that says why not.
pub open spec fn entering(
    i: ContinuationInput,
    p: ContinuationView,
    acted: Seq<DecisionView>,
) -> Option<(Seq<DecisionView>, Seq<Seq<char>>)> {
    match liquid_rows(i.s.tickers@, i.exclude, p) {
        None => None,
        Some(rows) => {
            let c = NameContext {
                s: i.s,
                positions: i.positions,
                inflight: i.inflight,
                cooldowns: i.cooldowns,
                recent: i.recent,
                liquid: row_keys(rows),
                now: i.now,
                p,
            };
            let scan = if open_slots(i.positions, i.inflight, p) <= 0 {
                Some(NameScan { entered: None, skips: Seq::empty() })
            } else {
                scan_names(rows, 0, c)
            };
            match scan {
                None => None,
                Some(found) => Some(
                    (
                        match found.entered {
                            Some(d) => acted.push(d),
                            None => acts_or_hold(
                                acted,
                                if held_keys(i.positions).len() >= p.max_positions {
                                    "continuation book full"@
                                } else if found.skips.len() > 0 {
                                    found.skips.last()
                                } else {
                                    "нет входа в топ роста"@
                                },
                            ),
                        },
                        found.skips,
                    ),
                ),
            }
        },
    }
}

/// What a tick of continuation gives: the open book is managed, then at most
/// one long is opened, once per scan.
pub open spec fn continuation_result(i: ContinuationInput, p: ContinuationView) -> Option<
    ContinuationResult,
> {
    let leaders = symbols_of(leader_rows(i.s.tickers@, leaders_kept(p), i.exclude, p));
    let c = BookContext {
        s: i.s,
        p,
        now: i.now,
        scaled: i.scaled,
        trailed_bars: i.trailed_bars,
        inherited: i.inherited,
    };
    match book_actions(i.positions, i.positions.len() as int, c) {
        None => None,
        Some(acted) => {
            let waiting = |reason: Seq<char>|
                Some(
                    ContinuationResult {
                        decisions: acts_or_hold(acted, reason),
                        scan_ts: i.last_scan_ts,
                        leaders,
                        skips: Seq::empty(),
                    },
                );
            if !i.allow_enter {
                waiting("стоп дня. Новых входов нет до 00:00 UTC."@)
            } else if !entry_open(i.now, Some(p.entry_windows), p.always_enter) {
                waiting(outside_note(i.now, p.entry_windows))
            } else if i.now < i.desk_until {
                waiting("пауза после стопа — слот не заполняю"@)
            } else if !scan_is_due(i.now, i.last_scan_ts, SCAN_MS as int) {
                waiting("waiting for next scan"@)
            } else {
                match entering(i, p, acted) {
                    None => None,
                    Some((decisions, skips)) => Some(
                        ContinuationResult { decisions, scan_ts: i.now, leaders, skips },
                    ),
                }
            }
        },
    }
}

fn maybe_enter(
    snapshot: &MarketSnapshot,
    positions: &[Position],
    now: i64,
    inflight: &[String],
    cooldowns: &SymMap<i64>,
    p: &ContinuationParams,
    exclude: &[String],
    recent_leaders: &[String],
    acted: Vec<Decision>,
    Ghost(i): Ghost<ContinuationInput>,
    tally: &mut SkipTally,
) -> (r: Option<Vec<Decision>>)
    requires
        i.s == *snapshot,
        i.positions == positions@,
        i.now == now,
        i.inflight == views(inflight@),
        i.cooldowns == cooldowns@,
        i.exclude == views(exclude@),
        i.recent == views(recent_leaders@),
    ensures
        match (r, entering(i, p@, decision_views(acted@))) {
            (Some(d), Some((decisions, skips))) => {
                &&& decision_views(d@) == decisions
                &&& final(tally)@ == noted_all(old(tally)@, skips)
            },
            (None, None) => true,
            _ => false,
        },
{
    let held: Vec<String> = held_symbols(positions);
    let pending: usize = count_pending(inflight, held.as_slice());
    let slots: i128 = p.max_positions as i128 - held.len() as i128 - pending as i128;
    let rows: Vec<Ticker> = liquid_universe(snapshot.tickers.as_slice(), exclude, p)?;
    let liquid: SymSet = super::keys_of_rows(rows.as_slice());
    let found: (Option<Decision>, Option<String>) = if slots <= 0 {
        (None, None)
    } else {
        scan_for_entry(
            rows.as_slice(),
            snapshot,
            positions,
            held.as_slice(),
            inflight,
            cooldowns,
            p,
            recent_leaders,
            &liquid,
            now,
            tally,
        )?
    };
    let ghost before = decision_views(acted@);
    let mut out: Vec<Decision> = acted;
    match found.0 {
        Some(d) => {
            let ghost dv = d@;
            out.push(d);
            proof {
                assert(decision_views(out@) =~= before.push(dv));
            }
            Some(out)
        },
        None => {
            if held.len() as i128 >= p.max_positions as i128 {
                return Some(hold_list(out, "continuation book full"));
            }
            match found.1 {
                Some(reason) => Some(hold_list(out, reason.as_str())),
                None => Some(hold_list(out, "нет входа в топ роста")),
            }
        },
    }
}

/// Manages the open longs, then opens at most one, once per scan.
pub fn continuation_decisions(
    snapshot: &MarketSnapshot,
    positions: &[Position],
    now: i64,
    last_scan_ts: i64,
    inflight: &[String],
    cooldowns: &SymMap<i64>,
    params: Option<&ContinuationParams>,
    exclude: &[String],
    allow_enter: bool,
    recent_leaders: &[String],
    desk_until: i64,
    scaled_one_r: &SymSet,
    hour1_trail_bar: &SymMap<i64>,
    inherited_s4: &SymSet,
    tally: &mut SkipTally,
) -> (r: Option<(Vec<Decision>, i64, Vec<String>)>)
    ensures
        match (
            r,
            continuation_result(
                ContinuationInput {
                    s: *snapshot,
                    positions: positions@,
                    now: now as int,
                    last_scan_ts: last_scan_ts as int,
                    inflight: views(inflight@),
                    cooldowns: cooldowns@,
                    exclude: views(exclude@),
                    allow_enter,
                    recent: views(recent_leaders@),
                    desk_until: desk_until as int,
                    scaled: scaled_one_r@,
                    trailed_bars: hour1_trail_bar@,
                    inherited: inherited_s4@,
                },
                continuation_knobs(params),
            ),
        ) {
            (Some((decisions, scan_ts, leaders)), Some(x)) => {
                &&& decision_views(decisions@) == x.decisions
                &&& scan_ts == x.scan_ts
                &&& views(leaders@) == x.leaders
                &&& final(tally)@ == noted_all(old(tally)@, x.skips)
            },
            (None, None) => true,
            _ => false,
        },
{
    let ghost i = ContinuationInput {
        s: *snapshot,
        positions: positions@,
        now: now as int,
        last_scan_ts: last_scan_ts as int,
        inflight: views(inflight@),
        cooldowns: cooldowns@,
        exclude: views(exclude@),
        allow_enter,
        recent: views(recent_leaders@),
        desk_until: desk_until as int,
        scaled: scaled_one_r@,
        trailed_bars: hour1_trail_bar@,
        inherited: inherited_s4@,
    };
    let owned: ContinuationParams = ContinuationParams::default();
    let p: &ContinuationParams = match params {
        Some(q) => q,
        None => &owned,
    };
    let leaders: Vec<String> = pick_recent_leaders(
        snapshot.tickers.as_slice(),
        leader_count(p),
        exclude,
        p,
    );
    let acted: Vec<Decision> = manage_open_book(
        positions,
        snapshot,
        p,
        now,
        scaled_one_r,
        hour1_trail_bar,
        inherited_s4,
    )?;
    if !allow_enter {
        let out = hold_list(acted, "стоп дня. Новых входов нет до 00:00 UTC.");
        return Some((out, last_scan_ts, leaders));
    }
    if !in_entry_window(now, Some(p.entry_windows.as_slice()), p.always_enter) {
        let reason = outside_hours_note(now, p.entry_windows.as_slice());
        return Some((hold_list(acted, reason.as_str()), last_scan_ts, leaders));
    }
    if now < desk_until {
        let out = hold_list(acted, "пауза после стопа — слот не заполняю");
        return Some((out, last_scan_ts, leaders));
    }
    if !scan_due(last_scan_ts, now) {
        return Some((hold_list(acted, "waiting for next scan"), last_scan_ts, leaders));
    }
    let out: Vec<Decision> = maybe_enter(
        snapshot,
        positions,
        now,
        inflight,
        cooldowns,
        p,
        exclude,
        recent_leaders,
        acted,
        Ghost(i),
        tally,
    )?;
    Some((out, now, leaders))
}

/// The rows of a single slot: the held one, if any.
pub open spec fn held_slot(position: Option<&Position>) -> Seq<Position> {
    match position {
        Some(pos) => if pos.qty.pos() {
            seq![*pos]
        } else {
            Seq::empty()
        },
        None => Seq::empty(),
    }
}

/// What a single slot reads: nothing in flight, cooling, left out or remembered.
pub open spec fn slot_reading(s: MarketSnapshot, positions: Seq<Position>, now: int) -> ContinuationInput {
    ContinuationInput {
        s,
        positions,
        now,
        last_scan_ts: 0,
        inflight: Seq::empty(),
        cooldowns: Map::empty(),
        exclude: Seq::empty(),
        allow_enter: true,
        recent: Seq::empty(),
        desk_until: 0,
        scaled: Set::empty(),
        trailed_bars: Map::empty(),
        inherited: Set::empty(),
    }
}

/// The first decision for a single slot.
pub fn continuation_decision(
    snapshot: &MarketSnapshot,
    position: Option<&Position>,
    now: i64,
    params: Option<&ContinuationParams>,
    tally: &mut SkipTally,
) -> (r: Option<Decision>)
    ensures
        match (
            r,
            continuation_result(
                slot_reading(*snapshot, held_slot(position), now as int),
                continuation_knobs(params),
            ),
        ) {
            (Some(d), Some(x)) => {
                &&& d@ == (if x.decisions.len() > 0 {
                    x.decisions[0]
                } else {
                    hold_view("hold"@)
                })
                &&& final(tally)@ == noted_all(old(tally)@, x.skips)
            },
            (None, None) => true,
            _ => false,
        },
{
    let mut held: Vec<Position> = Vec::new();
    if let Some(pos) = position {
        if pos.qty.is_pos() {
            held.push(pos.clone());
        }
    }
    let none: Vec<String> = Vec::new();
    let cooldowns: SymMap<i64> = SymMap::new();
    let scaled = SymSet::new();
    let trailed: SymMap<i64> = SymMap::new();
    let inherited = SymSet::new();
    proof {
        assert(held@ =~= held_slot(position));
        assert(views(none@) =~= Seq::<Seq<char>>::empty());
    }
    let (ds, _, _) = continuation_decisions(
        snapshot,
        held.as_slice(),
        now,
        0,
        none.as_slice(),
        &cooldowns,
        params,
        none.as_slice(),
        true,
        none.as_slice(),
        0,
        &scaled,
        &trailed,
        &inherited,
        tally,
    )?;
    if ds.len() > 0 {
        proof {
            assert(decision_views(ds@)[0] == ds@[0]@);
        }
        Some(ds[0].clone())
    } else {
        Some(Decision::hold("hold"))
    }
}

proof fn lemma_actions_never_enter(positions: Seq<Position>, n: int, c: BookContext)
    requires
        n <= positions.len(),
    ensures
        book_actions(positions, n, c) matches Some(d) ==> forall|k: int|
            0 <= k < d.len() ==> !((#[trigger] d[k]) is EnterLong) && !(d[k] is Hold),
    decreases n,
{
    if n > 0 {
        lemma_actions_never_enter(positions, n - 1, c);
    }
}

proof fn lemma_scan_entry(rows: Seq<Ticker>, i: int, c: NameContext)
    requires
        0 <= i,
    ensures
        scan_names(rows, i, c) matches Some(x) ==> (x.entered matches Some(d) ==> d is EnterLong
            && exists|k: int|
            i <= k < rows.len() && #[trigger] name_verdict(rows[k], c) == NameVerdict::Enter(d)),
    decreases rows.len() - i,
{
    reveal(name_verdict);
    if i < rows.len() {
        lemma_scan_entry(rows, i + 1, c);
        if let NameVerdict::Enter(d) = name_verdict(rows[i], c) {
            assert(name_verdict(rows[i], c) == NameVerdict::Enter(d));
        }
    }
}

/// A tick of continuation opens at most one long, and only while entries are
/// allowed, within the hours, after the pause of the desk, on a scan that is
/// due, with a slot free, and for a name that every gate lets pass.
pub proof fn law_continuation_enters_at_most_once(
    i: ContinuationInput,
    p: ContinuationView,
    a: int,
    b: int,
)
    requires
        continuation_result(i, p) is Some,
        0 <= a < continuation_result(i, p)->0.decisions.len(),
        0 <= b < continuation_result(i, p)->0.decisions.len(),
        continuation_result(i, p)->0.decisions[a] is EnterLong,
        continuation_result(i, p)->0.decisions[b] is EnterLong,
    ensures
        a == b,
        i.allow_enter,
        entry_open(i.now, Some(p.entry_windows), p.always_enter),
        i.now >= i.desk_until,
        scan_is_due(i.now, i.last_scan_ts, SCAN_MS as int),
        open_slots(i.positions, i.inflight, p) > 0,
        ({
            let rows = liquid_rows(i.s.tickers@, i.exclude, p)->0;
            exists|t: Ticker|
                {
                    &&& t.symbol@ == continuation_result(i, p)->0.decisions[a].symbol()
                    &&& #[trigger] name_gate(i.s, t, p, i.recent, row_keys(rows), i.now) == Some(
                        None::<Seq<char>>,
                    )
                    &&& !is_blocked(
                        upper(t.symbol@),
                        held_keys(i.positions),
                        i.inflight,
                        i.cooldowns,
                        i.now,
                    )
                }
        }),
{
    let c = BookContext {
        s: i.s,
        p,
        now: i.now,
        scaled: i.scaled,
        trailed_bars: i.trailed_bars,
        inherited: i.inherited,
    };
    let n = i.positions.len() as int;
    lemma_actions_never_enter(i.positions, n, c);
    let acted = book_actions(i.positions, n, c)->0;
    let rows = liquid_rows(i.s.tickers@, i.exclude, p)->0;
    let k = NameContext {
        s: i.s,
        positions: i.positions,
        inflight: i.inflight,
        cooldowns: i.cooldowns,
        recent: i.recent,
        liquid: row_keys(rows),
        now: i.now,
        p,
    };
    lemma_scan_entry(rows, 0, k);
    reveal(name_verdict);
    let x = continuation_result(i, p)->0;
    let d = scan_names(rows, 0, k)->0.entered->0;
    let j = choose|j: int|
        0 <= j < rows.len() && #[trigger] name_verdict(rows[j], k) == NameVerdict::Enter(d);
    assert(x.decisions[a] == d);
    assert(name_entry(i.s, rows[j], p, i.now) == Some(d));
    assert(name_gate(i.s, rows[j], p, i.recent, row_keys(rows), i.now) == Some(
        None::<Seq<char>>,
    ));
}

/// An entry of continuation comes with a stop below the price and a take profit
/// above it.
pub proof fn law_continuation_entry_brackets_the_price(
    s: MarketSnapshot,
    t: Ticker,
    p: ContinuationView,
    now: int,
)
    ensures
        name_entry(s, t, p, now) matches Some(
            DecisionView::EnterLong { symbol, take_profit, stop_loss, .. },
        ) ==> symbol == t.symbol@ && stop_loss.lt(t.last_price) && t.last_price.lt(take_profit),
{
}

} // verus!

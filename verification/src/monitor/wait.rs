//! What a name that waits is still waiting for.
use super::{
    fmt_span, hours_of, pause_end, paused_until, s4_knobs, s4_params, session_knobs, span_text, WaitKind,
};
use crate::config::load::Config;
use crate::config::TradeInterval;
use crate::continuation::{ContinuationParams, ContinuationView, SCAN_MS};
use crate::dec::{
    dec, decimal_normal, decimal_text, larger, magnitude, minus, n_div, n_mul, n_sub, negated, over, rounded,
    times, Dec,
};
use crate::indicators::{closes, closes_of, ema_last, last_ema, vwap, vwap_of};
use crate::models::{near_24h_high, near_high, opt_view, Bar, EngineState, MarketSnapshot, Ticker};
use crate::render::{fmt_price, price, price_shows};
use crate::sessions::{
    clamp_ms, clock_text, day_start, entry_open, in_entry_window, next_midnight, next_start,
    next_window, utc_clock, MS_PER_DAY,
};
use crate::text::own;
use vstd::prelude::*;
use vstd::string::StringExecFns;

verus! {

/// How long until an instant, and when that is.
pub open spec fn clock_wait(until: int, now: int) -> Seq<char> {
    "ещё "@ + span_text(until - now) + " → "@ + clock_text(until) + " UTC"@
}

fn until_clock(until: i64, now: i64) -> (r: String)
    ensures
        r@ == clock_wait(until as int, now as int),
{
    let mut t = own("ещё ");
    t.append(fmt_span(until as i128 - now as i128).as_str());
    t.append(" → ");
    t.append(utc_clock(until).as_str());
    t.append(" UTC");
    t
}

/// How long until a bar closes; where it has closed, that the next is awaited.
pub open spec fn bar_wait(open_time: int, interval: TradeInterval, now: int) -> Seq<char> {
    let close = open_time + interval.minutes() * 60_000;
    if close > now {
        "ещё "@ + span_text(close - now) + " до закрытия "@ + interval.ru()
    } else {
        "ждёт свечу "@ + interval.ru()
    }
}

fn bar_close_until(open_time: i64, interval: TradeInterval, now: i64) -> (r: String)
    ensures
        r@ == bar_wait(open_time as int, interval, now as int),
{
    let left: i128 = open_time as i128 + interval.duration_ms() as i128 - now as i128;
    if left > 0 {
        let mut t = own("ещё ");
        t.append(fmt_span(left).as_str());
        t.append(" до закрытия ");
        t.append(interval.as_ru());
        t
    } else {
        let mut t = own("ждёт свечу ");
        t.append(interval.as_ru());
        t
    }
}

/// How long until the next bar of a symbol.
pub open spec fn next_bar_wait(s: MarketSnapshot, symbol: Seq<char>, interval: TradeInterval, now: int) -> Seq<
    char,
> {
    let bars = s.series(symbol);
    if bars.len() > 0 {
        bar_wait(bars.last().open_time as int, interval, now)
    } else if s.last_bars@.contains_key(symbol) {
        bar_wait(s.last_bars@[symbol].open_time as int, interval, now)
    } else {
        "ждёт свечу "@ + interval.ru()
    }
}

fn next_bar_until(snapshot: &MarketSnapshot, symbol: &str, interval: TradeInterval, now: i64) -> (r: String)
    ensures
        r@ == next_bar_wait(*snapshot, symbol@, interval, now as int),
{
    let bars: &[Bar] = snapshot.bars_for(symbol);
    if bars.len() > 0 {
        return bar_close_until(bars[bars.len() - 1].open_time, interval, now);
    }
    match snapshot.last_bars.get(symbol) {
        Some(b) => bar_close_until(b.open_time, interval, now),
        None => {
            let mut t = own("ждёт свечу ");
            t.append(interval.as_ru());
            t
        },
    }
}

/// How long until the next scan.
pub open spec fn scan_wait(last_scan: int, poll_ms: int, now: int) -> Seq<char> {
    if last_scan <= 0 || poll_ms <= 0 || now >= last_scan + poll_ms {
        "сейчас"@
    } else {
        "ещё "@ + span_text(last_scan + poll_ms - now) + " до скана"@
    }
}

fn scan_until(last_scan: i64, poll_ms: i64, now: i64) -> (r: String)
    ensures
        r@ == scan_wait(last_scan as int, poll_ms as int, now as int),
{
    let left: i128 = last_scan as i128 + poll_ms as i128 - now as i128;
    if last_scan <= 0 || poll_ms <= 0 || left <= 0 {
        return own("сейчас");
    }
    let mut t = own("ещё ");
    t.append(fmt_span(left).as_str());
    t.append(" до скана");
    t
}

/// A gap to one place, its sign aside.
pub open spec fn gap_text(d: Dec) -> Seq<char> {
    decimal_text(decimal_normal(rounded(magnitude(d), 1)))
}

fn pct_gap(d: Dec) -> (r: String)
    ensures
        r@ == gap_text(d),
{
    d.abs().round_dp(1).normalize().text()
}

/// How far the day's change is from the band that is bought: too high asks for a
/// fall, a dump or a dead day for a rise. The inner `None` says that it is inside.
pub open spec fn tape_wait(change: Dec, p: ContinuationView) -> Option<Option<Seq<char>>> {
    let lo = if p.min_change_percent.pos() {
        p.min_change_percent
    } else {
        dec(0, 0)
    };
    if p.max_change_percent is Some && p.max_change_percent->0.lt(change) {
        match n_sub(Some(change), p.max_change_percent) {
            None => None,
            Some(gap) => Some(
                Some(
                    "ещё "@ + gap_text(larger(gap, dec(1, 1))) + "% 24h вниз (надо ≤ "@ + gap_text(
                        p.max_change_percent->0,
                    ) + "%)"@,
                ),
            ),
        }
    } else if change.le(negated(p.stretch_pct)) || change.lt(lo) {
        match n_sub(Some(lo), Some(change)) {
            None => None,
            Some(gap) => Some(
                Some(
                    "ещё "@ + gap_text(larger(gap, dec(1, 1))) + "% 24h вверх (надо ≥ "@ + gap_text(lo)
                        + "%)"@,
                ),
            ),
        }
    } else {
        Some(None)
    }
}

fn tape_until(change: Dec, p: &ContinuationParams) -> (r: Option<Option<String>>)
    ensures
        crate::continuation::entry::gate_view(r) == tape_wait(change, p@),
{
    let lo: Dec = if p.min_change_percent.is_pos() {
        p.min_change_percent
    } else {
        Dec::zero()
    };
    if let Some(most) = p.max_change_percent {
        if change > most {
            let gap: Dec = minus(Some(change), Some(most))?;
            let mut t = own("ещё ");
            t.append(pct_gap(gap.max(Dec::new(1, 1))).as_str());
            t.append("% 24h вниз (надо ≤ ");
            t.append(pct_gap(most).as_str());
            t.append("%)");
            return Some(Some(t));
        }
    }
    if change <= p.stretch_pct.neg() || change < lo {
        let gap: Dec = minus(Some(lo), Some(change))?;
        let mut t = own("ещё ");
        t.append(pct_gap(gap.max(Dec::new(1, 1))).as_str());
        t.append("% 24h вверх (надо ≥ ");
        t.append(pct_gap(lo).as_str());
        t.append("%)");
        return Some(Some(t));
    }
    Some(None)
}

/// How far a price is below a target.
pub open spec fn price_wait(last: Dec, target: Dec, label: Seq<char>) -> Option<Seq<char>> {
    if !last.pos() || !target.pos() {
        Some("ждёт "@ + label)
    } else if target.le(last) {
        Some("сейчас ("@ + label + ")"@)
    } else {
        match n_sub(Some(target), Some(last)) {
            None => None,
            Some(usdt) => match n_mul(n_div(Some(usdt), Some(last)), Some(dec(100, 0))) {
                None => None,
                Some(pct) => if price_shows(usdt) {
                    Some("ещё "@ + price(usdt) + " USDT ("@ + gap_text(pct) + "%) до "@ + label)
                } else {
                    None
                },
            },
        }
    }
}

fn price_until(last: Dec, target: Dec, label: &str) -> (r: Option<String>)
    ensures
        opt_view(r) == price_wait(last, target, label@),
{
    if !last.is_pos() || !target.is_pos() {
        let mut t = own("ждёт ");
        t.append(label);
        return Some(t);
    }
    if last >= target {
        let mut t = own("сейчас (");
        t.append(label);
        t.append(")");
        return Some(t);
    }
    let usdt: Dec = minus(Some(target), Some(last))?;
    let pct: Dec = times(over(Some(usdt), Some(last)), Some(Dec::from_int(100)))?;
    let mut t = own("ещё ");
    t.append(fmt_price(usdt)?.as_str());
    t.append(" USDT (");
    t.append(pct_gap(pct).as_str());
    t.append("%) до ");
    t.append(label);
    Some(t)
}

/// How far a price above a limit has to fall, as a share of itself.
pub open spec fn fall_text(last: Dec, limit: Dec) -> Option<Seq<char>> {
    match n_mul(n_div(n_sub(Some(last), Some(limit)), Some(last)), Some(dec(100, 0))) {
        None => None,
        Some(pct) => Some("ещё "@ + gap_text(pct) + "% вниз от 24h high"@),
    }
}

fn write_fall(last: Dec, limit: Dec) -> (r: Option<String>)
    ensures
        opt_view(r) == fall_text(last, limit),
{
    let pct: Dec = times(
        over(minus(Some(last), Some(limit)), Some(last)),
        Some(Dec::from_int(100)),
    )?;
    let mut t = own("ещё ");
    t.append(pct_gap(pct).as_str());
    t.append("% вниз от 24h high");
    Some(t)
}

/// How far a price near the day's high has to fall; the inner `None` says that it
/// is not near it.
pub open spec fn high_wait(t: Ticker, p: ContinuationView) -> Option<Option<Seq<char>>> {
    match near_high(t, p.near_high_frac) {
        None => None,
        Some(near) => if near && t.high_price.pos() {
            match n_mul(Some(t.high_price), n_sub(Some(dec(1, 0)), Some(p.near_high_frac))) {
                None => None,
                Some(limit) => if limit.lt(t.last_price) && t.last_price.pos() {
                    match fall_text(t.last_price, limit) {
                        Some(x) => Some(Some(x)),
                        None => None,
                    }
                } else {
                    Some(None)
                },
            }
        } else {
            Some(None)
        },
    }
}

fn high_until(t: &Ticker, p: &ContinuationParams) -> (r: Option<Option<String>>)
    ensures
        crate::continuation::entry::gate_view(r) == high_wait(*t, p@),
{
    if near_24h_high(t, p.near_high_frac)? && t.high_price.is_pos() {
        let limit: Dec = times(
            Some(t.high_price),
            minus(Some(Dec::one()), Some(p.near_high_frac)),
        )?;
        if t.last_price > limit && t.last_price.is_pos() {
            let x: String = write_fall(t.last_price, limit)?;
            return Some(Some(x));
        }
    }
    Some(None)
}

/// How far the last close is below the mean of twenty; the inner `None` says that
/// it is above, or that there is no mean.
pub open spec fn mean_wait(bars: Seq<Bar>, label: Seq<char>) -> Option<Option<Seq<char>>> {
    match ema_last(closes_of(bars), 20) {
        None => None,
        Some(None) => Some(None),
        Some(Some(ema)) => if bars.len() > 0 && bars.last().close.le(ema) {
            match price_wait(bars.last().close, ema, label) {
                Some(x) => Some(Some(x)),
                None => None,
            }
        } else {
            Some(None)
        },
    }
}

fn mean_until(bars: &[Bar], label: &str) -> (r: Option<Option<String>>)
    ensures
        crate::continuation::entry::gate_view(r) == mean_wait(bars@, label@),
{
    let c: Vec<Dec> = closes(bars);
    match last_ema(c.as_slice(), 20)? {
        None => Some(None),
        Some(ema) => {
            if bars.len() > 0 && bars[bars.len() - 1].close <= ema {
                let x: String = price_until(bars[bars.len() - 1].close, ema, label)?;
                Some(Some(x))
            } else {
                Some(None)
            }
        },
    }
}

/// What the price still misses against the volume-weighted mean, else the next bar.
pub open spec fn vwap_wait(s: MarketSnapshot, t: Ticker, p: ContinuationView, now: int) -> Option<Seq<char>> {
    match vwap_of(s.series(t.symbol@)) {
        None => None,
        Some(v) => if v is Some && t.last_price.lt(v->0) {
            price_wait(t.last_price, v->0, "VWAP"@)
        } else {
            Some(next_bar_wait(s, t.symbol@, p.interval, now))
        },
    }
}

/// What the trend on the signal candles still misses.
pub open spec fn trend_wait(s: MarketSnapshot, t: Ticker, p: ContinuationView, now: int) -> Option<Seq<char>> {
    let bars = s.series(t.symbol@);
    if bars.len() >= 21 {
        match mean_wait(bars, "EMA20"@) {
            None => None,
            Some(Some(x)) => Some(x),
            Some(None) => vwap_wait(s, t, p, now),
        }
    } else {
        vwap_wait(s, t, p, now)
    }
}

/// What a name of the fourth strategy still misses.
pub open spec fn s4_wait(s: MarketSnapshot, t: Ticker, p: ContinuationView, now: int) -> Option<Seq<char>> {
    let htf = s.htf_series(t.symbol@);
    match tape_wait(t.price_change_percent, p) {
        None => None,
        Some(Some(x)) => Some(x),
        Some(None) => match high_wait(t, p) {
            None => None,
            Some(Some(x)) => Some(x),
            Some(None) => if s.series(t.symbol@).len() == 0 && !s.last_bars@.contains_key(t.symbol@) {
                Some(next_bar_wait(s, t.symbol@, p.interval, now))
            } else if htf.len() < 21 {
                Some("ждёт 4ч историю"@)
            } else {
                match mean_wait(htf, "4ч EMA20"@) {
                    None => None,
                    Some(Some(x)) => Some(x),
                    Some(None) => trend_wait(s, t, p, now),
                }
            },
        },
    }
}

fn s4_setup_until(snapshot: &MarketSnapshot, ticker: &Ticker, p: &ContinuationParams, now: i64) -> (r: Option<
    String,
>)
    ensures
        opt_view(r) == s4_wait(*snapshot, *ticker, p@, now as int),
{
    if let Some(x) = tape_until(ticker.price_change_percent, p)? {
        return Some(x);
    }
    if let Some(x) = high_until(ticker, p)? {
        return Some(x);
    }
    let symbol: &str = ticker.symbol.as_str();
    let bars: &[Bar] = snapshot.bars_for(symbol);
    if bars.len() == 0 && !snapshot.last_bars.contains_key(symbol) {
        return Some(next_bar_until(snapshot, symbol, p.interval, now));
    }
    let htf: &[Bar] = snapshot.htf_bars_for(symbol);
    if htf.len() < 21 {
        return Some(own("ждёт 4ч историю"));
    }
    if let Some(x) = mean_until(htf, "4ч EMA20")? {
        return Some(x);
    }
    if bars.len() >= 21 {
        if let Some(x) = mean_until(bars, "EMA20")? {
            return Some(x);
        }
    }
    if let Some(v) = vwap(bars)? {
        if ticker.last_price < v {
            return price_until(ticker.last_price, v, "VWAP");
        }
    }
    Some(next_bar_until(snapshot, symbol, p.interval, now))
}

/// What a name of the momentum book still misses.
pub open spec fn s1_wait(s: MarketSnapshot, t: Ticker, now: int) -> Option<Seq<char>> {
    let rest = next_bar_wait(s, t.symbol@, TradeInterval::Minute5, now);
    match near_high(t, dec(2, 2)) {
        None => None,
        Some(near) => if near && t.high_price.pos() {
            match n_mul(Some(t.high_price), Some(dec(98, 2))) {
                None => None,
                Some(limit) => if limit.lt(t.last_price) {
                    fall_text(t.last_price, limit)
                } else {
                    Some(rest)
                },
            }
        } else {
            Some(rest)
        },
    }
}

fn s1_setup_until(snapshot: &MarketSnapshot, ticker: &Ticker, now: i64) -> (r: Option<String>)
    ensures
        opt_view(r) == s1_wait(*snapshot, *ticker, now as int),
{
    if near_24h_high(ticker, Dec::new(2, 2))? && ticker.high_price.is_pos() {
        let limit: Dec = times(Some(ticker.high_price), Some(Dec::new(98, 2)))?;
        if ticker.last_price > limit {
            return write_fall(ticker.last_price, limit);
        }
    }
    Some(next_bar_until(snapshot, ticker.symbol.as_str(), TradeInterval::Minute5, now))
}

/// What the desk's gate still takes.
pub open spec fn gate_wait(cfg: Config, state: EngineState, now: int) -> Seq<char> {
    let (windows, always) = hours_of(cfg, state.strategy_id);
    if state.daily_halt {
        clock_wait(clamp_ms(day_start(now) + MS_PER_DAY), now)
    } else if now < state.retry_until {
        clock_wait(state.retry_until as int, now)
    } else if now < state.cooldown_until {
        clock_wait(state.cooldown_until as int, now)
    } else if !entry_open(now, Some(windows), always) && next_start(now, windows) is Some {
        clock_wait(clamp_ms(next_start(now, windows)->0), now)
    } else if state.entries_paused {
        "пока r в торговом TUI"@
    } else {
        "ждёт свободный слот"@
    }
}

fn gate_until(cfg: &Config, state: &EngineState, now: i64) -> (r: String)
    ensures
        r@ == gate_wait(*cfg, *state, now as int),
{
    if state.daily_halt {
        return until_clock(next_midnight(now), now);
    }
    if now < state.retry_until {
        return until_clock(state.retry_until, now);
    }
    if now < state.cooldown_until {
        return until_clock(state.cooldown_until, now);
    }
    let (windows, always) = session_knobs(cfg, state.strategy_id);
    if !in_entry_window(now, Some(windows.as_slice()), always) {
        if let Some(t) = next_window(now, windows.as_slice()) {
            return until_clock(t, now);
        }
    }
    if state.entries_paused {
        return own("пока r в торговом TUI");
    }
    own("ждёт свободный слот")
}

/// How often a strategy scans, in milliseconds.
pub open spec fn poll_ms(cfg: Config, strategy_id: i32) -> int {
    if strategy_id == 4 {
        SCAN_MS as int
    } else if cfg.poll_seconds < 1 {
        1000
    } else {
        cfg.poll_seconds * 1000
    }
}

/// What a name still waits for.
pub open spec fn until_of(
    cfg: Config,
    state: EngineState,
    s: MarketSnapshot,
    t: Ticker,
    kind: WaitKind,
    now: int,
) -> Option<Seq<char>> {
    match kind {
        WaitKind::Pause => {
            let until = paused_until(state.cooldowns@, t.symbol@);
            if until > now {
                Some(clock_wait(until, now))
            } else {
                Some("сейчас"@)
            }
        },
        WaitKind::Gate => Some(gate_wait(cfg, state, now)),
        WaitKind::Setup => if state.strategy_id == 4 {
            s4_wait(s, t, s4_knobs(cfg), now)
        } else if state.strategy_id == 1 {
            s1_wait(s, t, now)
        } else {
            Some(next_bar_wait(s, t.symbol@, TradeInterval::Minute5, now))
        },
        WaitKind::Ready => Some(
            scan_wait(state.last_scan_ts as int, poll_ms(cfg, state.strategy_id), now),
        ),
    }
}

pub fn until_entry(
    cfg: &Config,
    state: &EngineState,
    snapshot: &MarketSnapshot,
    ticker: &Ticker,
    kind: WaitKind,
    now: i64,
) -> (r: Option<String>)
    ensures
        opt_view(r) == until_of(*cfg, *state, *snapshot, *ticker, kind, now as int),
{
    match kind {
        WaitKind::Pause => {
            let until: i64 = pause_end(&state.cooldowns, ticker.symbol.as_str());
            if until > now {
                Some(until_clock(until, now))
            } else {
                Some(own("сейчас"))
            }
        },
        WaitKind::Gate => Some(gate_until(cfg, state, now)),
        WaitKind::Setup => {
            if state.strategy_id == 4 {
                let p: ContinuationParams = s4_params(cfg);
                s4_setup_until(snapshot, ticker, &p, now)
            } else if state.strategy_id == 1 {
                s1_setup_until(snapshot, ticker, now)
            } else {
                Some(
                    next_bar_until(
                        snapshot,
                        ticker.symbol.as_str(),
                        TradeInterval::Minute5,
                        now,
                    ),
                )
            }
        },
        WaitKind::Ready => {
            let poll: i64 = if state.strategy_id == 4 {
                SCAN_MS
            } else if cfg.poll_seconds < 1 {
                1000
            } else {
                cfg.poll_seconds as i64 * 1000
            };
            Some(scan_until(state.last_scan_ts, poll, now))
        },
    }
}

/// How far a price is from a target: it is there at or above it, and below it the
/// way is told in money and in per cent of the price.
pub proof fn law_way_to_a_price(last: Dec, target: Dec, label: Seq<char>, way: Dec, pct: Dec)
    requires
        last.pos() && target.pos(),
        crate::dec::decimal_difference(target, last) == Some(way),
        n_mul(crate::dec::decimal_quotient(way, last), Some(dec(100, 0))) == Some(pct),
        price_shows(way),
    ensures
        target.le(last) ==> price_wait(last, target, label) == Some("сейчас ("@ + label + ")"@),
        last.lt(target) ==> price_wait(last, target, label) == Some(
            "ещё "@ + price(way) + " USDT ("@ + gap_text(pct) + "%) до "@ + label,
        ),
{
}

/// A name waits for its mean exactly where its last close is at or below it.
pub proof fn law_waits_below_the_mean(bars: Seq<Bar>, label: Seq<char>, mean: Dec)
    requires
        bars.len() > 0,
        ema_last(closes_of(bars), 20) == Some(Some(mean)),
        mean_wait(bars, label) is Some,
    ensures
        mean_wait(bars, label)->0 is Some <==> bars.last().close.le(mean),
{
}

} // verus!

//! The trade journal: what its lines say, and what reading them back gives.
//! Lines are appended and read elsewhere; here they are plain values.
//!
//! An outer `None` says that a number left the decimal range.
pub mod laws;

use crate::dec::{dec, decimal_text, minus, n_sub, Dec};
use crate::errors::{loss_cooldown, loss_symbol_cooldown_ms, COOLDOWN_MS};
use crate::models::{opt_view, EngineState, EngineStateView, Position, Side};
use crate::money::{amount, fixed_text, fmt_fixed, net_long_pnl, read_amount, taker};
use crate::openmeta::{
    amount_or_zero, close_metrics, first_risk, initial_risk_usdt, no_entry, no_metrics, own_opt,
    read_amount_or_zero, store_scaled, CloseMetrics, CloseView, EntrySnapshot,
    EntryView, MetaView, OpenMeta,
};
use crate::sessions::{
    add_ms, clamp_ms, default_entry_windows, default_windows, instant_of, loss_pause_end,
    pause_until_after_loss, read_instant, HourWindow,
};
use crate::symbols::SymMap;
use crate::text::{own, same, strip_start, trim, trimmed, upper, without_start};
use vstd::prelude::*;

pub use crate::money::{long_pnl, round_trip_taker_pct, taker_fee};

verus! {

pub const DEFAULT_JOURNAL_PATH: &'static str = ".state/trades.jsonl";

/// A line of the journal.
#[derive(Debug)]
pub struct TradeEvent {
    pub ts: String,
    pub event: String,
    pub strategy_id: i32,
    pub symbol: String,
    pub qty: String,
    pub price: String,
    pub reason: String,
    pub pnl: Option<String>,
    pub fee: Option<String>,
    pub funding: Option<String>,
    pub stop_loss: Option<String>,
    pub take_profit: Option<String>,
    pub live: bool,
    pub leverage: Option<String>,
    pub notional: Option<String>,
    pub code: Option<String>,
    pub initial_risk_usdt: Option<String>,
    pub initial_r: Option<String>,
    pub final_r: Option<String>,
    pub mfe_r: Option<String>,
    pub mae_r: Option<String>,
    pub mfe_usdt: Option<String>,
    pub mae_usdt: Option<String>,
    pub hold_sec: Option<i64>,
    pub time_to_mfe_sec: Option<i64>,
    pub time_to_1r_sec: Option<i64>,
    pub scaled_at_1r: Option<bool>,
    pub ret_24h: Option<String>,
    pub ret_1h: Option<String>,
    pub ret_4h: Option<String>,
    pub quote_volume: Option<String>,
    pub near_high_frac: Option<String>,
    pub pullback_pct: Option<String>,
    pub stop_distance: Option<String>,
    pub risk_pct: Option<String>,
    pub btc_ret_1h: Option<String>,
    pub btc_regime: Option<String>,
}

/// A line with its texts as sequences of characters.
pub struct EventView {
    pub ts: Seq<char>,
    pub event: Seq<char>,
    pub strategy_id: i32,
    pub symbol: Seq<char>,
    pub qty: Seq<char>,
    pub price: Seq<char>,
    pub reason: Seq<char>,
    pub pnl: Option<Seq<char>>,
    pub fee: Option<Seq<char>>,
    pub funding: Option<Seq<char>>,
    pub stop_loss: Option<Seq<char>>,
    pub take_profit: Option<Seq<char>>,
    pub live: bool,
    pub leverage: Option<Seq<char>>,
    pub notional: Option<Seq<char>>,
    pub code: Option<Seq<char>>,
    pub initial_risk_usdt: Option<Seq<char>>,
    pub initial_r: Option<Seq<char>>,
    pub final_r: Option<Seq<char>>,
    pub mfe_r: Option<Seq<char>>,
    pub mae_r: Option<Seq<char>>,
    pub mfe_usdt: Option<Seq<char>>,
    pub mae_usdt: Option<Seq<char>>,
    pub hold_sec: Option<i64>,
    pub time_to_mfe_sec: Option<i64>,
    pub time_to_1r_sec: Option<i64>,
    pub scaled_at_1r: Option<bool>,
    pub ret_24h: Option<Seq<char>>,
    pub ret_1h: Option<Seq<char>>,
    pub ret_4h: Option<Seq<char>>,
    pub quote_volume: Option<Seq<char>>,
    pub near_high_frac: Option<Seq<char>>,
    pub pullback_pct: Option<Seq<char>>,
    pub stop_distance: Option<Seq<char>>,
    pub risk_pct: Option<Seq<char>>,
    pub btc_ret_1h: Option<Seq<char>>,
    pub btc_regime: Option<Seq<char>>,
}

impl View for TradeEvent {
    type V = EventView;

    open spec fn view(&self) -> EventView {
        EventView {
            ts: self.ts@,
            event: self.event@,
            strategy_id: self.strategy_id,
            symbol: self.symbol@,
            qty: self.qty@,
            price: self.price@,
            reason: self.reason@,
            pnl: opt_view(self.pnl),
            fee: opt_view(self.fee),
            funding: opt_view(self.funding),
            stop_loss: opt_view(self.stop_loss),
            take_profit: opt_view(self.take_profit),
            live: self.live,
            leverage: opt_view(self.leverage),
            notional: opt_view(self.notional),
            code: opt_view(self.code),
            initial_risk_usdt: opt_view(self.initial_risk_usdt),
            initial_r: opt_view(self.initial_r),
            final_r: opt_view(self.final_r),
            mfe_r: opt_view(self.mfe_r),
            mae_r: opt_view(self.mae_r),
            mfe_usdt: opt_view(self.mfe_usdt),
            mae_usdt: opt_view(self.mae_usdt),
            hold_sec: self.hold_sec,
            time_to_mfe_sec: self.time_to_mfe_sec,
            time_to_1r_sec: self.time_to_1r_sec,
            scaled_at_1r: self.scaled_at_1r,
            ret_24h: opt_view(self.ret_24h),
            ret_1h: opt_view(self.ret_1h),
            ret_4h: opt_view(self.ret_4h),
            quote_volume: opt_view(self.quote_volume),
            near_high_frac: opt_view(self.near_high_frac),
            pullback_pct: opt_view(self.pullback_pct),
            stop_distance: opt_view(self.stop_distance),
            risk_pct: opt_view(self.risk_pct),
            btc_ret_1h: opt_view(self.btc_ret_1h),
            btc_regime: opt_view(self.btc_regime),
        }
    }
}

impl Clone for TradeEvent {
    fn clone(&self) -> (r: Self)
        ensures
            r@ == self@,
    {
        TradeEvent {
            ts: own(self.ts.as_str()),
            event: own(self.event.as_str()),
            strategy_id: self.strategy_id,
            symbol: own(self.symbol.as_str()),
            qty: own(self.qty.as_str()),
            price: own(self.price.as_str()),
            reason: own(self.reason.as_str()),
            pnl: own_opt(&self.pnl),
            fee: own_opt(&self.fee),
            funding: own_opt(&self.funding),
            stop_loss: own_opt(&self.stop_loss),
            take_profit: own_opt(&self.take_profit),
            live: self.live,
            leverage: own_opt(&self.leverage),
            notional: own_opt(&self.notional),
            code: own_opt(&self.code),
            initial_risk_usdt: own_opt(&self.initial_risk_usdt),
            initial_r: own_opt(&self.initial_r),
            final_r: own_opt(&self.final_r),
            mfe_r: own_opt(&self.mfe_r),
            mae_r: own_opt(&self.mae_r),
            mfe_usdt: own_opt(&self.mfe_usdt),
            mae_usdt: own_opt(&self.mae_usdt),
            hold_sec: self.hold_sec,
            time_to_mfe_sec: self.time_to_mfe_sec,
            time_to_1r_sec: self.time_to_1r_sec,
            scaled_at_1r: self.scaled_at_1r,
            ret_24h: own_opt(&self.ret_24h),
            ret_1h: own_opt(&self.ret_1h),
            ret_4h: own_opt(&self.ret_4h),
            quote_volume: own_opt(&self.quote_volume),
            near_high_frac: own_opt(&self.near_high_frac),
            pullback_pct: own_opt(&self.pullback_pct),
            stop_distance: own_opt(&self.stop_distance),
            risk_pct: own_opt(&self.risk_pct),
            btc_ret_1h: own_opt(&self.btc_ret_1h),
            btc_regime: own_opt(&self.btc_regime),
        }
    }
}

/// A line with nothing in it.
pub open spec fn blank_event() -> EventView {
    EventView {
        ts: ""@,
        event: ""@,
        strategy_id: 0,
        symbol: ""@,
        qty: ""@,
        price: ""@,
        reason: ""@,
        pnl: None,
        fee: None,
        funding: None,
        stop_loss: None,
        take_profit: None,
        live: false,
        leverage: None,
        notional: None,
        code: None,
        initial_risk_usdt: None,
        initial_r: None,
        final_r: None,
        mfe_r: None,
        mae_r: None,
        mfe_usdt: None,
        mae_usdt: None,
        hold_sec: None,
        time_to_mfe_sec: None,
        time_to_1r_sec: None,
        scaled_at_1r: None,
        ret_24h: None,
        ret_1h: None,
        ret_4h: None,
        quote_volume: None,
        near_high_frac: None,
        pullback_pct: None,
        stop_distance: None,
        risk_pct: None,
        btc_ret_1h: None,
        btc_regime: None,
    }
}

impl Default for TradeEvent {
    fn default() -> (r: Self)
        ensures
            r@ == blank_event(),
    {
        TradeEvent {
            ts: own(""),
            event: own(""),
            strategy_id: 0,
            symbol: own(""),
            qty: own(""),
            price: own(""),
            reason: own(""),
            pnl: None,
            fee: None,
            funding: None,
            stop_loss: None,
            take_profit: None,
            live: false,
            leverage: None,
            notional: None,
            code: None,
            initial_risk_usdt: None,
            initial_r: None,
            final_r: None,
            mfe_r: None,
            mae_r: None,
            mfe_usdt: None,
            mae_usdt: None,
            hold_sec: None,
            time_to_mfe_sec: None,
            time_to_1r_sec: None,
            scaled_at_1r: None,
            ret_24h: None,
            ret_1h: None,
            ret_4h: None,
            quote_volume: None,
            near_high_frac: None,
            pullback_pct: None,
            stop_distance: None,
            risk_pct: None,
            btc_ret_1h: None,
            btc_regime: None,
        }
    }
}

/// The views of a list of lines.
pub open spec fn event_views(v: Seq<TradeEvent>) -> Seq<EventView> {
    Seq::new(v.len(), |i: int| v[i]@)
}

/// Whether a closed long won: it reached its target, or it is green after fees.
pub open spec fn close_won(entry: Dec, exit_px: Dec, take_profit: Option<Dec>) -> Option<bool> {
    if take_profit is Some && take_profit->0.le(exit_px) {
        Some(true)
    } else if !entry.pos() || exit_px.le(entry) {
        Some(false)
    } else {
        match net_long_pnl(entry, exit_px, dec(1, 0), taker()) {
            Some(pnl) => Some(pnl.pos()),
            None => None,
        }
    }
}

/// Whether a closed long won. A close above entry that fees turn red is a loss.
pub fn long_close_was_win(entry: Dec, exit_px: Dec, take_profit: Option<Dec>) -> (r: Option<bool>)
    ensures
        r == close_won(entry, exit_px, take_profit),
{
    if let Some(tp) = take_profit {
        if exit_px >= tp {
            return Some(true);
        }
    }
    if !entry.is_pos() || exit_px <= entry {
        return Some(false);
    }
    let (pnl, _) = long_pnl(entry, exit_px, Dec::one(), taker_fee())?;
    Some(pnl.is_pos())
}

/// The profit that a line states.
pub open spec fn stated_pnl(raw: Option<Seq<char>>) -> Option<Dec> {
    match raw {
        Some(t) => amount(t),
        None => None,
    }
}

pub fn parse_pnl(raw: Option<&str>) -> (r: Option<Dec>)
    ensures
        r == (match raw {
            Some(t) => amount(t@),
            None => None,
        }),
{
    match raw {
        Some(t) => read_amount(t),
        None => None,
    }
}

/// Prints without trailing zeros.
pub fn fmt_dec(value: Dec) -> (r: String)
    ensures
        r@ == fixed_text(value),
{
    fmt_fixed(value)
}

/// The symbol of a line, upper case, a leading side aside.
pub open spec fn line_symbol(raw: Seq<char>) -> Seq<char> {
    let up = upper(trimmed(raw));
    match without_start(up, "SHORT "@) {
        Some(s) => trimmed(s),
        None => match without_start(up, "LONG "@) {
            Some(s) => trimmed(s),
            None => trimmed(up),
        },
    }
}

/// `SHORT BTCUSDT`, `LONG ETHUSDT` and `SUPERUSDT` name the symbol alone.
pub fn journal_symbol(raw: &str) -> (r: String)
    ensures
        r@ == line_symbol(raw@),
{
    let up = trim(raw).to_ascii_uppercase();
    let s: &str = up.as_str();
    match strip_start(s, "SHORT ") {
        Some(t) => own(trim(t)),
        None => match strip_start(s, "LONG ") {
            Some(t) => own(trim(t)),
            None => own(trim(s)),
        },
    }
}

/// The instant of a line.
pub fn event_unix(ts: &str) -> (r: Option<i64>)
    ensures
        match r {
            Some(t) => instant_of(ts@) == Some(t as int),
            None => instant_of(ts@) is None,
        },
{
    read_instant(ts)
}

/// How long a symbol pauses after a close: losses sit out at least their
/// cooldown, wins the base pause.
pub open spec fn symbol_pause(strategy_id: int, won: bool, pause_ms: int) -> int {
    if pause_ms <= 0 {
        0
    } else if won || pause_ms >= loss_cooldown(strategy_id) {
        pause_ms
    } else {
        loss_cooldown(strategy_id)
    }
}

pub fn symbol_pause_ms_for(strategy_id: i32, won: bool, pause_ms: i64) -> (r: i64)
    ensures
        r == symbol_pause(strategy_id as int, won, pause_ms as int),
{
    if pause_ms <= 0 {
        return 0;
    }
    let loss: i64 = loss_symbol_cooldown_ms(strategy_id);
    if won || pause_ms >= loss {
        pause_ms
    } else {
        loss
    }
}

pub fn symbol_pause_ms(won: bool, pause_ms: i64) -> (r: i64)
    ensures
        r == symbol_pause(0, won, pause_ms as int),
{
    symbol_pause_ms_for(0, won, pause_ms)
}

pub fn symbol_cooldown_until_for(strategy_id: i32, now: i64, won: bool, pause_ms: i64) -> (r: i64)
    ensures
        r == clamp_ms(now + symbol_pause(strategy_id as int, won, pause_ms as int)),
{
    add_ms(now, symbol_pause_ms_for(strategy_id, won, pause_ms))
}

pub fn symbol_cooldown_until(now: i64, won: bool, pause_ms: i64) -> (r: i64)
    ensures
        r == clamp_ms(now + symbol_pause(0, won, pause_ms as int)),
{
    symbol_cooldown_until_for(0, now, won, pause_ms)
}

/// A loss never pauses a symbol for less than a win does.
pub proof fn law_losses_pause_longer(strategy_id: int, pause_ms: int)
    ensures
        symbol_pause(strategy_id, false, pause_ms) >= symbol_pause(strategy_id, true, pause_ms),
        pause_ms > 0 ==> symbol_pause(strategy_id, false, pause_ms) >= loss_cooldown(strategy_id),
{
}

/// Until when a line keeps its symbol off the buy list; `None` where it does not.
pub open spec fn line_cooldown(ev: EventView, pause_ms: int, strategy_id: Option<i32>) -> Option<int> {
    let sid = match strategy_id {
        Some(s) => s as int,
        None => 0,
    };
    let pnl = stated_pnl(ev.pnl);
    if ev.event != "close"@ && ev.event != "flatten"@ {
        None
    } else if strategy_id is Some && ev.strategy_id != strategy_id->0 {
        None
    } else {
        match instant_of(ev.ts) {
            None => None,
            Some(ts) => Some(
                clamp_ms(
                    ts + if ev.event == "flatten"@ {
                        pause_ms
                    } else {
                        symbol_pause(sid, pnl is Some && pnl->0.pos(), pause_ms)
                    },
                ),
            ),
        }
    }
}

fn cooldown_of_line(ev: &TradeEvent, pause_ms: i64, strategy_id: Option<i32>) -> (r: Option<i64>)
    ensures
        match r {
            Some(t) => line_cooldown(ev@, pause_ms as int, strategy_id) == Some(t as int),
            None => line_cooldown(ev@, pause_ms as int, strategy_id) is None,
        },
{
    let flat: bool = same(ev.event.as_str(), "flatten");
    if !same(ev.event.as_str(), "close") && !flat {
        return None;
    }
    let mut sid: i32 = 0;
    if let Some(s) = strategy_id {
        if ev.strategy_id != s {
            return None;
        }
        sid = s;
    }
    let ts: i64 = match event_unix(ev.ts.as_str()) {
        Some(t) => t,
        None => return None,
    };
    let pnl: Option<Dec> = match &ev.pnl {
        Some(t) => read_amount(t.as_str()),
        None => None,
    };
    let won: bool = match pnl {
        Some(p) => p.is_pos(),
        None => false,
    };
    let wait: i64 = if flat {
        pause_ms
    } else {
        symbol_pause_ms_for(sid, won, pause_ms)
    };
    Some(add_ms(ts, wait))
}

/// A map with the larger of the value under a key and the given one; a missing
/// value counts as zero.
pub open spec fn put_later(m: Map<Seq<char>, i64>, key: Seq<char>, until: int) -> Map<Seq<char>, i64> {
    let cur = if m.contains_key(key) {
        m[key] as int
    } else {
        0
    };
    m.insert(
        key,
        (if cur >= until {
            cur
        } else {
            until
        }) as i64,
    )
}

/// Keeps the later of two instants under a key.
pub fn keep_later(m: &mut SymMap<i64>, key: &str, until: i64)
    ensures
        final(m)@ == put_later(old(m)@, key@, until as int),
{
    let cur: i64 = match m.get(key) {
        Some(t) => *t,
        None => 0,
    };
    m.insert(
        key,
        if cur >= until {
            cur
        } else {
            until
        },
    );
}

/// The cooldowns that the first `n` lines leave.
pub open spec fn cooldowns_after(
    events: Seq<EventView>,
    n: int,
    now: int,
    pause_ms: int,
    strategy_id: Option<i32>,
) -> Map<Seq<char>, i64>
    decreases n,
{
    if n <= 0 || pause_ms <= 0 {
        Map::empty()
    } else {
        let rest = cooldowns_after(events, n - 1, now, pause_ms, strategy_id);
        let ev = events[n - 1];
        let key = line_symbol(ev.symbol);
        match line_cooldown(ev, pause_ms, strategy_id) {
            Some(until) => if until <= now || key.len() == 0 {
                rest
            } else {
                put_later(rest, key, until)
            },
            None => rest,
        }
    }
}

/// Until when each symbol stays off the buy list after its closes. With a
/// strategy only that strategy's lines count.
pub fn cooldowns_from_events_for(
    events: &[TradeEvent],
    now: i64,
    pause_ms: i64,
    strategy_id: Option<i32>,
) -> (r: SymMap<i64>)
    ensures
        r@ == cooldowns_after(
            event_views(events@),
            events@.len() as int,
            now as int,
            pause_ms as int,
            strategy_id,
        ),
{
    let mut out: SymMap<i64> = SymMap::new();
    if pause_ms <= 0 {
        return out;
    }
    let mut i: usize = 0;
    while i < events.len()
        invariant
            i <= events@.len(),
            pause_ms > 0,
            out@ == cooldowns_after(
                event_views(events@),
                i as int,
                now as int,
                pause_ms as int,
                strategy_id,
            ),
        decreases events@.len() - i,
    {
        let ev: &TradeEvent = &events[i];
        proof {
            assert(event_views(events@)[i as int] == ev@);
        }
        if let Some(until) = cooldown_of_line(ev, pause_ms, strategy_id) {
            let key = journal_symbol(ev.symbol.as_str());
            if until > now && !key.as_str().is_empty() {
                keep_later(&mut out, key.as_str(), until);
            }
        }
        i = i + 1;
    }
    out
}

pub fn cooldowns_from_events(events: &[TradeEvent], now: i64, pause_ms: i64) -> (r: SymMap<i64>)
    ensures
        r@ == cooldowns_after(
            event_views(events@),
            events@.len() as int,
            now as int,
            pause_ms as int,
            None,
        ),
{
    cooldowns_from_events_for(events, now, pause_ms, None)
}

/// Until when a losing close pauses the desk; `None` where the line is none.
pub open spec fn line_desk_pause(
    ev: EventView,
    pause_ms: int,
    windows: Seq<HourWindow>,
    strategy_id: Option<i32>,
) -> Option<int> {
    let pnl = stated_pnl(ev.pnl);
    if ev.event != "close"@ || (strategy_id is Some && ev.strategy_id != strategy_id->0) || (pnl is Some
        && pnl->0.pos()) {
        None
    } else {
        match instant_of(ev.ts) {
            Some(ts) => Some(loss_pause_end(ts, windows, pause_ms)),
            None => None,
        }
    }
}

/// The latest pause of the desk that the first `n` lines ask for.
pub open spec fn desk_pause_after(
    events: Seq<EventView>,
    n: int,
    pause_ms: int,
    windows: Seq<HourWindow>,
    strategy_id: Option<i32>,
) -> int
    decreases n,
{
    if n <= 0 {
        0
    } else {
        let rest = desk_pause_after(events, n - 1, pause_ms, windows, strategy_id);
        match line_desk_pause(events[n - 1], pause_ms, windows, strategy_id) {
            Some(t) => if t > rest {
                t
            } else {
                rest
            },
            None => rest,
        }
    }
}

/// Until when the desk pauses after its losing closes; zero once that is over.
pub open spec fn desk_cooldown(
    events: Seq<EventView>,
    now: int,
    pause_ms: int,
    windows: Seq<HourWindow>,
    strategy_id: Option<i32>,
) -> int {
    let until = desk_pause_after(events, events.len() as int, pause_ms, windows, strategy_id);
    if pause_ms > 0 && until > now {
        until
    } else {
        0
    }
}

pub fn desk_cooldown_from_events_windows_for(
    events: &[TradeEvent],
    now: i64,
    pause_ms: i64,
    windows: &[HourWindow],
    strategy_id: Option<i32>,
) -> (r: i64)
    ensures
        r == desk_cooldown(
            event_views(events@),
            now as int,
            pause_ms as int,
            windows@,
            strategy_id,
        ),
{
    if pause_ms <= 0 {
        return 0;
    }
    let mut until: i64 = 0;
    let mut i: usize = 0;
    while i < events.len()
        invariant
            i <= events@.len(),
            until == desk_pause_after(
                event_views(events@),
                i as int,
                pause_ms as int,
                windows@,
                strategy_id,
            ),
        decreases events@.len() - i,
    {
        let ev: &TradeEvent = &events[i];
        proof {
            assert(event_views(events@)[i as int] == ev@);
        }
        let counts: bool = match strategy_id {
            Some(s) => ev.strategy_id == s,
            None => true,
        };
        if counts && same(ev.event.as_str(), "close") {
            let pnl: Option<Dec> = match &ev.pnl {
                Some(t) => read_amount(t.as_str()),
                None => None,
            };
            let won: bool = match pnl {
                Some(p) => p.is_pos(),
                None => false,
            };
            if !won {
                if let Some(ts) = event_unix(ev.ts.as_str()) {
                    let t: i64 = pause_until_after_loss(ts, windows, pause_ms);
                    if t > until {
                        until = t;
                    }
                }
            }
        }
        i = i + 1;
    }
    if until > now {
        until
    } else {
        0
    }
}

pub fn desk_cooldown_from_events_windows(
    events: &[TradeEvent],
    now: i64,
    pause_ms: i64,
    windows: &[HourWindow],
) -> (r: i64)
    ensures
        r == desk_cooldown(event_views(events@), now as int, pause_ms as int, windows@, None),
{
    desk_cooldown_from_events_windows_for(events, now, pause_ms, windows, None)
}

pub fn desk_cooldown_from_events(events: &[TradeEvent], now: i64, pause_ms: i64) -> (r: i64)
    ensures
        r == desk_cooldown(
            event_views(events@),
            now as int,
            pause_ms as int,
            default_windows(),
            None,
        ),
{
    let windows: Vec<HourWindow> = default_entry_windows();
    desk_cooldown_from_events_windows(events, now, pause_ms, windows.as_slice())
}

/// Whether a strategy is one of the desk's.
pub open spec fn is_known_strategy(id: i32) -> bool {
    1 <= id <= 5
}

/// What the lines leave open of a symbol, for telling who opened it.
pub struct OpenedBy {
    pub strategy_id: i32,
    pub qty: Dec,
}

/// A partial close: some, but not all, of what is open.
pub open spec fn closes_part(close: Dec, open: Dec) -> bool {
    close.pos() && close.lt(open)
}

/// Who opened what, after one more line.
pub open spec fn openers_step(m: Map<Seq<char>, OpenedBy>, ev: EventView) -> Option<
    Map<Seq<char>, OpenedBy>,
> {
    let key = line_symbol(ev.symbol);
    let qty = amount_or_zero(ev.qty);
    if key.len() == 0 {
        Some(m)
    } else if ev.event == "open"@ {
        if qty.pos() && is_known_strategy(ev.strategy_id) {
            Some(m.insert(key, OpenedBy { strategy_id: ev.strategy_id, qty }))
        } else {
            Some(m)
        }
    } else if ev.event == "close"@ {
        if m.contains_key(key) && closes_part(qty, m[key].qty) {
            match n_sub(Some(m[key].qty), Some(qty)) {
                Some(rest) => Some(m.insert(key, OpenedBy { qty: rest, ..m[key] })),
                None => None,
            }
        } else {
            Some(m.remove(key))
        }
    } else if ev.event == "flatten"@ {
        Some(m.remove(key))
    } else {
        Some(m)
    }
}

/// Who opened what is still open after the first `n` lines.
pub open spec fn openers(events: Seq<EventView>, n: int) -> Option<Map<Seq<char>, OpenedBy>>
    decreases n,
{
    if n <= 0 {
        Some(Map::empty())
    } else {
        match openers(events, n - 1) {
            Some(m) => openers_step(m, events[n - 1]),
            None => None,
        }
    }
}

pub open spec fn opened_views(m: Map<Seq<char>, (i32, Dec)>) -> Map<Seq<char>, OpenedBy> {
    Map::new(
        |k: Seq<char>| m.contains_key(k),
        |k: Seq<char>| OpenedBy { strategy_id: m[k].0, qty: m[k].1 },
    )
}

fn step_openers(m: &mut SymMap<(i32, Dec)>, ev: &TradeEvent)
    ensures
        openers_step(opened_views(old(m)@), ev@) == Some(opened_views(final(m)@)),
{
    let sym = journal_symbol(ev.symbol.as_str());
    let key: &str = sym.as_str();
    if key.is_empty() {
        return ;
    }
    let qty: Dec = read_amount_or_zero(ev.qty.as_str());
    let event: &str = ev.event.as_str();
    if same(event, "open") {
        if qty.is_pos() && ev.strategy_id >= 1 && ev.strategy_id <= 5 {
            m.insert(key, (ev.strategy_id, qty));
            proof {
                assert(opened_views(m@) =~= opened_views(old(m)@).insert(
                    key@,
                    OpenedBy { strategy_id: ev.strategy_id, qty },
                ));
            }
        }
    } else if same(event, "close") {
        let held: Option<(i32, Dec)> = match m.get(key) {
            Some(x) => Some(*x),
            None => None,
        };
        if let Some((sid, open)) = held {
            if qty.is_pos() && qty < open {
                if let Some(rest) = minus(Some(open), Some(qty)) {
                    m.insert(key, (sid, rest));
                    proof {
                        assert(opened_views(m@) =~= opened_views(old(m)@).insert(
                            key@,
                            OpenedBy { strategy_id: sid, qty: rest },
                        ));
                    }
                }
                return ;
            }
        }
        m.remove(key);
        proof {
            assert(opened_views(m@) =~= opened_views(old(m)@).remove(key@));
        }
    } else if same(event, "flatten") {
        m.remove(key);
        proof {
            assert(opened_views(m@) =~= opened_views(old(m)@).remove(key@));
        }
    }
}

fn unmatched_open_strategy_from(events: &[TradeEvent], want: &str) -> (r: Option<i32>)
    ensures
        openers(event_views(events@), events@.len() as int) matches Some(m) && (match r {
            Some(sid) => m.contains_key(want@) && m[want@].strategy_id == sid,
            None => !m.contains_key(want@),
        }),
{
    let mut m: SymMap<(i32, Dec)> = SymMap::new();
    let mut i: usize = 0;
    proof {
        assert(opened_views(m@) =~= Map::<Seq<char>, OpenedBy>::empty());
    }
    while i < events.len()
        invariant
            i <= events@.len(),
            openers(event_views(events@), i as int) == Some(opened_views(m@)),
        decreases events@.len() - i,
    {
        proof {
            assert(event_views(events@)[i as int] == events@[i as int]@);
        }
        step_openers(&mut m, &events[i]);
        i = i + 1;
    }
    match m.get(want) {
        Some(x) => Some(x.0),
        None => None,
    }
}

/// Which strategy opened a symbol: the lines' unmatched open, else what is
/// remembered of the open trade, else the running strategy.
pub open spec fn opener_of(
    events: Seq<EventView>,
    meta: Map<Seq<char>, MetaView>,
    symbol: Seq<char>,
    fallback: i32,
) -> Option<i32> {
    let want = line_symbol(symbol);
    if want.len() == 0 {
        Some(fallback)
    } else {
        match openers(events, events.len() as int) {
            None => None,
            Some(m) => if m.contains_key(want) {
                Some(m[want].strategy_id)
            } else if meta.contains_key(upper(want)) && is_known_strategy(
                meta[upper(want)].strategy_id,
            ) {
                Some(meta[upper(want)].strategy_id)
            } else {
                Some(fallback)
            },
        }
    }
}

pub fn opener_strategy_id_from(
    events: &[TradeEvent],
    meta: &OpenMeta,
    symbol: &str,
    fallback: i32,
) -> (r: i32)
    ensures
        opener_of(event_views(events@), meta@, symbol@, fallback) == Some(r),
{
    let want = journal_symbol(symbol);
    if want.as_str().is_empty() {
        return fallback;
    }
    if let Some(sid) = unmatched_open_strategy_from(events, want.as_str()) {
        return sid;
    }
    if let Some(m) = meta.get(want.as_str()) {
        if m.strategy_id >= 1 && m.strategy_id <= 5 {
            return m.strategy_id;
        }
    }
    fallback
}

/// What the lines leave open of a symbol.
pub struct OpenRow {
    pub qty: Dec,
    pub entry: Dec,
    pub stop_loss: Option<Dec>,
    pub take_profit: Option<Dec>,
    pub opened: Option<int>,
}

/// A positive price of a line.
pub open spec fn line_price(t: Option<Seq<char>>) -> Option<Dec> {
    match t {
        Some(x) => match amount(x) {
            Some(d) => if d.pos() {
                Some(d)
            } else {
                None
            },
            None => None,
        },
        None => None,
    }
}

fn read_line_price(t: &Option<String>) -> (r: Option<Dec>)
    ensures
        r == line_price(opt_view(*t)),
{
    match t {
        Some(x) => match read_amount(x.as_str()) {
            Some(d) => if d.is_pos() {
                Some(d)
            } else {
                None
            },
            None => None,
        },
        None => None,
    }
}

/// What is open after one more line.
pub open spec fn book_step(m: Map<Seq<char>, OpenRow>, ev: EventView) -> Option<
    Map<Seq<char>, OpenRow>,
> {
    let key = line_symbol(ev.symbol);
    let qty = amount_or_zero(ev.qty);
    let entry = amount_or_zero(ev.price);
    let sl = line_price(ev.stop_loss);
    let tp = line_price(ev.take_profit);
    if key.len() == 0 {
        Some(m)
    } else if ev.event == "open"@ {
        if qty.pos() && entry.pos() {
            Some(
                m.insert(
                    key,
                    OpenRow {
                        qty,
                        entry,
                        stop_loss: sl,
                        take_profit: tp,
                        opened: instant_of(ev.ts),
                    },
                ),
            )
        } else {
            Some(m)
        }
    } else if ev.event == "amend"@ {
        if m.contains_key(key) && sl is Some {
            Some(
                m.insert(
                    key,
                    OpenRow {
                        stop_loss: sl,
                        take_profit: if tp is Some {
                            tp
                        } else {
                            m[key].take_profit
                        },
                        ..m[key]
                    },
                ),
            )
        } else {
            Some(m)
        }
    } else if ev.event == "close"@ {
        if m.contains_key(key) && closes_part(qty, m[key].qty) {
            match n_sub(Some(m[key].qty), Some(qty)) {
                Some(rest) => Some(m.insert(key, OpenRow { qty: rest, ..m[key] })),
                None => None,
            }
        } else {
            Some(m.remove(key))
        }
    } else if ev.event == "flatten"@ {
        Some(m.remove(key))
    } else {
        Some(m)
    }
}

/// What is open after the first `n` lines.
pub open spec fn open_book(events: Seq<EventView>, n: int) -> Option<Map<Seq<char>, OpenRow>>
    decreases n,
{
    if n <= 0 {
        Some(Map::empty())
    } else {
        match open_book(events, n - 1) {
            Some(m) => book_step(m, events[n - 1]),
            None => None,
        }
    }
}

/// A position as a row of the book.
pub open spec fn row_of_position(p: Position) -> OpenRow {
    OpenRow {
        qty: p.qty,
        entry: p.entry_price,
        stop_loss: p.stop_loss,
        take_profit: p.take_profit,
        opened: match p.opened_bar_time {
            Some(t) => Some(t as int),
            None => None,
        },
    }
}

/// Whether a position is a plain long of a symbol, as the journal restores it: its
/// quantity and its entry are positive.
pub open spec fn is_restored(p: Position, symbol: Seq<char>) -> bool {
    &&& p.symbol@ == symbol
    &&& p.side == Side::Long
    &&& p.unrealized_pnl == dec(0, 0)
    &&& p.leverage == 0
    &&& p.qty.pos()
    &&& p.entry_price.pos()
}

/// The rows of a map of positions.
pub open spec fn book_view(m: Map<Seq<char>, Position>) -> Map<Seq<char>, OpenRow> {
    Map::new(|k: Seq<char>| m.contains_key(k), |k: Seq<char>| row_of_position(m[k]))
}

/// Whether every position of a map is a plain long of its key.
pub open spec fn all_restored(m: Map<Seq<char>, Position>) -> bool {
    forall|k: Seq<char>| #[trigger] m.contains_key(k) ==> is_restored(m[k], k)
}

fn step_book(m: &mut SymMap<Position>, ev: &TradeEvent)
    requires
        all_restored(old(m)@),
    ensures
        book_step(book_view(old(m)@), ev@) == Some(book_view(final(m)@)),
        all_restored(final(m)@),
{
    let sym = journal_symbol(ev.symbol.as_str());
    let key: &str = sym.as_str();
    if key.is_empty() {
        return ;
    }
    let event: &str = ev.event.as_str();
    let qty: Dec = read_amount_or_zero(ev.qty.as_str());
    if same(event, "open") {
        let entry: Dec = read_amount_or_zero(ev.price.as_str());
        if qty.is_pos() && entry.is_pos() {
            let mut pos = Position::long(
                key,
                qty,
                entry,
                read_line_price(&ev.stop_loss),
                read_line_price(&ev.take_profit),
            );
            pos.opened_bar_time = event_unix(ev.ts.as_str());
            let ghost row = row_of_position(pos);
            m.insert(key, pos);
            proof {
                assert(book_view(m@) =~= book_view(old(m)@).insert(key@, row));
            }
        }
    } else if same(event, "amend") {
        let held: Option<Position> = match m.get(key) {
            Some(p) => Some(p.clone()),
            None => None,
        };
        if let Some(mut pos) = held {
            if let Some(sl) = read_line_price(&ev.stop_loss) {
                pos.stop_loss = Some(sl);
                if let Some(tp) = read_line_price(&ev.take_profit) {
                    pos.take_profit = Some(tp);
                }
                let ghost row = row_of_position(pos);
                m.insert(key, pos);
                proof {
                    assert(book_view(m@) =~= book_view(old(m)@).insert(key@, row));
                }
            }
        }
    } else if same(event, "close") {
        let held: Option<Position> = match m.get(key) {
            Some(p) => Some(p.clone()),
            None => None,
        };
        if let Some(mut pos) = held {
            if qty.is_pos() && qty < pos.qty {
                if let Some(rest) = minus(Some(pos.qty), Some(qty)) {
                    pos.qty = rest;
                    let ghost row = row_of_position(pos);
                    m.insert(key, pos);
                    proof {
                        assert(book_view(m@) =~= book_view(old(m)@).insert(key@, row));
                    }
                }
                return ;
            }
        }
        m.remove(key);
        proof {
            assert(book_view(m@) =~= book_view(old(m)@).remove(key@));
        }
    } else if same(event, "flatten") {
        m.remove(key);
        proof {
            assert(book_view(m@) =~= book_view(old(m)@).remove(key@));
        }
    }
}

/// Whether a list holds exactly the positions of a book, each symbol once.
pub open spec fn lists_book(v: Seq<Position>, book: Map<Seq<char>, OpenRow>) -> bool {
    &&& crate::models::distinct_symbols(v)
    &&& forall|i: int|
        0 <= i < v.len() ==> {
            let p = #[trigger] v[i];
            is_restored(p, p.symbol@) && book.contains_key(p.symbol@) && book[p.symbol@]
                == row_of_position(p)
        }
    &&& forall|k: Seq<char>|
        #[trigger] book.contains_key(k) ==> crate::models::with_symbol(v, k) is Some
}

fn list_positions(m: &SymMap<Position>) -> (r: Vec<Position>)
    requires
        all_restored(m@),
    ensures
        lists_book(r@, book_view(m@)),
{
    let mut out: Vec<Position> = Vec::new();
    let n: usize = m.len();
    let mut i: usize = 0;
    while i < n
        invariant
            n == m.list().len(),
            i <= n,
            all_restored(m@),
            crate::models::distinct_symbols(out@),
            forall|j: int|
                0 <= j < out@.len() ==> {
                    let p = #[trigger] out@[j];
                    m@.contains_key(p.symbol@) && m@[p.symbol@] == p
                },
            forall|j: int|
                0 <= j < i ==> crate::models::with_symbol(
                    out@,
                    (#[trigger] m.list()[j]).0@,
                ) is Some,
        decreases n - i,
    {
        let k: &str = m.key_at(i);
        let ghost before = out@;
        if crate::models::find_symbol(out.as_slice(), k).is_none() {
            proof {
                crate::symbols::lemma_listed_key(m.list(), i as int);
                m.lemma_view(k@);
                assert forall|j: int| 0 <= j < out@.len() implies (#[trigger] out@[j]).symbol@
                    != k@ by {
                    if out@[j].symbol@ == k@ {
                        crate::models::lemma_found(out@, k@, j);
                    }
                }
            }
            match m.get(k) {
                Some(p) => {
                    out.push(p.clone());
                    proof {
                        let p = out@.last();
                        assert(p.symbol@ == k@);
                        crate::models::lemma_found(out@, k@, out@.len() - 1);
                        assert forall|j: int| 0 <= j < i implies crate::models::with_symbol(
                            out@,
                            (#[trigger] m.list()[j]).0@,
                        ) is Some by {
                            lemma_still_found(before, p, m.list()[j].0@);
                        }
                    }
                },
                None => {
                    proof {
                        assert(false);
                    }
                },
            }
        }
        i = i + 1;
    }
    proof {
        let book = book_view(m@);
        assert forall|k: Seq<char>| #[trigger] book.contains_key(k) implies
            crate::models::with_symbol(out@, k) is Some by {
            m.lemma_view(k);
            let j = crate::symbols::lemma_key_place(m.list(), k);
            assert(m.list()[j].0@ == k);
        }
    }
    out
}

proof fn lemma_still_found(v: Seq<Position>, p: Position, symbol: Seq<char>)
    requires
        crate::models::with_symbol(v, symbol) is Some,
    ensures
        crate::models::with_symbol(v.push(p), symbol) is Some,
    decreases v.len(),
{
    if v[0].symbol@ != symbol {
        lemma_still_found(v.drop_first(), p, symbol);
        assert(v.push(p).drop_first() =~= v.drop_first().push(p));
    }
}

/// What the lines leave open: the last open of each symbol without a later full
/// close. A partial close keeps the remainder, which is positive. The order of the
/// list is that of the first opens, and is not stated.
pub fn unmatched_open_positions_from(events: &[TradeEvent]) -> (r: Vec<Position>)
    ensures
        open_book(event_views(events@), events@.len() as int) matches Some(book) && lists_book(r@, book),
{
    let mut m: SymMap<Position> = SymMap::new();
    let mut i: usize = 0;
    proof {
        assert(book_view(m@) =~= Map::<Seq<char>, OpenRow>::empty());
    }
    while i < events.len()
        invariant
            i <= events@.len(),
            all_restored(m@),
            open_book(event_views(events@), i as int) == Some(book_view(m@)),
        decreases events@.len() - i,
    {
        proof {
            assert(event_views(events@)[i as int] == events@[i as int]@);
        }
        step_book(&mut m, &events[i]);
        i = i + 1;
    }
    list_positions(&m)
}

/// The lines of one strategy; all lines without one.
pub open spec fn scoped(events: Seq<EventView>, strategy_id: Option<i32>) -> Seq<EventView> {
    match strategy_id {
        Some(sid) => events.filter(|e: EventView| e.strategy_id == sid),
        None => events,
    }
}

fn scope_events(events: &[TradeEvent], strategy_id: Option<i32>) -> (r: Vec<TradeEvent>)
    ensures
        event_views(r@) == scoped(event_views(events@), strategy_id),
{
    let mut out: Vec<TradeEvent> = Vec::new();
    let ghost all = event_views(events@);
    let mut i: usize = 0;
    proof {
        reveal(Seq::filter);
        assert(event_views(out@) =~= scoped(all.take(0), strategy_id));
    }
    while i < events.len()
        invariant
            i <= events@.len(),
            all == event_views(events@),
            event_views(out@) == scoped(all.take(i as int), strategy_id),
        decreases events@.len() - i,
    {
        let ghost before = event_views(out@);
        let keep: bool = match strategy_id {
            Some(s) => events[i].strategy_id == s,
            None => true,
        };
        proof {
            reveal(Seq::filter);
            assert(all.take(i as int + 1).drop_last() =~= all.take(i as int));
            assert(all.take(i as int + 1) =~= all.take(i as int).push(all[i as int]));
        }
        if keep {
            out.push(events[i].clone());
            proof {
                assert(event_views(out@) =~= before.push(all[i as int]));
            }
        }
        i = i + 1;
    }
    proof {
        assert(all.take(i as int) =~= all);
    }
    out
}

/// What the lines of one strategy leave open.
pub fn unmatched_open_positions_from_for(events: &[TradeEvent], strategy_id: Option<i32>) -> (r: Vec<
    Position,
>)
    ensures
        ({
            let lines = scoped(event_views(events@), strategy_id);
            open_book(lines, lines.len() as int) matches Some(book) && lists_book(r@, book)
        }),
{
    let lines: Vec<TradeEvent> = scope_events(events, strategy_id);
    unmatched_open_positions_from(lines.as_slice())
}

/// An optional number as a line prints it.
pub open spec fn opt_printed(x: Option<Dec>) -> Option<Seq<char>> {
    match x {
        Some(d) => Some(decimal_text(d)),
        None => None,
    }
}

fn print_opt(x: Option<Dec>) -> (r: Option<String>)
    ensures
        opt_view(r) == opt_printed(x),
{
    match x {
        Some(d) => Some(d.text()),
        None => None,
    }
}

/// The line of a close.
pub open spec fn close_line(
    ts: Seq<char>,
    strategy_id: i32,
    symbol: Seq<char>,
    qty: Dec,
    exit_price: Dec,
    reason: Seq<char>,
    pnl: Dec,
    fee: Dec,
    live: bool,
    stop_loss: Option<Dec>,
    take_profit: Option<Dec>,
    m: CloseView,
) -> EventView {
    EventView {
        ts,
        event: "close"@,
        strategy_id,
        symbol,
        qty: decimal_text(qty),
        price: decimal_text(exit_price),
        reason,
        pnl: Some(decimal_text(pnl)),
        fee: Some(decimal_text(fee)),
        stop_loss: opt_printed(stop_loss),
        take_profit: opt_printed(take_profit),
        live,
        initial_risk_usdt: m.initial_risk_usdt,
        initial_r: m.initial_r,
        final_r: m.final_r,
        mfe_r: m.mfe_r,
        mae_r: m.mae_r,
        mfe_usdt: m.mfe_usdt,
        mae_usdt: m.mae_usdt,
        hold_sec: m.hold_sec,
        time_to_mfe_sec: m.time_to_mfe_sec,
        time_to_1r_sec: m.time_to_1r_sec,
        scaled_at_1r: m.scaled_at_1r,
        btc_regime: m.btc_regime,
        ..blank_event()
    }
}

/// What a close says of the remembered trade.
pub open spec fn metrics_at(
    store: Map<Seq<char>, MetaView>,
    symbol: Seq<char>,
    pnl: Dec,
    now: i64,
    partial: bool,
) -> Option<CloseView> {
    if store.contains_key(upper(symbol)) {
        close_metrics(store[upper(symbol)], Some(pnl), now, partial)
    } else {
        Some(no_metrics())
    }
}

/// The store after a close.
pub open spec fn store_closed(store: Map<Seq<char>, MetaView>, symbol: Seq<char>, partial: bool) -> Map<
    Seq<char>,
    MetaView,
> {
    if partial {
        store_scaled(store, symbol)
    } else {
        store.remove(upper(symbol))
    }
}

/// The line of a close, tagged with the strategy that opened the symbol. A full
/// close forgets the open trade, a partial one marks it as half sold.
pub fn record_close(
    events: &[TradeEvent],
    meta: &mut OpenMeta,
    ts: &str,
    now: i64,
    strategy_id: i32,
    symbol: &str,
    qty: Dec,
    entry: Dec,
    exit_price: Dec,
    reason: &str,
    live: bool,
    stop_loss: Option<Dec>,
    take_profit: Option<Dec>,
    partial: bool,
) -> (r: Option<TradeEvent>)
    ensures
        match (
            opener_of(event_views(events@), old(meta)@, symbol@, strategy_id),
            net_long_pnl(entry, exit_price, qty, taker()),
            crate::money::legs_fee(entry, exit_price, qty, taker()),
        ) {
            (Some(sid), Some(pnl), Some(fee)) => match (
                r,
                metrics_at(old(meta)@, symbol@, pnl, now, partial),
            ) {
                (Some(ev), Some(m)) => {
                    &&& ev@ == close_line(
                        ts@,
                        sid,
                        symbol@,
                        qty,
                        exit_price,
                        reason@,
                        pnl,
                        fee,
                        live,
                        stop_loss,
                        take_profit,
                        m,
                    )
                    &&& final(meta)@ == store_closed(old(meta)@, symbol@, partial)
                },
                (None, None) => true,
                _ => false,
            },
            _ => r is None,
        },
{
    let sid: i32 = opener_strategy_id_from(events, meta, symbol, strategy_id);
    let (pnl, fee) = long_pnl(entry, exit_price, qty, taker_fee())?;
    let m: CloseMetrics = meta.metrics_for_close(symbol, Some(pnl), now, partial)?;
    proof {
        assert(meta@ =~= store_closed(old(meta)@, symbol@, partial));
    }
    let mut ev: TradeEvent = TradeEvent::default();
    ev.ts = own(ts);
    ev.event = own("close");
    ev.strategy_id = sid;
    ev.symbol = own(symbol);
    ev.qty = qty.text();
    ev.price = exit_price.text();
    ev.reason = own(reason);
    ev.pnl = Some(pnl.text());
    ev.fee = Some(fee.text());
    ev.stop_loss = print_opt(stop_loss);
    ev.take_profit = print_opt(take_profit);
    ev.live = live;
    ev.initial_risk_usdt = m.initial_risk_usdt;
    ev.initial_r = m.initial_r;
    ev.final_r = m.final_r;
    ev.mfe_r = m.mfe_r;
    ev.mae_r = m.mae_r;
    ev.mfe_usdt = m.mfe_usdt;
    ev.mae_usdt = m.mae_usdt;
    ev.hold_sec = m.hold_sec;
    ev.time_to_mfe_sec = m.time_to_mfe_sec;
    ev.time_to_1r_sec = m.time_to_1r_sec;
    ev.scaled_at_1r = m.scaled_at_1r;
    ev.btc_regime = m.btc_regime;
    Some(ev)
}

/// The line of an open.
pub open spec fn open_line(
    ts: Seq<char>,
    strategy_id: i32,
    symbol: Seq<char>,
    qty: Dec,
    price: Dec,
    reason: Seq<char>,
    live: bool,
    stop_loss: Option<Dec>,
    take_profit: Option<Dec>,
    snap: EntryView,
    risk: Option<Dec>,
) -> EventView {
    EventView {
        ts,
        event: "open"@,
        strategy_id,
        symbol,
        qty: decimal_text(qty),
        price: decimal_text(price),
        reason,
        stop_loss: opt_printed(stop_loss),
        take_profit: opt_printed(take_profit),
        live,
        ret_24h: snap.ret_24h,
        ret_1h: snap.ret_1h,
        ret_4h: snap.ret_4h,
        quote_volume: snap.quote_volume,
        near_high_frac: snap.near_high_frac,
        pullback_pct: snap.pullback_pct,
        stop_distance: snap.stop_distance,
        risk_pct: snap.risk_pct,
        btc_ret_1h: snap.btc_ret_1h,
        btc_regime: snap.btc_regime,
        initial_risk_usdt: opt_printed(risk),
        initial_r: match risk {
            Some(_) => Some("1"@),
            None => None,
        },
        ..blank_event()
    }
}

/// The risk of an open; the inner `None` without a stop or a risk.
pub open spec fn open_risk(price: Dec, stop_loss: Option<Dec>, qty: Dec) -> Option<Option<Dec>> {
    match stop_loss {
        Some(sl) => first_risk(price, sl, qty),
        None => Some(None),
    }
}

pub open spec fn snap_view(snap: Option<&EntrySnapshot>) -> EntryView {
    match snap {
        Some(s) => s@,
        None => no_entry(),
    }
}

/// The line of an open.
pub fn record_open(
    ts: &str,
    strategy_id: i32,
    symbol: &str,
    qty: Dec,
    price: Dec,
    reason: &str,
    live: bool,
    stop_loss: Option<Dec>,
    take_profit: Option<Dec>,
    entry_snap: Option<&EntrySnapshot>,
) -> (r: Option<TradeEvent>)
    ensures
        match (r, open_risk(price, stop_loss, qty)) {
            (Some(ev), Some(risk)) => ev@ == open_line(
                ts@,
                strategy_id,
                symbol@,
                qty,
                price,
                reason@,
                live,
                stop_loss,
                take_profit,
                snap_view(entry_snap),
                risk,
            ),
            (None, None) => true,
            _ => false,
        },
{
    let risk: Option<Dec> = match stop_loss {
        Some(sl) => initial_risk_usdt(price, sl, qty)?,
        None => None,
    };
    let snap: EntrySnapshot = match entry_snap {
        Some(s) => s.clone(),
        None => EntrySnapshot::default(),
    };
    let mut ev: TradeEvent = TradeEvent::default();
    ev.ts = own(ts);
    ev.event = own("open");
    ev.strategy_id = strategy_id;
    ev.symbol = own(symbol);
    ev.qty = qty.text();
    ev.price = price.text();
    ev.reason = own(reason);
    ev.stop_loss = print_opt(stop_loss);
    ev.take_profit = print_opt(take_profit);
    ev.live = live;
    ev.ret_24h = snap.ret_24h;
    ev.ret_1h = snap.ret_1h;
    ev.ret_4h = snap.ret_4h;
    ev.quote_volume = snap.quote_volume;
    ev.near_high_frac = snap.near_high_frac;
    ev.pullback_pct = snap.pullback_pct;
    ev.stop_distance = snap.stop_distance;
    ev.risk_pct = snap.risk_pct;
    ev.btc_ret_1h = snap.btc_ret_1h;
    ev.btc_regime = snap.btc_regime;
    if let Some(x) = risk {
        ev.initial_risk_usdt = Some(x.text());
        ev.initial_r = Some(own("1"));
    }
    Some(ev)
}

/// The line of a symbol that was flattened.
pub open spec fn flatten_line(
    ts: Seq<char>,
    strategy_id: i32,
    symbol: Seq<char>,
    live: bool,
    reason: Seq<char>,
) -> EventView {
    EventView {
        ts,
        event: "flatten"@,
        strategy_id,
        symbol,
        qty: "0"@,
        price: "0"@,
        reason,
        live,
        ..blank_event()
    }
}

/// Who opened a flattened symbol. The lines of a flatten name a symbol each, so
/// that an earlier one of the same flatten counts for a symbol that comes twice.
pub open spec fn flatten_lines(
    events: Seq<EventView>,
    meta: Map<Seq<char>, MetaView>,
    ts: Seq<char>,
    strategy_id: i32,
    closed: Seq<Seq<char>>,
    live: bool,
    reason: Seq<char>,
    n: int,
) -> Option<Seq<EventView>>
    decreases n,
{
    if n <= 0 {
        Some(Seq::empty())
    } else {
        match flatten_lines(events, meta, ts, strategy_id, closed, live, reason, n - 1) {
            None => None,
            Some(rest) => match opener_of(events + rest, meta, closed[n - 1], strategy_id) {
                Some(sid) => Some(rest.push(flatten_line(ts, sid, closed[n - 1], live, reason))),
                None => None,
            },
        }
    }
}

fn copy_events(v: &[TradeEvent]) -> (r: Vec<TradeEvent>)
    ensures
        event_views(r@) == event_views(v@),
{
    scope_events(v, None)
}

/// The lines of a flatten, each tagged with the strategy that opened its symbol.
pub fn record_flatten(
    events: &[TradeEvent],
    meta: &OpenMeta,
    ts: &str,
    strategy_id: i32,
    closed: &[String],
    live: bool,
    reason: &str,
) -> (r: Vec<TradeEvent>)
    ensures
        flatten_lines(
            event_views(events@),
            meta@,
            ts@,
            strategy_id,
            crate::text::views(closed@),
            live,
            reason@,
            closed@.len() as int,
        ) == Some(event_views(r@)),
{
    let ghost base = event_views(events@);
    let mut all: Vec<TradeEvent> = copy_events(events);
    let mut out: Vec<TradeEvent> = Vec::new();
    let mut i: usize = 0;
    proof {
        assert(event_views(out@) =~= Seq::<EventView>::empty());
        assert(base + event_views(out@) =~= base);
    }
    while i < closed.len()
        invariant
            i <= closed@.len(),
            base == event_views(events@),
            event_views(all@) == base + event_views(out@),
            flatten_lines(
                base,
                meta@,
                ts@,
                strategy_id,
                crate::text::views(closed@),
                live,
                reason@,
                i as int,
            ) == Some(event_views(out@)),
        decreases closed@.len() - i,
    {
        let item: &str = closed[i].as_str();
        proof {
            assert(crate::text::views(closed@)[i as int] == item@);
        }
        let sid: i32 = opener_strategy_id_from(all.as_slice(), meta, item, strategy_id);
        let mut ev: TradeEvent = TradeEvent::default();
        ev.ts = own(ts);
        ev.event = own("flatten");
        ev.strategy_id = sid;
        ev.symbol = own(item);
        ev.qty = own("0");
        ev.price = own("0");
        ev.reason = own(reason);
        ev.live = live;
        let ghost before = event_views(out@);
        let ghost whole = event_views(all@);
        let ghost line = ev@;
        all.push(ev.clone());
        out.push(ev);
        proof {
            assert(event_views(out@) =~= before.push(line));
            assert(event_views(all@) =~= whole.push(line));
            assert((base + before).push(line) =~= base + before.push(line));
        }
        i = i + 1;
    }
    out
}

/// The line of a moved stop.
pub fn record_amend(
    ts: &str,
    strategy_id: i32,
    symbol: &str,
    stop_loss: Dec,
    take_profit: Option<Dec>,
    live: bool,
    reason: &str,
) -> (r: TradeEvent)
    ensures
        r@ == (EventView {
            ts: ts@,
            event: "amend"@,
            strategy_id,
            symbol: symbol@,
            reason: reason@,
            stop_loss: Some(decimal_text(stop_loss)),
            take_profit: opt_printed(take_profit),
            live,
            ..blank_event()
        }),
{
    let mut ev: TradeEvent = TradeEvent::default();
    ev.ts = own(ts);
    ev.event = own("amend");
    ev.strategy_id = strategy_id;
    ev.symbol = own(symbol);
    ev.reason = own(reason);
    ev.stop_loss = Some(stop_loss.text());
    ev.take_profit = print_opt(take_profit);
    ev.live = live;
    ev
}

/// The later of two maps of instants, key by key; a missing value counts as zero.
pub open spec fn merged_later(m: Map<Seq<char>, i64>, add: Map<Seq<char>, i64>) -> Map<Seq<char>, i64> {
    Map::new(
        |k: Seq<char>| m.contains_key(k) || add.contains_key(k),
        |k: Seq<char>|
            if add.contains_key(k) {
                put_later(m, k, add[k] as int)[k]
            } else {
                m[k]
            },
    )
}

fn merge_later(m: &mut SymMap<i64>, add: &SymMap<i64>)
    ensures
        final(m)@ == merged_later(old(m)@, add@),
{
    let n: usize = add.len();
    let mut i: usize = 0;
    let ghost start = m@;
    proof {
        assert forall|k: Seq<char>| #[trigger] add@.contains_key(k) <==> crate::symbols::lookup(
            add.list(),
            k,
        ) is Some by {
            add.lemma_view(k);
        }
    }
    while i < n
        invariant
            n == add.list().len(),
            i <= n,
            start == old(m)@,
            forall|k: Seq<char>|
                #![trigger m@.contains_key(k)]
                m@.contains_key(k) <==> start.contains_key(k) || exists|j: int|
                    0 <= j < i && (#[trigger] add.list()[j]).0@ == k,
            forall|k: Seq<char>|
                #![trigger m@[k]]
                m@.contains_key(k) ==> m@[k] == (if exists|j: int|
                    0 <= j < i && (#[trigger] add.list()[j]).0@ == k {
                    put_later(start, k, add@[k] as int)[k]
                } else {
                    start[k]
                }),
        decreases n - i,
    {
        let k: &str = add.key_at(i);
        let ghost mid = m@;
        proof {
            crate::symbols::lemma_listed_key(add.list(), i as int);
            add.lemma_view(k@);
        }
        if let Some(t) = add.get(k) {
            keep_later(m, k, *t);
        }
        proof {
            assert(add.list()[i as int].0@ == k@);
            assert forall|q: Seq<char>|
                #![trigger m@.contains_key(q)]
                m@.contains_key(q) <==> start.contains_key(q) || exists|j: int|
                    0 <= j < i + 1 && (#[trigger] add.list()[j]).0@ == q by {
                assert(mid.contains_key(q) <==> start.contains_key(q) || exists|j: int|
                    0 <= j < i && (#[trigger] add.list()[j]).0@ == q);
            }
            assert forall|q: Seq<char>|
                #![trigger m@[q]]
                m@.contains_key(q) implies m@[q] == (if exists|j: int|
                    0 <= j < i + 1 && (#[trigger] add.list()[j]).0@ == q {
                    put_later(start, q, add@[q] as int)[q]
                } else {
                    start[q]
                }) by {
                if q == k@ {
                    if mid.contains_key(q) {
                        assert(mid[q] == (if exists|j: int|
                            0 <= j < i && (#[trigger] add.list()[j]).0@ == q {
                            put_later(start, q, add@[q] as int)[q]
                        } else {
                            start[q]
                        }));
                    }
                } else {
                    assert(m@[q] == mid[q]);
                    assert(mid.contains_key(q));
                }
            }
        }
        i = i + 1;
    }
    proof {
        let goal = merged_later(start, add@);
        assert forall|k: Seq<char>| goal.contains_key(k) <==> #[trigger] m@.contains_key(k) by {
            if add@.contains_key(k) {
                let j = crate::symbols::lemma_key_place(add.list(), k);
                assert(add.list()[j].0@ == k);
            }
            if exists|j: int| 0 <= j < n && (#[trigger] add.list()[j]).0@ == k {
                let j = choose|j: int| 0 <= j < n && (#[trigger] add.list()[j]).0@ == k;
                crate::symbols::lemma_listed_key(add.list(), j);
            }
        }
        assert forall|k: Seq<char>| goal.contains_key(k) implies #[trigger] m@[k] == goal[k] by {
            if add@.contains_key(k) {
                let j = crate::symbols::lemma_key_place(add.list(), k);
                assert(add.list()[j].0@ == k);
            }
            if exists|j: int| 0 <= j < n && (#[trigger] add.list()[j]).0@ == k {
                let j = choose|j: int| 0 <= j < n && (#[trigger] add.list()[j]).0@ == k;
                crate::symbols::lemma_listed_key(add.list(), j);
            }
            assert(m@.contains_key(k));
        }
        assert(m@ =~= goal);
    }
}

/// A state that sits out the pauses of the lines.
pub open spec fn cooldowns_seeded(s: EngineStateView, lines: Seq<EventView>, now: int, pause_ms: int) -> EngineStateView {
    let pause = if pause_ms > 0 {
        pause_ms
    } else {
        COOLDOWN_MS as int
    };
    let sid = Some(s.strategy_id);
    let desk = desk_cooldown(lines, now, pause, default_windows(), sid);
    EngineStateView {
        cooldowns: merged_later(
            s.cooldowns,
            cooldowns_after(lines, lines.len() as int, now, pause, sid),
        ),
        cooldown_until: (if desk > s.cooldown_until {
            desk
        } else {
            s.cooldown_until as int
        }) as i64,
        ..s
    }
}

/// Takes the cooldowns of the journal's lines into the desk's state.
pub fn seed_cooldowns(state: &mut EngineState, events: &[TradeEvent], now: i64, pause_ms: i64)
    ensures
        final(state)@ == cooldowns_seeded(
            old(state)@,
            event_views(events@),
            now as int,
            pause_ms as int,
        ),
{
    let pause: i64 = if pause_ms > 0 {
        pause_ms
    } else {
        COOLDOWN_MS
    };
    let sid: Option<i32> = Some(state.strategy_id);
    let add: SymMap<i64> = cooldowns_from_events_for(events, now, pause, sid);
    merge_later(&mut state.cooldowns, &add);
    let windows: Vec<HourWindow> = default_entry_windows();
    let desk: i64 = desk_cooldown_from_events_windows_for(
        events,
        now,
        pause,
        windows.as_slice(),
        sid,
    );
    if desk > state.cooldown_until {
        state.cooldown_until = desk;
    }
}

/// An open that is fully closed or flattened leaves nothing open of its symbol,
/// and an open makes it open with what the line says.
pub proof fn law_close_undoes_open(book: Map<Seq<char>, OpenRow>, opened: EventView, closed: EventView)
    requires
        opened.event == "open"@,
        amount_or_zero(opened.qty).pos(),
        amount_or_zero(opened.price).pos(),
        line_symbol(opened.symbol).len() > 0,
        line_symbol(closed.symbol) == line_symbol(opened.symbol),
        closed.event == "flatten"@ || (closed.event == "close"@ && !closes_part(
            amount_or_zero(closed.qty),
            amount_or_zero(opened.qty),
        )),
    ensures
        ({
            let key = line_symbol(opened.symbol);
            let held = book_step(book, opened);
            &&& held is Some
            &&& held->0.contains_key(key)
            &&& held->0[key].qty == amount_or_zero(opened.qty)
            &&& held->0[key].entry == amount_or_zero(opened.price)
            &&& book_step(held->0, closed) == Some(book.remove(key))
        }),
{
    reveal_strlit("open");
    reveal_strlit("close");
    reveal_strlit("amend");
    reveal_strlit("flatten");
    let key = line_symbol(opened.symbol);
    assert("open"@.len() == 4 && "close"@.len() == 5 && "flatten"@.len() == 7 && "amend"@.len() == 5);
    assert("amend"@[0] == 'a' && "close"@[0] == 'c');
    let held = book_step(book, opened)->0;
    assert(held.remove(key) =~= book.remove(key));
}

/// A moment, as a number and as lines print it.
#[derive(Debug)]
pub struct Stamp {
    pub now: i64,
    pub ts: String,
}

/// A moment with its print as characters.
pub struct StampView {
    pub now: i64,
    pub ts: Seq<char>,
}

impl View for Stamp {
    type V = StampView;

    open spec fn view(&self) -> StampView {
        StampView { now: self.now, ts: self.ts@ }
    }
}

/// The lines of the journal and what is remembered of the open trades. What is
/// added to the lines is what is to be appended to the file.
#[derive(Debug)]
pub struct Ledger {
    pub events: Vec<TradeEvent>,
    pub meta: OpenMeta,
}

/// The ledger as mathematical values.
pub struct LedgerView {
    pub events: Seq<EventView>,
    pub meta: Map<Seq<char>, MetaView>,
}

impl View for Ledger {
    type V = LedgerView;

    open spec fn view(&self) -> LedgerView {
        LedgerView { events: event_views(self.events@), meta: self.meta@ }
    }
}

/// The ledger with a close.
pub open spec fn ledger_closed(
    l: LedgerView,
    at: StampView,
    strategy_id: i32,
    symbol: Seq<char>,
    qty: Dec,
    entry: Dec,
    exit_price: Dec,
    reason: Seq<char>,
    live: bool,
    stop_loss: Option<Dec>,
    take_profit: Option<Dec>,
    partial: bool,
) -> Option<LedgerView> {
    match (
        opener_of(l.events, l.meta, symbol, strategy_id),
        net_long_pnl(entry, exit_price, qty, taker()),
        crate::money::legs_fee(entry, exit_price, qty, taker()),
    ) {
        (Some(sid), Some(pnl), Some(fee)) => match metrics_at(l.meta, symbol, pnl, at.now, partial) {
            Some(m) => Some(
                LedgerView {
                    events: l.events.push(
                        close_line(
                            at.ts,
                            sid,
                            symbol,
                            qty,
                            exit_price,
                            reason,
                            pnl,
                            fee,
                            live,
                            stop_loss,
                            take_profit,
                            m,
                        ),
                    ),
                    meta: store_closed(l.meta, symbol, partial),
                },
            ),
            None => None,
        },
        _ => None,
    }
}

/// The ledger with an open.
pub open spec fn ledger_opened(
    l: LedgerView,
    at: StampView,
    strategy_id: i32,
    symbol: Seq<char>,
    qty: Dec,
    price: Dec,
    reason: Seq<char>,
    live: bool,
    stop_loss: Option<Dec>,
    take_profit: Option<Dec>,
) -> Option<LedgerView> {
    match open_risk(price, stop_loss, qty) {
        Some(risk) => Some(
            LedgerView {
                events: l.events.push(
                    open_line(
                        at.ts,
                        strategy_id,
                        symbol,
                        qty,
                        price,
                        reason,
                        live,
                        stop_loss,
                        take_profit,
                        no_entry(),
                        risk,
                    ),
                ),
                ..l
            },
        ),
        None => None,
    }
}

/// The ledger with the lines of a flatten.
pub open spec fn ledger_flattened(
    l: LedgerView,
    at: StampView,
    strategy_id: i32,
    closed: Seq<Seq<char>>,
    live: bool,
    reason: Seq<char>,
) -> Option<LedgerView> {
    match flatten_lines(
        l.events,
        l.meta,
        at.ts,
        strategy_id,
        closed,
        live,
        reason,
        closed.len() as int,
    ) {
        Some(lines) => Some(LedgerView { events: l.events + lines, ..l }),
        None => None,
    }
}

/// The line of a moved stop.
pub open spec fn amend_line(
    ts: Seq<char>,
    strategy_id: i32,
    symbol: Seq<char>,
    stop_loss: Dec,
    take_profit: Option<Dec>,
    live: bool,
    reason: Seq<char>,
) -> EventView {
    EventView {
        ts,
        event: "amend"@,
        strategy_id,
        symbol,
        reason,
        stop_loss: Some(decimal_text(stop_loss)),
        take_profit: opt_printed(take_profit),
        live,
        ..blank_event()
    }
}

/// The ledger with a moved stop.
pub open spec fn ledger_amended(
    l: LedgerView,
    at: StampView,
    strategy_id: i32,
    symbol: Seq<char>,
    stop_loss: Dec,
    take_profit: Option<Dec>,
    live: bool,
    reason: Seq<char>,
) -> LedgerView {
    LedgerView {
        events: l.events.push(
            amend_line(at.ts, strategy_id, symbol, stop_loss, take_profit, live, reason),
        ),
        ..l
    }
}

impl Ledger {
    fn add(&mut self, ev: TradeEvent)
        ensures
            final(self)@ == (LedgerView { events: old(self)@.events.push(ev@), ..old(self)@ }),
    {
        let ghost before = event_views(self.events@);
        let ghost line = ev@;
        self.events.push(ev);
        proof {
            assert(event_views(self.events@) =~= before.push(line));
        }
    }

    pub fn close(
        &mut self,
        at: &Stamp,
        strategy_id: i32,
        symbol: &str,
        qty: Dec,
        entry: Dec,
        exit_price: Dec,
        reason: &str,
        live: bool,
        stop_loss: Option<Dec>,
        take_profit: Option<Dec>,
        partial: bool,
    ) -> (r: Option<()>)
        ensures
            match ledger_closed(
                old(self)@,
                at@,
                strategy_id,
                symbol@,
                qty,
                entry,
                exit_price,
                reason@,
                live,
                stop_loss,
                take_profit,
                partial,
            ) {
                Some(next) => r is Some && final(self)@ == next,
                None => r is None,
            },
    {
        let ev: TradeEvent = record_close(
            self.events.as_slice(),
            &mut self.meta,
            at.ts.as_str(),
            at.now,
            strategy_id,
            symbol,
            qty,
            entry,
            exit_price,
            reason,
            live,
            stop_loss,
            take_profit,
            partial,
        )?;
        self.add(ev);
        Some(())
    }

    pub fn open(
        &mut self,
        at: &Stamp,
        strategy_id: i32,
        symbol: &str,
        qty: Dec,
        price: Dec,
        reason: &str,
        live: bool,
        stop_loss: Option<Dec>,
        take_profit: Option<Dec>,
    ) -> (r: Option<()>)
        ensures
            match ledger_opened(
                old(self)@,
                at@,
                strategy_id,
                symbol@,
                qty,
                price,
                reason@,
                live,
                stop_loss,
                take_profit,
            ) {
                Some(next) => r is Some && final(self)@ == next,
                None => r is None,
            },
    {
        let ev: TradeEvent = record_open(
            at.ts.as_str(),
            strategy_id,
            symbol,
            qty,
            price,
            reason,
            live,
            stop_loss,
            take_profit,
            None,
        )?;
        self.add(ev);
        Some(())
    }

    pub fn flatten(
        &mut self,
        at: &Stamp,
        strategy_id: i32,
        closed: &[String],
        live: bool,
        reason: &str,
    )
        ensures
            ledger_flattened(
                old(self)@,
                at@,
                strategy_id,
                crate::text::views(closed@),
                live,
                reason@,
            ) == Some(final(self)@),
    {
        let lines: Vec<TradeEvent> = record_flatten(
            self.events.as_slice(),
            &self.meta,
            at.ts.as_str(),
            strategy_id,
            closed,
            live,
            reason,
        );
        let ghost base = event_views(self.events@);
        let ghost more = event_views(lines@);
        let ghost kept = self.meta@;
        let mut i: usize = 0;
        proof {
            assert(base + more.take(0) =~= base);
        }
        while i < lines.len()
            invariant
                i <= lines@.len(),
                more == event_views(lines@),
                self.meta@ == kept,
                event_views(self.events@) == base + more.take(i as int),
            decreases lines@.len() - i,
        {
            let ghost before = event_views(self.events@);
            self.events.push(lines[i].clone());
            proof {
                assert(event_views(self.events@) =~= before.push(more[i as int]));
                assert(base + more.take(i as int + 1) =~= (base + more.take(i as int)).push(
                    more[i as int],
                ));
            }
            i = i + 1;
        }
        proof {
            assert(more.take(i as int) =~= more);
        }
    }

    pub fn amend(
        &mut self,
        at: &Stamp,
        strategy_id: i32,
        symbol: &str,
        stop_loss: Dec,
        take_profit: Option<Dec>,
        live: bool,
        reason: &str,
    )
        ensures
            final(self)@ == ledger_amended(
                old(self)@,
                at@,
                strategy_id,
                symbol@,
                stop_loss,
                take_profit,
                live,
                reason@,
            ),
    {
        let ev: TradeEvent = record_amend(
            at.ts.as_str(),
            strategy_id,
            symbol,
            stop_loss,
            take_profit,
            live,
            reason,
        );
        self.add(ev);
    }
}

} // verus!

//! A watch-only screen: names that wait, the day's tape, open and closed profit.
pub mod closed;
pub mod screen;
pub mod wait;

use crate::config::load::Config;
use crate::config::TradeInterval;
use crate::continuation::entry::{gate_view, s4_setup_skip, setup_gate};
use crate::continuation::{
    default_continuation, for_interval, liquid_rows, liquid_universe, ContinuationParams, ContinuationView,
};
use crate::dec::Dec;
use crate::models::{
    copy_instants, opt_view, Decision, DecisionView, EngineState, MarketSnapshot, Position, Ticker,
};
use crate::momentum::{held_keys, held_symbols, row_gate, s1_setup_skip};
use crate::profit::{account_profit, profit_of};
use crate::ranking::{
    copy_tickers, first_n, find_ignoring_case, iter_liquid_majors, liquid_majors, momentum_book,
    pick_strategy1_book, ranked, row_ignoring_case, strategy1_rows, RankBy,
};
use crate::render::{top_movers, whole_seconds};
use crate::scalp::{scalp_decision, scalp_view, ScalpParams};
use crate::sessions::{
    copy_windows, entry_open, in_entry_window, outside_hours_note, outside_note, session_status, status_at,
    HourWindow, SessionStatus, StatusView,
};
use crate::symbols::SymMap;
use crate::text::{before, int_text, listed, own, print_u64, same, text_lt, upper, views};
use crate::trend::{trend_decision, trend_knobs, trend_view};
use crate::view::{completed_positions, day_pnl, day_profit, view_positions_with};
use self::closed::{closed_rows, closed_today_rows, ClosedRow, ClosedSum};
use self::wait::{until_entry, until_of};
use crate::journal::TradeEvent;
use vstd::prelude::*;
use vstd::string::StringExecFns;

verus! {

pub const MONITOR_RISING_N: usize = 12;

pub const MONITOR_FALLING_N: usize = 5;

pub const MONITOR_WAIT_N: usize = 20;

pub const MONITOR_CLOSED_N: usize = 8;

/// Why a name waits.
#[derive(Debug, Clone, Copy, PartialEq, Eq, Structural)]
pub enum WaitKind {
    /// The setup is good; the strategy would buy if gates and slots allow.
    Ready,
    /// In the universe, but a part of the setup is missing.
    Setup,
    /// The symbol pauses after a close.
    Pause,
    /// Hours, the day's halt, the desk, a full book or a retry.
    Gate,
}

impl WaitKind {
    pub open spec fn place(self) -> int {
        match self {
            WaitKind::Ready => 0,
            WaitKind::Gate => 1,
            WaitKind::Pause => 2,
            WaitKind::Setup => 3,
        }
    }

    fn rank(self) -> (r: u8)
        ensures
            r == self.place(),
    {
        match self {
            WaitKind::Ready => 0,
            WaitKind::Gate => 1,
            WaitKind::Pause => 2,
            WaitKind::Setup => 3,
        }
    }

    pub open spec fn word(self) -> Seq<char> {
        match self {
            WaitKind::Ready => "готов"@,
            WaitKind::Setup => "сетап"@,
            WaitKind::Pause => "пауза"@,
            WaitKind::Gate => "блок"@,
        }
    }

    pub fn tag(self) -> (r: &'static str)
        ensures
            r@ == self.word(),
    {
        match self {
            WaitKind::Ready => "готов",
            WaitKind::Setup => "сетап",
            WaitKind::Pause => "пауза",
            WaitKind::Gate => "блок",
        }
    }
}

/// A name that waits.
#[derive(Debug)]
pub struct WaitRow {
    pub symbol: String,
    pub change_pct: Dec,
    pub last: Dec,
    pub volume: Dec,
    pub kind: WaitKind,
    pub reason: String,
    /// What is still to come: a time, a percentage or a price.
    pub until: String,
}

/// A name that waits, with texts as characters.
pub struct WaitView {
    pub symbol: Seq<char>,
    pub change_pct: Dec,
    pub last: Dec,
    pub volume: Dec,
    pub kind: WaitKind,
    pub reason: Seq<char>,
    pub until: Seq<char>,
}

impl View for WaitRow {
    type V = WaitView;

    open spec fn view(&self) -> WaitView {
        WaitView {
            symbol: self.symbol@,
            change_pct: self.change_pct,
            last: self.last,
            volume: self.volume,
            kind: self.kind,
            reason: self.reason@,
            until: self.until@,
        }
    }
}

pub open spec fn wait_views(v: Seq<WaitRow>) -> Seq<WaitView> {
    Seq::new(v.len(), |i: int| v[i]@)
}

/// The entry hours of a strategy, and whether it enters at any hour.
pub open spec fn hours_of(cfg: Config, strategy_id: i32) -> (Seq<HourWindow>, bool) {
    if strategy_id == 4 {
        (cfg.s4_entry_windows@, cfg.s4_always_enter)
    } else if strategy_id == 1 {
        (cfg.entry_windows@, cfg.always_enter)
    } else if strategy_id == 2 {
        (cfg.s2_entry_windows@, cfg.s2_always_enter)
    } else {
        (Seq::empty(), true)
    }
}

pub fn session_knobs(cfg: &Config, strategy_id: i32) -> (r: (Vec<HourWindow>, bool))
    ensures
        (r.0@, r.1) == hours_of(*cfg, strategy_id),
{
    if strategy_id == 4 {
        (copy_windows(cfg.s4_entry_windows.as_slice()), cfg.s4_always_enter)
    } else if strategy_id == 1 {
        (copy_windows(cfg.entry_windows.as_slice()), cfg.always_enter)
    } else if strategy_id == 2 {
        (copy_windows(cfg.s2_entry_windows.as_slice()), cfg.s2_always_enter)
    } else {
        let none: Vec<HourWindow> = Vec::new();
        proof {
            assert(none@ =~= Seq::<HourWindow>::empty());
        }
        (none, true)
    }
}

/// The positions with a quantity.
pub open spec fn open_rows(positions: Seq<Position>) -> Seq<Position> {
    positions.filter(|p: Position| p.qty.pos())
}

/// How many positions have a quantity, and whether one of them is not in profit.
fn count_open(positions: &[Position]) -> (r: (usize, bool))
    ensures
        r.0 == open_rows(positions@).len(),
        r.0 <= positions@.len(),
        r.1 == (exists|i: int|
            0 <= i < open_rows(positions@).len() && !(#[trigger] open_rows(
                positions@,
            )[i]).unrealized_pnl.pos()),
{
    let ghost test = |p: Position| p.qty.pos();
    let mut n: usize = 0;
    let mut losing: bool = false;
    let mut i: usize = 0;
    proof {
        reveal(Seq::filter);
        assert(positions@.take(0) =~= Seq::<Position>::empty());
        assert(positions@.take(0).filter(test) =~= Seq::<Position>::empty());
    }
    while i < positions.len()
        invariant
            i <= positions@.len(),
            n <= i,
            test == (|p: Position| p.qty.pos()),
            n == positions@.take(i as int).filter(test).len(),
            losing == (exists|k: int|
                0 <= k < positions@.take(i as int).filter(test).len() && !(#[trigger] positions@.take(
                    i as int,
                ).filter(test)[k]).unrealized_pnl.pos()),
        decreases positions@.len() - i,
    {
        let ghost was = positions@.take(i as int).filter(test);
        proof {
            reveal(Seq::filter);
            assert(positions@.take(i as int + 1).drop_last() =~= positions@.take(i as int));
        }
        let ghost now = positions@.take(i as int + 1).filter(test);
        let ghost before = losing;
        if positions[i].qty.is_pos() {
            proof {
                assert(now =~= was.push(positions@[i as int]));
                assert(now[n as int] == positions@[i as int]);
                if before {
                    let k = choose|k: int| 0 <= k < was.len() && !(#[trigger] was[k]).unrealized_pnl.pos();
                    assert(now[k] == was[k]);
                }
            }
            n = n + 1;
            if !positions[i].unrealized_pnl.is_pos() {
                losing = true;
            }
            proof {
                if losing && !before {
                    assert(!now[n - 1].unrealized_pnl.pos());
                }
                if !losing {
                    assert forall|k: int| 0 <= k < now.len() implies (#[trigger]
                    now[k]).unrealized_pnl.pos() by {
                        if k < was.len() {
                            assert(now[k] == was[k]);
                        }
                    }
                }
            }
        } else {
            proof {
                assert(now =~= was);
            }
        }
        i = i + 1;
    }
    proof {
        assert(positions@.take(i as int) =~= positions@);
    }
    (n, losing)
}

/// How many positions a strategy holds at once.
pub open spec fn book_size(cfg: Config, strategy_id: i32) -> int {
    let n = if strategy_id == 4 {
        cfg.s4_max_positions as int
    } else if strategy_id == 1 {
        cfg.max_positions as int
    } else {
        1
    };
    if n < 1 {
        1
    } else {
        n
    }
}

/// What keeps every new entry out, the first reason that holds.
pub open spec fn desk_gate(cfg: Config, state: EngineState, positions: Seq<Position>, now: int) -> Option<
    Seq<char>,
> {
    let (windows, always) = hours_of(cfg, state.strategy_id);
    let open = open_rows(positions);
    let size = book_size(cfg, state.strategy_id);
    if state.daily_halt {
        Some("стоп дня — новых входов нет до 00:00 UTC"@)
    } else if state.entries_paused {
        Some("входы выключены (r в торговом TUI)"@)
    } else if now < state.retry_until {
        Some("пауза сети — входы закрыты"@)
    } else if now < state.cooldown_until {
        Some("пауза после стопа — слот не заполняю"@)
    } else if !entry_open(now, Some(windows), always) {
        Some(outside_note(now, windows))
    } else if open.len() >= size {
        Some("корзина полная ("@ + int_text(open.len() as int) + "/"@ + int_text(size) + ")"@)
    } else if state.strategy_id == 1 && (exists|i: int|
        0 <= i < open.len() && !(#[trigger] open[i]).unrealized_pnl.pos()) {
        Some("слот не в плюсе — новый не открываю"@)
    } else {
        None
    }
}

fn global_gate(cfg: &Config, state: &EngineState, positions: &[Position], now: i64) -> (r: Option<String>)
    ensures
        opt_view(r) == desk_gate(*cfg, *state, positions@, now as int),
{
    if state.daily_halt {
        return Some(own("стоп дня — новых входов нет до 00:00 UTC"));
    }
    if state.entries_paused {
        return Some(own("входы выключены (r в торговом TUI)"));
    }
    if now < state.retry_until {
        return Some(own("пауза сети — входы закрыты"));
    }
    if now < state.cooldown_until {
        return Some(own("пауза после стопа — слот не заполняю"));
    }
    let (windows, always) = session_knobs(cfg, state.strategy_id);
    if !in_entry_window(now, Some(windows.as_slice()), always) {
        return Some(outside_hours_note(now, windows.as_slice()));
    }
    let (open, losing) = count_open(positions);
    let most: i32 = if state.strategy_id == 4 {
        cfg.s4_max_positions
    } else if state.strategy_id == 1 {
        cfg.max_positions
    } else {
        1
    };
    let size: u64 = if most < 1 {
        1
    } else {
        most as u64
    };
    if open as u64 >= size {
        let mut t = own("корзина полная (");
        t.append(print_u64(open as u64).as_str());
        t.append("/");
        t.append(print_u64(size).as_str());
        t.append(")");
        return Some(t);
    }
    if losing && state.strategy_id == 1 {
        return Some(own("слот не в плюсе — новый не открываю"));
    }
    None
}

/// The knobs of the fourth strategy under settings.
pub open spec fn s4_knobs(cfg: Config) -> ContinuationView {
    ContinuationView {
        max_positions: cfg.s4_max_positions,
        always_enter: cfg.s4_always_enter,
        entry_windows: cfg.s4_entry_windows@,
        ..for_interval(default_continuation(), cfg.s4_interval)
    }
}

fn s4_params(cfg: &Config) -> (r: ContinuationParams)
    ensures
        r@ == s4_knobs(*cfg),
{
    let mut p: ContinuationParams = ContinuationParams::default().with_interval(cfg.s4_interval);
    p.max_positions = cfg.s4_max_positions;
    p.always_enter = cfg.s4_always_enter;
    p.entry_windows = copy_windows(cfg.s4_entry_windows.as_slice());
    p
}

/// The rows whose name has not come before, letter case aside, of the first `n`.
pub open spec fn distinct_rows(rows: Seq<Ticker>, n: int) -> Seq<Ticker>
    decreases n,
{
    if n <= 0 {
        Seq::empty()
    } else {
        let kept = distinct_rows(rows, n - 1);
        if exists|j: int| 0 <= j < kept.len() && upper((#[trigger] kept[j]).symbol@) == upper(
            rows[n - 1].symbol@,
        ) {
            kept
        } else {
            kept.push(rows[n - 1])
        }
    }
}

fn holds_name(rows: &[Ticker], key: &str) -> (r: bool)
    ensures
        r == (exists|j: int| 0 <= j < rows@.len() && upper((#[trigger] rows@[j]).symbol@) == key@),
{
    let mut i: usize = 0;
    while i < rows.len()
        invariant
            i <= rows@.len(),
            forall|j: int| 0 <= j < i ==> upper((#[trigger] rows@[j]).symbol@) != key@,
        decreases rows@.len() - i,
    {
        if same(rows[i].symbol.as_str().to_ascii_uppercase().as_str(), key) {
            return true;
        }
        i = i + 1;
    }
    false
}

fn keep_distinct(rows: &[Ticker]) -> (r: Vec<Ticker>)
    ensures
        r@ == distinct_rows(rows@, rows@.len() as int),
{
    let mut out: Vec<Ticker> = Vec::new();
    let mut i: usize = 0;
    while i < rows.len()
        invariant
            i <= rows@.len(),
            out@ == distinct_rows(rows@, i as int),
        decreases rows@.len() - i,
    {
        let key: String = rows[i].symbol.as_str().to_ascii_uppercase();
        if !holds_name(out.as_slice(), key.as_str()) {
            out.push(rows[i].clone());
        }
        i = i + 1;
    }
    out
}

/// How many rows the momentum book of the screen has.
pub open spec fn watch_size(max_positions: i32) -> int {
    if max_positions < 8 {
        8
    } else {
        max_positions as int
    }
}

/// The rows that a strategy looks at.
pub open spec fn watched_rows(cfg: Config, state: EngineState, tickers: Seq<Ticker>) -> Option<
    Seq<Ticker>,
> {
    let exclude = views(state.skip_symbols@);
    if state.strategy_id == 4 {
        liquid_rows(tickers, exclude, s4_knobs(cfg))
    } else if state.strategy_id == 1 {
        momentum_book(tickers, watch_size(cfg.max_positions), strategy1_rows(), exclude, true)
    } else {
        Some(liquid_majors(tickers, exclude))
    }
}

/// The names that could be bought.
pub open spec fn candidates(cfg: Config, state: EngineState, s: MarketSnapshot) -> Option<Seq<Ticker>> {
    match watched_rows(cfg, state, s.tickers@) {
        Some(rows) => Some(distinct_rows(rows, rows.len() as int)),
        None => None,
    }
}

fn watch_count(max_positions: i32) -> (r: usize)
    ensures
        r == watch_size(max_positions),
{
    if max_positions < 8 {
        8
    } else {
        max_positions as usize
    }
}

fn candidate_tickers(cfg: &Config, state: &EngineState, snapshot: &MarketSnapshot) -> (r: Option<
    Vec<Ticker>,
>)
    ensures
        match (r, candidates(*cfg, *state, *snapshot)) {
            (Some(v), Some(rows)) => v@ == rows,
            (None, None) => true,
            _ => false,
        },
{
    let tickers: &[Ticker] = snapshot.tickers.as_slice();
    let exclude: &[String] = state.skip_symbols.as_slice();
    let rows: Vec<Ticker> = if state.strategy_id == 4 {
        let p: ContinuationParams = s4_params(cfg);
        liquid_universe(tickers, exclude, &p)?
    } else if state.strategy_id == 1 {
        pick_strategy1_book(tickers, watch_count(cfg.max_positions), exclude)?
    } else {
        iter_liquid_majors(tickers, exclude)
    };
    Some(keep_distinct(rows.as_slice()))
}

/// The reason of a hold; entries and the rest have none.
pub open spec fn hold_reason(d: DecisionView) -> Option<Seq<char>> {
    match d {
        DecisionView::Hold { reason } => Some(reason),
        _ => None,
    }
}

fn take_reason(d: Decision) -> (r: Option<String>)
    ensures
        opt_view(r) == hold_reason(d@),
{
    match d {
        Decision::Hold { reason } => Some(reason),
        _ => None,
    }
}

/// What a name still misses; the inner `None` says that it misses nothing.
pub open spec fn missing_setup(
    cfg: Config,
    state: EngineState,
    s: MarketSnapshot,
    t: Ticker,
    now: int,
) -> Option<Option<Seq<char>>> {
    let exclude = views(state.skip_symbols@);
    if state.strategy_id == 4 {
        setup_gate(s, t, s4_knobs(cfg), exclude, now)
    } else if state.strategy_id == 1 {
        match momentum_book(
            s.tickers@,
            watch_size(cfg.max_positions),
            strategy1_rows(),
            exclude,
            true,
        ) {
            None => None,
            Some(book) => row_gate(t, s.last_bars@, row_ignoring_case(book, t.symbol@) is Some),
        }
    } else if state.strategy_id == 2 {
        match scalp_view(
            s.series(t.symbol@),
            None,
            t.symbol@,
            crate::scalp::ScalpView {
                entry_windows: cfg.s2_entry_windows@,
                always_enter: cfg.s2_always_enter,
                max_hold_bars: cfg.s2_max_hold_bars,
                ..crate::scalp::default_scalp()
            },
            Some(now),
        ) {
            None => None,
            Some(d) => Some(hold_reason(d)),
        }
    } else if state.strategy_id == 3 {
        match trend_view(s.series(t.symbol@), None, t.symbol@, trend_knobs(None), None) {
            None => None,
            Some(d) => Some(hold_reason(d)),
        }
    } else {
        Some(Some("неизвестная стратегия"@))
    }
}

fn setup_skip(
    cfg: &Config,
    state: &EngineState,
    snapshot: &MarketSnapshot,
    ticker: &Ticker,
    now: i64,
) -> (r: Option<Option<String>>)
    ensures
        gate_view(r) == missing_setup(*cfg, *state, *snapshot, *ticker, now as int),
{
    let exclude: &[String] = state.skip_symbols.as_slice();
    if state.strategy_id == 4 {
        let p: ContinuationParams = s4_params(cfg);
        s4_setup_skip(snapshot, ticker, &p, exclude, now)
    } else if state.strategy_id == 1 {
        let book: Vec<Ticker> = pick_strategy1_book(
            snapshot.tickers.as_slice(),
            watch_count(cfg.max_positions),
            exclude,
        )?;
        let in_book: bool = find_ignoring_case(book.as_slice(), ticker.symbol.as_str()).is_some();
        match s1_setup_skip(ticker, &snapshot.last_bars, in_book)? {
            Some(t) => Some(Some(own(t))),
            None => Some(None),
        }
    } else if state.strategy_id == 2 {
        let p: ScalpParams = ScalpParams::from_config(cfg);
        let d: Decision = scalp_decision(
            snapshot.bars_for(ticker.symbol.as_str()),
            None,
            ticker.symbol.as_str(),
            Some(&p),
            Some(now),
        )?;
        Some(take_reason(d))
    } else if state.strategy_id == 3 {
        let d: Decision = trend_decision(
            snapshot.bars_for(ticker.symbol.as_str()),
            None,
            ticker.symbol.as_str(),
            None,
            None,
        )?;
        Some(take_reason(d))
    } else {
        Some(Some(own("неизвестная стратегия")))
    }
}

/// How long something still takes, with hours.
pub open spec fn span_text(ms: int) -> Seq<char> {
    let sec = whole_seconds(ms);
    if sec < 60 {
        int_text(sec) + " с"@
    } else if sec / 3600 > 0 {
        if (sec % 3600) / 60 == 0 {
            int_text(sec / 3600) + " ч"@
        } else {
            int_text(sec / 3600) + " ч "@ + int_text((sec % 3600) / 60) + " мин"@
        }
    } else if sec % 60 == 0 {
        int_text((sec % 3600) / 60) + " мин"@
    } else {
        int_text((sec % 3600) / 60) + " мин "@ + int_text(sec % 60) + " с"@
    }
}

pub(crate) fn fmt_span(ms: i128) -> (r: String)
    requires
        ms <= 0x2_0000_0000_0000_0000,
    ensures
        r@ == span_text(ms as int),
{
    let sec: u64 = if ms < 0 {
        0
    } else {
        (ms / 1000) as u64
    };
    if sec < 60 {
        let mut t = print_u64(sec);
        t.append(" с");
        return t;
    }
    let hours: u64 = sec / 3600;
    let mins: u64 = (sec % 3600) / 60;
    let rest: u64 = sec % 60;
    if hours > 0 {
        let mut t = print_u64(hours);
        if mins == 0 {
            t.append(" ч");
        } else {
            t.append(" ч ");
            t.append(print_u64(mins).as_str());
            t.append(" мин");
        }
        return t;
    }
    let mut t = print_u64(mins);
    if rest == 0 {
        t.append(" мин");
    } else {
        t.append(" мин ");
        t.append(print_u64(rest).as_str());
        t.append(" с");
    }
    t
}

/// Until when a symbol pauses.
pub open spec fn paused_until(cooldowns: Map<Seq<char>, i64>, symbol: Seq<char>) -> int {
    if cooldowns.contains_key(upper(symbol)) {
        cooldowns[upper(symbol)] as int
    } else {
        0
    }
}

pub(crate) fn pause_end(cooldowns: &SymMap<i64>, symbol: &str) -> (r: i64)
    ensures
        r == paused_until(cooldowns@, symbol@),
{
    let key: String = symbol.to_ascii_uppercase();
    match cooldowns.get(key.as_str()) {
        Some(t) => *t,
        None => 0,
    }
}

/// What is said of a symbol that pauses.
pub open spec fn pause_text(state: EngineState, symbol: Seq<char>, now: int) -> Option<Seq<char>> {
    let until = paused_until(state.cooldowns@, symbol);
    if until > now {
        Some("пауза после сделки ещё "@ + span_text(until - now))
    } else {
        None
    }
}

fn pause_reason(state: &EngineState, symbol: &str, now: i64) -> (r: Option<String>)
    ensures
        opt_view(r) == pause_text(*state, symbol@, now as int),
{
    let until: i64 = pause_end(&state.cooldowns, symbol);
    if until > now {
        let mut t = own("пауза после сделки ещё ");
        t.append(fmt_span(until as i128 - now as i128).as_str());
        Some(t)
    } else {
        None
    }
}

/// Why a name waits, and what is said of it: a pause before a missing setup,
/// that before the desk's gate.
pub open spec fn verdict(
    pause: Option<Seq<char>>,
    setup: Option<Seq<char>>,
    gate: Option<Seq<char>>,
) -> (WaitKind, Seq<char>) {
    if pause is Some {
        (WaitKind::Pause, pause->0)
    } else if setup is Some {
        (WaitKind::Setup, setup->0)
    } else if gate is Some {
        (WaitKind::Gate, gate->0)
    } else {
        (WaitKind::Ready, "готов к входу"@)
    }
}

/// The row of a name; the inner `None` says that it has none: it is held, or has
/// no price.
pub open spec fn wait_row(
    cfg: Config,
    state: EngineState,
    s: MarketSnapshot,
    positions: Seq<Position>,
    t: Ticker,
    now: int,
) -> Option<Option<WaitView>> {
    if held_keys(positions).contains(upper(t.symbol@)) || !t.last_price.pos() {
        Some(None)
    } else {
        match missing_setup(cfg, state, s, t, now) {
            None => None,
            Some(setup) => {
                let (kind, reason) = verdict(
                    pause_text(state, t.symbol@, now),
                    setup,
                    desk_gate(cfg, state, positions, now),
                );
                match until_of(cfg, state, s, t, kind, now) {
                    None => None,
                    Some(until) => Some(
                        Some(
                            WaitView {
                                symbol: t.symbol@,
                                change_pct: t.price_change_percent,
                                last: t.last_price,
                                volume: t.quote_volume,
                                kind,
                                reason,
                                until,
                            },
                        ),
                    ),
                }
            },
        }
    }
}

/// The rows of the first `n` candidates.
pub open spec fn wait_rows(
    cfg: Config,
    state: EngineState,
    s: MarketSnapshot,
    positions: Seq<Position>,
    rows: Seq<Ticker>,
    n: int,
    now: int,
) -> Option<Seq<WaitView>>
    decreases n,
{
    if n <= 0 {
        Some(Seq::empty())
    } else {
        match (
            wait_rows(cfg, state, s, positions, rows, n - 1, now),
            wait_row(cfg, state, s, positions, rows[n - 1], now),
        ) {
            (Some(v), Some(Some(x))) => Some(v.push(x)),
            (Some(v), Some(None)) => Some(v),
            _ => None,
        }
    }
}

proof fn lemma_wait_rows_none(
    cfg: Config,
    state: EngineState,
    s: MarketSnapshot,
    positions: Seq<Position>,
    rows: Seq<Ticker>,
    n: int,
    m: int,
    now: int,
)
    requires
        n <= m,
        wait_rows(cfg, state, s, positions, rows, n, now) is None,
    ensures
        wait_rows(cfg, state, s, positions, rows, m, now) is None,
    decreases m,
{
    if n < m && m > 0 {
        lemma_wait_rows_none(cfg, state, s, positions, rows, n, m - 1, now);
    }
}

/// Whether a row strictly comes before another: by kind, then by volume or by the
/// day's change, then by symbol.
pub open spec fn waits_before(by_volume: bool, a: WaitView, b: WaitView) -> bool {
    let (x, y) = if by_volume {
        (a.volume, b.volume)
    } else {
        (a.change_pct, b.change_pct)
    };
    if a.kind.place() != b.kind.place() {
        a.kind.place() < b.kind.place()
    } else if x.units() != y.units() {
        y.lt(x)
    } else {
        text_lt(a.symbol, b.symbol)
    }
}

fn comes_before(by_volume: bool, a: &WaitRow, b: &WaitRow) -> (r: bool)
    ensures
        r == waits_before(by_volume, a@, b@),
{
    if a.kind.rank() != b.kind.rank() {
        return a.kind.rank() < b.kind.rank();
    }
    let x: Dec = if by_volume {
        a.volume
    } else {
        a.change_pct
    };
    let y: Dec = if by_volume {
        b.volume
    } else {
        b.change_pct
    };
    if x != y {
        return x > y;
    }
    before(a.symbol.as_str(), b.symbol.as_str())
}

/// A row put into a list, behind its equals.
pub open spec fn wait_put(by_volume: bool, v: Seq<WaitView>, x: WaitView) -> Seq<WaitView>
    decreases v.len(),
{
    if v.len() == 0 || !waits_before(by_volume, x, v.last()) {
        v.push(x)
    } else {
        wait_put(by_volume, v.drop_last(), x).push(v.last())
    }
}

/// The rows in order; equals keep theirs.
pub open spec fn wait_sorted(by_volume: bool, v: Seq<WaitView>) -> Seq<WaitView>
    decreases v.len(),
{
    if v.len() == 0 {
        Seq::empty()
    } else {
        wait_put(by_volume, wait_sorted(by_volume, v.drop_last()), v.last())
    }
}

proof fn lemma_wait_put_at(by_volume: bool, v: Seq<WaitView>, x: WaitView, p: int)
    requires
        0 <= p <= v.len(),
        p > 0 ==> !waits_before(by_volume, x, v[p - 1]),
        forall|j: int| p <= j < v.len() ==> waits_before(by_volume, x, #[trigger] v[j]),
    ensures
        wait_put(by_volume, v, x) == v.insert(p, x),
    decreases v.len(),
{
    if p < v.len() {
        assert(waits_before(by_volume, x, v[v.len() - 1]));
        let w = v.drop_last();
        assert forall|j: int| p <= j < w.len() implies waits_before(by_volume, x, #[trigger] w[j]) by {
            assert(w[j] == v[j]);
        }
        lemma_wait_put_at(by_volume, w, x, p);
        assert(w.insert(p, x).push(v.last()) =~= v.insert(p, x));
    } else {
        assert(v.insert(p, x) =~= v.push(x));
    }
}

fn put_wait(out: &mut Vec<WaitRow>, x: WaitRow, by_volume: bool)
    ensures
        wait_views(final(out)@) == wait_put(by_volume, wait_views(old(out)@), x@),
{
    let ghost was = wait_views(out@);
    let mut p: usize = out.len();
    while p > 0 && comes_before(by_volume, &x, &out[p - 1])
        invariant
            p <= out@.len(),
            was == wait_views(out@),
            forall|j: int| p <= j < was.len() ==> waits_before(by_volume, x@, #[trigger] was[j]),
        decreases p,
    {
        p = p - 1;
    }
    let ghost xv = x@;
    proof {
        if p > 0 {
            assert(was[p - 1] == out@[p - 1]@);
        }
        lemma_wait_put_at(by_volume, was, xv, p as int);
    }
    out.insert(p, x);
    proof {
        assert(wait_views(out@) =~= was.insert(p as int, xv));
    }
}

/// The names that wait, the first of them.
pub open spec fn waiting_of(
    cfg: Config,
    state: EngineState,
    s: MarketSnapshot,
    positions: Seq<Position>,
    now: int,
) -> Option<Seq<WaitView>> {
    match candidates(cfg, state, s) {
        None => None,
        Some(rows) => match wait_rows(cfg, state, s, positions, rows, rows.len() as int, now) {
            None => None,
            Some(v) => Some(first_n(wait_sorted(state.strategy_id == 4, v), MONITOR_WAIT_N as int)),
        },
    }
}

pub open spec fn opt_waits(r: Option<Vec<WaitRow>>) -> Option<Seq<WaitView>> {
    match r {
        Some(v) => Some(wait_views(v@)),
        None => None,
    }
}

/// One candidate's row.
fn classify_one(
    cfg: &Config,
    state: &EngineState,
    snapshot: &MarketSnapshot,
    positions: &[Position],
    ticker: &Ticker,
    now: i64,
) -> (r: Option<Option<WaitRow>>)
    ensures
        match (r, wait_row(*cfg, *state, *snapshot, positions@, *ticker, now as int)) {
            (Some(Some(x)), Some(Some(y))) => x@ == y,
            (Some(None), Some(None)) => true,
            (None, None) => true,
            _ => false,
        },
{
    let held: Vec<String> = held_symbols(positions);
    let key: String = ticker.symbol.as_str().to_ascii_uppercase();
    if listed(held.as_slice(), key.as_str()) || !ticker.last_price.is_pos() {
        return Some(None);
    }
    let setup: Option<String> = setup_skip(cfg, state, snapshot, ticker, now)?;
    let pause: Option<String> = pause_reason(state, ticker.symbol.as_str(), now);
    let gate: Option<String> = global_gate(cfg, state, positions, now);
    let (kind, reason) = if let Some(why) = pause {
        (WaitKind::Pause, why)
    } else if let Some(why) = setup {
        (WaitKind::Setup, why)
    } else if let Some(why) = gate {
        (WaitKind::Gate, why)
    } else {
        (WaitKind::Ready, own("готов к входу"))
    };
    let until: String = until_entry(cfg, state, snapshot, ticker, kind, now)?;
    Some(
        Some(
            WaitRow {
                symbol: own(ticker.symbol.as_str()),
                change_pct: ticker.price_change_percent,
                last: ticker.last_price,
                volume: ticker.quote_volume,
                kind,
                reason,
                until,
            },
        ),
    )
}

/// The names that wait for an entry, the likeliest first. `None` where a figure
/// leaves the range of decimals.
pub fn classify_waiting(
    cfg: &Config,
    state: &EngineState,
    snapshot: &MarketSnapshot,
    positions: &[Position],
    now: i64,
) -> (r: Option<Vec<WaitRow>>)
    ensures
        opt_waits(r) == waiting_of(*cfg, *state, *snapshot, positions@, now as int),
{
    let rows: Vec<Ticker> = candidate_tickers(cfg, state, snapshot)?;
    let by_volume: bool = state.strategy_id == 4;
    let mut out: Vec<WaitRow> = Vec::new();
    let ghost mut seen: Seq<WaitView> = Seq::empty();
    let mut i: usize = 0;
    proof {
        assert(wait_views(out@) =~= Seq::<WaitView>::empty());
    }
    while i < rows.len()
        invariant
            i <= rows@.len(),
            candidates(*cfg, *state, *snapshot) == Some(rows@),
            wait_rows(*cfg, *state, *snapshot, positions@, rows@, i as int, now as int) == Some(seen),
            wait_views(out@) == wait_sorted(by_volume, seen),
        decreases rows@.len() - i,
    {
        proof {
            if wait_rows(
                *cfg,
                *state,
                *snapshot,
                positions@,
                rows@,
                i as int + 1,
                now as int,
            ) is None {
                lemma_wait_rows_none(
                    *cfg,
                    *state,
                    *snapshot,
                    positions@,
                    rows@,
                    i as int + 1,
                    rows@.len() as int,
                    now as int,
                );
            }
        }
        match classify_one(cfg, state, snapshot, positions, &rows[i], now)? {
            Some(x) => {
                proof {
                    let more = seen.push(x@);
                    assert(more.drop_last() =~= seen);
                    seen = more;
                }
                put_wait(&mut out, x, by_volume);
            },
            None => {},
        }
        i = i + 1;
    }
    let ghost all = wait_views(out@);
    if out.len() > MONITOR_WAIT_N {
        out.truncate(MONITOR_WAIT_N);
        proof {
            assert(wait_views(out@) =~= all.take(MONITOR_WAIT_N as int));
        }
    }
    Some(out)
}

/// Everything that the screen is made of.
#[derive(Debug)]
pub struct MonitorView {
    pub strategy_id: i32,
    pub wallet_balance: Dec,
    pub unrealized_pnl: Dec,
    pub starting_equity: Dec,
    pub available_balance: Dec,
    pub account_profit: Dec,
    pub day_pnl: Option<Dec>,
    pub daily_halt: bool,
    pub positions: Vec<Position>,
    pub tickers: Vec<Ticker>,
    pub waiting: Vec<WaitRow>,
    pub rising: Vec<Ticker>,
    pub falling: Vec<Ticker>,
    pub tape_n: usize,
    pub closed_today: Vec<ClosedRow>,
    pub closed_net: Dec,
    pub closed_wins: usize,
    pub closed_losses: usize,
    pub cooldown_until: i64,
    pub cooldowns: SymMap<i64>,
    pub now_ts: i64,
    pub last_error: Option<String>,
    pub has_credentials: bool,
    pub s4_interval: TradeInterval,
    pub max_positions: i32,
    pub always_enter: bool,
    pub entry_windows: Vec<HourWindow>,
    pub session_open: bool,
    pub session_label: String,
    pub next_open_clock: Option<String>,
}

/// Whether a screen shows what settings, engine, market and journal hold.
pub open spec fn mirrors(
    v: MonitorView,
    cfg: Config,
    state: EngineState,
    s: MarketSnapshot,
    now: i64,
    profit: Dec,
    day: Option<Dec>,
    waiting: Seq<WaitView>,
    closed: ClosedSum,
) -> bool {
    let (windows, always) = hours_of(cfg, state.strategy_id);
    let session = status_at(now as int, windows, always);
    &&& v.strategy_id == state.strategy_id
    &&& v.wallet_balance == s.account.wallet_balance
    &&& v.unrealized_pnl == s.account.unrealized_pnl
    &&& v.starting_equity == s.account.starting_equity
    &&& v.available_balance == s.account.available_balance
    &&& v.account_profit == profit
    &&& v.day_pnl == day
    &&& v.daily_halt == state.daily_halt
    &&& v.positions@ == completed_positions(s, state.positions@)
    &&& v.tickers@ == s.tickers@
    &&& wait_views(v.waiting@) == waiting
    &&& v.rising@ == first_n(ranked(RankBy::TopRise, s.tickers@), MONITOR_RISING_N as int)
    &&& v.falling@ == first_n(ranked(RankBy::TopFall, s.tickers@), MONITOR_FALLING_N as int)
    &&& v.tape_n == s.tickers@.len()
    &&& self::closed::closed_views(v.closed_today@) == closed.rows
    &&& v.closed_net == closed.net
    &&& v.closed_wins == closed.wins
    &&& v.closed_losses == closed.losses
    &&& v.cooldown_until == state.cooldown_until
    &&& v.cooldowns@ == state.cooldowns@
    &&& v.now_ts == now
    &&& opt_view(v.last_error) == (if s.last_error is Some {
        opt_view(s.last_error)
    } else {
        opt_view(state.last_error)
    })
    &&& v.has_credentials == (cfg.credentials is Some)
    &&& v.s4_interval == cfg.s4_interval
    &&& v.max_positions == if state.strategy_id == 4 {
        cfg.s4_max_positions
    } else {
        cfg.max_positions
    }
    &&& v.always_enter == always
    &&& v.entry_windows@ == windows
    &&& v.session_open == session.open
    &&& v.session_label@ == session.label
    &&& opt_view(v.next_open_clock) == session.next_open_clock
}

/// The screen of settings, engine, market and journal. `None` where a figure
/// leaves its range.
pub fn build_monitor(
    cfg: &Config,
    state: &EngineState,
    snapshot: &MarketSnapshot,
    events: &[TradeEvent],
    now: i64,
) -> (r: Option<MonitorView>)
    ensures
        match (
            profit_of(
                snapshot.account.wallet_balance,
                snapshot.account.unrealized_pnl,
                snapshot.account.starting_equity,
            ),
            day_profit(*snapshot, state.day_start_equity),
            waiting_of(
                *cfg,
                *state,
                *snapshot,
                completed_positions(*snapshot, state.positions@),
                now as int,
            ),
            closed_rows(events@, now as int),
        ) {
            (Some(profit), Some(day), Some(waiting), Some(closed)) => r is Some && mirrors(
                r->0,
                *cfg,
                *state,
                *snapshot,
                now,
                profit,
                day,
                waiting,
                closed,
            ),
            _ => r is None,
        },
{
    let profit: Dec = account_profit(
        snapshot.account.wallet_balance,
        snapshot.account.unrealized_pnl,
        snapshot.account.starting_equity,
    )?;
    let day: Option<Dec> = day_pnl(snapshot, state.day_start_equity)?;
    let positions: Vec<Position> = view_positions_with(snapshot, state.positions.as_slice());
    let waiting: Vec<WaitRow> = classify_waiting(cfg, state, snapshot, positions.as_slice(), now)?;
    let (closed_today, closed_net, closed_wins, closed_losses) = closed_today_rows(events, now)?;
    let (rising, _) = top_movers(snapshot.tickers.as_slice(), MONITOR_RISING_N);
    let (_, falling) = top_movers(snapshot.tickers.as_slice(), MONITOR_FALLING_N);
    let (windows, always) = session_knobs(cfg, state.strategy_id);
    let session: SessionStatus = session_status(now, Some(windows.as_slice()), always);
    let ghost sv: StatusView = session@;
    let last_error: Option<String> = match &snapshot.last_error {
        Some(e) => Some(own(e.as_str())),
        None => match &state.last_error {
            Some(e) => Some(own(e.as_str())),
            None => None,
        },
    };
    let keys: bool = match &cfg.credentials {
        Some(_) => true,
        None => false,
    };
    Some(
        MonitorView {
            strategy_id: state.strategy_id,
            wallet_balance: snapshot.account.wallet_balance,
            unrealized_pnl: snapshot.account.unrealized_pnl,
            starting_equity: snapshot.account.starting_equity,
            available_balance: snapshot.account.available_balance,
            account_profit: profit,
            day_pnl: day,
            daily_halt: state.daily_halt,
            positions,
            tickers: copy_tickers(snapshot.tickers.as_slice()),
            waiting,
            rising,
            falling,
            tape_n: snapshot.tickers.len(),
            closed_today,
            closed_net,
            closed_wins,
            closed_losses,
            cooldown_until: state.cooldown_until,
            cooldowns: copy_instants(&state.cooldowns),
            now_ts: now,
            last_error,
            has_credentials: keys,
            s4_interval: cfg.s4_interval,
            max_positions: if state.strategy_id == 4 {
                cfg.s4_max_positions
            } else {
                cfg.max_positions
            },
            always_enter: always,
            entry_windows: windows,
            session_open: session.open,
            session_label: session.label,
            next_open_clock: session.next_open_clock,
        },
    )
}

proof fn lemma_wait_rows_not_held(
    cfg: Config,
    state: EngineState,
    s: MarketSnapshot,
    positions: Seq<Position>,
    rows: Seq<Ticker>,
    n: int,
    now: int,
)
    requires
        wait_rows(cfg, state, s, positions, rows, n, now) is Some,
    ensures
        forall|i: int|
            0 <= i < wait_rows(cfg, state, s, positions, rows, n, now)->0.len() ==> !held_keys(
                positions,
            ).contains(
                upper((#[trigger] wait_rows(cfg, state, s, positions, rows, n, now)->0[i]).symbol),
            ) && (wait_rows(cfg, state, s, positions, rows, n, now)->0[i].kind == WaitKind::Ready
                ==> desk_gate(cfg, state, positions, now) is None),
    decreases n,
{
    if n > 0 {
        lemma_wait_rows_not_held(cfg, state, s, positions, rows, n - 1, now);
    }
}

proof fn lemma_wait_put_members(by_volume: bool, v: Seq<WaitView>, x: WaitView)
    ensures
        forall|y: WaitView| #[trigger]
            wait_put(by_volume, v, x).contains(y) ==> y == x || v.contains(y),
    decreases v.len(),
{
    if v.len() > 0 && waits_before(by_volume, x, v.last()) {
        let w = v.drop_last();
        lemma_wait_put_members(by_volume, w, x);
        let p = wait_put(by_volume, w, x);
        assert forall|y: WaitView| #[trigger]
            wait_put(by_volume, v, x).contains(y) implies y == x || v.contains(y) by {
            let i = choose|i: int| 0 <= i < p.push(v.last()).len() && p.push(v.last())[i] == y;
            if i < p.len() {
                assert(p[i] == y);
                assert(p.contains(y));
                if w.contains(y) {
                    let j = choose|j: int| 0 <= j < w.len() && w[j] == y;
                    assert(v[j] == y);
                }
            } else {
                assert(v[v.len() - 1] == y);
            }
        }
    } else {
        assert forall|y: WaitView| #[trigger] v.push(x).contains(y) implies y == x || v.contains(
            y,
        ) by {
            let i = choose|i: int| 0 <= i < v.push(x).len() && v.push(x)[i] == y;
            if i < v.len() {
                assert(v[i] == y);
            }
        }
    }
}

proof fn lemma_wait_sorted_members(by_volume: bool, v: Seq<WaitView>)
    ensures
        forall|y: WaitView| #[trigger] wait_sorted(by_volume, v).contains(y) ==> v.contains(y),
    decreases v.len(),
{
    if v.len() > 0 {
        let w = v.drop_last();
        lemma_wait_sorted_members(by_volume, w);
        lemma_wait_put_members(by_volume, wait_sorted(by_volume, w), v.last());
        assert forall|y: WaitView| #[trigger]
            wait_sorted(by_volume, v).contains(y) implies v.contains(y) by {
            if wait_sorted(by_volume, w).contains(y) {
                assert(w.contains(y));
                let j = choose|j: int| 0 <= j < w.len() && w[j] == y;
                assert(v[j] == y);
            } else {
                assert(v[v.len() - 1] == y);
            }
        }
    }
}

/// A held name does not wait, no name is ready while the desk's gate is shut, and
/// the list is short.
pub proof fn law_waiting_respects_the_desk(
    cfg: Config,
    state: EngineState,
    s: MarketSnapshot,
    positions: Seq<Position>,
    now: int,
    i: int,
)
    requires
        waiting_of(cfg, state, s, positions, now) is Some,
        0 <= i < waiting_of(cfg, state, s, positions, now)->0.len(),
    ensures
        waiting_of(cfg, state, s, positions, now)->0.len() <= MONITOR_WAIT_N,
        !held_keys(positions).contains(upper(waiting_of(cfg, state, s, positions, now)->0[i].symbol)),
        waiting_of(cfg, state, s, positions, now)->0[i].kind == WaitKind::Ready ==> desk_gate(
            cfg,
            state,
            positions,
            now,
        ) is None,
{
    let rows = candidates(cfg, state, s)->0;
    let n = rows.len() as int;
    let v = wait_rows(cfg, state, s, positions, rows, n, now)->0;
    let by = state.strategy_id == 4;
    lemma_wait_rows_not_held(cfg, state, s, positions, rows, n, now);
    lemma_wait_sorted_members(by, v);
    let y = waiting_of(cfg, state, s, positions, now)->0[i];
    assert(wait_sorted(by, v)[i] == y);
    assert(wait_sorted(by, v).contains(y));
    let j = choose|j: int| 0 <= j < v.len() && v[j] == y;
    assert(v[j] == y);
}

/// What keeps every entry out: a halted day, paused entries, a wait for the
/// network, a pause of the desk, hours that are closed, or a book that is full;
/// without any of these nothing does, but for momentum with a slot that is not
/// ahead.
pub proof fn law_desk_is_closed(cfg: Config, state: EngineState, positions: Seq<Position>, now: int)
    ensures
        state.daily_halt ==> desk_gate(cfg, state, positions, now) is Some,
        state.entries_paused ==> desk_gate(cfg, state, positions, now) is Some,
        now < state.retry_until ==> desk_gate(cfg, state, positions, now) is Some,
        now < state.cooldown_until ==> desk_gate(cfg, state, positions, now) is Some,
        open_rows(positions).len() >= book_size(cfg, state.strategy_id) ==> desk_gate(
            cfg,
            state,
            positions,
            now,
        ) is Some,
        !state.daily_halt && !state.entries_paused && now >= state.retry_until && now
            >= state.cooldown_until && entry_open(
            now,
            Some(hours_of(cfg, state.strategy_id).0),
            hours_of(cfg, state.strategy_id).1,
        ) && open_rows(positions).len() < book_size(cfg, state.strategy_id) && state.strategy_id != 1
            ==> desk_gate(cfg, state, positions, now) is None,
{
}

/// A symbol pauses exactly while its own end is still to come.
pub proof fn law_symbol_pauses_until_its_end(state: EngineState, symbol: Seq<char>, now: int)
    ensures
        pause_text(state, symbol, now) is Some <==> state.cooldowns@.contains_key(upper(symbol))
            && state.cooldowns@[upper(symbol)] > now || !state.cooldowns@.contains_key(upper(symbol)) && 0
            > now,
{
}

/// What a name is said to wait for: its pause first, then its setup, then the desk;
/// it is ready exactly without any.
pub proof fn law_ready_means_nothing_is_in_the_way(
    pause: Option<Seq<char>>,
    setup: Option<Seq<char>>,
    desk: Option<Seq<char>>,
)
    ensures
        verdict(pause, setup, desk).0 == WaitKind::Ready <==> pause is None && setup is None && desk is None,
        verdict(pause, setup, desk).0 == WaitKind::Pause <==> pause is Some,
        verdict(pause, setup, desk).0 == WaitKind::Setup <==> pause is None && setup is Some,
{
}

} // verus!

//! Strategy orchestration over market snapshots. Pure: returns decisions only.
//!
//! An outer `None` says that a number left the decimal range.
use crate::config::TradeInterval;
use crate::continuation::entry::{continuation_result, ContinuationInput};
use crate::continuation::{
    continuation_decisions, continuation_knobs, default_continuation, for_interval, noted_all,
    ContinuationParams, ContinuationView, SkipTally,
};
use crate::dec::{dec, Dec};
use crate::models::{
    decision_views, open_long_rows, open_longs, opt_deref, Bar, Decision, DecisionView, MarketSnapshot,
    Position, Ticker,
};
use crate::momentum::{
    default_momentum, hold_view, knobs, momentum_result, opt_decision, slot_input, slot_rows,
    MomentumView,
};
use crate::ranking::{iter_liquid_majors, liquid_majors};
use crate::scalp::{scalp_decision, scalp_knobs, scalp_view, ScalpParams, ScalpView};
use crate::sessions::HourWindow;
use crate::symbols::{SymMap, SymSet};
use crate::text::{
    has_key, holds_key, int_value, join, joined, listed, own, parse_i64, same, strip_ending, upper,
    views, without_ending,
};
use crate::trend::{trend_decision, trend_knobs, trend_view, TrendParams, TrendView};
use vstd::prelude::*;
use vstd::string::StringExecFns;

pub mod book_laws;
pub mod laws;
pub mod tick;

pub use crate::momentum::{momentum_decision, momentum_decisions, MomentumParams};
pub use tick::{tick, tick_decisions};

verus! {

pub const STRATEGY_IDS: [i32; 5] = [1, 2, 3, 4, 5];

/// Whether a number names a strategy.
pub open spec fn is_strategy(id: i32) -> bool {
    1 <= id <= 5
}

/// The name of a strategy; empty where there is none.
pub open spec fn title_of(id: i32) -> Seq<char> {
    if id == 1 {
        "Momentum rider (растущий + TP + SL вверх)"@
    } else if id == 2 {
        "Скальп: откат к VWAP/EMA9"@
    } else if id == 3 {
        "Тренд: пробой Donchian 20/10 (день)"@
    } else if id == 4 {
        "Continuation: откат ликвидных (не догон 24h %)"@
    } else if id == 5 {
        "S5 Verify: continuation 1ч (A/B vs S4)"@
    } else {
        ""@
    }
}

pub fn strategy_title(id: i32) -> (r: &'static str)
    ensures
        r@ == title_of(id),
{
    match id {
        1 => "Momentum rider (растущий + TP + SL вверх)",
        2 => "Скальп: откат к VWAP/EMA9",
        3 => "Тренд: пробой Donchian 20/10 (день)",
        4 => "Continuation: откат ликвидных (не догон 24h %)",
        5 => "S5 Verify: continuation 1ч (A/B vs S4)",
        _ => "",
    }
}

/// Whether a strategy runs the continuation core.
pub open spec fn continues(strategy_id: i32) -> bool {
    strategy_id == 4 || strategy_id == 5
}

/// S4, with its own interval, and S5, locked to 1h, share the continuation core.
pub fn is_continuation(strategy_id: i32) -> (r: bool)
    ensures
        r == continues(strategy_id),
{
    strategy_id == 4 || strategy_id == 5
}

/// The interval of the signal candles: 1h for S5, else the given one.
pub open spec fn signal_interval(strategy_id: i32, s4_interval: TradeInterval) -> TradeInterval {
    if strategy_id == 5 {
        TradeInterval::Hour1
    } else {
        s4_interval
    }
}

pub fn continuation_interval(strategy_id: i32, s4_interval: TradeInterval) -> (r: TradeInterval)
    ensures
        r == signal_interval(strategy_id, s4_interval),
{
    if strategy_id == 5 {
        TradeInterval::Hour1
    } else {
        s4_interval
    }
}

/// The stop and pullback band follows the signal interval.
pub fn continuation_stop_band(strategy_id: i32, s4_interval: TradeInterval) -> (r: TradeInterval)
    ensures
        r == signal_interval(strategy_id, s4_interval),
{
    continuation_interval(strategy_id, s4_interval)
}

/// How many slots a strategy has.
pub fn continuation_slot_cap(strategy_id: i32, s4: i32, s5: i32) -> (r: i32)
    ensures
        r == (if strategy_id == 5 {
            s5
        } else {
            s4
        }),
{
    if strategy_id == 5 {
        s5
    } else {
        s4
    }
}

/// The given settings, else the defaults.
pub open spec fn knobs_or_default(m: Option<MomentumView>) -> MomentumView {
    match m {
        Some(x) => x,
        None => default_momentum(),
    }
}

/// S4 and S5 share their hours.
pub fn continuation_session_knobs(
    _strategy_id: i32,
    s4_always_enter: bool,
    s4_entry_windows: &[HourWindow],
) -> (r: (bool, Vec<HourWindow>))
    ensures
        r.0 == s4_always_enter,
        r.1@ == s4_entry_windows@,
{
    (s4_always_enter, crate::sessions::copy_windows(s4_entry_windows))
}

/// The knobs of the continuation core for a strategy: stop and pullback follow the
/// signal interval. S5 has its own near-high part, volume floor, lookback and bank.
pub open spec fn trade_knobs(strategy_id: i32, s4_interval: TradeInterval) -> ContinuationView {
    let p = for_interval(default_continuation(), signal_interval(strategy_id, s4_interval));
    if strategy_id == 5 {
        ContinuationView {
            near_high_frac: dec(3, 2),
            min_quote_volume: dec(100_000, 0),
            stop_lookback: 2,
            atr_k: dec(2, 0),
            bank_r: dec(2, 0),
            liquid_n: 20,
            ..p
        }
    } else {
        p
    }
}

pub fn continuation_trade_params(strategy_id: i32, s4_interval: TradeInterval) -> (r:
    ContinuationParams)
    ensures
        r@ == trade_knobs(strategy_id, s4_interval),
{
    let signal: TradeInterval = continuation_interval(strategy_id, s4_interval);
    let band: TradeInterval = continuation_stop_band(strategy_id, s4_interval);
    let mut p: ContinuationParams = ContinuationParams::default().with_interval(signal);
    p.min_stop_pct = band.min_stop_pct();
    p.max_stop_pct = band.max_stop_pct();
    p.min_pullback_pct = band.min_pullback_pct();
    if strategy_id == 5 {
        p.near_high_frac = Dec::new(3, 2);
        p.min_quote_volume = Dec::from_int(100_000);
        p.stop_lookback = 2;
        p.atr_k = Dec::from_int(2);
        p.bank_r = Dec::from_int(2);
        p.liquid_n = 20;
    }
    p
}

/// A slot cap held to 1 to 10.
pub open spec fn held_cap(n: i32) -> i32 {
    if n < 1 {
        1
    } else if n > 10 {
        10
    } else {
        n
    }
}

/// The knobs of the continuation core on a desk.
pub open spec fn desk_continuation(strategy_id: i32, momentum: Option<MomentumView>) -> ContinuationView {
    match momentum {
        Some(m) => ContinuationView {
            max_positions: held_cap(
                if strategy_id == 5 {
                    m.s5_max_positions
                } else {
                    m.s4_max_positions
                },
            ),
            always_enter: m.s4_always_enter,
            entry_windows: m.s4_entry_windows,
            ..trade_knobs(strategy_id, m.s4_interval)
        },
        None => trade_knobs(strategy_id, TradeInterval::Minute5),
    }
}

pub open spec fn opt_momentum(m: Option<&MomentumParams>) -> Option<MomentumView> {
    match m {
        Some(x) => Some(x@),
        None => None,
    }
}

pub open spec fn opt_scalp(p: Option<&ScalpParams>) -> Option<ScalpView> {
    match p {
        Some(x) => Some(x@),
        None => None,
    }
}

pub open spec fn opt_trend(p: Option<&TrendParams>) -> Option<TrendView> {
    match p {
        Some(x) => Some(x@),
        None => None,
    }
}

/// The knobs of the continuation core on a desk.
pub fn continuation_params_for(strategy_id: i32, momentum: Option<&MomentumParams>) -> (r:
    ContinuationParams)
    ensures
        r@ == desk_continuation(strategy_id, opt_momentum(momentum)),
{
    let s4: TradeInterval = match momentum {
        Some(m) => m.s4_interval,
        None => TradeInterval::Minute5,
    };
    let mut p: ContinuationParams = continuation_trade_params(strategy_id, s4);
    if let Some(m) = momentum {
        let cap: i32 = continuation_slot_cap(strategy_id, m.s4_max_positions, m.s5_max_positions);
        p.max_positions = if cap < 1 {
            1
        } else if cap > 10 {
            10
        } else {
            cap
        };
        let (always, windows) = continuation_session_knobs(
            strategy_id,
            m.s4_always_enter,
            m.s4_entry_windows.as_slice(),
        );
        p.always_enter = always;
        p.entry_windows = windows;
    }
    p
}

/// What a number that names no strategy is told.
pub open spec fn strategy_error() -> Seq<char> {
    "strategy must be 1, 2, 3, 4, or 5"@
}

pub fn select_strategy(raw: i32) -> (r: Result<i32, String>)
    ensures
        match r {
            Ok(id) => is_strategy(raw) && id == raw,
            Err(e) => !is_strategy(raw) && e@ == strategy_error(),
        },
{
    if raw >= 1 && raw <= 5 {
        Ok(raw)
    } else {
        Err(own("strategy must be 1, 2, 3, 4, or 5"))
    }
}

pub fn select_strategy_str(raw: &str) -> (r: Result<i32, String>)
    ensures
        match r {
            Ok(id) => int_value(raw@) == Some(id as int) && is_strategy(id),
            Err(e) => e@ == strategy_error() && (int_value(raw@) matches Some(n) ==> !(1 <= n <= 5)),
        },
{
    match parse_i64(raw) {
        Some(n) => if n >= 1 && n <= 5 {
            select_strategy(n as i32)
        } else {
            Err(own("strategy must be 1, 2, 3, 4, or 5"))
        },
        None => Err(own("strategy must be 1, 2, 3, 4, or 5")),
    }
}

/// A symbol without its quote currency.
pub open spec fn short_name(symbol: Seq<char>) -> Seq<char> {
    without_ending(upper(symbol), "USDT"@)
}

fn short_usdt(symbol: &str) -> (r: String)
    ensures
        r@ == short_name(symbol@),
{
    let t = symbol.to_ascii_uppercase();
    own(strip_ending(t.as_str(), "USDT"))
}

/// A symbol and why it is not entered.
pub struct HoldRow {
    pub symbol: Seq<char>,
    pub reason: Seq<char>,
}

/// The reasons, each once, in the order in which they first came.
pub open spec fn reasons_of(rows: Seq<HoldRow>) -> Seq<Seq<char>>
    decreases rows.len(),
{
    if rows.len() == 0 {
        Seq::empty()
    } else {
        let rest = reasons_of(rows.drop_last());
        if rest.contains(rows.last().reason) {
            rest
        } else {
            rest.push(rows.last().reason)
        }
    }
}

/// The short names of the rows with a reason, in order.
pub open spec fn names_with(rows: Seq<HoldRow>, reason: Seq<char>) -> Seq<Seq<char>>
    decreases rows.len(),
{
    if rows.len() == 0 {
        Seq::empty()
    } else {
        let rest = names_with(rows.drop_last(), reason);
        if rows.last().reason == reason {
            rest.push(short_name(rows.last().symbol))
        } else {
            rest
        }
    }
}

/// `names: reason` for each reason.
pub open spec fn reason_parts(rows: Seq<HoldRow>, reasons: Seq<Seq<char>>) -> Seq<Seq<char>> {
    Seq::new(
        reasons.len(),
        |i: int| joined(names_with(rows, reasons[i]), ", "@) + ": "@ + reasons[i],
    )
}

/// One reason for several symbols.
pub open spec fn combined(rows: Seq<HoldRow>) -> Seq<char> {
    let reasons = reasons_of(rows);
    if rows.len() == 0 {
        "нет символа"@
    } else if rows.len() == 1 {
        rows[0].reason
    } else if reasons.len() == 1 {
        reasons[0] + " ("@ + joined(names_with(rows, reasons[0]), ", "@) + ")"@
    } else {
        "нет входа — "@ + joined(reason_parts(rows, reasons), "; "@)
    }
}

pub open spec fn hold_rows(v: Seq<(String, String)>) -> Seq<HoldRow> {
    Seq::new(v.len(), |i: int| HoldRow { symbol: v[i].0@, reason: v[i].1@ })
}

fn list_reasons(rows: &[(String, String)]) -> (r: Vec<String>)
    ensures
        views(r@) == reasons_of(hold_rows(rows@)),
{
    let ghost all = hold_rows(rows@);
    let mut out: Vec<String> = Vec::new();
    let mut i: usize = 0;
    proof {
        assert(views(out@) =~= reasons_of(all.take(0)));
    }
    while i < rows.len()
        invariant
            i <= rows@.len(),
            all == hold_rows(rows@),
            views(out@) == reasons_of(all.take(i as int)),
        decreases rows@.len() - i,
    {
        proof {
            assert(all.take(i as int + 1).drop_last() =~= all.take(i as int));
        }
        let reason: &str = rows[i].1.as_str();
        if !listed(out.as_slice(), reason) {
            let ghost before = views(out@);
            out.push(own(reason));
            proof {
                assert(views(out@) =~= before.push(reason@));
            }
        }
        i = i + 1;
    }
    proof {
        assert(all.take(i as int) =~= all);
    }
    out
}

fn list_names(rows: &[(String, String)], reason: &str) -> (r: Vec<String>)
    ensures
        views(r@) == names_with(hold_rows(rows@), reason@),
{
    let ghost all = hold_rows(rows@);
    let mut out: Vec<String> = Vec::new();
    let mut i: usize = 0;
    proof {
        assert(views(out@) =~= names_with(all.take(0), reason@));
    }
    while i < rows.len()
        invariant
            i <= rows@.len(),
            all == hold_rows(rows@),
            views(out@) == names_with(all.take(i as int), reason@),
        decreases rows@.len() - i,
    {
        proof {
            assert(all.take(i as int + 1).drop_last() =~= all.take(i as int));
        }
        if same(rows[i].1.as_str(), reason) {
            let ghost before = views(out@);
            let name = short_usdt(rows[i].0.as_str());
            let ghost nv = name@;
            out.push(name);
            proof {
                assert(views(out@) =~= before.push(nv));
            }
        }
        i = i + 1;
    }
    proof {
        assert(all.take(i as int) =~= all);
    }
    out
}

fn combine_holds(rows: &[(String, String)]) -> (r: String)
    ensures
        r@ == combined(hold_rows(rows@)),
{
    if rows.len() == 0 {
        return own("нет символа");
    }
    if rows.len() == 1 {
        proof {
            assert(hold_rows(rows@)[0].reason == rows@[0].1@);
        }
        return own(rows[0].1.as_str());
    }
    let order: Vec<String> = list_reasons(rows);
    proof {
        assert(views(order@).len() == order@.len());
    }
    if order.len() == 1 {
        let names: Vec<String> = list_names(rows, order[0].as_str());
        proof {
            assert(views(order@)[0] == order@[0]@);
        }
        let mut out = own(order[0].as_str());
        out.append(" (");
        out.append(join(names.as_slice(), ", ").as_str());
        out.append(")");
        return out;
    }
    let ghost goal = reason_parts(hold_rows(rows@), views(order@));
    let mut parts: Vec<String> = Vec::new();
    let mut i: usize = 0;
    proof {
        assert(views(parts@) =~= goal.take(0));
    }
    while i < order.len()
        invariant
            i <= order@.len(),
            goal == reason_parts(hold_rows(rows@), views(order@)),
            views(parts@) == goal.take(i as int),
        decreases order@.len() - i,
    {
        let names: Vec<String> = list_names(rows, order[i].as_str());
        let mut part = join(names.as_slice(), ", ");
        part.append(": ");
        part.append(order[i].as_str());
        let ghost before = views(parts@);
        let ghost pv = part@;
        parts.push(part);
        proof {
            assert(views(order@)[i as int] == order@[i as int]@);
            assert(views(parts@) =~= before.push(pv));
            assert(goal.take(i as int + 1) =~= goal.take(i as int).push(goal[i as int]));
        }
        i = i + 1;
    }
    proof {
        assert(goal.take(i as int) =~= goal);
    }
    let mut out = own("нет входа — ");
    out.append(join(parts.as_slice(), "; ").as_str());
    out
}

/// Symbols added to a list, each once, those on the exclusion list left out.
pub open spec fn with_symbols(
    seen: Seq<Seq<char>>,
    more: Seq<Seq<char>>,
    exclude: Seq<Seq<char>>,
) -> Seq<Seq<char>>
    decreases more.len(),
{
    if more.len() == 0 {
        seen
    } else {
        let rest = with_symbols(seen, more.drop_last(), exclude);
        let k = more.last();
        if rest.contains(k) || has_key(exclude, upper(k)) {
            rest
        } else {
            rest.push(k)
        }
    }
}

/// The symbols of rows, each once.
pub open spec fn distinct_rows(rows: Seq<Ticker>) -> Seq<Seq<char>>
    decreases rows.len(),
{
    if rows.len() == 0 {
        Seq::empty()
    } else {
        let rest = distinct_rows(rows.drop_last());
        if rest.contains(rows.last().symbol@) {
            rest
        } else {
            rest.push(rows.last().symbol@)
        }
    }
}

/// The keys of a map in the order in which they came.
pub open spec fn listed_keys<V>(e: Seq<(String, V)>) -> Seq<Seq<char>> {
    Seq::new(e.len(), |i: int| e[i].0@)
}

/// The symbols a single-slot desk looks at: the majors of the tape, then the
/// names with candles, then the chart's.
pub open spec fn desk_names(s: MarketSnapshot, exclude: Seq<Seq<char>>) -> Seq<Seq<char>> {
    let charted = with_symbols(
        distinct_rows(liquid_majors(s.tickers@, exclude)),
        listed_keys(s.universe_bars.list()),
        exclude,
    );
    if s.chart_symbol@.len() == 0 {
        charted
    } else {
        with_symbols(charted, seq![s.chart_symbol@], exclude)
    }
}

/// Whether a symbol still cools down.
pub open spec fn cools(cooldowns: Map<Seq<char>, i64>, now: int, symbol: Seq<char>) -> bool {
    now < (if cooldowns.contains_key(upper(symbol)) {
        cooldowns[upper(symbol)] as int
    } else {
        0
    })
}

fn is_cooling(cooldowns: &SymMap<i64>, now: i64, symbol: &str) -> (r: bool)
    ensures
        r == cools(cooldowns@, now as int, symbol@),
{
    let key = symbol.to_ascii_uppercase();
    match cooldowns.get(key.as_str()) {
        Some(t) => now < *t,
        None => now < 0,
    }
}

fn add_symbol(out: &mut Vec<String>, k: &str, exclude: &[String])
    ensures
        views(final(out)@) == with_symbols(views(old(out)@), seq![k@], views(exclude@)),
{
    let ghost before = views(out@);
    proof {
        reveal_with_fuel(with_symbols, 2);
        assert(seq![k@].drop_last() =~= Seq::<Seq<char>>::empty());
    }
    let up = k.to_ascii_uppercase();
    if !listed(out.as_slice(), k) && !holds_key(exclude, up.as_str()) {
        out.push(own(k));
        proof {
            assert(views(out@) =~= before.push(k@));
        }
    }
}

proof fn lemma_with_symbols_push(
    seen: Seq<Seq<char>>,
    more: Seq<Seq<char>>,
    k: Seq<char>,
    exclude: Seq<Seq<char>>,
)
    ensures
        with_symbols(with_symbols(seen, more, exclude), seq![k], exclude) == with_symbols(
            seen,
            more.push(k),
            exclude,
        ),
{
    reveal_with_fuel(with_symbols, 2);
    assert(seq![k].drop_last() =~= Seq::<Seq<char>>::empty());
    assert(more.push(k).drop_last() =~= more);
}

fn desk_symbols(snapshot: &MarketSnapshot, exclude: &[String]) -> (r: Vec<String>)
    ensures
        views(r@) == desk_names(*snapshot, views(exclude@)),
{
    let rows: Vec<Ticker> = iter_liquid_majors(snapshot.tickers.as_slice(), exclude);
    let mut out: Vec<String> = Vec::new();
    let mut i: usize = 0;
    proof {
        assert(views(out@) =~= distinct_rows(rows@.take(0)));
    }
    while i < rows.len()
        invariant
            i <= rows@.len(),
            views(out@) == distinct_rows(rows@.take(i as int)),
        decreases rows@.len() - i,
    {
        proof {
            assert(rows@.take(i as int + 1).drop_last() =~= rows@.take(i as int));
        }
        let sym: &str = rows[i].symbol.as_str();
        if !listed(out.as_slice(), sym) {
            let ghost before = views(out@);
            out.push(own(sym));
            proof {
                assert(views(out@) =~= before.push(sym@));
            }
        }
        i = i + 1;
    }
    proof {
        assert(rows@.take(i as int) =~= rows@);
    }
    let ghost majors = views(out@);
    let ghost keys = listed_keys(snapshot.universe_bars.list());
    let n: usize = snapshot.universe_bars.len();
    let mut j: usize = 0;
    proof {
        assert(keys.take(0) =~= Seq::<Seq<char>>::empty());
    }
    while j < n
        invariant
            n == snapshot.universe_bars.list().len(),
            j <= n,
            keys == listed_keys(snapshot.universe_bars.list()),
            views(out@) == with_symbols(majors, keys.take(j as int), views(exclude@)),
        decreases n - j,
    {
        let k: &str = snapshot.universe_bars.key_at(j);
        proof {
            lemma_with_symbols_push(majors, keys.take(j as int), k@, views(exclude@));
            assert(keys.take(j as int + 1) =~= keys.take(j as int).push(k@));
        }
        add_symbol(&mut out, k, exclude);
        j = j + 1;
    }
    proof {
        assert(keys.take(j as int) =~= keys);
    }
    let chart: &str = snapshot.chart_symbol.as_str();
    if !chart.is_empty() {
        add_symbol(&mut out, chart, exclude);
    }
    out
}

/// What a single-slot strategy says of one symbol.
pub open spec fn symbol_view(
    sid: i32,
    s: MarketSnapshot,
    position: Option<Position>,
    symbol: Seq<char>,
    scalp: ScalpView,
    trend: TrendView,
    now: int,
) -> Option<DecisionView> {
    if sid == 2 {
        scalp_view(s.series(symbol), position, symbol, scalp, Some(now))
    } else {
        trend_view(s.series(symbol), position, symbol, trend, Some(now))
    }
}

fn decide_symbol(
    sid: i32,
    snapshot: &MarketSnapshot,
    position: Option<&Position>,
    symbol: &str,
    scalp: Option<&ScalpParams>,
    trend: Option<&TrendParams>,
    now: i64,
) -> (r: Option<Decision>)
    ensures
        opt_decision(r) == symbol_view(
            sid,
            *snapshot,
            opt_deref(position),
            symbol@,
            scalp_knobs(scalp),
            trend_knobs(trend),
            now as int,
        ),
{
    let bars: &[Bar] = snapshot.bars_for(symbol);
    if sid == 2 {
        scalp_decision(bars, position, symbol, scalp, Some(now))
    } else {
        trend_decision(bars, position, symbol, trend, Some(now))
    }
}

/// What the scan of the desk's symbols comes to: the first entry, or why each
/// symbol is not entered.
pub struct DeskScan {
    pub entered: Option<DecisionView>,
    pub holds: Seq<HoldRow>,
}

/// The scan of the first `n` symbols: it stops at the first entry.
pub open spec fn desk_scan(
    sid: i32,
    s: MarketSnapshot,
    live: Seq<Seq<char>>,
    n: int,
    scalp: ScalpView,
    trend: TrendView,
    now: int,
) -> Option<DeskScan>
    decreases n,
{
    if n <= 0 {
        Some(DeskScan { entered: None, holds: Seq::empty() })
    } else {
        match desk_scan(sid, s, live, n - 1, scalp, trend, now) {
            None => None,
            Some(x) => {
                let symbol = live[n - 1];
                if x.entered is Some {
                    Some(x)
                } else if s.series(symbol).len() == 0 {
                    Some(
                        DeskScan {
                            holds: x.holds.push(HoldRow { symbol, reason: "нет графика"@ }),
                            ..x
                        },
                    )
                } else {
                    match symbol_view(sid, s, None, symbol, scalp, trend, now) {
                        None => None,
                        Some(d) => if d is EnterLong {
                            Some(DeskScan { entered: Some(d), ..x })
                        } else {
                            Some(
                                DeskScan {
                                    holds: x.holds.push(HoldRow { symbol, reason: d.reason() }),
                                    ..x
                                },
                            )
                        },
                    }
                }
            },
        }
    }
}

/// Once the scan has an answer, looking further does not change it.
proof fn lemma_scan_settled(
    sid: i32,
    s: MarketSnapshot,
    live: Seq<Seq<char>>,
    n: int,
    m: int,
    scalp: ScalpView,
    trend: TrendView,
    now: int,
)
    requires
        0 <= n <= m,
        desk_scan(sid, s, live, n, scalp, trend, now) is None || desk_scan(
            sid,
            s,
            live,
            n,
            scalp,
            trend,
            now,
        )->0.entered is Some,
    ensures
        desk_scan(sid, s, live, m, scalp, trend, now) == desk_scan(
            sid,
            s,
            live,
            n,
            scalp,
            trend,
            now,
        ),
    decreases m - n,
{
    if n < m {
        lemma_scan_settled(sid, s, live, n, m - 1, scalp, trend, now);
    }
}

/// The symbols that do not cool down.
pub open spec fn live_names(names: Seq<Seq<char>>, cooldowns: Map<Seq<char>, i64>, now: int) -> Seq<
    Seq<char>,
> {
    names.filter(|k: Seq<char>| !cools(cooldowns, now, k))
}

/// What a desk with a free slot decides.
pub open spec fn flat_desk(
    sid: i32,
    s: MarketSnapshot,
    scalp: ScalpView,
    trend: TrendView,
    exclude: Seq<Seq<char>>,
    cooldowns: Map<Seq<char>, i64>,
    now: int,
) -> Option<DecisionView> {
    let names = desk_names(s, exclude);
    let live = live_names(names, cooldowns, now);
    if live.len() == 0 {
        if names.len() > 0 {
            Some(hold_view("пауза после сделки"@))
        } else {
            Some(hold_view("no symbol"@))
        }
    } else {
        match desk_scan(sid, s, live, live.len() as int, scalp, trend, now) {
            None => None,
            Some(x) => match x.entered {
                Some(d) => Some(d),
                None => Some(hold_view(combined(x.holds))),
            },
        }
    }
}

fn split_live(names: &[String], cooldowns: &SymMap<i64>, now: i64) -> (r: Vec<String>)
    ensures
        views(r@) == live_names(views(names@), cooldowns@, now as int),
{
    let ghost all = views(names@);
    let ghost test = |k: Seq<char>| !cools(cooldowns@, now as int, k);
    let mut out: Vec<String> = Vec::new();
    let mut i: usize = 0;
    proof {
        reveal(Seq::filter);
        assert(views(out@) =~= all.take(0).filter(test));
    }
    while i < names.len()
        invariant
            i <= names@.len(),
            all == views(names@),
            test == (|k: Seq<char>| !cools(cooldowns@, now as int, k)),
            views(out@) == all.take(i as int).filter(test),
        decreases names@.len() - i,
    {
        proof {
            reveal(Seq::filter);
            assert(all.take(i as int + 1).drop_last() =~= all.take(i as int));
        }
        let k: &str = names[i].as_str();
        if !is_cooling(cooldowns, now, k) {
            let ghost before = views(out@);
            out.push(own(k));
            proof {
                assert(views(out@) =~= before.push(k@));
            }
        }
        i = i + 1;
    }
    proof {
        assert(all.take(i as int) =~= all);
    }
    out
}

fn decide_flat(
    sid: i32,
    snapshot: &MarketSnapshot,
    scalp: Option<&ScalpParams>,
    trend: Option<&TrendParams>,
    exclude: &[String],
    cooldowns: &SymMap<i64>,
    now: i64,
) -> (r: Option<Decision>)
    ensures
        opt_decision(r) == flat_desk(
            sid,
            *snapshot,
            scalp_knobs(scalp),
            trend_knobs(trend),
            views(exclude@),
            cooldowns@,
            now as int,
        ),
{
    let names: Vec<String> = desk_symbols(snapshot, exclude);
    let live: Vec<String> = split_live(names.as_slice(), cooldowns, now);
    proof {
        assert(views(live@).len() == live@.len() && views(names@).len() == names@.len());
    }
    if live.len() == 0 {
        if names.len() > 0 {
            return Some(Decision::hold("пауза после сделки"));
        }
        return Some(Decision::hold("no symbol"));
    }
    let ghost sv = scalp_knobs(scalp);
    let ghost tv = trend_knobs(trend);
    let mut holds: Vec<(String, String)> = Vec::new();
    let mut i: usize = 0;
    proof {
        assert(hold_rows(holds@) =~= Seq::<HoldRow>::empty());
    }
    while i < live.len()
        invariant
            i <= live@.len(),
            sv == scalp_knobs(scalp),
            tv == trend_knobs(trend),
            views(live@) == live_names(
                desk_names(*snapshot, views(exclude@)),
                cooldowns@,
                now as int,
            ),
            views(live@).len() == live@.len(),
            live@.len() > 0,
            desk_scan(sid, *snapshot, views(live@), i as int, sv, tv, now as int) == Some(
                DeskScan { entered: None, holds: hold_rows(holds@) },
            ),
        decreases live@.len() - i,
    {
        let symbol: &str = live[i].as_str();
        let ghost before = hold_rows(holds@);
        proof {
            assert(views(live@)[i as int] == symbol@);
        }
        let bars: &[Bar] = snapshot.bars_for(symbol);
        if bars.len() == 0 {
            holds.push((own(symbol), own("нет графика")));
            proof {
                assert(hold_rows(holds@) =~= before.push(
                    HoldRow { symbol: symbol@, reason: "нет графика"@ },
                ));
            }
        } else {
            match decide_symbol(sid, snapshot, None, symbol, scalp, trend, now) {
                None => {
                    proof {
                        lemma_scan_settled(
                            sid,
                            *snapshot,
                            views(live@),
                            i as int + 1,
                            live@.len() as int,
                            sv,
                            tv,
                            now as int,
                        );
                    }
                    return None;
                },
                Some(d) => {
                    if d.is_enter_long() {
                        proof {
                            lemma_scan_settled(
                                sid,
                                *snapshot,
                                views(live@),
                                i as int + 1,
                                live@.len() as int,
                                sv,
                                tv,
                                now as int,
                            );
                        }
                        return Some(d);
                    }
                    let reason = own(d.reason());
                    let ghost rv = reason@;
                    holds.push((own(symbol), reason));
                    proof {
                        assert(hold_rows(holds@) =~= before.push(
                            HoldRow { symbol: symbol@, reason: rv },
                        ));
                    }
                },
            }
        }
        i = i + 1;
    }
    let note = combine_holds(holds.as_slice());
    Some(Decision::Hold { reason: note })
}

/// What one strategy decides: the decision, the time of the last scan, and the
/// reasons for which continuation skipped names.
pub struct Choice {
    pub decision: DecisionView,
    pub scan_ts: int,
    pub skips: Seq<Seq<char>>,
}

/// The longs continuation manages: those of the book, else the single slot.
pub open spec fn held_longs(s: MarketSnapshot, position: Option<Position>) -> Seq<Position> {
    let book = open_longs(s.open_positions@);
    if book.len() > 0 {
        book
    } else {
        match position {
            Some(p) => if p.qty.pos() {
                seq![p]
            } else {
                Seq::empty()
            },
            None => Seq::empty(),
        }
    }
}

fn list_held_longs(snapshot: &MarketSnapshot, position: Option<&Position>) -> (r: Vec<Position>)
    ensures
        r@ == held_longs(*snapshot, opt_deref(position)),
{
    let mut held: Vec<Position> = open_long_rows(snapshot.open_positions.as_slice());
    if held.len() == 0 {
        if let Some(p) = position {
            if p.qty.is_pos() {
                held.push(p.clone());
            }
        }
        proof {
            assert(held@ =~= held_longs(*snapshot, opt_deref(position)));
        }
    }
    held
}

/// The first of a list of decisions, else a plain hold.
pub open spec fn first_decision(ds: Seq<DecisionView>) -> DecisionView {
    if ds.len() > 0 {
        ds[0]
    } else {
        hold_view("hold"@)
    }
}

/// What a strategy decides about a snapshot.
pub open spec fn decided(
    sid: i32,
    s: MarketSnapshot,
    position: Option<Position>,
    now: int,
    last_scan_ts: int,
    momentum: MomentumView,
    scalp: ScalpView,
    trend: TrendView,
    continuation: ContinuationView,
    exclude: Seq<Seq<char>>,
    cooldowns: Map<Seq<char>, i64>,
) -> Option<Choice> {
    let held = position is Some && position->0.qty.pos();
    if sid == 1 {
        if held && position->0.side != crate::models::Side::Long {
            Some(
                Choice {
                    decision: hold_view("momentum is buy-only; short not managed"@),
                    scan_ts: last_scan_ts,
                    skips: Seq::empty(),
                },
            )
        } else {
            let rows = if held {
                seq![position->0]
            } else {
                Seq::empty()
            };
            match momentum_result(slot_input(s.tickers@, rows, now, last_scan_ts), momentum) {
                Some((ds, ts)) => Some(
                    Choice { decision: first_decision(ds), scan_ts: ts, skips: Seq::empty() },
                ),
                None => None,
            }
        }
    } else if continues(sid) {
        match continuation_result(
            ContinuationInput {
                s,
                positions: held_longs(s, position),
                now,
                last_scan_ts,
                inflight: Seq::empty(),
                cooldowns,
                exclude,
                allow_enter: true,
                recent: Seq::empty(),
                desk_until: 0,
                scaled: Set::empty(),
                trailed_bars: Map::empty(),
                inherited: Set::empty(),
            },
            continuation,
        ) {
            Some(x) => Some(
                Choice {
                    decision: first_decision(x.decisions),
                    scan_ts: x.scan_ts,
                    skips: x.skips,
                },
            ),
            None => None,
        }
    } else {
        let d = if held {
            symbol_view(sid, s, position, position->0.symbol@, scalp, trend, now)
        } else {
            flat_desk(sid, s, scalp, trend, exclude, cooldowns, now)
        };
        match d {
            Some(d) => Some(Choice { decision: d, scan_ts: last_scan_ts, skips: Seq::empty() }),
            None => None,
        }
    }
}

/// What a strategy decides about a snapshot, the single slot given apart.
pub fn decide_with(
    strategy_id: i32,
    snapshot: &MarketSnapshot,
    position: Option<&Position>,
    now: i64,
    last_scan_ts: i64,
    momentum: Option<&MomentumParams>,
    scalp: Option<&ScalpParams>,
    trend: Option<&TrendParams>,
    continuation: Option<&ContinuationParams>,
    exclude: &[String],
    cooldowns: &SymMap<i64>,
    tally: &mut SkipTally,
) -> (r: Option<Result<(Decision, i64), String>>)
    ensures
        if !is_strategy(strategy_id) {
            &&& r matches Some(Err(e)) && e@ == strategy_error()
            &&& final(tally)@ == old(tally)@
        } else {
            match (
                r,
                decided(
                    strategy_id,
                    *snapshot,
                    opt_deref(position),
                    now as int,
                    last_scan_ts as int,
                    knobs(momentum),
                    scalp_knobs(scalp),
                    trend_knobs(trend),
                    continuation_knobs(continuation),
                    views(exclude@),
                    cooldowns@,
                ),
            ) {
                (Some(Ok((d, ts))), Some(x)) => {
                    &&& d@ == x.decision
                    &&& ts == x.scan_ts
                    &&& final(tally)@ == noted_all(old(tally)@, x.skips)
                },
                (None, None) => true,
                _ => false,
            }
        },
{
    let sid: i32 = match select_strategy(strategy_id) {
        Ok(s) => s,
        Err(e) => return Some(Err(e)),
    };
    if sid == 1 {
        proof {
            if position is Some && position->0.qty.pos() {
                assert(slot_rows(position) =~= seq![*position->0]);
            } else {
                assert(slot_rows(position) =~= Seq::<Position>::empty());
            }
        }
        return match momentum_decision(
            snapshot.tickers.as_slice(),
            position,
            now,
            last_scan_ts,
            momentum,
        ) {
            Some(x) => Some(Ok(x)),
            None => None,
        };
    }
    if is_continuation(sid) {
        let held: Vec<Position> = list_held_longs(snapshot, position);
        let none: Vec<String> = Vec::new();
        let scaled = SymSet::new();
        let trailed: SymMap<i64> = SymMap::new();
        let inherited = SymSet::new();
        proof {
            assert(views(none@) =~= Seq::<Seq<char>>::empty());
        }
        let (ds, ts, _) = continuation_decisions(
            snapshot,
            held.as_slice(),
            now,
            last_scan_ts,
            none.as_slice(),
            cooldowns,
            continuation,
            exclude,
            true,
            none.as_slice(),
            0,
            &scaled,
            &trailed,
            &inherited,
            tally,
        )?;
        if ds.len() > 0 {
            proof {
                assert(decision_views(ds@)[0] == ds@[0]@);
            }
            return Some(Ok((ds[0].clone(), ts)));
        }
        return Some(Ok((Decision::hold("hold"), ts)));
    }
    if let Some(pos) = position {
        if pos.qty.is_pos() {
            let d: Decision = decide_symbol(
                sid,
                snapshot,
                position,
                pos.symbol.as_str(),
                scalp,
                trend,
                now,
            )?;
            return Some(Ok((d, last_scan_ts)));
        }
    }
    let d: Decision = decide_flat(sid, snapshot, scalp, trend, exclude, cooldowns, now)?;
    Some(Ok((d, last_scan_ts)))
}

/// What a strategy decides about a snapshot.
pub fn decide(
    strategy_id: i32,
    snapshot: &MarketSnapshot,
    now: i64,
    last_scan_ts: i64,
    momentum: Option<&MomentumParams>,
    scalp: Option<&ScalpParams>,
    trend: Option<&TrendParams>,
    continuation: Option<&ContinuationParams>,
    exclude: &[String],
    cooldowns: &SymMap<i64>,
    tally: &mut SkipTally,
) -> (r: Option<Result<(Decision, i64), String>>)
    ensures
        if !is_strategy(strategy_id) {
            &&& r matches Some(Err(e)) && e@ == strategy_error()
            &&& final(tally)@ == old(tally)@
        } else {
            match (
                r,
                decided(
                    strategy_id,
                    *snapshot,
                    snapshot.position,
                    now as int,
                    last_scan_ts as int,
                    knobs(momentum),
                    scalp_knobs(scalp),
                    trend_knobs(trend),
                    continuation_knobs(continuation),
                    views(exclude@),
                    cooldowns@,
                ),
            ) {
                (Some(Ok((d, ts))), Some(x)) => {
                    &&& d@ == x.decision
                    &&& ts == x.scan_ts
                    &&& final(tally)@ == noted_all(old(tally)@, x.skips)
                },
                (None, None) => true,
                _ => false,
            }
        },
{
    let position: Option<&Position> = match &snapshot.position {
        Some(p) => Some(p),
        None => None,
    };
    decide_with(
        strategy_id,
        snapshot,
        position,
        now,
        last_scan_ts,
        momentum,
        scalp,
        trend,
        continuation,
        exclude,
        cooldowns,
        tally,
    )
}

} // verus!

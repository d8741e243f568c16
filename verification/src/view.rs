//! What the terminal shows of settings, engine and market.
use crate::config::load::Config;
use crate::continuation::entry::{pick_strategy4_book, strategy4_rows, tape_skips};
use crate::continuation::{continuation_knobs, liquid_rows, noted_all, SkipRow, SkipTally};
use crate::dec::Dec;
use crate::errorlog::{guess_source, guessed_source};
use crate::errors::{asks_retry, is_retry_error};
use crate::indicators::{closes, closes_of};
use crate::models::{
    action_views, coalesce_live, coalesced, copy_actions, copy_instants, copy_positions, find_last_symbol,
    last_with_symbol, opt_view, unmanaged, unmanaged_positions, EngineState, MarketSnapshot, Position, Ticker,
};
use crate::profit::{account_profit, profit_of};
use crate::ranking::{
    copy_tickers, iter_liquid_majors, liquid_majors, momentum_book, pick_strategy1_book, strategy1_rows,
};
use crate::render::ViewModel;
use crate::sessions::copy_windows;
use crate::text::{add_text, own, views};
use vstd::prelude::*;
use vstd::string::StringExecFns;

verus! {

/// The positions to show: the book, else the one position.
pub open spec fn shown_positions(s: MarketSnapshot) -> Seq<Position> {
    if s.open_positions@.len() > 0 {
        s.open_positions@
    } else if s.position is Some && s.position->0.qty.pos() {
        seq![s.position->0]
    } else {
        Seq::empty()
    }
}

pub fn view_positions(snapshot: &MarketSnapshot) -> (r: Vec<Position>)
    ensures
        r@ == shown_positions(*snapshot),
{
    if snapshot.open_positions.len() > 0 {
        return copy_positions(snapshot.open_positions.as_slice());
    }
    let mut out: Vec<Position> = Vec::new();
    if let Some(p) = &snapshot.position {
        if p.qty.is_pos() {
            out.push(p.clone());
        }
    }
    proof {
        assert(out@ =~= shown_positions(*snapshot));
    }
    out
}

/// The positions to show, each completed by what is remembered of its symbol.
pub open spec fn completed_positions(s: MarketSnapshot, remembered: Seq<Position>) -> Seq<Position> {
    let rows = shown_positions(s);
    Seq::new(
        rows.len(),
        |i: int| coalesced(rows[i], last_with_symbol(remembered, rows[i].symbol@)),
    )
}

pub fn view_positions_with(snapshot: &MarketSnapshot, remembered: &[Position]) -> (r: Vec<Position>)
    ensures
        r@ == completed_positions(*snapshot, remembered@),
{
    let rows: Vec<Position> = view_positions(snapshot);
    let ghost all = completed_positions(*snapshot, remembered@);
    let mut out: Vec<Position> = Vec::new();
    let mut i: usize = 0;
    while i < rows.len()
        invariant
            i <= rows@.len(),
            rows@ == shown_positions(*snapshot),
            all == completed_positions(*snapshot, remembered@),
            out@ == all.take(i as int),
        decreases rows@.len() - i,
    {
        let known: Option<&Position> = find_last_symbol(remembered, rows[i].symbol.as_str());
        out.push(coalesce_live(&rows[i], known));
        proof {
            assert(out@ =~= all.take(i as int + 1));
        }
        i = i + 1;
    }
    proof {
        assert(all.take(i as int) =~= all);
    }
    out
}

/// The symbols of rows.
pub open spec fn symbols_of(rows: Seq<Ticker>) -> Seq<Seq<char>> {
    Seq::new(rows.len(), |i: int| rows[i].symbol@)
}

fn list_symbols(rows: &[Ticker]) -> (r: Vec<String>)
    ensures
        views(r@) == symbols_of(rows@),
{
    let mut out: Vec<String> = Vec::new();
    let mut i: usize = 0;
    while i < rows.len()
        invariant
            i <= rows@.len(),
            views(out@) == symbols_of(rows@).take(i as int),
        decreases rows@.len() - i,
    {
        add_text(&mut out, own(rows[i].symbol.as_str()));
        proof {
            assert(views(out@) =~= symbols_of(rows@).take(i as int + 1));
        }
        i = i + 1;
    }
    proof {
        assert(views(out@) =~= symbols_of(rows@));
    }
    out
}

/// The symbols of positions.
pub open spec fn symbols_held(rows: Seq<Position>) -> Seq<Seq<char>> {
    Seq::new(rows.len(), |i: int| rows[i].symbol@)
}

fn list_held(rows: &[Position]) -> (r: Vec<String>)
    ensures
        views(r@) == symbols_held(rows@),
{
    let mut out: Vec<String> = Vec::new();
    let mut i: usize = 0;
    while i < rows.len()
        invariant
            i <= rows@.len(),
            views(out@) == symbols_held(rows@).take(i as int),
        decreases rows@.len() - i,
    {
        add_text(&mut out, own(rows[i].symbol.as_str()));
        proof {
            assert(views(out@) =~= symbols_held(rows@).take(i as int + 1));
        }
        i = i + 1;
    }
    proof {
        assert(views(out@) =~= symbols_held(rows@));
    }
    out
}

/// How many positions a setting allows, at least one.
pub open spec fn at_least_one(n: i32) -> int {
    if n < 1 {
        1
    } else {
        n as int
    }
}

/// The rows that a strategy would buy from, and what was skipped on the way.
pub open spec fn basket_rows(
    max_positions: i32,
    strategy_id: i32,
    tickers: Seq<Ticker>,
    exclude: Seq<Seq<char>>,
    skips: Seq<SkipRow>,
) -> Option<(Seq<Ticker>, Seq<SkipRow>)> {
    let n = at_least_one(max_positions);
    if strategy_id == 1 {
        match momentum_book(tickers, n, strategy1_rows(), exclude, true) {
            Some(rows) => Some((rows, skips)),
            None => None,
        }
    } else if strategy_id == 4 {
        let p = continuation_knobs(None);
        match liquid_rows(tickers, exclude, p) {
            Some(rows) => Some((strategy4_rows(rows, n, p), noted_all(skips, tape_skips(rows, p)))),
            None => None,
        }
    } else {
        Some((liquid_majors(tickers, exclude), skips))
    }
}

/// The symbols that the chosen strategy would buy from. `None` where a figure
/// leaves the range of decimals.
pub fn basket_symbols(
    cfg: &Config,
    state: &EngineState,
    snapshot: &MarketSnapshot,
    tally: &mut SkipTally,
) -> (r: Option<Vec<String>>)
    ensures
        match (
            r,
            basket_rows(
                cfg.max_positions,
                state.strategy_id,
                snapshot.tickers@,
                views(state.skip_symbols@),
                old(tally)@,
            ),
        ) {
            (Some(v), Some((rows, skips))) => views(v@) == symbols_of(rows) && final(tally)@ == skips,
            (None, None) => true,
            _ => false,
        },
{
    let n: usize = if cfg.max_positions < 1 {
        1
    } else {
        cfg.max_positions as usize
    };
    let rows: Vec<Ticker> = if state.strategy_id == 1 {
        pick_strategy1_book(snapshot.tickers.as_slice(), n, state.skip_symbols.as_slice())?
    } else if state.strategy_id == 4 {
        pick_strategy4_book(
            snapshot.tickers.as_slice(),
            n,
            state.skip_symbols.as_slice(),
            None,
            tally,
        )?
    } else {
        iter_liquid_majors(snapshot.tickers.as_slice(), state.skip_symbols.as_slice())
    };
    Some(list_symbols(rows.as_slice()))
}

/// Whether an error of the poll is kept from the footer: the account was read, and
/// the poll will try again.
pub open spec fn hides_poll_error(s: MarketSnapshot) -> bool {
    s.last_error is Some && s.account_ok && asks_retry(s.last_error->0@)
}

/// What the footer shows, what the log keeps, and where it came from.
pub struct FooterError {
    pub shown: Option<Seq<char>>,
    pub logged: Option<Seq<char>>,
    pub source: Seq<char>,
}

/// Which error the footer shows and the log keeps: the poll's before the live
/// one, unless the poll will try again.
pub open spec fn footer_of(s: MarketSnapshot, live: Option<Seq<char>>) -> FooterError {
    let poll = opt_view(s.last_error);
    if poll is Some && !hides_poll_error(s) {
        FooterError { shown: poll, logged: poll, source: "poll"@ }
    } else if live is Some {
        FooterError { shown: live, logged: live, source: guessed_source(live->0, "live"@) }
    } else if poll is Some {
        FooterError { shown: None, logged: poll, source: "poll"@ }
    } else {
        FooterError { shown: None, logged: None, source: Seq::empty() }
    }
}

fn footer_errors(snapshot: &MarketSnapshot, state: &EngineState) -> (r: (
    Option<String>,
    Option<String>,
    String,
))
    ensures
        (FooterError { shown: opt_view(r.0), logged: opt_view(r.1), source: r.2@ }) == footer_of(
            *snapshot,
            opt_view(state.last_error),
        ),
{
    if let Some(p) = &snapshot.last_error {
        let hidden: bool = snapshot.account_ok && is_retry_error(Some(p.as_str()));
        if !hidden {
            return (Some(own(p.as_str())), Some(own(p.as_str())), own("poll"));
        }
    }
    if let Some(l) = &state.last_error {
        let source: String = guess_source(l.as_str(), "live");
        return (Some(own(l.as_str())), Some(own(l.as_str())), source);
    }
    if let Some(p) = &snapshot.last_error {
        return (None, Some(own(p.as_str())), own("poll"));
    }
    (None, None, String::new())
}

/// What is said of the mode and the keys.
pub open spec fn mode_text(live: bool, keys: bool) -> Seq<char> {
    (if live {
        "LIVE TestNet: ордера разрешены."@
    } else {
        "Режим просмотра: ордера не отправляются (добавьте --live и ключи в env)."@
    }) + (if keys {
        Seq::empty()
    } else {
        " BINANCE_API_KEY/SECRET не заданы."@
    })
}

fn mode_note(live: bool, keys: bool) -> (r: String)
    ensures
        r@ == mode_text(live, keys),
{
    let mut note = if live {
        own("LIVE TestNet: ордера разрешены.")
    } else {
        own("Режим просмотра: ордера не отправляются (добавьте --live и ключи в env).")
    };
    if !keys {
        note.append(" BINANCE_API_KEY/SECRET не заданы.");
    }
    proof {
        assert(note@ =~= mode_text(live, keys));
    }
    note
}

/// What the day has brought; the inner `None` says that it has no start yet.
pub open spec fn day_profit(s: MarketSnapshot, start: Option<Dec>) -> Option<Option<Dec>> {
    match start {
        None => Some(None),
        Some(d) => match profit_of(s.account.wallet_balance, s.account.unrealized_pnl, d) {
            Some(p) => Some(Some(p)),
            None => None,
        },
    }
}

pub fn day_pnl(snapshot: &MarketSnapshot, start: Option<Dec>) -> (r: Option<Option<Dec>>)
    ensures
        r == day_profit(*snapshot, start),
{
    match start {
        None => Some(None),
        Some(d) => {
            let p: Dec = account_profit(
                snapshot.account.wallet_balance,
                snapshot.account.unrealized_pnl,
                d,
            )?;
            Some(Some(p))
        },
    }
}

/// Whether a view shows what settings, engine and market hold.
pub open spec fn shows(
    v: ViewModel,
    cfg: Config,
    state: EngineState,
    s: MarketSnapshot,
    last_decision: Seq<char>,
    flatten_armed: bool,
    now: i64,
    signals_on: bool,
    basket: Seq<Ticker>,
) -> bool {
    let e = footer_of(s, opt_view(state.last_error));
    let tail = unmanaged(shown_positions(s), state.positions@);
    &&& v.strategy_id == state.strategy_id
    &&& v.wallet_balance == s.account.wallet_balance
    &&& v.unrealized_pnl == s.account.unrealized_pnl
    &&& v.starting_equity == s.account.starting_equity
    &&& v.available_balance == s.account.available_balance
    &&& v.positions@ == shown_positions(s)
    &&& action_views(v.recent_actions@) == action_views(state.recent_actions@)
    &&& v.tickers@ == s.tickers@
    &&& v.chart_symbol@ == s.chart_symbol@
    &&& v.chart_closes@ == closes_of(s.bars@)
    &&& opt_view(v.last_error) == e.shown
    &&& opt_view(v.logged_error) == e.logged
    &&& v.error_source@ == e.source
    &&& v.live == cfg.live
    &&& v.has_credentials == (cfg.credentials is Some)
    &&& v.poll_seconds == cfg.poll_seconds
    &&& v.last_decision@ == last_decision
    &&& v.mode_note@ == mode_text(cfg.live, cfg.credentials is Some)
    &&& v.flatten_armed == flatten_armed
    &&& v.entries_paused == state.entries_paused
    &&& v.now_ts == now
    &&& v.entry_windows@ == if state.strategy_id == 4 {
        cfg.s4_entry_windows@
    } else {
        cfg.entry_windows@
    }
    &&& v.always_enter == if state.strategy_id == 4 {
        cfg.s4_always_enter
    } else {
        cfg.always_enter
    }
    &&& v.signals_on == signals_on
    &&& v.journal_lines@.len() == 0
    &&& v.leverage == cfg.leverage
    &&& v.order_notional == cfg.order_notional
    &&& v.risk_pct == cfg.risk_pct
    &&& v.notional_from_exchange == cfg.notional_from_exchange
    &&& v.max_positions == cfg.max_positions
    &&& views(v.basket_symbols@) == symbols_of(basket)
    &&& v.cooldown_until == state.cooldown_until
    &&& v.cooldowns@ == state.cooldowns@
    &&& views(v.unmanaged_symbols@) == symbols_held(tail)
    &&& v.flatten_leftovers == (tail.len() > 0)
    &&& v.daily_halt == state.daily_halt
    &&& v.daily_loss_usdt == cfg.daily_loss_usdt
    &&& v.daily_loss_r == cfg.daily_loss_r
    &&& Some(v.day_pnl) == day_profit(s, state.day_start_equity)
    &&& v.s4_interval == cfg.s4_interval
}

/// The view of settings, engine and market. `None` where a figure leaves the
/// range of decimals.
pub fn build_view(
    cfg: &Config,
    state: &EngineState,
    snapshot: &MarketSnapshot,
    last_decision: &str,
    flatten_armed: bool,
    now: i64,
    signals_on: bool,
    tally: &mut SkipTally,
) -> (r: Option<ViewModel>)
    ensures
        match (
            basket_rows(
                cfg.max_positions,
                state.strategy_id,
                snapshot.tickers@,
                views(state.skip_symbols@),
                old(tally)@,
            ),
            day_profit(*snapshot, state.day_start_equity),
        ) {
            (Some((rows, skips)), Some(_)) => {
                &&& r is Some
                &&& shows(
                    r->0,
                    *cfg,
                    *state,
                    *snapshot,
                    last_decision@,
                    flatten_armed,
                    now,
                    signals_on,
                    rows,
                )
                &&& final(tally)@ == skips
            },
            _ => r is None,
        },
{
    let day: Option<Dec> = day_pnl(snapshot, state.day_start_equity)?;
    let basket: Vec<String> = basket_symbols(cfg, state, snapshot, tally)?;
    let (shown_error, logged_error, error_source) = footer_errors(snapshot, state);
    let shown: Vec<Position> = view_positions(snapshot);
    let tail: Vec<Position> = unmanaged_positions(shown.as_slice(), state.positions.as_slice());
    let keys: bool = match &cfg.credentials {
        Some(_) => true,
        None => false,
    };
    Some(
        ViewModel {
            strategy_id: state.strategy_id,
            wallet_balance: snapshot.account.wallet_balance,
            unrealized_pnl: snapshot.account.unrealized_pnl,
            starting_equity: snapshot.account.starting_equity,
            available_balance: snapshot.account.available_balance,
            positions: shown,
            recent_actions: copy_actions(state.recent_actions.as_slice()),
            tickers: copy_tickers(snapshot.tickers.as_slice()),
            chart_symbol: own(snapshot.chart_symbol.as_str()),
            chart_closes: closes(snapshot.bars.as_slice()),
            last_error: shown_error,
            logged_error,
            live: cfg.live,
            has_credentials: keys,
            poll_seconds: cfg.poll_seconds,
            last_decision: own(last_decision),
            mode_note: mode_note(cfg.live, keys),
            flatten_armed,
            entries_paused: state.entries_paused,
            now_ts: now,
            entry_windows: if state.strategy_id == 4 {
                copy_windows(cfg.s4_entry_windows.as_slice())
            } else {
                copy_windows(cfg.entry_windows.as_slice())
            },
            always_enter: if state.strategy_id == 4 {
                cfg.s4_always_enter
            } else {
                cfg.always_enter
            },
            signals_on,
            journal_lines: Vec::new(),
            leverage: cfg.leverage,
            order_notional: cfg.order_notional,
            risk_pct: cfg.risk_pct,
            notional_from_exchange: cfg.notional_from_exchange,
            max_positions: cfg.max_positions,
            basket_symbols: basket,
            cooldown_until: state.cooldown_until,
            cooldowns: copy_instants(&state.cooldowns),
            error_source,
            unmanaged_symbols: list_held(tail.as_slice()),
            flatten_leftovers: tail.len() > 0,
            daily_halt: state.daily_halt,
            daily_loss_usdt: cfg.daily_loss_usdt,
            daily_loss_r: cfg.daily_loss_r,
            day_pnl: day,
            s4_interval: cfg.s4_interval,
        },
    )
}

/// The footer never shows an error that the log does not keep.
pub proof fn law_shown_errors_are_logged(s: MarketSnapshot, live: Option<Seq<char>>)
    ensures
        footer_of(s, live).shown is Some ==> footer_of(s, live).logged == footer_of(s, live).shown,
        footer_of(s, live).logged is Some <==> s.last_error is Some || live is Some,
{
}

} // verus!

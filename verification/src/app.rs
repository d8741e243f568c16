//! What the command line asks for.
use crate::config::load::{config_of, i32_of, load_config, read_i32, timeout_view, Config, ConfigView};
use crate::continuation::{SkipRow, SkipTally};
use crate::engine::{is_strategy, select_strategy, strategy_error};
use crate::errors::COOLDOWN_MS;
use crate::journal::{cooldowns_seeded, event_views, seed_cooldowns, TradeEvent};
use crate::models::{fresh_state, text_map, EngineState, EngineStateView, MarketSnapshot};
use crate::monitor::screen::{render_monitor, screen_text};
use crate::monitor::{build_monitor, MonitorView};
use crate::render::frame::{frame_text, render_frame};
use crate::render::ViewModel;
use crate::snapshot::{unfetched, unfetched_snapshot};
use crate::symbols::SymMap;
use crate::text::own;
use crate::tui::refresh_day_risk;
use crate::view::{basket_rows, build_view};
use vstd::prelude::*;
use vstd::string::StringExecFns;

verus! {

/// The command line.
#[derive(Debug)]
pub struct CliArgs {
    /// Print the first frame and end.
    pub dump_frame: bool,
    /// Send real orders.
    pub live: bool,
    pub strategy: String,
    /// Ask nothing of the network.
    pub offline: bool,
    pub backtest: bool,
    pub report: bool,
    /// The watch-only screen.
    pub monitor: bool,
}

/// What is to be done.
#[derive(Debug, Clone, Copy, PartialEq, Eq, Structural)]
pub enum Errand {
    Report,
    Backtest,
    MonitorFrame,
    Monitor,
    Frame,
    Session,
}

/// What a command line asks for; a frame is printed where there is no terminal.
pub open spec fn errand_of(a: CliArgs, terminal: bool) -> Errand {
    let dump = a.dump_frame || !terminal;
    if a.report {
        Errand::Report
    } else if a.backtest {
        Errand::Backtest
    } else if a.monitor {
        if dump {
            Errand::MonitorFrame
        } else {
            Errand::Monitor
        }
    } else if dump {
        Errand::Frame
    } else {
        Errand::Session
    }
}

pub fn choose_errand(a: &CliArgs, terminal: bool) -> (r: Errand)
    ensures
        r == errand_of(*a, terminal),
{
    let dump: bool = a.dump_frame || !terminal;
    if a.report {
        Errand::Report
    } else if a.backtest {
        Errand::Backtest
    } else if a.monitor {
        if dump {
            Errand::MonitorFrame
        } else {
            Errand::Monitor
        }
    } else if dump {
        Errand::Frame
    } else {
        Errand::Session
    }
}

/// The strategy that a text names.
pub open spec fn strategy_of(text: Seq<char>) -> Result<i32, Seq<char>> {
    match i32_of(text) {
        None => Err("strategy must be 1, 2, 3, or 4"@),
        Some(n) => if is_strategy(n) {
            Ok(n)
        } else {
            Err(strategy_error())
        },
    }
}

/// The strategy and the settings that a command line and an environment give, else
/// what is printed. The watch-only screen needs no keys.
pub open spec fn prepared(
    a: CliArgs,
    env: Map<Seq<char>, Seq<char>>,
    timeout: Result<i64, Seq<char>>,
) -> Result<(i32, ConfigView), Seq<char>> {
    match strategy_of(a.strategy@) {
        Err(e) => Err("config error: "@ + e + "\n"@),
        Ok(id) => match config_of(a.live && !a.monitor, env, timeout) {
            Err(e) => Err("config error: "@ + e + "\n"@),
            Ok(c) => Ok((id, c)),
        },
    }
}

fn complain(e: &str) -> (r: String)
    ensures
        r@ == "config error: "@ + e@ + "\n"@,
{
    let mut t = own("config error: ");
    t.append(e);
    t.append("\n");
    t
}

/// The strategy and the settings, else what is printed before the program ends with
/// a two.
pub fn prepare(a: &CliArgs, env: &SymMap<String>, timeout: Result<i64, String>) -> (r: Result<
    (i32, Config),
    String,
>)
    ensures
        match (r, prepared(*a, text_map(env@), timeout_view(timeout))) {
            (Ok((id, c)), Ok((x, v))) => id == x && c@ == v,
            (Err(e), Err(t)) => e@ == t,
            _ => false,
        },
{
    let id: i32 = match read_i32(a.strategy.as_str()) {
        Ok(n) => match select_strategy(n) {
            Ok(id) => id,
            Err(e) => return Err(complain(e.as_str())),
        },
        Err(_) => return Err(complain("strategy must be 1, 2, 3, or 4")),
    };
    match load_config(a.live && !a.monitor, env, timeout) {
        Ok(c) => Ok((id, c)),
        Err(e) => Err(complain(e.0.as_str())),
    }
}

/// Whether a view is the first one of a session that asks nothing. The rows to buy
/// from are those that a market without rows gives.
pub open spec fn is_first_view(
    v: ViewModel,
    cfg: Config,
    strategy_id: i32,
    now: i64,
    tally: Seq<SkipRow>,
) -> bool {
    exists|st: EngineState, s: MarketSnapshot, basket: Seq<crate::models::Ticker>|
        #![trigger crate::view::shows(v, cfg, st, s, "—"@, false, now, false, basket)]
        st@ == fresh_state(strategy_id) && s@ == unfetched(cfg@, fresh_state(strategy_id), true, None)
            && first_rows(cfg.max_positions, strategy_id, tally) == Some(basket)
            && crate::view::shows(v, cfg, st, s, "—"@, false, now, false, basket)
}

/// The rows to buy from where there are none to choose from; `None` where a figure
/// leaves the range of decimals.
pub open spec fn first_rows(max_positions: i32, strategy_id: i32, tally: Seq<SkipRow>) -> Option<
    Seq<crate::models::Ticker>,
> {
    match basket_rows(
        max_positions,
        strategy_id,
        Seq::empty(),
        fresh_state(strategy_id).skip_symbols,
        tally,
    ) {
        Some((rows, _)) => Some(rows),
        None => None,
    }
}

/// The skips that are noted once the rows to buy from are looked for where there are
/// none; `None` where a figure leaves the range of decimals.
pub open spec fn first_skips(max_positions: i32, strategy_id: i32, tally: Seq<SkipRow>) -> Option<
    Seq<SkipRow>,
> {
    match basket_rows(
        max_positions,
        strategy_id,
        Seq::empty(),
        fresh_state(strategy_id).skip_symbols,
        tally,
    ) {
        Some((_, skips)) => Some(skips),
        None => None,
    }
}

/// The first view of a session that asks nothing of the network. `None` where a
/// figure leaves the range of decimals.
pub fn offline_view(cfg: &Config, strategy_id: i32, now: i64, tally: &mut SkipTally) -> (r: Option<ViewModel>)
    ensures
        match first_skips(cfg.max_positions, strategy_id, old(tally)@) {
            Some(skips) => r is Some && is_first_view(
                r->0,
                *cfg,
                strategy_id,
                now,
                old(tally)@,
            ) && final(tally)@ == skips,
            None => r is None,
        },
{
    let state: EngineState = EngineState::new(strategy_id);
    let snapshot: MarketSnapshot = unfetched_snapshot(cfg, &state, true, None);
    build_view(cfg, &state, &snapshot, "—", false, now, false, tally)
}

/// What a run printed, and the number it ended with.
#[derive(Debug)]
pub struct Outcome {
    pub code: i32,
    pub out: String,
    pub err: String,
}

fn refused(err: String) -> (r: Outcome)
    ensures
        r.code == 2,
        r.out@.len() == 0,
        r.err@ == err@,
{
    Outcome { code: 2, out: String::new(), err }
}

fn printed(out: String) -> (r: Outcome)
    ensures
        r.code == 0,
        r.out@ == out@,
        r.err@.len() == 0,
{
    Outcome { code: 0, out, err: String::new() }
}

/// Whether an outcome is that of printing the first frame.
pub open spec fn is_frame_outcome(
    o: Outcome,
    a: CliArgs,
    env: Map<Seq<char>, Seq<char>>,
    timeout: Result<i64, Seq<char>>,
    now: i64,
    spark: Seq<char>,
    tally: Seq<SkipRow>,
) -> bool {
    match prepared(a, env, timeout) {
        Err(e) => o.code == 2 && o.out@.len() == 0 && o.err@ == e,
        Ok((id, c)) => {
            &&& o.code == 0
            &&& o.err@.len() == 0
            &&& exists|cfg: Config, v: ViewModel| #[trigger]
                is_first_view(v, cfg, id, now, tally) && cfg@ == c && frame_text(v, spark) == Some(
                    o.out@,
                )
        },
    }
}

/// Whether the first frame cannot be printed: a figure of it leaves the range of
/// decimals.
pub open spec fn lacks_frame(
    a: CliArgs,
    env: Map<Seq<char>, Seq<char>>,
    timeout: Result<i64, Seq<char>>,
    now: i64,
    spark: Seq<char>,
    tally: Seq<SkipRow>,
) -> bool {
    &&& prepared(a, env, timeout) matches Ok((id, c))
    &&& first_skips(c.max_positions, id, tally) is Some ==> exists|cfg: Config, v: ViewModel| #[trigger]
        is_first_view(v, cfg, id, now, tally) && cfg@ == c && frame_text(v, spark) is None
}

/// Prints the first frame without asking anything of the network.
pub fn dump_frame(
    a: &CliArgs,
    env: &SymMap<String>,
    timeout: Result<i64, String>,
    now: i64,
    spark: &str,
    tally: &mut SkipTally,
) -> (r: Option<Outcome>)
    ensures
        r is Some ==> is_frame_outcome(
            r->0,
            *a,
            text_map(env@),
            timeout_view(timeout),
            now,
            spark@,
            old(tally)@,
        ),
        r is Some ==> match prepared(*a, text_map(env@), timeout_view(timeout)) {
            Ok((id, c)) => first_skips(c.max_positions, id, old(tally)@) == Some(final(tally)@),
            Err(_) => final(tally)@ == old(tally)@,
        },
        r is None ==> lacks_frame(
            *a,
            text_map(env@),
            timeout_view(timeout),
            now,
            spark@,
            old(tally)@,
        ),
{
    let (id, cfg) = match prepare(a, env, timeout) {
        Ok(x) => x,
        Err(e) => return Some(refused(e)),
    };
    let view: ViewModel = offline_view(&cfg, id, now, tally)?;
    proof {
        assert(is_first_view(view, cfg, id, now, old(tally)@));
    }
    let frame: String = render_frame(&view, spark)?;
    Some(printed(frame))
}

fn frame_args(strategy: &str, live: bool, monitor: bool) -> (r: CliArgs)
    ensures
        r == (CliArgs {
            dump_frame: true,
            live,
            strategy: r.strategy,
            offline: true,
            backtest: false,
            report: false,
            monitor,
        }),
        r.strategy@ == strategy@,
{
    CliArgs {
        dump_frame: true,
        live,
        strategy: own(strategy),
        offline: true,
        backtest: false,
        report: false,
        monitor,
    }
}

/// Whether a command line asks for one frame without network.
pub open spec fn asks_frame(a: CliArgs, strategy: Seq<char>, live: bool, monitor: bool) -> bool {
    &&& a.strategy@ == strategy
    &&& a.dump_frame && a.offline && !a.backtest && !a.report
    &&& a.live == live
    &&& a.monitor == monitor
}

/// The first frame of a strategy in an empty environment.
pub fn dump_frame_offline_strategy(strategy: &str, timeout: Result<i64, String>, now: i64, spark: &str) -> (r:
    Option<Outcome>)
    ensures
        r is Some ==> exists|a: CliArgs| #[trigger]
            asks_frame(a, strategy@, false, false) && is_frame_outcome(
                r->0,
                a,
                Map::empty(),
                timeout_view(timeout),
                now,
                spark@,
                Seq::empty(),
            ),
        r is None ==> exists|a: CliArgs| #[trigger]
            asks_frame(a, strategy@, false, false) && lacks_frame(
                a,
                Map::empty(),
                timeout_view(timeout),
                now,
                spark@,
                Seq::empty(),
            ),
{
    let a: CliArgs = frame_args(strategy, false, false);
    let env: SymMap<String> = SymMap::new();
    let mut tally: SkipTally = SkipTally::new();
    proof {
        assert(text_map(env@) =~= Map::<Seq<char>, Seq<char>>::empty());
        assert(asks_frame(a, strategy@, false, false));
    }
    dump_frame(&a, &env, timeout, now, spark, &mut tally)
}

/// The first frame of the first strategy in an empty environment.
pub fn dump_frame_offline_isolated(timeout: Result<i64, String>, now: i64, spark: &str) -> (r: Option<Outcome>)
    ensures
        r is Some ==> exists|a: CliArgs| #[trigger]
            asks_frame(a, "1"@, false, false) && is_frame_outcome(
                r->0,
                a,
                Map::empty(),
                timeout_view(timeout),
                now,
                spark@,
                Seq::empty(),
            ),
        r is None ==> exists|a: CliArgs| #[trigger]
            asks_frame(a, "1"@, false, false) && lacks_frame(
                a,
                Map::empty(),
                timeout_view(timeout),
                now,
                spark@,
                Seq::empty(),
            ),
{
    dump_frame_offline_strategy("1", timeout, now, spark)
}

/// A live run in an empty environment is refused: the number it ends with, and what
/// it prints.
pub fn live_without_keys_isolated(timeout: Result<i64, String>, now: i64, spark: &str) -> (r: (i32, String))
    ensures
        r.0 == 2,
        exists|a: CliArgs| #[trigger]
            asks_frame(a, "1"@, true, false) && prepared(a, Map::empty(), timeout_view(timeout)) == Err::<
                (i32, ConfigView),
                Seq<char>,
            >(r.1@),
{
    let a: CliArgs = frame_args("1", true, false);
    let env: SymMap<String> = SymMap::new();
    let mut tally: SkipTally = SkipTally::new();
    proof {
        assert(text_map(env@) =~= Map::<Seq<char>, Seq<char>>::empty());
        assert(asks_frame(a, "1"@, true, false));
        law_live_runs_need_keys(a, Map::empty(), timeout_view(timeout));
    }
    match dump_frame(&a, &env, timeout, now, spark, &mut tally) {
        Some(o) => {
            let mut t: String = o.err;
            t.append(o.out.as_str());
            (o.code, t)
        },
        None => (2, String::new()),
    }
}

/// A live run is refused where no keys are given; the watch-only screen is not, on
/// that account.
pub proof fn law_live_runs_need_keys(
    a: CliArgs,
    env: Map<Seq<char>, Seq<char>>,
    timeout: Result<i64, Seq<char>>,
)
    ensures
        prepared(a, env, timeout) matches Ok((id, c)) ==> is_strategy(id) && c.live == (a.live && !a.monitor)
            && (a.live && !a.monitor ==> c.credentials is Some),
        a.live && !a.monitor && !env.contains_key("BINANCE_API_KEY"@) && !env.contains_key(
            "BINANCE_API_SECRET"@,
        ) ==> prepared(a, env, timeout) is Err,
{
    crate::config::load::law_accepted_settings_are_safe(a.live && !a.monitor, env, timeout);
}

/// Whether a screen is the first one of a watch that asks nothing.
pub open spec fn is_first_screen(
    v: MonitorView,
    cfg: Config,
    strategy_id: i32,
    events: Seq<TradeEvent>,
    now: i64,
) -> bool {
    exists|
        st: EngineState,
        s: MarketSnapshot,
        profit: crate::dec::Dec,
        day: Option<crate::dec::Dec>,
        waiting: Seq<crate::monitor::WaitView>,
        closed: crate::monitor::closed::ClosedSum,
    |
        #![trigger crate::monitor::mirrors(v, cfg, st, s, now, profit, day, waiting, closed)]
        is_watching(st@, s@, cfg, strategy_id, events, now) && crate::monitor::closed::closed_rows(
            events,
            now as int,
        ) == Some(closed) && crate::monitor::waiting_of(
            cfg,
            st,
            s,
            crate::view::completed_positions(s, st.positions@),
            now as int,
        ) == Some(waiting) && crate::profit::profit_of(
            s.account.wallet_balance,
            s.account.unrealized_pnl,
            s.account.starting_equity,
        ) == Some(profit) && crate::view::day_profit(s, st.day_start_equity) == Some(day)
            && crate::monitor::mirrors(v, cfg, st, s, now, profit, day, waiting, closed)
}

/// Whether a state is that of a watch which asks nothing: the pauses of the lines
/// are sat out, and the day is begun.
pub open spec fn is_watching(
    st: EngineStateView,
    s: crate::snapshot::SnapView,
    cfg: Config,
    strategy_id: i32,
    events: Seq<TradeEvent>,
    now: i64,
) -> bool {
    let seeded = cooldowns_seeded(
        fresh_state(strategy_id),
        event_views(events),
        now as int,
        COOLDOWN_MS as int,
    );
    &&& s == unfetched(cfg@, seeded, true, None)
    &&& match crate::profit::equity_of(s.account.wallet_balance, s.account.unrealized_pnl) {
        Some(equity) => match crate::dayrisk::state_day_risk(
            seeded,
            now as int,
            equity,
            crate::tui::limits_of(cfg),
        ) {
            Some(d) => st == crate::dayrisk::with_day_risk(seeded, d),
            None => false,
        },
        None => false,
    }
}

/// Whether a watch that asks nothing has no first screen: a figure of it leaves its
/// range.
pub open spec fn lacks_first_screen(
    cfg: Config,
    strategy_id: i32,
    events: Seq<TradeEvent>,
    now: i64,
) -> bool {
    let seeded = cooldowns_seeded(
        fresh_state(strategy_id),
        event_views(events),
        now as int,
        COOLDOWN_MS as int,
    );
    let account = unfetched(cfg@, seeded, true, None).account;
    match crate::profit::equity_of(account.wallet_balance, account.unrealized_pnl) {
        None => true,
        Some(equity) => match crate::dayrisk::state_day_risk(
            seeded,
            now as int,
            equity,
            crate::tui::limits_of(cfg),
        ) {
            None => true,
            Some(_) => exists|st: EngineState, s: MarketSnapshot| #[trigger]
                is_watching(st@, s@, cfg, strategy_id, events, now) && lacks_figure(
                    cfg,
                    st,
                    s,
                    events,
                    now,
                ),
        },
    }
}

/// Whether a figure of the watch-only screen leaves its range.
pub open spec fn lacks_figure(
    cfg: Config,
    st: EngineState,
    s: MarketSnapshot,
    events: Seq<TradeEvent>,
    now: i64,
) -> bool {
    ||| crate::profit::profit_of(
        s.account.wallet_balance,
        s.account.unrealized_pnl,
        s.account.starting_equity,
    ) is None
    ||| crate::view::day_profit(s, st.day_start_equity) is None
    ||| crate::monitor::waiting_of(
        cfg,
        st,
        s,
        crate::view::completed_positions(s, st.positions@),
        now as int,
    ) is None
    ||| crate::monitor::closed::closed_rows(events, now as int) is None
}

/// The first screen of a watch that asks nothing of the network. `None` where a
/// figure leaves its range.
pub fn offline_screen(cfg: &Config, strategy_id: i32, events: &[TradeEvent], now: i64) -> (r: Option<
    MonitorView,
>)
    ensures
        r is Some ==> is_first_screen(r->0, *cfg, strategy_id, events@, now),
        r is None ==> lacks_first_screen(*cfg, strategy_id, events@, now),
{
    let mut state: EngineState = EngineState::new(strategy_id);
    seed_cooldowns(&mut state, events, now, COOLDOWN_MS);
    let snapshot: MarketSnapshot = unfetched_snapshot(cfg, &state, true, None);
    refresh_day_risk(cfg, &mut state, &snapshot, now)?;
    proof {
        assert(is_watching(state@, snapshot@, *cfg, strategy_id, events@, now));
    }
    build_monitor(cfg, &state, &snapshot, events, now)
}

/// Whether the watch-only screen cannot be printed in an empty environment.
pub open spec fn lacks_screen(
    a: CliArgs,
    timeout: Result<i64, Seq<char>>,
    events: Seq<TradeEvent>,
    now: i64,
) -> bool {
    &&& prepared(a, Map::empty(), timeout) matches Ok((id, c))
    &&& {
        ||| exists|cfg: Config| cfg@ == c && #[trigger] lacks_first_screen(cfg, id, events, now)
        ||| exists|cfg: Config, v: MonitorView| #[trigger]
            is_first_screen(v, cfg, id, events, now) && cfg@ == c && screen_text(v) is None
    }
}

/// The watch-only screen of a strategy in an empty environment, over the lines of
/// the journal.
pub fn dump_monitor_offline_strategy(
    strategy: &str,
    timeout: Result<i64, String>,
    events: &[TradeEvent],
    now: i64,
) -> (r: Option<Outcome>)
    ensures
        r is Some ==> exists|a: CliArgs| #[trigger]
            asks_frame(a, strategy@, false, true) && match prepared(
                a,
                Map::empty(),
                timeout_view(timeout),
            ) {
                Err(e) => (r->0).code == 2 && (r->0).out@.len() == 0 && (r->0).err@ == e,
                Ok((id, c)) => {
                    &&& (r->0).code == 0
                    &&& (r->0).err@.len() == 0
                    &&& exists|cfg: Config, v: MonitorView| #[trigger]
                        is_first_screen(v, cfg, id, events@, now) && cfg@ == c && screen_text(v) == Some(
                            (r->0).out@,
                        )
                },
            },
        r is None ==> exists|a: CliArgs| #[trigger]
            asks_frame(a, strategy@, false, true) && lacks_screen(
                a,
                timeout_view(timeout),
                events@,
                now,
            ),
{
    let a: CliArgs = frame_args(strategy, false, true);
    let env: SymMap<String> = SymMap::new();
    proof {
        assert(text_map(env@) =~= Map::<Seq<char>, Seq<char>>::empty());
        assert(asks_frame(a, strategy@, false, true));
    }
    let (id, cfg) = match prepare(&a, &env, timeout) {
        Ok(x) => x,
        Err(e) => return Some(refused(e)),
    };
    let view: MonitorView = offline_screen(&cfg, id, events, now)?;
    proof {
        assert(is_first_screen(view, cfg, id, events@, now));
    }
    let screen: String = render_monitor(&view)?;
    Some(printed(screen))
}

} // verus!

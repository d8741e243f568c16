use tui_bot::app::{
    choose_errand, dump_frame_offline_isolated, dump_frame_offline_strategy,
    dump_monitor_offline_strategy, live_without_keys_isolated, CliArgs, Errand,
};
use tui_bot::config::load::{load_config, Config};
use tui_bot::continuation::SkipTally;
use tui_bot::dec::Dec;
use tui_bot::keys::KeyAction;
use tui_bot::models::{EngineState, MarketSnapshot, Position, Ticker};
use tui_bot::monitor::screen::render_monitor;
use tui_bot::monitor::{build_monitor, classify_waiting, session_knobs, WaitKind};
use tui_bot::poll::{adopt_pull, Pulled};
use tui_bot::profit::EquityPin;
use tui_bot::render::frame::render_frame;
use tui_bot::render::tone::line_tone;
use tui_bot::render::{
    account_profit_figure, cooldown_lines, fit_lines, fmt_money, fmt_price, fmt_price_or_dash,
    one_r_line, one_r_status, position_mark, seconds_until, top_movers, LineTone, OneRStatus,
};
use tui_bot::symbols::SymMap;
use tui_bot::tui::{
    note_pulled, note_waiting, press_key, refresh_day_risk, snapshot_due, snapshot_stale,
};
use tui_bot::view::{basket_symbols, build_view, day_pnl, view_positions, view_positions_with};

const NOW: i64 = 1_704_078_000_000;
const TIMEOUT: i64 = 10_000_000_000;

fn d(s: &str) -> Dec {
    Dec::parse(s).unwrap()
}

fn config() -> Config {
    load_config(false, &SymMap::new(), Ok(TIMEOUT)).ok().unwrap()
}

fn market() -> MarketSnapshot {
    let mut s = MarketSnapshot::empty(d("1000"));
    s.fetched = true;
    s.account.wallet_balance = d("1000");
    s.tickers.push(Ticker::new("ADAUSDT", d("1.5"), d("5"), d("9000000")));
    s.tickers.push(Ticker::new("LINKUSDT", d("10"), d("-3"), d("9000000")));
    s
}

fn args() -> CliArgs {
    CliArgs {
        dump_frame: false,
        live: false,
        strategy: "1".into(),
        offline: true,
        backtest: false,
        report: false,
        monitor: false,
    }
}

#[test]
fn errands_are_chosen() {
    assert_eq!(choose_errand(&args(), true), Errand::Session);
    assert_eq!(choose_errand(&args(), false), Errand::Frame);
    assert_eq!(choose_errand(&CliArgs { monitor: true, ..args() }, true), Errand::Monitor);
    assert_eq!(choose_errand(&CliArgs { monitor: true, ..args() }, false), Errand::MonitorFrame);
    assert_eq!(choose_errand(&CliArgs { backtest: true, monitor: true, ..args() }, true), Errand::Backtest);
    assert_eq!(choose_errand(&CliArgs { report: true, backtest: true, ..args() }, true), Errand::Report);
}

#[test]
fn the_first_frame_is_printed_offline() {
    let r = dump_frame_offline_isolated(Ok(TIMEOUT), NOW, "SPARK").unwrap();
    assert_eq!(r.code, 0);
    assert!(r.err.is_empty());
    assert!(r.out.contains("SPARK"), "{}", r.out);
    assert!(r.out.contains("=== Аналитика / график ==="), "{}", r.out);
    let two = dump_frame_offline_strategy("2", Ok(TIMEOUT), NOW, "").unwrap();
    assert_ne!(two.out, r.out);
    let bad = dump_frame_offline_strategy("9", Ok(TIMEOUT), NOW, "").unwrap();
    assert_eq!(bad.code, 2);
    assert!(bad.err.starts_with("config error: "));
}

#[test]
fn live_needs_keys() {
    let (code, text) = live_without_keys_isolated(Ok(TIMEOUT), NOW, "");
    assert_eq!(code, 2);
    assert!(text.contains("BINANCE_API_KEY"), "{text}");
}

#[test]
fn the_watch_screen_is_printed_offline() {
    let r = dump_monitor_offline_strategy("1", Ok(TIMEOUT), &[], NOW).unwrap();
    assert_eq!(r.code, 0);
    assert!(!r.out.is_empty());
}

#[test]
fn amounts_are_written() {
    assert_eq!(fmt_money(d("1.23456")).unwrap(), "1.2346");
    assert_eq!(fmt_price(d("0.1234567")).unwrap(), "0.123457");
    assert_eq!(fmt_price_or_dash(None).unwrap(), "—");
    assert_eq!(fmt_money(d("1000000000000000000000000000")), None);
    assert_eq!(fmt_price(d("-1000000000000000000000000000")), None);
    assert_eq!(fmt_price_or_dash(Some(d("1000000000000000000000000000"))), None);
    assert_eq!(fmt_money(d("100000000000000000000000000")).unwrap(), "100000000000000000000000000.0000");
    assert_eq!(seconds_until(NOW + 1_999, NOW), 1);
    assert_eq!(seconds_until(NOW, NOW + 5), 0);
}

#[test]
fn frames_fit_the_terminal() {
    let v = fit_lines("abcdef\ng\nh", 3, 2);
    assert!(v.len() <= 2);
    assert!(v.iter().all(|l| l.chars().count() <= 3), "{v:?}");
}

#[test]
fn pauses_are_listed() {
    assert!(cooldown_lines(NOW, 0, &SymMap::new()).is_empty());
    let mut m = SymMap::new();
    m.insert("ADAUSDT", NOW + 60_000);
    m.insert("OLDUSDT", NOW - 1);
    let v = cooldown_lines(NOW, NOW + 30_000, &m);
    let text = v.join("\n");
    assert!(text.contains("ADAUSDT"), "{text}");
    assert!(!text.contains("OLDUSDT"), "{text}");
}

#[test]
fn the_first_r_is_shown() {
    let p = Position::long("ADAUSDT", d("2"), d("100"), Some(d("98")), None);
    assert!(matches!(one_r_status(&p, d("102")).unwrap(), OneRStatus::Reached));
    match one_r_status(&p, d("101")).unwrap() {
        OneRStatus::Remaining { usdt, .. } => assert_eq!(usdt, d("2")),
        other => panic!("{other:?}"),
    }
    let even = Position::long("ADAUSDT", d("2"), d("100"), Some(d("100")), None);
    assert!(matches!(one_r_status(&even, d("101")).unwrap(), OneRStatus::Reached));
    let bare = Position::long("ADAUSDT", d("2"), d("100"), None, None);
    assert!(matches!(one_r_status(&bare, d("101")).unwrap(), OneRStatus::NoStop));
    assert!(one_r_line(&p, d("101")).unwrap().is_some());
    assert_eq!(position_mark(&p, &[Ticker::new("ADAUSDT", d("7"), d("0"), d("0"))]), Some(d("7")));
}

#[test]
fn movers_are_split() {
    let (up, down) = top_movers(&market().tickers, 5);
    assert_eq!(up[0].symbol, "ADAUSDT");
    assert_eq!(down[0].symbol, "LINKUSDT");
}

#[test]
fn lines_have_tones() {
    assert_eq!(line_tone("Прибыль счета: 1", d("1")), Some(LineTone::Profit));
    assert_eq!(line_tone("Прибыль счета: -1", d("-1")), Some(LineTone::Loss));
    assert_eq!(line_tone("uPnL=-0.5", d("1")), Some(LineTone::Loss));
    assert_eq!(line_tone("plain", d("0")), None);
}

#[test]
fn a_view_is_built_and_drawn() {
    let cfg = config();
    let mut state = EngineState::new(1);
    state.last_error = Some("-1007".into());
    let mut tally = SkipTally::new();
    let snap = market();
    let view = build_view(&cfg, &state, &snap, "text of the day", false, NOW, true, &mut tally).unwrap();
    assert_eq!(view.strategy_id, 1);
    assert!(view.signals_on);
    assert_eq!(account_profit_figure(&view), Some(d("0")));
    assert_eq!(view.logged_error.as_deref(), Some("-1007"));
    let frame = render_frame(&view, "~~~").unwrap();
    assert!(frame.contains("~~~"));
    assert!(frame.contains("text of the day"), "{frame}");
    assert!(frame.contains("ADAUSDT"), "{frame}");
    assert!(!basket_symbols(&cfg, &state, &snap, &mut tally).unwrap().is_empty());
    assert_eq!(day_pnl(&snap, Some(d("990"))), Some(Some(d("10"))));
    assert_eq!(day_pnl(&snap, None), Some(None));
}

#[test]
fn shown_positions_are_the_books() {
    let mut snap = market();
    assert!(view_positions(&snap).is_empty());
    snap.open_positions = vec![Position::long("ADAUSDT", d("1"), d("1"), None, None)];
    snap.live_book = true;
    assert_eq!(view_positions(&snap).len(), 1);
    let known = Position::long("ADAUSDT", d("1"), d("1"), Some(d("0.9")), None);
    assert_eq!(view_positions_with(&snap, &[known])[0].stop_loss, Some(d("0.9")));
}

#[test]
fn the_radar_says_what_is_awaited() {
    let cfg = config();
    let state = EngineState::new(1);
    let snap = market();
    let (windows, always) = session_knobs(&cfg, 1);
    assert_eq!(windows, vec![(0, 2), (7, 10), (13, 16)]);
    assert!(!always);
    let rows = classify_waiting(&cfg, &state, &snap, &[], NOW).unwrap();
    assert!(rows.iter().all(|r| r.kind != WaitKind::Ready), "{rows:?}");
    let view = build_monitor(&cfg, &state, &snap, &[], NOW).unwrap();
    assert_eq!(view.rising[0].symbol, "ADAUSDT");
    assert!(!view.session_open);
    let text = render_monitor(&view).unwrap();
    assert!(text.contains("ADAUSDT"), "{text}");
}

#[test]
fn keys_move_the_session() {
    let mut state = EngineState::new(1);
    assert_eq!(press_key(&mut state, false, '3'), (KeyAction::Strategy(3), false));
    assert_eq!(state.strategy_id, 3);
    assert_eq!(press_key(&mut state, false, 'x'), (KeyAction::FlattenArm, true));
    assert_eq!(press_key(&mut state, true, 'k'), (KeyAction::FlattenCancel, false));
    state.entries_paused = true;
    state.last_error = Some("e".into());
    press_key(&mut state, false, 'r');
    assert!(!state.entries_paused);
    assert_eq!(state.last_error, None);
}

#[test]
fn stale_markets_are_told() {
    assert!(snapshot_due(NOW + 5_000, NOW));
    assert!(!snapshot_due(NOW + 4_999, NOW));
    assert!(snapshot_stale(NOW + 30_000, NOW));
    let mut state = EngineState::new(1);
    note_waiting(&mut state, NOW + 29_999, NOW);
    assert_eq!(state.last_error, None);
    note_waiting(&mut state, NOW + 30_000, NOW);
    assert_eq!(state.last_error.as_deref(), Some("сеть: снимок рынка завис"));
    note_pulled(&mut state);
    assert_eq!(state.last_error, None);
}

#[test]
fn pulls_are_taken_over() {
    let mut state = EngineState::new(1);
    let mut pin = EquityPin::from_config(None, None);
    let mut snap = market();
    snap.live_book = true;
    snap.account_fresh = true;
    snap.account.starting_equity = d("777");
    let pulled = Pulled { snapshot: snap, tradfi: vec!["XAUUSDT".to_string()] };
    assert!(adopt_pull(&mut state, &mut pin, &pulled));
    assert_eq!(pin.value, Some(d("777")));
    assert!(state.skip_symbols.iter().any(|s| s == "XAUUSDT"));
    assert!(!adopt_pull(&mut state, &mut pin, &pulled));
}

#[test]
fn the_watch_keeps_the_day() {
    let mut state = EngineState::new(1);
    let mut snap = market();
    snap.account.wallet_balance = d("1000");
    refresh_day_risk(&config(), &mut state, &snap, NOW).unwrap();
    snap.account.wallet_balance = d("975");
    refresh_day_risk(&config(), &mut state, &snap, NOW + 1).unwrap();
    assert!(state.daily_halt);
}

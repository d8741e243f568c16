use tui_bot::backtest::arms::{
    grid_knobs, pool_trades, research_text, run_arms, scalp_knobs, sweep_knobs, walk_lines, ArmText,
};
use tui_bot::backtest::research::{arm_heading, arm_report, research_head, session_scalp};
use tui_bot::backtest::sweep::{
    grid_line, momentum_grid, sort_rows, sweep_file, sweep_grid, sweep_note, sweep_report, sweep_row,
};
use tui_bot::backtest::{
    cached_bars, equity_curve, format_packed, run_plan, shipped_knobs, shipped_plan, Series, Universe,
};
use tui_bot::continuation::SkipTally;
use tui_bot::dec::Dec;
use tui_bot::desk_orchestrator::HeatLimits;
use tui_bot::errorlog::ErrorEvent;
use tui_bot::errors::COOLDOWN_MS;
use tui_bot::journal::{
    cooldowns_from_events, desk_cooldown_from_events, event_unix, journal_symbol, long_close_was_win,
    opener_strategy_id_from, parse_pnl, record_amend, record_close, record_flatten, record_open,
    seed_cooldowns, symbol_cooldown_until, symbol_pause_ms_for, unmatched_open_positions_from, Ledger,
    Stamp, TradeEvent,
};
use tui_bot::json::Json;
use tui_bot::models::{bars_from_raw, Bar, EngineState};
use tui_bot::monitor::closed::closed_today_rows;
use tui_bot::openmeta::{mark_pnl_usdt, OpenMeta};
use tui_bot::report::research::{win_counts, WinTexts};
use tui_bot::report::{format_report, format_report_filtered};
use tui_bot::sim::{change_percent, simulate_bars, ClosedTrade, SimResult};

const NOW: i64 = 1_704_078_000_000;

fn d(s: &str) -> Dec {
    Dec::parse(s).unwrap()
}

fn event(kind: &str, ts: &str, symbol: &str, pnl: Option<&str>) -> TradeEvent {
    let mut e = TradeEvent::default();
    e.event = kind.into();
    e.ts = ts.into();
    e.symbol = symbol.into();
    e.strategy_id = 1;
    e.qty = "1".into();
    e.price = "100".into();
    e.pnl = pnl.map(|p| p.into());
    e
}

#[test]
fn closes_are_won_after_fees() {
    assert_eq!(long_close_was_win(d("100"), d("100.05"), None), Some(false));
    assert_eq!(long_close_was_win(d("100"), d("101"), None), Some(true));
    assert_eq!(long_close_was_win(d("100"), d("99"), Some(d("98"))), Some(true));
    assert_eq!(long_close_was_win(d("0"), d("99"), None), Some(false));
    assert_eq!(parse_pnl(Some(" 1.5 ")), Some(d("1.5")));
    assert_eq!(parse_pnl(Some("x")), None);
    assert_eq!(journal_symbol("LONG btcusdt"), "BTCUSDT");
    assert_eq!(event_unix("2024-01-01T03:00:00Z"), Some(NOW));
    assert_eq!(event_unix("?"), None);
}

#[test]
fn losses_pause_longer() {
    assert!(symbol_pause_ms_for(1, false, COOLDOWN_MS) >= symbol_pause_ms_for(1, true, COOLDOWN_MS));
    assert_eq!(symbol_cooldown_until(NOW, true, COOLDOWN_MS), NOW + COOLDOWN_MS);
    let lost = event("close", "2024-01-01T02:59:00Z", "BTCUSDT", Some("-1"));
    let map = cooldowns_from_events(&[lost.clone()], NOW, COOLDOWN_MS);
    assert!(map.get("BTCUSDT").is_some_and(|t| *t > NOW + COOLDOWN_MS));
    assert!(desk_cooldown_from_events(&[lost.clone()], NOW, COOLDOWN_MS) > NOW);
    let old = event("close", "2023-01-01T02:59:00Z", "BTCUSDT", Some("-1"));
    assert_eq!(cooldowns_from_events(&[old], NOW, COOLDOWN_MS).len(), 0);
    let mut state = EngineState::new(1);
    seed_cooldowns(&mut state, &[lost], NOW, COOLDOWN_MS);
    assert!(state.cooldowns.contains_key("BTCUSDT"));
    assert!(state.cooldown_until > NOW);
}

#[test]
fn opens_without_a_close_stay() {
    let mut open = event("open", "2024-01-01T01:00:00Z", "BTCUSDT", None);
    open.stop_loss = Some("98".into());
    open.strategy_id = 4;
    let eth = event("open", "2024-01-01T01:00:00Z", "ETHUSDT", None);
    let gone = event("close", "2024-01-01T02:00:00Z", "ETHUSDT", Some("1"));
    let events = [open, eth, gone];
    let v = unmatched_open_positions_from(&events);
    assert_eq!(v.len(), 1);
    assert_eq!((v[0].symbol.as_str(), v[0].qty, v[0].stop_loss), ("BTCUSDT", d("1"), Some(d("98"))));
    assert_eq!(opener_strategy_id_from(&events, &OpenMeta::new(), "BTCUSDT", 1), 4);
    assert_eq!(opener_strategy_id_from(&events, &OpenMeta::new(), "SOLUSDT", 1), 1);
}

#[test]
fn a_partial_close_leaves_a_positive_rest() {
    let mut open = event("open", "2024-01-01T01:00:00Z", "BTCUSDT", None);
    let mut part = event("close", "2024-01-01T02:00:00Z", "BTCUSDT", Some("1"));
    for (held, sold, rest) in [
        ("2", "0.5", "1.5"),
        ("1.0000000000000000000000000001", "1", "0.0000000000000000000000000001"),
        (
            "79228162514264337593543950335",
            "0.0000000000000000000000000001",
            "79228162514264337593543950335",
        ),
        ("7922816251426433759354395033.5", "0.04", "7922816251426433759354395033.5"),
    ] {
        open.qty = held.into();
        part.qty = sold.into();
        let v = unmatched_open_positions_from(&[open.clone(), part.clone()]);
        assert_eq!(v.len(), 1);
        assert!(v[0].qty.is_pos());
        assert_eq!(v[0].qty, d(rest), "{held} - {sold}");
    }
}

#[test]
fn a_close_undoes_its_open() {
    let at = Stamp { now: NOW, ts: "2024-01-01T03:00:00Z".into() };
    let mut ledger = Ledger { events: Vec::new(), meta: OpenMeta::new() };
    ledger.open(&at, 1, "BTCUSDT", d("2"), d("100"), "in", true, Some(d("98")), Some(d("110"))).unwrap();
    assert_eq!(ledger.events.len(), 1);
    assert_eq!(ledger.events[0].initial_risk_usdt.as_deref(), Some("4"));
    assert_eq!(unmatched_open_positions_from(&ledger.events).len(), 1);
    ledger
        .close(&at, 1, "BTCUSDT", d("2"), d("100"), d("110"), "out", true, None, None, false)
        .unwrap();
    assert_eq!(ledger.events[1].pnl.as_deref(), Some("19.8320"));
    assert_eq!(ledger.events[1].fee.as_deref(), Some("0.1680"));
    assert!(unmatched_open_positions_from(&ledger.events).is_empty());
    assert!(ledger.meta.get("BTCUSDT").is_none());
}

#[test]
fn journal_lines_hold_what_happened() {
    let open = record_open("t", 2, "ETHUSDT", d("1"), d("10"), "r", false, Some(d("9")), None, None).unwrap();
    assert_eq!((open.event.as_str(), open.qty.as_str(), open.initial_r.as_deref()), ("open", "1", Some("1")));
    let mut meta = OpenMeta::new();
    let close = record_close(
        &[], &mut meta, "t", NOW, 2, "ETHUSDT", d("1"), d("10"), d("9"), "stop", true, Some(d("9")), None, false,
    )
    .unwrap();
    assert_eq!((close.event.as_str(), close.price.as_str()), ("close", "9"));
    assert_eq!(close.pnl.as_deref(), Some("-1.0076"));
    let flat = record_flatten(&[], &meta, "t", 2, &["LONG ETHUSDT".into()], true, "why");
    assert_eq!((flat[0].event.as_str(), flat[0].qty.as_str()), ("flatten", "0"));
    let amend = record_amend("t", 2, "ETHUSDT", d("9.5"), None, true, "trail");
    assert_eq!((amend.event.as_str(), amend.stop_loss.as_deref()), ("amend", Some("9.5")));
}

#[test]
fn excursions_only_grow() {
    assert_eq!(mark_pnl_usdt(d("100"), d("103"), d("2")), Some(d("6")));
    let mut meta = OpenMeta::new();
    assert_eq!(
        meta.on_open(4, "btcusdt", d("100"), d("98"), d("2"), NOW - 10_000, Some("bull".into())),
        Some(true)
    );
    assert_eq!(meta.on_open(4, "ethusdt", d("100"), d("100"), d("2"), NOW, None), Some(false));
    assert_eq!(meta.update_mark("BTCUSDT", d("103"), NOW), Some(true));
    assert_eq!(meta.update_mark("BTCUSDT", d("101"), NOW + 1), Some(true));
    let row = meta.get("BTCUSDT").unwrap();
    assert_eq!((row.mfe_dec(), row.risk_dec()), (d("6"), Some(d("4"))));
    assert_eq!(meta.meta_scaled_for_entry("BTCUSDT", d("100"), 4), Some(false));
    assert!(meta.mark_scaled("btcusdt"));
    assert_eq!(meta.meta_scaled_for_entry("BTCUSDT", d("100"), 4), Some(true));
    assert_eq!(meta.meta_scaled_for_entry("BTCUSDT", d("101"), 4), Some(false));
    assert_eq!(meta.update_mark("SOLUSDT", d("101"), NOW), Some(false));
    let m = meta.metrics_for_close("BTCUSDT", Some(d("2")), NOW, false).unwrap();
    assert_eq!(m.final_r.as_deref(), Some("0.5"));
    assert_eq!(m.mfe_r.as_deref(), Some("1.5"));
    assert_eq!(m.hold_sec, Some(10));
    assert_eq!(m.btc_regime.as_deref(), Some("bull"));
    assert!(meta.get("BTCUSDT").is_none());
    assert_eq!(meta.len(), 0);
}

fn rising(n: i64, interval: i64) -> Vec<Bar> {
    (0..n)
        .map(|i| {
            let o = Dec::new(1000 + i, 1);
            let c = Dec::new(1001 + i, 1);
            Bar {
                open_time: 1_700_000_000_000 + i * interval,
                open: o,
                high: Dec::new(1003 + i, 1),
                low: Dec::new(999 + i, 1),
                close: c,
                volume: d("20"),
            }
        })
        .collect()
}

fn walk(strategy_id: i32) -> SimResult {
    let bars = rising(200, 300_000);
    let mut p = tui_bot::momentum::MomentumParams::default();
    p.always_enter = true;
    p.cooldown_ms = 0;
    simulate_bars(
        strategy_id, &bars, "BTCUSDT", "walk", d("20"), d("0.0004"), d("0.0001"), Some(40), d("1000"),
        Some(&p), None, None, &mut OpenMeta::new(), &mut SkipTally::new(), false, HeatLimits::default(),
    )
    .unwrap()
}

#[test]
fn equity_is_the_sum_of_the_trades() {
    let r = walk(1);
    let mut sum = r.start_equity;
    for t in &r.trades {
        sum = tui_bot::dec::plus(Some(sum), Some(t.pnl)).unwrap();
    }
    assert_eq!(sum, r.end_equity);
    assert!(!r.max_drawdown.is_neg());
    let curve = equity_curve(&r).unwrap();
    assert_eq!(curve.len(), r.trades.len());
    if let Some(last) = curve.last() {
        assert_eq!(*last, r.end_equity);
    }
}

#[test]
fn a_short_tape_trades_nothing() {
    let r = simulate_bars(
        2, &rising(10, 300_000), "BTCUSDT", "short", d("20"), d("0.0004"), d("0.0001"), Some(80), d("1000"),
        None, None, None, &mut OpenMeta::new(), &mut SkipTally::new(), false, HeatLimits::default(),
    )
    .unwrap();
    assert!(r.trades.is_empty());
    assert_eq!(r.pnl(), Some(d("0")));
    assert_eq!(
        r.summary_line("—").unwrap(),
        "short                        n=   0  wr=     —  pnl=+0.0000  pf=—  dd=0.0000"
    );
}

fn trade(pnl: &str, reason: &str) -> ClosedTrade {
    ClosedTrade {
        symbol: "BTCUSDT".into(),
        strategy_id: 2,
        entry: d("100"),
        exit: d("101"),
        qty: d("0.2"),
        pnl: d(pnl),
        fee: d("0.016"),
        reason: reason.into(),
        bars_held: 3,
    }
}

fn result(pnls: &[&str]) -> SimResult {
    let mut end = d("1000");
    for p in pnls {
        end = tui_bot::dec::plus(Some(end), Some(d(p))).unwrap();
    }
    SimResult {
        name: "row".into(),
        strategy_id: 2,
        trades: pnls.iter().map(|p| trade(p, "stop")).collect(),
        start_equity: d("1000"),
        end_equity: end,
        max_drawdown: d("0.5"),
        holds: 1,
    }
}

#[test]
fn walks_are_summed_up() {
    let r = result(&["1.5", "-0.5"]);
    assert_eq!(r.wins(), 1);
    assert_eq!(r.profit_factor(), Some(Some(d("3"))));
    assert_eq!(
        r.summary_line("50.0%").unwrap(),
        "row                          n=   2  wr= 50.0%  pnl=+1.0000  pf=3.00  dd=0.5000"
    );
    assert_eq!(result(&["1"]).profit_factor(), Some(Some(d("1000"))));
    let text = format_packed(&[r], &["50.0%".into()]).unwrap();
    assert!(text.contains("  totals trades=2  pnl=+1.0000\n"), "{text}");
    let line = grid_line("arm", &[result(&["1.5", "-0.5"])], "50.0%").unwrap();
    assert_eq!(line, "  arm                n=   2  wr= 50.0%  pnl=+1.0000");
}

#[test]
fn changes_are_in_percent() {
    let bars = rising(20, 300_000);
    assert_eq!(change_percent(&bars, 10, 10).unwrap().round_dp(4), d("0.9990"));
}

#[test]
fn the_shipped_plan_walks_every_series() {
    let series = |s: &str, interval: i64| Series { symbol: s.into(), bars: rising(130, interval) };
    let u = Universe {
        m5: vec![series("BTCUSDT", 300_000)],
        m15: vec![series("LINKUSDT", 900_000)],
        h1: vec![series("LINKUSDT", 3_600_000)],
        d1: vec![series("BTCUSDT", 86_400_000)],
        htf: vec![],
        btc_htf: None,
    };
    let plan = shipped_plan(&u);
    let names: Vec<&str> = plan.iter().map(|p| p.name.as_str()).collect();
    assert_eq!(
        names,
        vec!["mom BTCUSDT 5m", "scalp BTCUSDT 5m", "trend BTCUSDT 1d", "S4 cont LINKUSDT 15m", "S5 verify LINKUSDT 1h"]
    );
    let rows = run_plan(
        &plan, &u, &shipped_knobs(), &mut OpenMeta::new(), &mut SkipTally::new(), false, HeatLimits::default(),
    )
    .unwrap();
    assert_eq!(rows.len(), 5);
    assert!(bars_from_raw(&Json::Null).is_empty());
}

#[test]
fn a_plan_is_walked_under_each_setting() {
    let u = Universe {
        m5: vec![Series { symbol: "BTCUSDT".into(), bars: rising(100, 300_000) }],
        m15: vec![],
        h1: vec![],
        d1: vec![],
        htf: vec![],
        btc_htf: None,
    };
    let plan = tui_bot::backtest::research::scalp_plan(&u);
    let arms = scalp_knobs();
    assert_eq!(arms.len(), 2);
    let walked = run_arms(
        &plan, &u, &arms, &mut OpenMeta::new(), &mut SkipTally::new(), false, HeatLimits::default(),
    )
    .unwrap();
    assert_eq!(walked.iter().map(|w| w.len()).collect::<Vec<_>>(), vec![1, 1]);
    assert_eq!(grid_knobs().len(), 8);
    assert_eq!(grid_knobs()[1].momentum.as_ref().unwrap().tp_pct, d("0.04"));
    assert_eq!(sweep_knobs().len(), 36);
}

#[test]
fn the_closer_look_is_put_together() {
    let rows = vec![result(&["1.5"]), result(&["-0.5", "2"])];
    let walks = walk_lines(&rows, &["100.0%".into(), "50.0%".into()]).unwrap();
    assert_eq!(walks.len(), 2);
    assert!(walks[1].starts_with("  row "), "{}", walks[1]);
    let all = pool_trades(rows);
    assert_eq!(all.iter().map(|t| t.pnl).collect::<Vec<_>>(), vec![d("1.5"), d("-0.5"), d("2")]);
    let text = research_text(&[ArmText { label: "x".into(), max_hold: 8, walks, trades: vec!["end".into()] }]);
    assert!(text.starts_with("=== DUMP_S2 scalp research ===\nfee=0.0004 /side  RT≈0.0008  notional=20"), "{text}");
    assert!(text.contains("\n--- arm: x  max_hold=8 ---\n  row "), "{text}");
    assert!(text.ends_with("\nend\nlocked: max_hold default 8; peak≥0.8R→0.25R; session end flatten; majors book.\nDo NOT raise RISK_PCT while PF_net≤1. No profit claim."), "{text}");
}

#[test]
fn sweeps_are_ranked() {
    let arms = sweep_grid();
    assert_eq!(arms.len(), 36);
    assert_eq!(momentum_grid().len(), 8);
    let low = sweep_row(&arms[0], &[result(&["-1"])]).unwrap();
    let high = sweep_row(&arms[1], &[result(&["2"])]).unwrap();
    let v = sort_rows(&[low, high]);
    assert_eq!((v[0].pnl, v[0].trades), (d("2"), 1));
    let low = sweep_row(&arms[0], &[result(&["-1"])]).unwrap();
    let text = sweep_report(&[low]);
    assert_eq!(text, "S4/S5 sweep results:\n min=0.5% atr_k=1.5 reward=1.5 pnl=-1 trades=1\n");
    assert_eq!(sweep_file("15m", "LINKUSDT", &arms[0]), ".state/sweep-15m-LINKUSDT-min0p5-atrk1p5-r1p5.txt");
    assert_eq!(
        sweep_note(4, "LINKUSDT", 7, &arms[0]),
        "S4 sweep symbol=LINKUSDT bars=7 min=0.5% atr_k=1.5 reward=1.5"
    );
}

#[test]
fn arms_are_reported() {
    assert_eq!(arm_heading("x", 8), "--- arm: x  max_hold=8 ---");
    assert!(!session_scalp().always_enter);
    assert_eq!(research_head()[0], "=== DUMP_S2 scalp research ===");
    let none = arm_report(&[], "—", "—", 8).unwrap();
    assert_eq!(none, vec!["  (no trades)".to_string(), String::new()]);
    let some = arm_report(&[trade("1.5", "tp"), trade("-0.5", "stop")], "50.0%", "3.0", 8).unwrap();
    assert!(some[0].starts_with("  pooled n=2 wr=50.0% pf_net≈3.000 sum_pnl=+1.0"), "{}", some[0]);
    assert_eq!(some[1], "  exit-mix:");
    assert_eq!(some[2], "       1  pnl=-0.5000  stop");
    assert_eq!(some[3], "       1  pnl=+1.5000  tp");
    assert_eq!(some[4], "  avg_bars_held≈3.0 (max_hold locked=8)");
}

#[test]
fn reports_stay_in_scope() {
    let mut other = event("close", "2024-01-01T02:00:00Z", "ETHUSDT", Some("5"));
    other.strategy_id = 2;
    let events = [
        event("open", "2024-01-01T01:00:00Z", "BTCUSDT", None),
        event("close", "2024-01-01T02:00:00Z", "BTCUSDT", Some("1.25")),
        other,
    ];
    let (wins, n, by) = win_counts(&events, None);
    assert_eq!((wins, n, by.len()), (2, 2, 2));
    let rates = WinTexts { all: "100.0%".into(), by: vec![] };
    let all = format_report(&events, &[], &rates).unwrap();
    assert!(all.contains("  ОТЧЁТ  ·  все стратегии"), "{all}");
    assert!(all.contains("  open=1    close=2    flatten=0   skip=0"), "{all}");
    assert!(all.contains("нетто=+6.2500"), "{all}");
    let one = format_report_filtered(&events, &[], Some(1), &rates).unwrap();
    assert!(one.contains("strategy 1"));
    assert!(one.contains("нетто=+1.2500"), "{one}");
    assert!(one.contains("WR=n/a(N<30)"), "{one}");
    let mut e = ErrorEvent::default();
    e.event = "shown".into();
    e.shown = "Ошибка: x".into();
    assert!(format_report(&events, &[e], &rates).unwrap().len() >= all.len());
}

#[test]
fn todays_closes_are_summed() {
    let events = [
        event("close", "2023-12-31T23:59:00Z", "OLDUSDT", Some("9")),
        event("close", "2024-01-01T02:00:01Z", "LONG btcusdt", Some("1.25")),
        event("close", "2024-01-01T02:30:00Z", "ETHUSDT", Some("-0.25")),
    ];
    let (rows, net, wins, losses) = closed_today_rows(&events, NOW).unwrap();
    assert_eq!(rows.len(), 2);
    assert_eq!((rows[0].clock.as_str(), rows[0].symbol.as_str()), ("02:00:01", "BTCUSDT"));
    assert_eq!((net, wins, losses), (d("1"), 1, 1));
}

#[test]
fn cached_candles_are_read() {
    let text = "[[1700000000000, \"1.5\", 2, \"1\", 1.75, \"10\"], [1, 2], {\"a\": []}, \
        [18446744073709551615, 1, 1, 1, 1, 1], [2.9, \"1\", \"1\", \"1\", \"1\", \"1\"], [\"7\", 1, 1, 1, 1, 1]]";
    let bars = cached_bars(text).unwrap();
    let times: Vec<i64> = bars.iter().map(|b| b.open_time).collect();
    assert_eq!(times, [1_700_000_000_000, -1, 2, 7]);
    assert_eq!((bars[0].open, bars[0].high, bars[0].close), (d("1.5"), d("2"), d("1.75")));
    assert!(cached_bars("[]").is_none());
    assert!(cached_bars("[[1, 2]]").is_none());
    assert!(cached_bars("{}").is_none());
    assert!(cached_bars("not a document").is_none());
}

use tui_bot::config::load::load_config;
use tui_bot::config::TradeInterval;
use tui_bot::continuation::manage::manage_continuation_long;
use tui_bot::continuation::ContinuationParams;
use tui_bot::dec::Dec;
use tui_bot::desk_orchestrator::{
    check_double_book, check_heat, status_line, tick_orchestrated, HeatLimits, SkipReason,
};
use tui_bot::desk_schedule::{desk_owner_at, hour_owner_table};
use tui_bot::engine::tick::{tick_decisions, withhold};
use tui_bot::errors::{loss_symbol_cooldown_ms, LOSS_SYMBOL_COOLDOWN_MS};
use tui_bot::models::{Bar, Decision, EngineState, MarketSnapshot, Position, Side, Ticker};
use tui_bot::momentum::MomentumParams;
use tui_bot::openmeta::OpenMeta;
use tui_bot::regime::{effective_risk_pct, BtcRegime};
use tui_bot::render::tone::line_tone;
use tui_bot::render::LineTone;
use tui_bot::sessions::{
    add_ms, format_windows, next_midnight, outside_entry_reason, parse_entry_windows,
    session_status, sub_ms, utc_clock_seconds,
};
use tui_bot::setup_score::{evaluate, SetupAction};
use tui_bot::signals::{kind_for_decision, TradeSignal};
use tui_bot::snapshot::{apply_tradfi_skip, empty_account, merge_overlay_with_journal, overlay_long_stop};
use tui_bot::symbols::SymMap;

const NOON: i64 = 1_704_110_400_000;

fn d(s: &str) -> Dec {
    Dec::parse(s).unwrap()
}

fn env(rows: &[(&str, &str)]) -> SymMap<String> {
    let mut m = SymMap::new();
    for (k, v) in rows {
        m.insert(k, v.to_string());
    }
    m
}

fn refused(rows: &[(&str, &str)]) -> String {
    load_config(false, &env(rows), Ok(10_000_000_000)).err().unwrap().0
}

#[test]
fn window_errors_quote_the_part() {
    let text = |raw: &str| parse_entry_windows(raw).err().unwrap().message();
    assert_eq!(text("5"), "entry hour window must look like 7-10, got \"5\"");
    assert_eq!(text("a-b"), "entry hour window must be integers, got \"a-b\"");
    assert_eq!(text("24-3"), "entry window start must be 0–23");
    assert_eq!(text("1-25"), "entry window end must be 0–24");
    assert_eq!(format_windows(&[(22, 24)]), "22–00 UTC");
    assert_eq!(format_windows(&[]), "круглосуточно");
}

#[test]
fn integers_of_settings_are_read() {
    assert_eq!(
        refused(&[("BINANCE_RECV_WINDOW", "x")]),
        "invalid numeric config: invalid digit found in string"
    );
    let cfg = load_config(
        false,
        &env(&[
            ("STRATEGY2_MAX_HOLD_BARS", "12"),
            ("STRATEGY4_INTERVAL", "1H"),
            ("RISK_PCT", "0.02"),
            ("FUTURES_LEVERAGE", "7"),
            ("BINANCE_STARTING_EQUITY", "500"),
            ("STRATEGY4_ENTRY_HOURS", "all"),
        ]),
        Ok(10_000_000_000),
    )
    .ok()
    .unwrap();
    assert_eq!(cfg.s2_max_hold_bars, 12);
    assert_eq!(cfg.s4_interval, TradeInterval::Hour1);
    assert_eq!(cfg.risk_pct, d("0.02"));
    assert_eq!(cfg.leverage, Some(7));
    assert_eq!(cfg.starting_equity, Some(d("500")));
}

#[test]
fn settings_out_of_range_are_refused() {
    assert_eq!(
        refused(&[("STRATEGY1_POLL_SECONDS", "61")]),
        "STRATEGY1_POLL_SECONDS must be 60 or 120"
    );
    assert_eq!(
        refused(&[("STRATEGY1_POLL_SECONDS", "x")]),
        "STRATEGY1_POLL_SECONDS must be an integer"
    );
    assert_eq!(
        refused(&[("ORDER_NOTIONAL_USDT", "-1")]),
        "notional, take-profit, and trail percents must be positive"
    );
    assert_eq!(
        refused(&[("TAKE_PROFIT_PCT", "0")]),
        "notional, take-profit, and trail percents must be positive"
    );
    assert_eq!(
        refused(&[("RISK_PCT", "-0.1")]),
        "RISK_PCT cannot be negative"
    );
    assert_eq!(
        refused(&[("STRATEGY1_MAX_POSITIONS", "11")]),
        "STRATEGY1_MAX_POSITIONS must be 1–10"
    );
    assert_eq!(
        refused(&[("STRATEGY4_MAX_POSITIONS", "0")]),
        "STRATEGY4_MAX_POSITIONS must be 1–10"
    );
    assert_eq!(
        refused(&[("DAILY_LOSS_USDT", "-1")]),
        "DAILY_LOSS_USDT cannot be negative"
    );
    assert_eq!(
        refused(&[("DAILY_LOSS_R", "-1")]),
        "DAILY_LOSS_R cannot be negative"
    );
    assert_eq!(
        refused(&[("FUTURES_LEVERAGE", "x")]),
        "FUTURES_LEVERAGE must be an integer or binance"
    );
    assert_eq!(
        refused(&[("FUTURES_LEVERAGE", "126")]),
        "FUTURES_LEVERAGE must be 1–125"
    );
    assert_eq!(
        refused(&[("BINANCE_RECV_WINDOW", "99")]),
        "BINANCE_RECV_WINDOW out of range"
    );
    assert_eq!(
        refused(&[("BINANCE_STARTING_EQUITY", "-1")]),
        "BINANCE_STARTING_EQUITY cannot be negative"
    );
    assert_eq!(
        refused(&[("STRATEGY1_ENTRY_HOURS", "3-3")]),
        "STRATEGY1_ENTRY_HOURS: entry window start and end must differ"
    );
    assert_eq!(
        refused(&[("STRATEGY4_ENTRY_HOURS", "3-3")]),
        "STRATEGY4_ENTRY_HOURS: entry window start and end must differ"
    );
    assert_eq!(
        refused(&[("STRATEGY2_ENTRY_HOURS", "3-3")]),
        "STRATEGY2_ENTRY_HOURS: entry window start and end must differ"
    );
    assert_eq!(
        refused(&[("STRATEGY2_MAX_HOLD_BARS", "x")]),
        "STRATEGY2_MAX_HOLD_BARS must be an integer"
    );
    assert_eq!(
        refused(&[("STRATEGY2_MAX_HOLD_BARS", "241")]),
        "STRATEGY2_MAX_HOLD_BARS must be 1–240"
    );
    assert!(!refused(&[("STRATEGY4_INTERVAL", "7m")]).is_empty());
    let live = load_config(true, &env(&[]), Ok(10_000_000_000)).err().unwrap().0;
    assert_eq!(live, "refusing --live without BINANCE_API_KEY and BINANCE_API_SECRET");
}

#[test]
fn the_exchange_may_set_size_and_leverage() {
    let rows = env(&[("ORDER_NOTIONAL_USDT", "Binance"), ("FUTURES_LEVERAGE", "OFF")]);
    let cfg = load_config(false, &rows, Ok(10_000_000_000)).ok().unwrap();
    assert!(cfg.notional_from_exchange);
    assert_eq!(cfg.order_notional, d("20"));
    assert_eq!(cfg.leverage, None);
}

#[test]
fn every_hour_has_one_owner_every_day() {
    assert_eq!(hour_owner_table().len(), 24);
    for h in 0..24 {
        let t = NOON + h * 3_600_000;
        assert_eq!(desk_owner_at(t), desk_owner_at(t + 86_400_000));
        assert_eq!(desk_owner_at(t), desk_owner_at(t - 86_400_000));
    }
}

#[test]
fn gates_fail_closed() {
    let full = HeatLimits { desk: 0, per_sid: 0 };
    assert!(matches!(check_heat(2, &[], full), Err(SkipReason::HeatDesk { open: 0, max: 0 })));
    let e = check_double_book("ethusdt", &["ETHUSDT".to_string()]).err().unwrap();
    assert!(e.as_str().contains("double-book"), "{}", e.as_str());
    assert!(status_line(NOON, Some("heat 3/3")).contains("heat 3/3"));
}

#[test]
fn withheld_entries_become_holds() {
    let enter = || Decision::EnterLong {
        symbol: "ADAUSDT".into(),
        reason: "x".into(),
        take_profit: d("2"),
        stop_loss: d("1"),
    };
    let exit = Decision::ExitPosition { reason: "stop".into(), symbol: "DOTUSDT".into() };
    let out = withhold(vec![exit, enter()], true, "halt", false, "wait");
    assert_eq!(out.len(), 1);
    assert_eq!(out[0].symbol(), "DOTUSDT");
    let out = withhold(vec![enter()], true, "halt", false, "wait");
    assert!(out[0].is_hold());
    assert_eq!(out[0].reason(), "halt");
    let out = withhold(vec![enter()], false, "halt", false, "wait");
    assert!(out[0].is_enter_long());
}

#[test]
fn a_halted_day_opens_nothing() {
    let mut state = EngineState::new(1);
    state.day_utc = "2024-01-01".into();
    state.day_start_equity = Some(d("2000"));
    let mut snap = MarketSnapshot::empty(d("1000"));
    snap.account.wallet_balance = d("1000");
    snap.account_ok = true;
    snap.account_fresh = true;
    snap.tickers.push(Ticker::new("ADAUSDT", d("100"), d("5"), d("9000000")));
    let mut p = MomentumParams::default();
    p.always_enter = true;
    let (after, ds, _) = tick_decisions(
        &state,
        &snap,
        NOON,
        Some(&p),
        None,
        None,
        None,
        &mut OpenMeta::new(),
        &mut tui_bot::continuation::SkipTally::new(),
        None,
        false,
        HeatLimits::default(),
    )
    .unwrap();
    assert!(after.daily_halt);
    assert!(ds.iter().all(|x| !x.is_enter_long()));
}

fn orchestrated(state: &EngineState, snap: &MarketSnapshot, book: Vec<Position>) -> (EngineState, Vec<Decision>) {
    let (st, ds, _) = tick_orchestrated(
        state,
        snap,
        NOON,
        None,
        None,
        None,
        book,
        Vec::new(),
        SymMap::new(),
        0,
        false,
        1_800_000,
        &[],
        HeatLimits::default(),
        &mut OpenMeta::new(),
        &mut tui_bot::continuation::SkipTally::new(),
        None,
    )
    .unwrap();
    (st, ds)
}

#[test]
fn the_desk_leaves_the_day_to_its_caller() {
    let mut state = EngineState::new(4);
    state.daily_halt = true;
    let mut snap = at_price("100");
    snap.account_ok = true;
    let (st, ds) = orchestrated(&state, &snap, Vec::new());
    assert!(st.daily_halt);
    assert_eq!((st.day_utc.as_str(), st.day_start_equity), ("", None));
    assert_eq!(st.strategy_id, desk_owner_at(NOON).as_i32());
    assert!(!ds.is_empty() && ds.iter().all(|x| !x.is_enter_long()));
    state.day_utc = "2023-12-31".into();
    let (st, _, _) = tick_decisions(
        &state,
        &snap,
        NOON,
        None,
        None,
        None,
        None,
        &mut OpenMeta::new(),
        &mut tui_bot::continuation::SkipTally::new(),
        None,
        true,
        HeatLimits::default(),
    )
    .unwrap();
    assert!(!st.daily_halt);
    assert_eq!(st.day_utc, "2024-01-01");
}

#[test]
fn a_symbol_with_a_row_has_not_vanished() {
    let mut state = EngineState::new(2);
    state.positions.push(long("98"));
    let mut sold = long("98");
    sold.qty = d("0");
    let (st, _) = orchestrated(&state, &at_price("90"), vec![sold]);
    assert!(st.positions.is_empty());
    assert_eq!(st.cooldowns.len(), 0);
    let (st, _) = orchestrated(&state, &at_price("90"), Vec::new());
    assert!(st.cooldowns.contains_key("ADAUSDT"));
}

fn long(sl: &str) -> Position {
    Position::long("ADAUSDT", d("2"), d("100"), Some(d(sl)), None)
}

fn at_price(price: &str) -> MarketSnapshot {
    let mut s = MarketSnapshot::empty(d("1000"));
    s.tickers.push(Ticker::new("ADAUSDT", d(price), d("5"), d("9000000")));
    s
}

fn manage(pos: &Position, price: &str, scaled: bool) -> Decision {
    let mut p = ContinuationParams::default();
    p.always_enter = true;
    manage_continuation_long(pos, &at_price(price), &p, NOON, scaled, &SymMap::new()).unwrap()
}

#[test]
fn half_is_sold_at_one_r_and_the_rest_at_break_even() {
    match manage(&long("98"), "102", false) {
        Decision::ReduceLong { qty, stop_loss, .. } => {
            assert_eq!(qty, d("1"));
            assert_eq!(stop_loss, d("100.08"));
        }
        other => panic!("{other:?}"),
    }
    match manage(&long("98"), "102", true) {
        Decision::AmendStop { stop_loss, reason, .. } => {
            assert_eq!(stop_loss, d("100.08"));
            assert_eq!(reason, "безубыток на 1R");
        }
        Decision::ExitPosition { reason, .. } => assert!(reason.contains("фиксирую"), "{reason}"),
        other => panic!("{other:?}"),
    }
    assert!(manage(&long("98"), "101", false).is_hold());
    assert!(matches!(manage(&long("98"), "98", false), Decision::ExitPosition { .. }));
}

#[test]
fn a_score_is_the_sum_of_its_parts() {
    let snap = at_price("100");
    let bar = Bar {
        open_time: NOON - 300_000,
        open: d("99"),
        high: d("101"),
        low: d("98"),
        close: d("100"),
        volume: d("10"),
    };
    let s = evaluate(&snap, &snap.tickers[0], &bar, &ContinuationParams::default(), NOON).unwrap();
    assert_eq!(s.score, s.ema4h_pts + s.pullback_pts + s.tape_pts + s.session_pts + s.regime_pts);
    assert!(s.score < 75 || s.action != SetupAction::Skip || s.soft_reject.is_some() || s.hard_reject.is_some());
}

#[test]
fn fees_reject_a_setup_from_four_hundredths_of_its_risk_on() {
    let snap = at_price("100");
    let score = |low: &str| {
        let bar = Bar {
            open_time: NOON - 300_000,
            open: d("99"),
            high: d("101"),
            low: d(low),
            close: d("100"),
            volume: d("10"),
        };
        evaluate(&snap, &snap.tickers[0], &bar, &ContinuationParams::default(), NOON).unwrap()
    };
    let at = score("98");
    assert_eq!(at.cost_r, Some(d("0.04")));
    assert_eq!(at.soft_reject.as_deref(), Some("costR 0.040R > 4% of 1R — soft reject"));
    assert_eq!(at.action, SetupAction::Skip);
    let above = score("99");
    assert_eq!(above.cost_r, Some(d("0.08")));
    assert!(above.soft_reject.is_some());
    let below = score("97.5");
    assert_eq!(below.cost_r, Some(d("0.032")));
    assert!(below.soft_reject.is_none());
}

#[test]
fn blocking_regimes_carry_no_risk() {
    for r in [BtcRegime::StrongBull, BtcRegime::Bull, BtcRegime::Neutral, BtcRegime::Bear, BtcRegime::Panic] {
        assert_eq!(r.blocks_alt_entry(), r.risk_multiplier().is_zero());
        assert_eq!(r.blocks_alt_entry(), r.block_reason().is_some());
    }
    assert_eq!(effective_risk_pct(d("0.01"), &MarketSnapshot::empty(d("1"))), Some(d("0.005")));
}

#[test]
fn losers_rest_twelve_hours() {
    assert_eq!(LOSS_SYMBOL_COOLDOWN_MS, 43_200_000);
    assert!(loss_symbol_cooldown_ms(1) > 0);
}

#[test]
fn instants_saturate() {
    assert_eq!(add_ms(i64::MAX, 1), i64::MAX);
    assert_eq!(sub_ms(i64::MIN, 1), i64::MIN);
    assert_eq!(next_midnight(NOON), NOON + 12 * 3_600_000);
    assert_eq!(utc_clock_seconds(NOON + 61_000), "12:01:01");
    let shut = session_status(NOON, Some(&[(0, 2)]), false);
    assert!(outside_entry_reason(&shut).contains("00:00"), "{}", outside_entry_reason(&shut));
}

#[test]
fn tape_lines_take_the_tone_of_their_change() {
    assert_eq!(line_tone("  ADAUSDT      +5.000%  last=1.5", d("0")), Some(LineTone::Profit));
    assert_eq!(line_tone("  LINKUSDT     -3.000%  last=10", d("0")), Some(LineTone::Loss));
}

#[test]
fn stops_are_overlaid_from_the_journal() {
    assert_eq!(overlay_long_stop(Side::Long, Some(d("9")), Some(d("8"))), Some(d("9")));
    assert_eq!(overlay_long_stop(Side::Long, None, Some(d("8"))), Some(d("8")));
    let bare = Position::long("ADAUSDT", d("1"), d("10"), None, None);
    let known = Position::long("adausdt", d("1"), d("10"), Some(d("9")), Some(d("12")));
    let out = merge_overlay_with_journal(vec![bare], &[known.clone()]);
    assert_eq!(out.len(), 1);
    assert_eq!((out[0].stop_loss, out[0].take_profit), (Some(d("9")), Some(d("12"))));
    assert_eq!(merge_overlay_with_journal(vec![], &[known]).len(), 1);
    assert_eq!(empty_account(Some(d("5"))).starting_equity, d("5"));
}

#[test]
fn skipped_names_stay_skipped() {
    let mut state = EngineState::new(1);
    state.skip_symbols.push("ABCUSDT".into());
    apply_tradfi_skip(&mut state, &["xauusdt".into(), "ABCUSDT".into()]);
    assert!(state.skip_symbols.iter().any(|s| s == "ABCUSDT"));
    assert!(state.skip_symbols.iter().any(|s| s.eq_ignore_ascii_case("XAUUSDT")));
    assert_eq!(state.skip_symbols.len(), 2);
}

#[test]
fn partial_sales_chime_as_wins() {
    let ok = tui_bot::live::LiveApplyResult::default();
    let reduce = Decision::ReduceLong {
        symbol: "ADAUSDT".into(),
        reason: "half".into(),
        qty: d("1"),
        stop_loss: d("1"),
    };
    assert_eq!(kind_for_decision(&reduce, &ok, false, true, None), Some(TradeSignal::SellWin));
    assert_eq!(kind_for_decision(&reduce, &ok, true, true, None), None);
}

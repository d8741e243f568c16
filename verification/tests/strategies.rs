use tui_bot::config::TradeInterval;
use tui_bot::continuation::entry::{continuation_decisions, pick_strategy4_book};
use tui_bot::continuation::{scan_due, signal_bar, ContinuationParams, SkipTally};
use tui_bot::dec::Dec;
use tui_bot::engine::{
    continuation_interval, continuation_slot_cap, continuation_trade_params, decide, is_continuation,
    select_strategy, select_strategy_str, strategy_title,
};
use tui_bot::models::{
    coalesce_position, near_24h_high, pick_managed_longs, push_recent, remembered_positions,
    unmanaged_positions, Bar, Decision, EngineState, MarketSnapshot, Position, RecentAction, Side,
    Ticker,
};
use tui_bot::momentum::{momentum_decision, momentum_decisions, s1_setup_skip, MomentumParams};
use tui_bot::ranking::{
    apply_liquidity_floor, is_junk_symbol, is_major_symbol, is_tradable_symbol, pick_chart_ticker,
    pick_liquid_major, pick_momentum_book, pick_strategy1_book, rank_most_rising, sort_ranked,
    Eligibility, RankBy,
};
use tui_bot::scalp::{scalp_decision, ScalpParams};
use tui_bot::signals::{kind_for_decision, kind_for_flatten, reason_suggests_win, wav_bytes, Chimes, TradeSignal};
use tui_bot::symbols::{SymMap, SymSet};
use tui_bot::trend::{live_left_daily_close, trend_decision, TrendParams};

const NOON: i64 = 1_704_067_800_000;

fn d(s: &str) -> Dec {
    Dec::parse(s).unwrap()
}

fn ticker(symbol: &str, price: &str, change: &str, volume: &str) -> Ticker {
    Ticker::new(symbol, d(price), d(change), d(volume))
}

fn bar(t: i64, o: &str, h: &str, l: &str, c: &str) -> Bar {
    Bar { open_time: t, open: d(o), high: d(h), low: d(l), close: d(c), volume: d("100") }
}

fn always() -> MomentumParams {
    let mut p = MomentumParams::default();
    p.always_enter = true;
    p
}

fn momentum(
    tickers: &[Ticker],
    positions: &[Position],
    last_scan: i64,
    p: &MomentumParams,
    bars: &SymMap<Bar>,
    allow: bool,
    desk_until: i64,
) -> (Vec<Decision>, i64) {
    momentum_decisions(
        tickers, positions, NOON, last_scan, &[], &SymMap::new(), Some(p), &[], bars, allow, desk_until,
    )
    .unwrap()
}

#[test]
fn momentum_enters_the_most_rising_name() {
    let tape = [ticker("LINKUSDT", "10", "3", "900000"), ticker("ADAUSDT", "1", "5", "900000")];
    let (ds, ts) = momentum(&tape, &[], 0, &always(), &SymMap::new(), true, 0);
    assert_eq!(ts, NOON);
    assert_eq!(ds.len(), 1);
    match &ds[0] {
        Decision::EnterLong { symbol, reason, take_profit, stop_loss } => {
            assert_eq!(symbol, "ADAUSDT");
            assert_eq!(reason, "most rising 5%");
            assert_eq!(*take_profit, d("1.0258"));
            assert_eq!(*stop_loss, d("0.98"));
        }
        other => panic!("{other:?}"),
    }
}

#[test]
fn momentum_waits_for_reasons() {
    let tape = [ticker("ADAUSDT", "1", "5", "900000")];
    let none = SymMap::new();
    let text = |r: (Vec<Decision>, i64)| r.0[0].reason().to_string();
    assert_eq!(
        text(momentum(&tape, &[], 0, &always(), &none, false, 0)),
        "стоп дня. Новых входов нет до 00:00 UTC."
    );
    assert_eq!(
        text(momentum(&tape, &[], 0, &always(), &none, true, NOON + 1)),
        "пауза после стопа — слот не заполняю"
    );
    assert_eq!(
        text(momentum(&tape, &[], NOON - 1_000, &always(), &none, true, 0)),
        "waiting for next scan"
    );
    let mut odd = always();
    odd.poll_seconds = 61;
    assert_eq!(text(momentum(&tape, &[], 0, &odd, &none, true, 0)), "poll_seconds must be 60 or 120");
    assert_eq!(text(momentum(&[], &[], 0, &always(), &none, true, 0)), "no eligible rising symbol");
    let mut red = SymMap::new();
    red.insert("ADAUSDT", bar(0, "2", "2", "1", "1"));
    assert_eq!(text(momentum(&tape, &[], 0, &always(), &red, true, 0)), "5м красная — не вхожу");
    let mut other = SymMap::new();
    other.insert("LINKUSDT", bar(0, "1", "2", "1", "2"));
    assert_eq!(text(momentum(&tape, &[], 0, &always(), &other, true, 0)), "нет 5м бара — не вхожу");
}

#[test]
fn momentum_manages_its_long() {
    let tape = [ticker("ADAUSDT", "100", "5", "900000")];
    let none = SymMap::new();
    let one = |p: Position| momentum(&tape, &[p], NOON, &always(), &none, true, 0).0.remove(0);
    let held = |sl: Option<&str>, tp: Option<&str>| {
        Position::long("ADAUSDT", d("1"), d("99"), sl.map(d), tp.map(d))
    };
    assert!(matches!(one(held(Some("90"), Some("100"))), Decision::ExitPosition { ref reason, .. } if reason == "momentum take profit"));
    assert!(matches!(one(held(Some("100"), None)), Decision::ExitPosition { ref reason, .. } if reason == "momentum stop loss"));
    assert!(matches!(one(held(None, None)), Decision::AmendStop { stop_loss, .. } if stop_loss == d("98")));
    assert!(matches!(one(held(Some("90"), None)), Decision::AmendStop { stop_loss, .. } if stop_loss == d("98")));
    assert!(one(held(Some("99"), None)).is_hold());
    let out = momentum(&[ticker("ADAUSDT", "100", "-5", "900000"), ticker("LINKUSDT", "9", "5", "900000")],
        &[held(Some("90"), None)], NOON, &always(), &none, true, 0).0.remove(0);
    assert!(matches!(out, Decision::ExitPosition { ref reason, .. } if reason == "выпал из топа — закрываю до стопа"));
}

#[test]
fn a_single_momentum_decision_is_the_first() {
    let tape = [ticker("ADAUSDT", "1", "5", "900000")];
    let (dec, ts) = momentum_decision(&tape, None, NOON, 0, Some(&always())).unwrap();
    assert!(dec.is_enter_long());
    assert_eq!(dec.symbol(), "ADAUSDT");
    assert_eq!(ts, NOON);
}

#[test]
fn entered_rows_have_no_gate() {
    let t = ticker("ADAUSDT", "1", "5", "900000");
    assert_eq!(s1_setup_skip(&t, &SymMap::new(), true).unwrap(), None);
    let mut red = SymMap::new();
    red.insert("ADAUSDT", bar(0, "2", "2", "1", "1"));
    assert_eq!(s1_setup_skip(&t, &red, true).unwrap(), Some("5м красная — не вхожу"));
}

#[test]
fn symbols_are_sorted_out() {
    assert!(is_tradable_symbol("BTCUSDT"));
    assert!(!is_tradable_symbol("btcusdt"));
    assert!(!is_tradable_symbol("BTCUSDC"));
    assert!(!is_tradable_symbol("1000PEPEUSDT"));
    assert!(is_junk_symbol(" pepeusdt "));
    assert!(is_major_symbol("ETHUSDT"));
    assert!(!is_major_symbol("LINKUSDT"));
}

#[test]
fn rankings_are_in_order() {
    let rows = vec![
        ticker("ADAUSDT", "1", "2", "10"),
        ticker("LINKUSDT", "1", "5", "30"),
        ticker("DOTUSDT", "1", "-3", "20"),
    ];
    let names = |v: Vec<Ticker>| v.into_iter().map(|t| t.symbol).collect::<Vec<_>>();
    assert_eq!(rank_most_rising(&rows, &[]).unwrap().symbol, "LINKUSDT");
    assert_eq!(rank_most_rising(&rows, &["linkusdt".into()]).unwrap().symbol, "ADAUSDT");
    assert_eq!(
        names(sort_ranked(RankBy::Volume, rows.iter().map(|t| t.clone()).collect())),
        vec!["LINKUSDT", "DOTUSDT", "ADAUSDT"]
    );
    assert_eq!(
        names(sort_ranked(RankBy::Rise, rows.iter().map(|t| t.clone()).collect())),
        vec!["LINKUSDT", "ADAUSDT", "DOTUSDT"]
    );
    assert_eq!(names(apply_liquidity_floor(&rows, d("0.5")).unwrap()), vec!["LINKUSDT", "DOTUSDT"]);
    let e = Eligibility {
        min_quote_volume: d("15"),
        min_price: d("0"),
        min_change_percent: Some(d("0.4")),
        max_change_percent: Some(d("12")),
    };
    assert_eq!(names(pick_momentum_book(&rows, 5, &e, &[], true).unwrap()), vec!["LINKUSDT"]);
    assert!(pick_strategy1_book(&rows, 5, &[]).unwrap().is_empty());
}

#[test]
fn charts_follow_the_strategy() {
    let rows = [ticker("ETHUSDT", "1", "2", "10"), ticker("BTCUSDT", "1", "1", "30")];
    assert_eq!(pick_liquid_major(&rows, &[]).unwrap().symbol, "ETHUSDT");
    assert_eq!(pick_chart_ticker(&rows, 2, &["ethusdt".into()]).unwrap().unwrap().symbol, "BTCUSDT");
    assert!(pick_liquid_major(&rows[..0], &[]).is_none());
}

#[test]
fn highs_are_near() {
    let mut t = ticker("ADAUSDT", "99", "2", "10");
    t.high_price = d("100");
    assert_eq!(near_24h_high(&t, d("0.02")), Some(true));
    assert_eq!(near_24h_high(&t, d("0.005")), Some(false));
}

#[test]
fn a_rising_day_breaks_out() {
    let mut bars = Vec::new();
    for i in 0..120i64 {
        let p = 100 + i;
        bars.push(Bar {
            open_time: i * 86_400_000,
            open: Dec::from_int(p),
            high: Dec::from_int(p + 2),
            low: Dec::from_int(p - 2),
            close: Dec::from_int(p + 1),
            volume: d("10"),
        });
    }
    let last = bars[119].close;
    let hold = trend_decision(&bars, None, "BTCUSDT", Some(&TrendParams::default()), None).unwrap();
    assert!(hold.is_hold());
    bars.push(bar(120 * 86_400_000, "219", "230", "218", "229"));
    let entry = trend_decision(&bars, None, "BTCUSDT", Some(&TrendParams::default()), None).unwrap();
    match entry {
        Decision::EnterLong { stop_loss, .. } => assert!(stop_loss < d("229")),
        other => assert!(!other.reason().is_empty(), "{last:?}"),
    }
    assert_eq!(live_left_daily_close(d("100"), d("100"), d("0.05")).unwrap(), None);
    assert!(live_left_daily_close(d("100"), d("120"), d("0.05")).unwrap().is_some());
}

#[test]
fn scalps_need_history() {
    let bars: Vec<Bar> = (0..3).map(|i| bar(i, "10", "11", "9", "10")).collect();
    let dec = scalp_decision(&bars, None, "BTCUSDT", Some(&ScalpParams::default()), None).unwrap();
    assert!(dec.is_hold());
    assert!(!dec.reason().is_empty());
}

#[test]
fn strategies_have_names() {
    assert!(!strategy_title(1).is_empty());
    assert!(is_continuation(4) && is_continuation(5) && !is_continuation(1));
    assert_eq!(continuation_interval(5, TradeInterval::Minute5), TradeInterval::Hour1);
    assert_eq!(continuation_interval(4, TradeInterval::Minute30), TradeInterval::Minute30);
    assert_eq!(continuation_slot_cap(4, 5, 2), 5);
    assert_eq!(continuation_slot_cap(5, 5, 2), 2);
    assert_eq!(select_strategy(3), Ok(3));
    assert!(select_strategy(9).is_err());
    assert_eq!(select_strategy_str("2"), Ok(2));
    assert!(select_strategy_str("x").is_err());
}

#[test]
fn the_desk_decides_by_strategy() {
    let mut snap = MarketSnapshot::empty(d("1000"));
    snap.tickers.push(ticker("ADAUSDT", "1", "5", "900000"));
    let mut tally = SkipTally::new();
    let p = always();
    let r = decide(1, &snap, NOON, 0, Some(&p), None, None, None, &[], &SymMap::new(), &mut tally)
        .unwrap();
    let (dec, _) = r.ok().unwrap();
    assert!(dec.is_enter_long());
    let bad = decide(9, &snap, NOON, 0, Some(&p), None, None, None, &[], &SymMap::new(), &mut tally)
        .unwrap();
    assert!(bad.is_err());
}

#[test]
fn continuation_holds_without_candles() {
    let mut snap = MarketSnapshot::empty(d("1000"));
    snap.tickers.push(ticker("LINKUSDT", "10", "5", "90000000"));
    let mut p = ContinuationParams::default();
    p.always_enter = true;
    let mut tally = SkipTally::new();
    let (ds, ts, _) = continuation_decisions(
        &snap, &[], NOON, 0, &[], &SymMap::new(), Some(&p), &[], true, &[], 0, &SymSet::new(),
        &SymMap::new(), &SymSet::new(), &mut tally,
    )
    .unwrap();
    assert!(ds.iter().all(|x| !x.is_enter_long()));
    assert_eq!(ts, NOON);
    assert!(scan_due(0, NOON));
    assert!(!scan_due(NOON - 59_999, NOON));
    let book = pick_strategy4_book(&snap.tickers, 5, &[], Some(&p), &mut tally).unwrap();
    assert!(book.len() <= 1);
}

#[test]
fn the_fifth_strategy_has_the_geometry_of_the_hour() {
    let p = continuation_trade_params(5, TradeInterval::Minute15);
    assert_eq!(p.interval, TradeInterval::Hour1);
    assert_eq!((p.min_stop_pct, p.max_stop_pct), (d("0.03"), d("0.08")));
    assert_eq!(p.min_pullback_pct, d("0.02"));
    assert_eq!((p.bank_r, p.atr_k, p.stop_lookback), (d("2"), d("2"), 2));
    let q = continuation_trade_params(4, TradeInterval::Minute15);
    assert_eq!((q.min_stop_pct, q.max_stop_pct), (d("0.02"), d("0.05")));
    assert_eq!(q.min_pullback_pct, d("0.012"));
}

#[test]
fn an_hourly_signal_has_closed() {
    let hour = 3_600_000;
    let forming = bar(NOON - 60_000, "10", "11", "9", "10");
    let closed = bar(NOON - 60_000 - hour, "10", "12", "9", "11");
    let mut snap = MarketSnapshot::empty(d("10000"));
    snap.last_bars.insert("ADAUSDT", forming);
    snap.universe_bars.insert("ADAUSDT", vec![forming]);
    assert!(signal_bar(&snap, "ADAUSDT", TradeInterval::Hour1, NOON).is_none());
    assert_eq!(signal_bar(&snap, "ADAUSDT", TradeInterval::Minute15, NOON).unwrap().open_time, forming.open_time);
    snap.universe_bars.insert("ADAUSDT", vec![closed, forming]);
    let signal = signal_bar(&snap, "ADAUSDT", TradeInterval::Hour1, NOON).unwrap();
    assert_eq!(signal.open_time, closed.open_time);
}

#[test]
fn the_word_tp_speaks_of_a_win() {
    for won in ["tp", "hit TP.", "a-tp_b", "x tp 2", "(Tp)"] {
        assert!(reason_suggests_win(won), "{won}");
    }
    for lost in ["tps", "atp", "1tp", "tp1", "ыtp", "t p", ""] {
        assert!(!reason_suggests_win(lost), "{lost}");
    }
}

#[test]
fn skips_are_tallied() {
    let mut t = SkipTally::new();
    t.note_s4_skip("a");
    t.note_s4_skip("b");
    t.note_s4_skip("b");
    assert_eq!(t.s4_skip_stats_top(1), vec![("b".to_string(), 2)]);
    assert_eq!(t.s4_skip_stats_top(9).len(), 2);
    t.note_s4_skip("a");
    t.note_s4_skip("");
    assert_eq!(t.rows.len(), 2);
}

#[test]
fn live_rows_keep_what_is_remembered() {
    let mut live = Position::long("ADAUSDT", d("2"), d("10"), None, None);
    live.unrealized_pnl = d("1");
    let known = Position::long("ADAUSDT", d("1"), d("9"), Some(d("8")), Some(d("12")));
    let both = coalesce_position(Some(&live), Some(&known)).unwrap();
    assert_eq!((both.qty, both.stop_loss, both.take_profit), (d("2"), Some(d("8")), Some(d("12"))));
    let book = pick_managed_longs(&[live.clone()], &[known.clone()]);
    assert_eq!(book.len(), 1);
    assert_eq!(book[0].stop_loss, Some(d("8")));
    let other = Position::long("DOTUSDT", d("2"), d("10"), None, None);
    let loose = unmanaged_positions(&[live.clone(), other], &[known.clone()]);
    assert_eq!(loose.len(), 1);
    assert_eq!(loose[0].symbol, "DOTUSDT");
    assert_eq!(remembered_positions(Some(&known), &[known.clone(), live]).len(), 1);
    assert_eq!(Side::parse("long"), Some(Side::Long));
    assert_eq!(Side::parse("flat"), None);
}

#[test]
fn recent_actions_are_bounded() {
    let mut v: Vec<RecentAction> = Vec::new();
    for i in 0..25 {
        push_recent(&mut v, i, format!("a{i}"));
    }
    assert_eq!(v.len(), 20);
    assert_eq!(v[19].text, "a24");
    let mut state = EngineState::new(1);
    state.push_action(1, "x".into());
    assert_eq!(state.clone().recent_actions.len(), 1);
}

#[test]
fn trades_chime() {
    assert!(reason_suggests_win("momentum take-profit"));
    assert!(reason_suggests_win("TP hit"));
    assert!(!reason_suggests_win("stop loss"));
    let ok = tui_bot::live::LiveApplyResult::default();
    let exit = Decision::ExitPosition { reason: "stop".into(), symbol: "ADAUSDT".into() };
    assert_eq!(kind_for_decision(&exit, &ok, false, true, None), Some(TradeSignal::SellLoss));
    assert_eq!(kind_for_decision(&exit, &ok, true, false, None), None);
    assert_eq!(kind_for_decision(&Decision::hold("x"), &ok, false, true, None), None);
    let none = tui_bot::flatten::FlattenResult::default();
    assert_eq!(kind_for_flatten(&none, Some(true)), None);
    let chimes = Chimes { enabled: true };
    assert!(chimes.signals_enabled(None));
    assert!(!chimes.signals_enabled(Some(" OFF ")));
    assert!(Chimes { enabled: false }.signals_enabled(Some("yes")));
}

#[test]
fn chimes_are_wave_files() {
    let w = wav_bytes(&[1, -2], 8000);
    assert_eq!(w.len(), 48);
    assert_eq!(&w[0..4], b"RIFF");
    assert_eq!(&w[4..8], &40u32.to_le_bytes());
    assert_eq!(&w[8..16], b"WAVEfmt ");
    assert_eq!(&w[24..28], &8000u32.to_le_bytes());
    assert_eq!(&w[28..32], &16000u32.to_le_bytes());
    assert_eq!(&w[36..40], b"data");
    assert_eq!(&w[44..48], &[1, 0, 254, 255]);
}

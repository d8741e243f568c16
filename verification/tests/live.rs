use tui_bot::config::load::{load_config, Config};
use tui_bot::continuation::SkipTally;
use tui_bot::dec::Dec;
use tui_bot::desk_orchestrator::HeatLimits;
use tui_bot::exchange::{ExchangeError, SymbolFilters};
use tui_bot::journal::{Ledger, Stamp};
use tui_bot::json::Json;
use tui_bot::live::adopt::{adopt_amended_stop, adopt_reduced_long, apply_paper_decision, drop_symbol};
use tui_bot::live::book::{existing_notional, position_for, symbol_hint};
use tui_bot::live::reconcile::{
    clear_vanished_longs, rearm_live_protectives, reconcile_live, sweep_rogue_shorts,
};
use tui_bot::live::{apply_decision, apply_flatten};
use tui_bot::models::{Decision, EngineState, MarketSnapshot, Position, Side, Ticker};
use tui_bot::openmeta::OpenMeta;
use tui_bot::signals::TradeSignal;
use tui_bot::symbols::SymMap;
use tui_bot::tui::{desk_momentum, scan_live, scan_paper};
use tui_bot::wire::{FlattenClient, LiveClient, Wire};

const NOW: i64 = 1_704_067_800_000;

fn d(s: &str) -> Dec {
    Dec::parse(s).unwrap()
}

struct Desk {
    book: Vec<(String, String)>,
    fail_protect: bool,
    calls: Vec<String>,
}

impl Desk {
    fn with(book: &[(&str, &str)]) -> Self {
        Desk {
            book: book.iter().map(|(s, a)| (s.to_string(), a.to_string())).collect(),
            fail_protect: false,
            calls: Vec::new(),
        }
    }
}

impl FlattenClient for Desk {
    fn cancel_protectives(&mut self, symbol: &str) -> Result<(), ExchangeError> {
        self.calls.push(format!("cancel {symbol}"));
        Ok(())
    }

    fn market_close(&mut self, symbol: &str, side: &str, qty: Dec) -> Result<(), ExchangeError> {
        self.calls.push(format!("close {symbol} {side} {}", qty.text()));
        self.book.retain(|(s, _)| s != symbol);
        Ok(())
    }

    fn position_risk(&mut self) -> Result<Json, ExchangeError> {
        Ok(Json::List(
            self.book
                .iter()
                .map(|(s, a)| {
                    Json::Object(vec![
                        ("symbol".into(), Json::Text(s.clone())),
                        ("positionAmt".into(), Json::Text(a.clone())),
                        ("entryPrice".into(), Json::Text("100".into())),
                    ])
                })
                .collect(),
        ))
    }
}

impl LiveClient for Desk {
    fn filters_for(&mut self, _symbol: &str) -> Result<SymbolFilters, ExchangeError> {
        Ok(SymbolFilters {
            tick_size: d("0.1"),
            step_size: d("0.001"),
            min_qty: d("0.001"),
            min_notional: d("5"),
        })
    }

    fn market_buy(&mut self, symbol: &str, qty: Dec) -> Result<(), ExchangeError> {
        self.calls.push(format!("buy {symbol} {}", qty.text()));
        self.book.push((symbol.into(), qty.text()));
        Ok(())
    }

    fn place_tp_sl(
        &mut self,
        symbol: &str,
        tp: Dec,
        sl: Dec,
        _qty: Option<Dec>,
    ) -> Result<(), ExchangeError> {
        self.calls.push(format!("protect {symbol} {} {}", tp.text(), sl.text()));
        if self.fail_protect {
            return Err(ExchangeError("HTTP 400 /algoOrder: refused".into()));
        }
        Ok(())
    }

    fn replace_stop(
        &mut self,
        symbol: &str,
        sl: Dec,
        _tp: Option<Dec>,
        _qty: Option<Dec>,
    ) -> Result<(), ExchangeError> {
        self.calls.push(format!("stop {symbol} {}", sl.text()));
        Ok(())
    }
}

fn config(live: bool) -> Config {
    let mut env: SymMap<String> = SymMap::new();
    env.insert("BINANCE_API_KEY", "abcdefghijklmnop".into());
    env.insert("BINANCE_API_SECRET", "ponmlkjihgfedcba".into());
    env.insert("STRATEGY1_ALWAYS_ENTER", "1".into());
    load_config(live, &env, Ok(10_000_000_000)).ok().unwrap()
}

fn at() -> Stamp {
    Stamp { now: NOW, ts: "2024-01-01T00:10:00Z".into() }
}

fn ledger() -> Ledger {
    Ledger { events: Vec::new(), meta: OpenMeta::new() }
}

fn market(rows: &[Position]) -> MarketSnapshot {
    let mut s = MarketSnapshot::empty(d("1000"));
    s.fetched = true;
    s.live_book = true;
    s.account_ok = true;
    s.account_fresh = true;
    s.account.wallet_balance = d("1000");
    s.account.available_balance = d("1000");
    s.tickers.push(Ticker::new("ADAUSDT", d("100"), d("5"), d("9000000")));
    s.open_positions = rows.iter().map(|p| p.clone()).collect();
    s.position = rows.first().map(|p| p.clone());
    s
}

fn held() -> Position {
    Position::long("ADAUSDT", d("0.2"), d("100"), Some(d("98")), Some(d("103")))
}

fn enter() -> Decision {
    Decision::EnterLong {
        symbol: "ADAUSDT".into(),
        reason: "most rising 5%".into(),
        take_profit: d("102.5"),
        stop_loss: d("98"),
    }
}

#[test]
fn a_fill_is_protected() {
    let mut wire = Wire::new(Desk::with(&[]));
    let mut state = EngineState::new(1);
    let mut l = ledger();
    let (r, chime) =
        apply_decision(&config(true), &mut wire, &mut state, &market(&[]), &enter(), &mut l, &at()).unwrap();
    assert!(r.filled, "{r:?}");
    assert_eq!(chime, Some(TradeSignal::Buy));
    let calls = &wire.client().calls;
    let bought = calls.iter().position(|c| c == "buy ADAUSDT 0.200" || c == "buy ADAUSDT 0.2").unwrap();
    assert!(calls[bought..].iter().any(|c| c.starts_with("protect ADAUSDT 102.5 98")), "{calls:?}");
    assert_eq!(state.positions.len(), 1);
    assert_eq!(l.events.iter().filter(|e| e.event == "open").count(), 1);
}

#[test]
fn an_unprotected_fill_is_closed() {
    let mut desk = Desk::with(&[]);
    desk.fail_protect = true;
    let mut wire = Wire::new(desk);
    let mut state = EngineState::new(1);
    let mut l = ledger();
    let (r, _) =
        apply_decision(&config(true), &mut wire, &mut state, &market(&[]), &enter(), &mut l, &at()).unwrap();
    assert!(r.error.is_some());
    assert!(wire.client().calls.iter().any(|c| c.starts_with("close ADAUSDT LONG")));
    assert!(wire.client().book.is_empty());
    assert!(state.positions.is_empty());
}

#[test]
fn paper_asks_nothing() {
    let mut wire = Wire::new(Desk::with(&[]));
    let mut state = EngineState::new(1);
    let mut l = ledger();
    apply_decision(&config(false), &mut wire, &mut state, &market(&[]), &enter(), &mut l, &at()).unwrap();
    assert!(wire.client().calls.is_empty());
}

#[test]
fn an_exit_closes_and_is_journalled() {
    let mut wire = Wire::new(Desk::with(&[("ADAUSDT", "0.2")]));
    let mut state = EngineState::new(1);
    state.positions = vec![held()];
    state.position = Some(held());
    let mut l = ledger();
    let exit = Decision::ExitPosition { reason: "momentum stop loss".into(), symbol: "ADAUSDT".into() };
    let (r, chime) =
        apply_decision(&config(true), &mut wire, &mut state, &market(&[held()]), &exit, &mut l, &at())
            .unwrap();
    assert_eq!(r.error, None);
    assert!(chime.is_some());
    assert!(wire.client().calls.iter().any(|c| c == "close ADAUSDT LONG 0.2"));
    assert_eq!(l.events.iter().filter(|e| e.event == "close").count(), 1);
    assert!(state.positions.is_empty());
}

#[test]
fn a_stop_is_moved() {
    let mut wire = Wire::new(Desk::with(&[("ADAUSDT", "0.2")]));
    let mut state = EngineState::new(1);
    state.positions = vec![held()];
    state.position = Some(held());
    let mut l = ledger();
    let amend = Decision::AmendStop { stop_loss: d("99"), reason: "trail".into(), symbol: "ADAUSDT".into() };
    let (r, _) =
        apply_decision(&config(true), &mut wire, &mut state, &market(&[held()]), &amend, &mut l, &at())
            .unwrap();
    assert_eq!(r.error, None);
    assert!(wire.client().calls.iter().any(|c| c == "stop ADAUSDT 99"));
    assert_eq!(state.positions[0].stop_loss, Some(d("99")));
    assert_eq!(l.events.iter().filter(|e| e.event == "amend").count(), 1);
}

#[test]
fn a_flatten_pauses_entries() {
    let mut wire = Wire::new(Desk::with(&[("ADAUSDT", "0.2")]));
    let mut state = EngineState::new(1);
    state.positions = vec![held()];
    let (r, chime) =
        apply_flatten(&config(true), &mut wire, &mut state, Some(&market(&[held()])), None, NOW);
    assert_eq!(r.closed, vec!["LONG ADAUSDT"]);
    assert_eq!(r.error(), None);
    assert!(chime.is_some());
    assert!(state.entries_paused);
    assert!(state.positions.is_empty());
}

#[test]
fn rogue_shorts_are_closed() {
    let mut short = held();
    short.side = Side::Short;
    let mut wire = Wire::new(Desk::with(&[("ADAUSDT", "-0.2")]));
    let mut state = EngineState::new(1);
    let mut l = ledger();
    let (r, _) =
        sweep_rogue_shorts(&config(true), &mut wire, &mut state, &mut l, &market(&[short]), &at()).unwrap();
    assert_eq!(r.closed, vec!["SHORT ADAUSDT"]);
    assert!(wire.client().calls.iter().any(|c| c.starts_with("close ADAUSDT SHORT")));
}

#[test]
fn vanished_longs_are_forgotten() {
    let mut wire = Wire::new(Desk::with(&[]));
    let mut state = EngineState::new(1);
    state.positions = vec![held()];
    state.position = Some(held());
    let mut l = ledger();
    clear_vanished_longs(&config(true), &mut wire, &mut state, &mut l, &market(&[]), &at()).unwrap();
    assert!(state.positions.is_empty());
}

#[test]
fn bare_longs_are_protected_again() {
    let mut wire = Wire::new(Desk::with(&[("ADAUSDT", "0.2")]));
    let mut state = EngineState::new(1);
    state.positions = vec![held()];
    let mut l = ledger();
    rearm_live_protectives(&config(true), &mut wire, &mut state, &mut l, &market(&[held()]), &at()).unwrap();
    assert!(wire.client().calls.iter().any(|c| c.contains("ADAUSDT")), "{:?}", wire.client().calls);
}

#[test]
fn nothing_is_put_right_on_paper() {
    let mut wire = Wire::new(Desk::with(&[("ADAUSDT", "0.2")]));
    let mut state = EngineState::new(1);
    let mut l = ledger();
    reconcile_live(&config(false), &mut wire, &mut state, &mut l, &market(&[held()]), &at()).unwrap();
    assert!(wire.client().calls.is_empty());
}

#[test]
fn a_live_scan_buys_and_protects() {
    let cfg = config(true);
    let mut wire = Wire::new(Desk::with(&[]));
    let mut state = EngineState::new(1);
    let mut l = ledger();
    let r = scan_live(
        &cfg, &mut wire, &mut state, &market(&[]), &desk_momentum(&cfg), &mut l, &mut SkipTally::new(),
        None, false, HeatLimits::default(), &at(),
    )
    .unwrap();
    assert_eq!(r.text, "most rising 5%");
    assert_eq!(r.chimes, vec![TradeSignal::Buy]);
    assert!(wire.client().calls.iter().any(|c| c.starts_with("buy ADAUSDT")));
}

#[test]
fn a_paper_scan_decides_and_chimes() {
    let cfg = config(false);
    let mut snap = market(&[]);
    snap.live_book = false;
    let mut state = EngineState::new(1);
    let mut l = ledger();
    let r = scan_paper(
        &mut state, &snap, &desk_momentum(&cfg), true, &mut l, &mut SkipTally::new(), None, false,
        HeatLimits::default(), &at(),
    )
    .unwrap();
    assert!(r.decisions[0].is_enter_long());
    assert_eq!(r.text, "most rising 5%");
    assert_eq!(r.chimes, vec![TradeSignal::Buy]);
}

#[test]
fn paper_longs_are_managed() {
    let mut state = EngineState::new(1);
    state.positions = vec![held()];
    let mut l = ledger();
    let snap = market(&[]);
    let amend = Decision::AmendStop { stop_loss: d("98.5"), reason: "t".into(), symbol: "ADAUSDT".into() };
    apply_paper_decision(&mut state, &snap, &amend, &mut l, &at()).unwrap();
    assert_eq!(state.positions[0].stop_loss, Some(d("98.5")));
    assert_eq!(l.events[0].event, "amend");
    adopt_amended_stop(&mut state, "adausdt", d("99"));
    assert_eq!(state.positions[0].stop_loss, Some(d("99")));
    let qty = state.positions[0].qty;
    adopt_reduced_long(&mut state, "ADAUSDT", Dec::new(1, 3), d("100")).unwrap();
    assert!(state.positions[0].qty < qty);
    let out = Decision::ReduceLong {
        symbol: "ADAUSDT".into(),
        reason: "all".into(),
        qty: d("9"),
        stop_loss: d("100"),
    };
    apply_paper_decision(&mut state, &snap, &out, &mut l, &at()).unwrap();
    assert_eq!(l.events[1].event, "close");
    drop_symbol(&mut state, "ADAUSDT");
    assert!(state.positions.is_empty());
}

#[test]
fn the_book_is_looked_up() {
    let snap = market(&[held()]);
    assert_eq!(position_for(&snap, None, "ADAUSDT").unwrap().qty, d("0.2"));
    assert!(position_for(&snap, None, "BTCUSDT").is_none());
    assert_eq!(existing_notional(&snap, "ADAUSDT", d("100")), Some(d("20")));
    assert_eq!(symbol_hint(&snap, None), "ADAUSDT");
}

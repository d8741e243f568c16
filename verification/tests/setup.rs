use tui_bot::config::TradeInterval;
use tui_bot::continuation::ContinuationParams;
use tui_bot::dec::{minus, Dec};
use tui_bot::models::{Bar, MarketSnapshot, Ticker};
use tui_bot::openmeta::{apply_mark_excursion, initial_risk_usdt, r_multiple, Excursion};
use tui_bot::setup_score::{
    cost_r_at_stop_pct, cost_r_soft_max, evaluate, soft_entry_skip, SetupAction, COST_R_SOFT_MAX_PCT,
    SCORE_ENTER, SCORE_WATCH,
};

fn d(s: &str) -> Dec {
    Dec::parse(s).unwrap()
}

fn bar(i: i64, o: f64, h: f64, l: f64, c: f64, vol: f64) -> Bar {
    Bar {
        open_time: 1_700_000_000_000 + i * 15 * 60_000,
        open: d(&format!("{o}")),
        high: d(&format!("{h}")),
        low: d(&format!("{l}")),
        close: d(&format!("{c}")),
        volume: d(&format!("{vol}")),
    }
}

#[test]
fn cost_r_matches_15m_fee_stop_reality() {
    let c2 = cost_r_at_stop_pct(d("0.02")).unwrap().unwrap();
    let c5 = cost_r_at_stop_pct(d("0.05")).unwrap().unwrap();
    assert!(minus(Some(c2), Some(d("0.04"))).unwrap().abs() < d("0.0001"), "{c2:?}");
    assert!(minus(Some(c5), Some(d("0.016"))).unwrap().abs() < d("0.0001"), "{c5:?}");
    assert_eq!(cost_r_soft_max(), d("0.04"));
    assert_eq!(COST_R_SOFT_MAX_PCT, 4);
    assert!(c2 >= cost_r_soft_max());
    assert!(c5 < cost_r_soft_max());
}

#[test]
fn soft_reject_when_natural_stop_tighter_than_fee_floor() {
    let p = ContinuationParams::default().with_interval(TradeInterval::Minute15);
    let mut snap = MarketSnapshot::empty(d("10000"));
    let mut bars = Vec::new();
    for i in 0..40 {
        let px = 100.0 + (i as f64) * 0.01;
        bars.push(bar(i, px, px + 0.05, px - 0.05, px + 0.02, 1000.0));
    }
    let last = *bars.last().unwrap();
    snap.universe_bars.insert("ALTUSDT", bars);
    let mut htf = Vec::new();
    for i in 0..40 {
        let px = 90.0 + i as f64 * 0.5;
        htf.push(Bar {
            open_time: 1_700_000_000_000 + i * 4 * 3_600_000,
            open: d(&format!("{px}")),
            high: d(&format!("{}", px + 0.3)),
            low: d(&format!("{}", px - 0.3)),
            close: d(&format!("{}", px + 0.2)),
            volume: d("100"),
        });
    }
    snap.htf_bars.insert("ALTUSDT", htf);
    let t = Ticker::new("ALTUSDT", last.close, d("2.0"), d("5_000_000"));
    let s = evaluate(&snap, &t, &last, &p, 7 * 3600 * 1000).unwrap();
    assert!(s.cost_r.is_some(), "expected cost_r");
    let cr = s.cost_r.unwrap();
    assert!(cr > cost_r_soft_max(), "expected soft costR reject, got {cr:?} score={}", s.score);
    assert!(s.soft_reject.is_some());
    assert_eq!(s.action, SetupAction::Skip);
}

#[test]
fn disabled_flag_skips_soft_gate() {
    let mut p = ContinuationParams::default().with_interval(TradeInterval::Minute15);
    p.setup_score = false;
    let snap = MarketSnapshot::empty(d("10000"));
    let last = bar(0, 10.0, 10.2, 9.9, 10.1, 100.0);
    let t = Ticker::new("ALTUSDT", d("10.1"), d("2"), d("1_000_000"));
    assert!(soft_entry_skip(&snap, &t, &last, &p, 0).unwrap().is_none());
}

#[test]
fn thresholds_match_plan() {
    assert_eq!(SCORE_ENTER, 75);
    assert_eq!(SCORE_WATCH, 65);
}

#[test]
fn risk_and_r_math() {
    let risk = initial_risk_usdt(d("100"), d("98"), d("2")).unwrap().unwrap();
    assert_eq!(risk, d("4"));
    assert_eq!(r_multiple(d("6"), risk).unwrap().unwrap(), d("1.5"));
    assert!(initial_risk_usdt(d("100"), d("100"), d("1")).unwrap().is_none());
}

#[test]
fn mfe_mae_update() {
    let start = Excursion { mfe_usdt: d("0"), mae_usdt: d("0"), mfe_peak_ts: None, time_to_1r_ts: None };
    let a = apply_mark_excursion(start, d("100"), d("103"), d("1"), d("2"), 10_000).unwrap();
    assert_eq!(a.mfe_usdt, d("3"));
    assert_eq!(a.mae_usdt, d("0"));
    assert_eq!(a.mfe_peak_ts, Some(10_000));
    assert_eq!(a.time_to_1r_ts, Some(10_000));
    let b = apply_mark_excursion(a, d("100"), d("97"), d("1"), d("2"), 20_000).unwrap();
    assert_eq!(b.mfe_usdt, d("3"));
    assert_eq!(b.mae_usdt, d("3"));
}

use tui_bot::dec::{plus, times, Dec};
use tui_bot::indicators::last_ema;
use tui_bot::models::{Bar, MarketSnapshot, Ticker};
use tui_bot::regime::{block_alt_entry, classify_btc, BtcRegime, EMA_PERIOD};

const BTC: &str = "BTCUSDT";

fn d(s: &str) -> Dec {
    Dec::parse(s).unwrap()
}

fn add(a: Dec, b: Dec) -> Dec {
    plus(Some(a), Some(b)).unwrap()
}

fn mul(a: Dec, b: Dec) -> Dec {
    times(Some(a), Some(b)).unwrap()
}

fn bar_at(i: i64, close: f64) -> Bar {
    let c = d(&format!("{close:.2}"));
    Bar {
        open_time: 1_700_000_000_000 + i * 4 * 3_600_000,
        open: c,
        high: add(c, d("50")),
        low: add(c, d("-50")),
        close: c,
        volume: d("100"),
    }
}

fn rising_htf(n: usize, start: f64, step: f64) -> Vec<Bar> {
    (0..n).map(|i| bar_at(i as i64, start + step * i as f64)).collect()
}

fn falling_htf(n: usize, start: f64, step: f64) -> Vec<Bar> {
    (0..n).map(|i| bar_at(i as i64, start - step * i as f64)).collect()
}

#[test]
fn bull_and_strong_bull() {
    let htf = rising_htf(40, 40_000.0, 80.0);
    let px = htf.last().unwrap().close;
    let reg = classify_btc(&htf, Some(px), Some(d("0.5"))).unwrap();
    assert!(matches!(reg, BtcRegime::Bull | BtcRegime::StrongBull), "{reg:?}");
    assert!(!reg.blocks_alt_entry());
    assert_eq!(reg.risk_multiplier(), Dec::one());
}

#[test]
fn bear_blocks() {
    let htf = falling_htf(40, 50_000.0, 120.0);
    let px = htf.last().unwrap().close;
    let reg = classify_btc(&htf, Some(px), Some(d("-0.5"))).unwrap();
    assert_eq!(reg, BtcRegime::Bear, "{reg:?}");
    assert!(reg.blocks_alt_entry());
    assert_eq!(reg.block_reason(), Some("BTC regime bear — не вхожу"));
    assert_eq!(reg.risk_multiplier(), Dec::zero());
}

#[test]
fn panic_on_sharp_1h_drop() {
    let htf = falling_htf(40, 50_000.0, 80.0);
    let px = htf.last().unwrap().close;
    let reg = classify_btc(&htf, Some(px), Some(d("-3.2"))).unwrap();
    assert_eq!(reg, BtcRegime::Panic);
    assert_eq!(reg.block_reason(), Some("BTC regime panic — не вхожу"));
}

#[test]
fn missing_htf_is_neutral_half_risk() {
    let reg = classify_btc(&[], Some(d("50000")), None).unwrap();
    assert_eq!(reg, BtcRegime::Neutral);
    assert!(!reg.blocks_alt_entry());
    assert_eq!(reg.risk_multiplier(), d("0.5"));
}

#[test]
fn gate_helpers() {
    assert_eq!(BtcRegime::Bull.journal_tag(), "bull");
    assert_eq!(BtcRegime::StrongBull.as_str(), "STRONG_BULL");
    let mut snap = MarketSnapshot::empty(d("10000"));
    assert_eq!(block_alt_entry(&snap).unwrap(), None);
    snap.htf_bars.insert(BTC, falling_htf(40, 50_000.0, 120.0));
    let px = snap.htf_bars_for(BTC).last().unwrap().close;
    snap.tickers.push(Ticker::new(BTC, px, d("0"), d("1")));
    assert!(block_alt_entry(&snap).unwrap().unwrap().contains("bear"));
}

#[test]
fn strong_bull_full_risk() {
    let htf = rising_htf(50, 40_000.0, 200.0);
    let ema_proxy = htf.last().unwrap().close;
    let px = mul(ema_proxy, add(Dec::one(), d("0.01")));
    let reg = classify_btc(&htf, Some(px), Some(d("0.3"))).unwrap();
    assert_eq!(reg, BtcRegime::StrongBull, "{reg:?}");
    assert_eq!(reg.risk_multiplier(), Dec::one());
    assert!(!reg.blocks_alt_entry());
}

#[test]
fn neutral_half_risk_recovering() {
    let htf = rising_htf(40, 40_000.0, 100.0);
    let closes: Vec<Dec> = htf.iter().map(|b| b.close).collect();
    let ema = last_ema(&closes, EMA_PERIOD).unwrap().expect("ema");
    let px = mul(ema, d("0.99"));
    assert!(px < ema);
    let reg = classify_btc(&htf, Some(px), Some(d("0.2"))).unwrap();
    assert_eq!(reg, BtcRegime::Neutral, "{reg:?}");
    assert_eq!(reg.risk_multiplier(), d("0.5"));
    assert!(!reg.blocks_alt_entry());
    assert!(reg.block_reason().is_none());
}

#[test]
fn risk_multiplier_table() {
    assert_eq!(BtcRegime::StrongBull.risk_multiplier(), Dec::one());
    assert_eq!(BtcRegime::Bull.risk_multiplier(), Dec::one());
    assert_eq!(BtcRegime::Neutral.risk_multiplier(), d("0.5"));
    assert_eq!(BtcRegime::Bear.risk_multiplier(), Dec::zero());
    assert_eq!(BtcRegime::Panic.risk_multiplier(), Dec::zero());
    assert!(BtcRegime::Bear.blocks_alt_entry());
    assert!(BtcRegime::Panic.blocks_alt_entry());
    assert!(!BtcRegime::Bull.blocks_alt_entry());
}

use tui_bot::dayrisk::{apply_day_risk, evaluate, one_r_usdt, r_budget_usdt, utc_day_key, DayLimits};
use tui_bot::dec::{minus, over, plus, times, Dec};
use tui_bot::indicators::{
    adx_series, atr_series, channel_high, channel_low, ema_series, last_atr, last_rsi,
    last_two_swing_lows, mean_volume, sma, swing_lows, true_range, vwap,
};
use tui_bot::models::{Bar, EngineState};
use tui_bot::money::{
    dec, fmt_fixed, long_pnl, quantize_to_step, require_positive, round_trip_taker_pct, taker_fee,
    MoneyError,
};
use tui_bot::profit::{
    account_profit, current_equity, pin_starting_equity, read_starting_equity, EquityPin,
};
use tui_bot::trail::{
    candidate_stop, long_stop_is_valid, take_profit_price, take_profit_price_net, trail_stop_upward,
    TrailError,
};

fn d(s: &str) -> Dec {
    Dec::parse(s).unwrap()
}

fn bar(t: i64, o: &str, h: &str, l: &str, c: &str, v: &str) -> Bar {
    Bar { open_time: t, open: d(o), high: d(h), low: d(l), close: d(c), volume: d(v) }
}

#[test]
fn decimal_arithmetic_is_exact() {
    assert_eq!(plus(Some(d("0.1")), Some(d("0.2"))), Some(d("0.3")));
    assert_eq!(minus(Some(d("1")), Some(d("1.5"))), Some(d("-0.5")));
    assert_eq!(times(Some(d("1.25")), Some(d("-4"))), Some(d("-5")));
    assert_eq!(over(Some(d("1")), Some(d("8"))), Some(d("0.125")));
    assert_eq!(over(Some(d("1")), Some(d("0"))), None);
    assert_eq!(plus(None, Some(d("1"))), None);
    let largest = Dec::parse("79228162514264337593543950335").unwrap();
    assert_eq!(plus(Some(largest), Some(d("1"))), None);
    assert_eq!(times(Some(largest), Some(d("10"))), None);
}

#[test]
fn decimals_are_printed_and_read() {
    assert_eq!(d("1.2300").text(), "1.2300");
    assert_eq!(d("1.2300").normalize().text(), "1.23");
    assert_eq!(fmt_fixed(d("100.000")), "100");
    assert_eq!(d("2.345").text_fixed(2).unwrap(), "2.34");
    assert_eq!(d("7").text_fixed(2).unwrap(), "7.00");
    assert_eq!(d("7").text_signed(1).unwrap(), "+7.0");
    assert_eq!(d("-7").text_signed(1).unwrap(), "-7.0");
    assert_eq!(d("2.345").text_short(2), "2.34");
    assert_eq!(d("1_000").text(), "1000");
    assert_eq!(Dec::parse("abc"), None);
    assert_eq!(Dec::parse(""), None);
}

#[test]
fn decimals_print_where_the_digits_fit() {
    let largest = d("79228162514264337593543950335");
    let long = d("999999999999999999999999999.9");
    assert_eq!(long.text_fixed(4).unwrap(), "999999999999999999999999999.9000");
    assert_eq!(long.neg().text_signed(4).unwrap(), "-999999999999999999999999999.9000");
    assert_eq!(d("1000000000000000000000000000").text_fixed(4), None);
    assert_eq!(d("-1000000000000000000000000000").text_signed(4), None);
    assert_eq!(d("1000000000000000000000000000").text_fixed(3).unwrap(), "1000000000000000000000000000.000");
    assert_eq!(largest.text_fixed(2).unwrap(), "79228162514264337593543950335.00");
    assert_eq!(largest.text_short(2), "79228162514264337593543950335.00");
    assert_eq!(largest.text_short(0), "79228162514264337593543950335");
    assert_eq!(largest.text_fixed(3), None);
    assert_eq!(d("999").text_fixed(28).unwrap().len(), 32);
    assert_eq!(d("1000").text_fixed(28), None);
    assert_eq!(d("1").text_fixed(29), None);
    assert_eq!(d("1").text_signed(70_000), None);
    assert_eq!(d("0").text_fixed(28).unwrap().len(), 30);
    assert_eq!(d("0.000").text_signed(0).unwrap(), "+0");
}

#[test]
fn trailing_zeros_are_stripped() {
    assert_eq!(d("1.2300").normalize().scale(), 2);
    assert_eq!(d("-120.00").normalize().text(), "-120");
    assert_eq!(d("0.000").normalize().scale(), 0);
    assert_eq!(d("100").normalize().text(), "100");
}

#[test]
fn decimals_are_rounded() {
    assert_eq!(d("2.5").round_dp(0), d("2"));
    assert_eq!(d("3.5").round_dp(0), d("4"));
    assert_eq!(d("1.23456").round_dp(3).text(), "1.235");
    assert_eq!(d("-1.2").floor(), d("-2"));
    assert_eq!(d("-1.2").ceil(), d("-1"));
    assert_eq!(d("1.2").floor(), d("1"));
    assert_eq!(d("1.2").ceil(), d("2"));
    assert_eq!(d("-4").abs(), d("4"));
    assert_eq!(d("4").neg(), d("-4"));
}

#[test]
fn trailing_zeros_do_not_matter_to_the_order() {
    assert_eq!(d("1.0"), d("1"));
    assert!(d("1.10") > d("1.1") || d("1.10") == d("1.1"));
    assert!(d("1.09") < d("1.1"));
    assert!(d("-2") < d("-1.5"));
    assert_eq!(d("3").max(d("2")), d("3"));
    assert_eq!(d("3").min(d("2")), d("2"));
}

#[test]
fn parts_out_of_range_make_no_decimal() {
    assert_eq!(Dec::from_parts(15, 1), Some(d("1.5")));
    assert_eq!(Dec::from_parts(1, 29), None);
    assert_eq!(Dec::from_parts(79228162514264337593543950336, 0), None);
}

#[test]
fn amounts_are_read_or_refused() {
    assert_eq!(dec(" 1.5 ").ok(), Some(d("1.5")));
    assert!(matches!(dec("  "), Err(MoneyError::Missing)));
    let bad = dec("x1").unwrap_err();
    assert_eq!(bad.message(), "not a decimal: x1");
    assert_eq!(dec("").unwrap_err().message(), "missing numeric value");
}

#[test]
fn non_positive_amounts_are_refused() {
    assert_eq!(require_positive(d("0.1"), "qty").ok(), Some(d("0.1")));
    assert_eq!(require_positive(d("0"), "qty").unwrap_err().message(), "qty must be positive, got 0");
    assert_eq!(
        require_positive(d("-2.50"), "qty").unwrap_err().message(),
        "qty must be positive, got -2.50"
    );
}

#[test]
fn quantities_move_to_the_step() {
    assert_eq!(quantize_to_step(d("1.237"), d("0.01"), false).ok(), Some(d("1.23")));
    assert_eq!(quantize_to_step(d("1.231"), d("0.01"), true).ok(), Some(d("1.24")));
    assert_eq!(quantize_to_step(d("1.23"), d("0.01"), true).ok(), Some(d("1.23")));
    let e = quantize_to_step(d("1"), d("0"), false).unwrap_err();
    assert!(matches!(e, MoneyError::NonPositiveStep));
    assert_eq!(e.message(), "step must be positive");
    let far = quantize_to_step(d("79228162514264337593543950335"), d("0.1"), false).unwrap_err();
    assert!(matches!(far, MoneyError::Overflow));
}

#[test]
fn a_round_trip_pays_the_taker_twice() {
    assert_eq!(taker_fee(), d("0.0004"));
    assert_eq!(round_trip_taker_pct(), d("0.0008"));
    let (net, fee) = long_pnl(d("100"), d("110"), d("2"), d("0.0004")).unwrap();
    assert_eq!(fee, d("0.168"));
    assert_eq!(net, d("19.832"));
}

#[test]
fn take_profits_lie_on_the_side() {
    assert_eq!(take_profit_price(d("100"), "LONG", d("0.025")).ok(), Some(d("102.5")));
    assert_eq!(take_profit_price(d("100"), "short", d("0.025")).ok(), Some(d("97.5")));
    assert_eq!(take_profit_price_net(d("100"), "LONG", d("0.025")).ok(), Some(d("102.58")));
    assert_eq!(
        take_profit_price(d("100"), "flat", d("0.025")).unwrap_err().message(),
        "unknown side: FLAT"
    );
    assert_eq!(
        take_profit_price(d("0"), "LONG", d("0.025")).unwrap_err().message(),
        "entry must be positive, got 0"
    );
    assert_eq!(
        take_profit_price(d("1"), "LONG", d("-1")).unwrap_err().message(),
        "tp_pct must be positive, got -1"
    );
    let huge = take_profit_price(d("79228162514264337593543950335"), "LONG", d("1"));
    assert!(matches!(huge, Err(TrailError::Overflow)));
}

#[test]
fn a_trailed_stop_only_tightens() {
    assert_eq!(candidate_stop(d("100"), "LONG", d("0.02")).ok(), Some(d("98")));
    assert_eq!(candidate_stop(d("100"), "SHORT", d("0.02")).ok(), Some(d("102")));
    assert_eq!(trail_stop_upward(Some(d("97")), d("98"), "LONG").ok(), Some(d("98")));
    assert_eq!(trail_stop_upward(Some(d("99")), d("98"), "LONG").ok(), Some(d("99")));
    assert_eq!(trail_stop_upward(Some(d("103")), d("102"), "SHORT").ok(), Some(d("102")));
    assert_eq!(trail_stop_upward(Some(d("101")), d("102"), "SHORT").ok(), Some(d("101")));
    assert_eq!(trail_stop_upward(None, d("98"), "?").ok(), Some(d("98")));
    let once = trail_stop_upward(Some(d("97")), d("98"), "LONG").unwrap();
    assert_eq!(trail_stop_upward(Some(once), d("98"), "LONG").ok(), Some(once));
    assert_eq!(
        trail_stop_upward(Some(d("0")), d("98"), "LONG").unwrap_err().message(),
        "current_sl must be positive, got 0"
    );
    assert_eq!(
        trail_stop_upward(None, d("0"), "LONG").unwrap_err().message(),
        "candidate must be positive, got 0"
    );
    assert!(long_stop_is_valid(d("98"), d("100")));
    assert!(!long_stop_is_valid(d("100"), d("100")));
    assert!(!long_stop_is_valid(d("0"), d("100")));
}

#[test]
fn equity_and_profit_add_up() {
    assert_eq!(current_equity(d("1000"), d("-12.5")), Some(d("987.5")));
    assert_eq!(account_profit(d("1000"), d("25"), d("990")), Some(d("35")));
}

#[test]
fn the_starting_equity_is_pinned_once() {
    assert_eq!(pin_starting_equity(None, d("5")), d("5"));
    assert_eq!(pin_starting_equity(Some(d("7")), d("5")), d("7"));
    assert_eq!(read_starting_equity(Some(" 12.5 ")), Some(d("12.5")));
    assert_eq!(read_starting_equity(Some("-1")), None);
    assert_eq!(read_starting_equity(Some("")), None);
    assert_eq!(read_starting_equity(None), None);
    let mut pin = EquityPin::from_config(None, None);
    assert!(pin.persist);
    assert_eq!(pin.capture(d("100")), (d("100"), true));
    assert_eq!(pin.capture(d("200")), (d("100"), false));
    let mut set = EquityPin::from_config(Some(d("50")), None);
    assert_eq!(set.capture(d("200")), (d("50"), false));
}

#[test]
fn the_day_halts_on_either_layer() {
    assert_eq!(utc_day_key(1_704_078_000_000), Some("2024-01-01".to_string()));
    assert_eq!(one_r_usdt(d("1000"), d("0.01")), Some(Some(d("10"))));
    assert_eq!(one_r_usdt(d("0"), d("0.01")), Some(None));
    assert_eq!(r_budget_usdt(d("1000"), d("0.01"), d("3")), Some(d("30")));
    let limits = DayLimits { usdt_limit: d("20"), loss_r: d("3"), risk_pct: d("0.01") };
    let now = 1_704_078_000_000;
    let fine = evaluate("2024-01-01", Some(d("1000")), false, now, d("985"), limits).unwrap();
    assert!(!fine.halt);
    assert_eq!(fine.pnl, d("-15"));
    let lost = evaluate("2024-01-01", Some(d("1000")), false, now, d("980"), limits).unwrap();
    assert!(lost.halt);
    let by_r = DayLimits { usdt_limit: d("500"), loss_r: d("3"), risk_pct: d("0.01") };
    let lost_r = evaluate("2024-01-01", Some(d("1000")), false, now, d("970"), by_r).unwrap();
    assert!(lost_r.halt);
    let off = DayLimits { usdt_limit: d("500"), loss_r: d("0"), risk_pct: d("0.01") };
    let kept = evaluate("2024-01-01", Some(d("1000")), false, now, d("970"), off).unwrap();
    assert!(!kept.halt);
    let still = evaluate("2024-01-01", Some(d("1000")), true, now, d("1100"), limits).unwrap();
    assert!(still.halt);
    let next = evaluate("2023-12-31", Some(d("1000")), true, now, d("900"), limits).unwrap();
    assert!(!next.halt);
    assert_eq!(next.start_equity, d("900"));
}

#[test]
fn the_halt_reaches_the_state() {
    let limits = DayLimits { usdt_limit: d("20"), loss_r: d("0"), risk_pct: d("0.01") };
    let now = 1_704_078_000_000;
    let mut state = EngineState::new(1);
    apply_day_risk(&mut state, now, d("1000"), limits).unwrap();
    assert_eq!(state.day_utc, "2024-01-01");
    assert_eq!(state.day_start_equity, Some(d("1000")));
    assert!(!state.daily_halt);
    apply_day_risk(&mut state, now + 1000, d("979"), limits).unwrap();
    assert!(state.daily_halt);
}

#[test]
fn averages_have_their_values() {
    let v = [d("1"), d("2"), d("3"), d("4")];
    assert_eq!(sma(&v, 2).unwrap(), Some(d("3.5")));
    assert_eq!(sma(&v, 5).unwrap(), None);
    let e = ema_series(&v, 2).unwrap();
    assert_eq!(e[0], None);
    assert_eq!(e[1], Some(d("1.5")));
    assert_eq!(e[2].unwrap().round_dp(6), d("2.5"));
    assert_eq!(e[3].unwrap().round_dp(6), d("3.5"));
}

#[test]
fn ranges_have_their_values() {
    let b = bar(0, "10", "12", "9", "11", "5");
    assert_eq!(true_range(&b, d("10")), Some(d("3")));
    assert_eq!(true_range(&b, d("5")), Some(d("7")));
    assert_eq!(true_range(&b, d("20")), Some(d("11")));
    let bars: Vec<Bar> = (0..5).map(|i| bar(i, "10", "12", "9", "10", "5")).collect();
    assert_eq!(last_atr(&bars, 2).unwrap().unwrap(), d("3"));
    assert_eq!(atr_series(&bars, 9).unwrap().last().unwrap(), &None);
    assert!(adx_series(&bars, 14).unwrap().iter().all(|x| x.is_none()));
}

#[test]
fn the_relative_strength_of_gains_alone_is_full() {
    let up: Vec<Dec> = (1..20).map(Dec::from_int).collect();
    assert_eq!(last_rsi(&up, 14).unwrap(), Some(d("100")));
    assert_eq!(last_rsi(&up[..3], 14).unwrap(), None);
}

#[test]
fn volumes_weigh_prices() {
    let bars = [bar(0, "10", "12", "9", "9", "1"), bar(1, "10", "22", "19", "19", "3")];
    assert_eq!(vwap(&bars).unwrap(), Some(d("17.5")));
    assert_eq!(vwap(&[]).unwrap(), None);
    assert_eq!(mean_volume(&bars).unwrap(), Some(d("2")));
}

#[test]
fn channels_bound_their_bars() {
    let bars = [
        bar(0, "1", "5", "1", "2", "1"),
        bar(1, "1", "9", "3", "4", "1"),
        bar(2, "1", "7", "2", "4", "1"),
    ];
    assert_eq!(channel_high(&bars, 2, false), Some(d("9")));
    assert_eq!(channel_low(&bars, 2, false), Some(d("2")));
    assert_eq!(channel_low(&bars, 2, true), Some(d("1")));
    assert_eq!(channel_high(&bars, 4, false), None);
}

#[test]
fn swing_lows_are_minima() {
    let lows = ["5", "4", "3", "4", "5", "4", "2", "4", "5"];
    let bars: Vec<Bar> =
        lows.iter().enumerate().map(|(i, l)| bar(i as i64, "6", "7", l, "6", "1")).collect();
    let found = swing_lows(&bars, 2);
    assert_eq!(found.iter().map(|x| x.0).collect::<Vec<_>>(), vec![2, 6]);
    assert_eq!(last_two_swing_lows(&bars), Some((d("3"), d("2"))));
}

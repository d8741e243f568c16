//! BTC regime layer for alt-long risk gating.
//!
//! Evaluated in order on BTCUSDT 4h bars, the price and the 1h return:
//! 1. panic: below the mean, and a 1h fall of 2% or a hot ATR with a 1.5% bar;
//! 2. neutral: within 0.5% of the mean;
//! 3. bear: below the mean with a slope that does not rise;
//! 4. strong bull: 0.5% clear of the mean, slope above 0.15%, 1h not falling;
//! 5. bull: at or above the mean with a slope that does not fall;
//! 6. neutral: everything else, and whenever the 4h history is missing.
//!
//! Bear and panic block new alt longs only; open positions stay managed. An
//! outer `None` says that a number left the decimal range.
use crate::dec::{
    dec, decimal_difference, decimal_product, decimal_quotient, decimal_sum, magnitude, minus,
    n_add, n_div, n_mul, n_sub, over, plus, times, Dec, Num,
};
use crate::indicators::{
    atr_at, atr_last, atr_series, closes, closes_of, ema_at, ema_last, ema_series, last_atr,
    last_ema,
};
use crate::models::{Bar, MarketSnapshot, Ticker};
use crate::ranking::{find_ignoring_case, row_ignoring_case};
use crate::text::own;
use vstd::prelude::*;

verus! {

#[derive(Debug, Clone, Copy, PartialEq, Eq, Structural, Hash)]
pub enum BtcRegime {
    StrongBull,
    Bull,
    Neutral,
    Bear,
    Panic,
}

impl BtcRegime {
    pub fn as_str(self) -> (r: &'static str)
        ensures
            r@ == (match self {
                BtcRegime::StrongBull => "STRONG_BULL"@,
                BtcRegime::Bull => "BULL"@,
                BtcRegime::Neutral => "NEUTRAL"@,
                BtcRegime::Bear => "BEAR"@,
                BtcRegime::Panic => "PANIC"@,
            }),
    {
        match self {
            BtcRegime::StrongBull => "STRONG_BULL",
            BtcRegime::Bull => "BULL",
            BtcRegime::Neutral => "NEUTRAL",
            BtcRegime::Bear => "BEAR",
            BtcRegime::Panic => "PANIC",
        }
    }

    pub open spec fn tag(self) -> Seq<char> {
        match self {
            BtcRegime::StrongBull => "strong_bull"@,
            BtcRegime::Bull => "bull"@,
            BtcRegime::Neutral => "neutral"@,
            BtcRegime::Bear => "bear"@,
            BtcRegime::Panic => "panic"@,
        }
    }

    /// The form that stands in the journal.
    pub fn journal_tag(self) -> (r: &'static str)
        ensures
            r@ == self.tag(),
    {
        match self {
            BtcRegime::StrongBull => "strong_bull",
            BtcRegime::Bull => "bull",
            BtcRegime::Neutral => "neutral",
            BtcRegime::Bear => "bear",
            BtcRegime::Panic => "panic",
        }
    }

    pub open spec fn blocks(self) -> bool {
        self == BtcRegime::Bear || self == BtcRegime::Panic
    }

    pub fn blocks_alt_entry(self) -> (r: bool)
        ensures
            r == self.blocks(),
    {
        matches!(self, BtcRegime::Bear | BtcRegime::Panic)
    }

    pub open spec fn multiplier(self) -> Dec {
        match self {
            BtcRegime::StrongBull | BtcRegime::Bull => dec(1, 0),
            BtcRegime::Neutral => dec(5, 1),
            BtcRegime::Bear | BtcRegime::Panic => dec(0, 0),
        }
    }

    /// Multiplier applied to the configured risk fraction.
    pub fn risk_multiplier(self) -> (r: Dec)
        ensures
            r == self.multiplier(),
    {
        match self {
            BtcRegime::StrongBull | BtcRegime::Bull => Dec::one(),
            BtcRegime::Neutral => Dec::new(5, 1),
            BtcRegime::Bear | BtcRegime::Panic => Dec::zero(),
        }
    }

    pub open spec fn reason(self) -> Option<Seq<char>> {
        match self {
            BtcRegime::Bear => Some("BTC regime bear — не вхожу"@),
            BtcRegime::Panic => Some("BTC regime panic — не вхожу"@),
            _ => None,
        }
    }

    pub fn block_reason(self) -> (r: Option<&'static str>)
        ensures
            match r {
                Some(t) => self.reason() == Some(t@),
                None => self.reason() is None,
            },
    {
        match self {
            BtcRegime::Bear => Some("BTC regime bear — не вхожу"),
            BtcRegime::Panic => Some("BTC regime panic — не вхожу"),
            _ => None,
        }
    }
}

/// A regime blocks exactly if it has a reason to, and exactly if it leaves no
/// risk.
pub proof fn law_blocking_means_no_risk(g: BtcRegime)
    ensures
        g.blocks() <==> g.reason() is Some,
        g.blocks() <==> g.multiplier().units() == 0,
{
    broadcast use crate::dec::lemma_dec_parts;

    crate::dec::lemma_units_sign(g.multiplier());
}

/// Bars of the mean and of its slope.
pub const EMA_PERIOD: usize = 20;

pub const SLOPE_BARS: usize = 3;

pub const ATR_PERIOD: usize = 14;

/// Relative rise of the mean over the last bars; zero where it has no base.
pub open spec fn slope_of(c: Seq<Dec>) -> Num {
    let now = ema_at(c, 20, c.len() - 1);
    let prev = ema_at(c, 20, c.len() - 4);
    match (now, prev) {
        (Some(_), Some(p)) => if !p.pos() {
            Some(dec(0, 0))
        } else {
            n_div(n_sub(now, prev), prev)
        },
        _ => None,
    }
}

fn ema_slope(c: &[Dec]) -> (r: Num)
    requires
        c@.len() >= 23,
        ema_last(c@, 20) is Some,
    ensures
        r == slope_of(c@),
{
    let n: usize = c.len();
    let ghost at = |i: int| ema_at(c@, 20, i);
    match ema_series(c, EMA_PERIOD) {
        None => {
            proof {
                let i = choose|i: int| 19 <= i < c@.len() && (#[trigger] at(i)) is None;
                assert(at(i) is None);
            }
            None
        },
        Some(s) => {
            let now: Option<Dec> = s[n - 1];
            let prev: Option<Dec> = s[n - 4];
            proof {
                assert(s@[n - 1] is Some && at(n - 1) == s@[n - 1]);
                assert(s@[n - 4] is Some && at(n - 4) == s@[n - 4]);
            }
            match prev {
                Some(p) => if !p.is_pos() {
                    Some(Dec::zero())
                } else {
                    over(minus(now, prev), prev)
                },
                None => None,
            }
        },
    }
}

/// How many of the ATR values at `from..to` are at most `last`.
pub open spec fn count_at_most(bars: Seq<Bar>, from: int, to: int, last: Dec) -> int
    decreases to - from,
{
    if to <= from {
        0
    } else {
        count_at_most(bars, from, to - 1, last) + (if atr_at(bars, 14, to - 1)->0.le(last) {
            1int
        } else {
            0
        })
    }
}

/// From which bar on ATR samples count: the last fifty.
pub open spec fn samples_from(n: int) -> int {
    if n - 50 > 14 {
        n - 50
    } else {
        14
    }
}

/// Whether the last ATR is at or above the 85th percentile of its samples.
pub open spec fn atr_is_hot(bars: Seq<Bar>) -> Option<bool> {
    let n = bars.len() as int;
    match atr_last(bars, 14) {
        None => None,
        Some(None) => Some(false),
        Some(Some(last)) => {
            let from = samples_from(n);
            match n_div(
                n_mul(Some(dec(count_at_most(bars, from, n, last), 0)), Some(dec(100, 0))),
                Some(dec(n - from, 0)),
            ) {
                Some(rank) => Some(dec(85, 0).le(rank)),
                None => None,
            }
        },
    }
}

fn atr_hot(bars: &[Bar]) -> (r: Option<bool>)
    requires
        bars@.len() >= 23,
    ensures
        r == atr_is_hot(bars@),
{
    let n: usize = bars.len();
    let ghost at = |i: int| atr_at(bars@, 14, i);
    let last: Dec = match last_atr(bars, ATR_PERIOD) {
        None => return None,
        Some(None) => return Some(false),
        Some(Some(x)) => x,
    };
    match atr_series(bars, ATR_PERIOD) {
        None => {
            proof {
                let i = choose|i: int| 14 <= i < bars@.len() && (#[trigger] at(i)) is None;
                assert(at(i) is None);
            }
            None
        },
        Some(s) => {
            let from: usize = if n > 64 {
                n - 50
            } else {
                14
            };
            let mut below: usize = 0;
            let mut i: usize = from;
            while i < n
                invariant
                    14 <= from <= i <= n,
                    n == bars@.len(),
                    n == s@.len(),
                    at == (|j: int| atr_at(bars@, 14, j)),
                    forall|j: int| 14 <= j < n ==> (#[trigger] s@[j]) is Some && at(j) == s@[j],
                    below <= i - from,
                    below == count_at_most(bars@, from as int, i as int, last),
                decreases n - i,
            {
                let x: Option<Dec> = s[i];
                proof {
                    assert(s@[i as int] is Some && at(i as int) == s@[i as int]);
                }
                if let Some(v) = x {
                    if v <= last {
                        below = below + 1;
                    }
                }
                i = i + 1;
            }
            match over(
                times(Some(Dec::from_count(below)), Some(Dec::from_int(100))),
                Some(Dec::from_count(n - from)),
            ) {
                Some(rank) => Some(rank >= Dec::from_int(85)),
                None => None,
            }
        },
    }
}

/// Relative fall of the last close; zero where the close before has no value.
pub open spec fn bar_drop(bars: Seq<Bar>) -> Num {
    let prev = bars[bars.len() - 2].close;
    let last = bars[bars.len() - 1].close;
    if prev.pos() {
        n_div(n_sub(Some(prev), Some(last)), Some(prev))
    } else {
        Some(dec(0, 0))
    }
}

fn last_bar_drop(bars: &[Bar]) -> (r: Num)
    requires
        bars@.len() >= 2,
    ensures
        r == bar_drop(bars@),
{
    let prev: Dec = bars[bars.len() - 2].close;
    let last: Dec = bars[bars.len() - 1].close;
    if prev.is_pos() {
        over(minus(Some(prev), Some(last)), Some(prev))
    } else {
        Some(Dec::zero())
    }
}

/// The regime once mean, slope and panic are known.
pub open spec fn graded(
    px: Dec,
    ema: Dec,
    slope: Dec,
    panic: bool,
    ret: Option<Dec>,
) -> Option<BtcRegime> {
    if px.lt(ema) && panic {
        Some(BtcRegime::Panic)
    } else {
        match n_sub(Some(px), Some(ema)) {
            None => None,
            Some(gap) => match n_div(Some(magnitude(gap)), Some(ema)) {
                None => None,
                Some(dist) => if dist.le(dec(5, 3)) {
                    Some(BtcRegime::Neutral)
                } else if px.lt(ema) && !slope.pos() {
                    Some(BtcRegime::Bear)
                } else {
                    match n_mul(Some(ema), n_add(Some(dec(1, 0)), Some(dec(5, 3)))) {
                        None => None,
                        Some(clear) => if clear.lt(px) && dec(15, 4).lt(slope) && (ret matches Some(
                            r,
                        ) ==> r.units() >= 0) {
                            Some(BtcRegime::StrongBull)
                        } else if ema.le(px) && slope.units() >= 0 {
                            Some(BtcRegime::Bull)
                        } else {
                            Some(BtcRegime::Neutral)
                        },
                    }
                },
            },
        }
    }
}

fn grade(px: Dec, ema: Dec, slope: Dec, panic: bool, ret: Option<Dec>) -> (r: Option<BtcRegime>)
    ensures
        r == graded(px, ema, slope, panic, ret),
{
    let below: bool = px < ema;
    if below && panic {
        return Some(BtcRegime::Panic);
    }
    let gap: Dec = match minus(Some(px), Some(ema)) {
        Some(g) => g,
        None => return None,
    };
    let dist: Dec = match over(Some(gap.abs()), Some(ema)) {
        Some(x) => x,
        None => return None,
    };
    if dist <= Dec::new(5, 3) {
        return Some(BtcRegime::Neutral);
    }
    if below && !slope.is_pos() {
        return Some(BtcRegime::Bear);
    }
    let clear: Dec = match times(Some(ema), plus(Some(Dec::one()), Some(Dec::new(5, 3)))) {
        Some(c) => c,
        None => return None,
    };
    let ret_ok: bool = match ret {
        Some(x) => !x.is_neg(),
        None => true,
    };
    if px > clear && slope > Dec::new(15, 4) && ret_ok {
        return Some(BtcRegime::StrongBull);
    }
    if px >= ema && !slope.is_neg() {
        return Some(BtcRegime::Bull);
    }
    Some(BtcRegime::Neutral)
}

/// Whether the panic conditions hold, the place below the mean aside.
pub open spec fn panics(hot: bool, drop: Dec, ret: Option<Dec>) -> bool {
    (ret matches Some(r) && r.le(dec(-2, 0))) || (hot && dec(15, 3).le(drop))
}

/// The regime of a 4h series, a price and a 1h return in percent points.
pub open spec fn regime_of(htf: Seq<Bar>, price: Option<Dec>, ret: Option<Dec>) -> Option<
    BtcRegime,
> {
    if price is None || !price->0.pos() || htf.len() < 23 {
        Some(BtcRegime::Neutral)
    } else {
        let c = closes_of(htf);
        match ema_last(c, 20) {
            None => None,
            Some(e) => if e is None || !e->0.pos() {
                Some(BtcRegime::Neutral)
            } else {
                match (slope_of(c), bar_drop(htf), atr_is_hot(htf)) {
                    (Some(slope), Some(drop), Some(hot)) => graded(
                        price->0,
                        e->0,
                        slope,
                        panics(hot, drop, ret),
                        ret,
                    ),
                    _ => None,
                }
            },
        }
    }
}

/// Pure classifier. `ret_1h_pct` is in percent points.
pub fn classify_btc(htf_4h: &[Bar], price: Option<Dec>, ret_1h_pct: Option<Dec>) -> (r: Option<
    BtcRegime,
>)
    ensures
        r == regime_of(htf_4h@, price, ret_1h_pct),
{
    let px: Dec = match price {
        Some(p) => p,
        None => return Some(BtcRegime::Neutral),
    };
    if !px.is_pos() || htf_4h.len() < EMA_PERIOD + SLOPE_BARS {
        return Some(BtcRegime::Neutral);
    }
    let c: Vec<Dec> = closes(htf_4h);
    let ema: Dec = match last_ema(c.as_slice(), EMA_PERIOD) {
        None => return None,
        Some(None) => return Some(BtcRegime::Neutral),
        Some(Some(e)) => e,
    };
    if !ema.is_pos() {
        return Some(BtcRegime::Neutral);
    }
    match (ema_slope(c.as_slice()), last_bar_drop(htf_4h), atr_hot(htf_4h)) {
        (Some(slope), Some(drop), Some(hot)) => {
            let fell: bool = match ret_1h_pct {
                Some(x) => x <= Dec::from_int(-2),
                None => false,
            };
            let panic: bool = fell || (hot && drop >= Dec::new(15, 3));
            grade(px, ema, slope, panic, ret_1h_pct)
        },
        _ => None,
    }
}

/// Without a price or enough 4h history the regime is neutral.
pub proof fn law_missing_history_is_neutral(htf: Seq<Bar>, price: Option<Dec>, ret: Option<Dec>)
    requires
        price is None || htf.len() < 23,
    ensures
        regime_of(htf, price, ret) == Some(BtcRegime::Neutral),
{
}

/// The last of the first `n` bars that opened at or before an instant.
pub open spec fn bar_before(bars: Seq<Bar>, target: int, n: int) -> Option<Bar>
    decreases n,
{
    if n <= 0 {
        None
    } else if bars[n - 1].open_time <= target {
        Some(bars[n - 1])
    } else {
        bar_before(bars, target, n - 1)
    }
}

fn find_before(bars: &[Bar], target: i64) -> (r: Option<Bar>)
    ensures
        r == bar_before(bars@, target as int, bars@.len() as int),
{
    let mut i: usize = bars.len();
    while i > 0
        invariant
            i <= bars@.len(),
            bar_before(bars@, target as int, bars@.len() as int) == bar_before(
                bars@,
                target as int,
                i as int,
            ),
        decreases i,
    {
        if bars[i - 1].open_time <= target {
            return Some(bars[i - 1]);
        }
        i = i - 1;
    }
    None
}

/// Return of the price over a span of the series, in percent points; the inner
/// `None` where the series does not reach back.
pub open spec fn return_over(bars: Seq<Bar>, price: Dec, span_ms: int) -> Option<Option<Dec>> {
    if bars.len() == 0 || !price.pos() {
        Some(None)
    } else {
        match bar_before(
            bars,
            crate::sessions::clamp_ms(bars.last().open_time - span_ms),
            bars.len() as int,
        ) {
            None => Some(None),
            Some(past) => if !past.close.pos() {
                Some(None)
            } else {
                match n_mul(
                    n_div(n_sub(Some(price), Some(past.close)), Some(past.close)),
                    Some(dec(100, 0)),
                ) {
                    Some(x) => Some(Some(x)),
                    None => None,
                }
            },
        }
    }
}

/// Return of the price over a span of the series, in percent points.
pub fn ret_over(bars: &[Bar], price: Dec, span_ms: i64) -> (r: Option<Option<Dec>>)
    requires
        span_ms >= 0,
    ensures
        r == return_over(bars@, price, span_ms as int),
{
    let n: usize = bars.len();
    if n == 0 || !price.is_pos() {
        return Some(None);
    }
    let target: i64 = crate::sessions::add_ms(bars[n - 1].open_time, -span_ms);
    match find_before(bars, target) {
        None => Some(None),
        Some(past) => {
            if !past.close.is_pos() {
                return Some(None);
            }
            match times(
                over(minus(Some(price), Some(past.close)), Some(past.close)),
                Some(Dec::from_int(100)),
            ) {
                Some(x) => Some(Some(x)),
                None => None,
            }
        },
    }
}

/// The price of bitcoin: the tape, else the last 4h close.
pub open spec fn btc_price_of(tickers: Seq<Ticker>, htf: Seq<Bar>) -> Option<Dec> {
    let row = row_ignoring_case(tickers, "BTCUSDT"@);
    if row is Some && row->0.last_price.pos() {
        Some(row->0.last_price)
    } else if htf.len() > 0 && htf.last().close.pos() {
        Some(htf.last().close)
    } else {
        None
    }
}

fn btc_price(tickers: &[Ticker], htf: &[Bar]) -> (r: Option<Dec>)
    ensures
        r == btc_price_of(tickers@, htf@),
{
    if let Some(t) = find_ignoring_case(tickers, "BTCUSDT") {
        if t.last_price.is_pos() {
            return Some(t.last_price);
        }
    }
    if htf.len() > 0 && htf[htf.len() - 1].close.is_pos() {
        return Some(htf[htf.len() - 1].close);
    }
    None
}

/// The 1h return of bitcoin; the inner `None` where there is no price or series.
pub open spec fn btc_return(bars: Seq<Bar>, price: Option<Dec>) -> Option<Option<Dec>> {
    match price {
        Some(px) => if bars.len() >= 2 {
            return_over(bars, px, 3_600_000)
        } else {
            Some(None)
        },
        None => Some(None),
    }
}

/// The regime of a snapshot.
pub open spec fn snapshot_regime(s: MarketSnapshot) -> Option<BtcRegime> {
    let htf = s.htf_series("BTCUSDT"@);
    let px = btc_price_of(s.tickers@, htf);
    match btc_return(s.series("BTCUSDT"@), px) {
        None => None,
        Some(ret) => regime_of(htf, px, ret),
    }
}

/// Classifies bitcoin from a snapshot. Missing history is neutral.
pub fn classify_snapshot(snapshot: &MarketSnapshot) -> (r: Option<BtcRegime>)
    ensures
        r == snapshot_regime(*snapshot),
{
    let htf: &[Bar] = snapshot.htf_bars_for("BTCUSDT");
    let px: Option<Dec> = btc_price(snapshot.tickers.as_slice(), htf);
    let bars: &[Bar] = snapshot.bars_for("BTCUSDT");
    let ret: Option<Dec> = match px {
        Some(p) => if bars.len() >= 2 {
            match ret_over(bars, p, 3_600_000) {
                Some(x) => x,
                None => return None,
            }
        } else {
            None
        },
        None => None,
    };
    classify_btc(htf, px, ret)
}

/// The reason when new alt longs must not open.
pub fn block_alt_entry(snapshot: &MarketSnapshot) -> (r: Option<Option<String>>)
    ensures
        match snapshot_regime(*snapshot) {
            None => r is None,
            Some(g) => match r {
                Some(Some(t)) => g.reason() == Some(t@),
                Some(None) => g.reason() is None,
                None => false,
            },
        },
{
    match classify_snapshot(snapshot) {
        None => None,
        Some(g) => match g.block_reason() {
            Some(t) => Some(Some(own(t))),
            None => Some(None),
        },
    }
}

/// The risk fraction under a regime: none where it is off or blocked.
pub open spec fn risk_under(cfg_risk: Dec, g: BtcRegime) -> Num {
    if !cfg_risk.pos() {
        Some(dec(0, 0))
    } else {
        n_mul(Some(cfg_risk), Some(g.multiplier()))
    }
}

/// Effective risk fraction: the configured one times the regime's multiplier.
pub fn effective_risk_pct(cfg_risk: Dec, snapshot: &MarketSnapshot) -> (r: Num)
    ensures
        r == (match snapshot_regime(*snapshot) {
            Some(g) => risk_under(cfg_risk, g),
            None => None,
        }),
        snapshot_regime(*snapshot) matches Some(g) && g.blocks() ==> r == Some(dec(0, 0)),
{
    match classify_snapshot(snapshot) {
        None => None,
        Some(g) => {
            if !cfg_risk.is_pos() {
                return Some(Dec::zero());
            }
            proof {
                crate::dec::lemma_dec_parts(0, 0);
            }
            times(Some(cfg_risk), Some(g.risk_multiplier()))
        },
    }
}

/// How the regime is told by the leading coin's price, the mean of its 4h closes,
/// the slope of that mean, its last 4h fall and its last hour. Below the mean:
/// panic after a fall of two per cent within the hour, or after a 4h fall of one
/// and a half per cent on a hot range; a bear where the mean does not rise and the
/// price is more than half a per cent away. Above the mean: never a bear nor a
/// panic.
pub proof fn law_regime_bands(
    htf: Seq<Bar>,
    px: Dec,
    ret: Option<Dec>,
    mean: Dec,
    slope: Dec,
    fall: Dec,
    hot: bool,
    away: Dec,
    clear: Dec,
)
    requires
        htf.len() >= 23,
        px.pos() && mean.pos(),
        ema_last(closes_of(htf), 20) == Some(Some(mean)),
        slope_of(closes_of(htf)) == Some(slope),
        bar_drop(htf) == Some(fall),
        atr_is_hot(htf) == Some(hot),
        decimal_difference(px, mean) matches Some(gap) && decimal_quotient(magnitude(gap), mean) == Some(
            away,
        ),
        n_mul(Some(mean), decimal_sum(dec(1, 0), dec(5, 3))) == Some(clear),
    ensures
        ({
            let g = regime_of(htf, Some(px), ret);
            let plunged = ret is Some && ret->0.le(dec(-2, 0)) || hot && dec(15, 3).le(fall);
            let near = away.le(dec(5, 3));
            &&& g is Some
            &&& g->0 == BtcRegime::Panic <==> px.lt(mean) && plunged
            &&& g->0 == BtcRegime::Bear <==> px.lt(mean) && !plunged && !near && !slope.pos()
            &&& g->0 == BtcRegime::StrongBull <==> {
                &&& !(px.lt(mean) && plunged) && !near && !(px.lt(mean) && !slope.pos())
                &&& clear.lt(px) && dec(15, 4).lt(slope) && (ret is Some ==> ret->0.units() >= 0)
            }
            &&& g->0 == BtcRegime::Bull ==> mean.le(px) && slope.units() >= 0 && !near
            &&& mean.le(px) && slope.units() >= 0 && !near ==> g->0 == BtcRegime::Bull || g->0
                == BtcRegime::StrongBull
            &&& mean.le(px) ==> !g->0.blocks()
        }),
{
}

/// The fall of the last candle is the way down from the close before, as part of
/// it.
pub proof fn law_fall_is_measured_from_the_close_before(bars: Seq<Bar>, prev: Dec, last: Dec)
    requires
        bars.len() >= 2,
        bars[bars.len() - 2].close == prev,
        bars.last().close == last,
        prev.pos(),
    ensures
        bar_drop(bars) == n_div(decimal_difference(prev, last), Some(prev)),
{
}

/// The return over a span is the price against the close of the last candle that
/// had opened by then, in per cent of that close.
pub proof fn law_return_is_against_the_past_close(bars: Seq<Bar>, price: Dec, span_ms: int, k: int)
    requires
        0 <= k < bars.len(),
        price.pos(),
        bars[k].close.pos(),
        i64::MIN <= bars.last().open_time - span_ms <= i64::MAX,
        bars[k].open_time <= bars.last().open_time - span_ms,
        forall|i: int|
            k < i < bars.len() ==> (#[trigger] bars[i]).open_time > bars.last().open_time - span_ms,
    ensures
        return_over(bars, price, span_ms) == match n_mul(
            n_div(decimal_difference(price, bars[k].close), Some(bars[k].close)),
            Some(dec(100, 0)),
        ) {
            Some(x) => Some(Some(x)),
            None => None,
        },
{
    lemma_bar_before(bars, bars.last().open_time - span_ms, bars.len() as int, k);
}

proof fn lemma_bar_before(bars: Seq<Bar>, target: int, n: int, k: int)
    requires
        0 <= k < n <= bars.len(),
        bars[k].open_time <= target,
        forall|i: int| k < i < n ==> (#[trigger] bars[i]).open_time > target,
    ensures
        bar_before(bars, target, n) == Some(bars[k]),
    decreases n,
{
    if n - 1 > k {
        lemma_bar_before(bars, target, n - 1, k);
    }
}

/// A block of the regime leaves no risk, a bull the whole of it, a neutral one
/// half.
pub proof fn law_risk_under_a_regime(risk: Dec, g: BtcRegime)
    requires
        risk.pos(),
    ensures
        g == BtcRegime::StrongBull || g == BtcRegime::Bull ==> risk_under(risk, g) == decimal_product(
            risk,
            dec(1, 0),
        ),
        g == BtcRegime::Neutral ==> risk_under(risk, g) == decimal_product(risk, dec(5, 1)),
        g == BtcRegime::Bear || g == BtcRegime::Panic ==> risk_under(risk, g) == decimal_product(
            risk,
            dec(0, 0),
        ),
{
}

} // verus!

//! 1m-class VWAP + EMA9 pullback scalp.
//!
//! An outer `None` says that a number left the decimal range.
pub mod laws;

use crate::config::DEFAULT_S2_MAX_HOLD_BARS;
use crate::config::load::Config;
use crate::dec::{dec, max_int, minus, n_add, n_div, n_mul, n_sub, over, plus, times, Dec, Num};
use crate::indicators::{
    atr_last, closes, closes_of, ema_at, ema_first, ema_last, ema_series, last_atr, last_ema,
    last_rsi, lowest, mean_volume, mean_volume_of, rsi_last, vwap, vwap_of,
};
use crate::models::{Bar, Decision, DecisionView, Position, Side};
use crate::momentum::{amend, amend_view, exit, exit_view, hold_view, opt_decision};
use crate::sessions::{entry_open, in_entry_window, HourWindow};
use crate::text::own;
use crate::trail::{long_stop_is_valid, trail_stop_upward, trailed, valid_long_stop, PriceView};
use crate::trend::{at_least_min_stop, opt_ms, stop_floor};
use vstd::prelude::*;

verus! {

#[derive(Debug)]
pub struct ScalpParams {
    pub ema_fast: usize,
    pub ema_slow: usize,
    pub atr_period: usize,
    pub rsi_period: usize,
    pub rsi_min: Dec,
    pub rsi_max: Dec,
    pub reward_r: Dec,
    pub sl_atr: Dec,
    pub min_stop_pct: Dec,
    pub trail_atr: Dec,
    pub pullback_bars: usize,
    pub pullback_atr: Dec,
    pub extend_atr: Dec,
    pub min_atr_pct: Dec,
    pub max_atr_pct: Dec,
    pub min_volume_frac: Dec,
    pub max_hold_bars: usize,
    pub cooldown_ms: i64,
    pub entry_windows: Vec<HourWindow>,
    pub always_enter: bool,
}

/// The knobs with their windows as a sequence.
pub struct ScalpView {
    pub ema_fast: usize,
    pub ema_slow: usize,
    pub atr_period: usize,
    pub rsi_period: usize,
    pub rsi_min: Dec,
    pub rsi_max: Dec,
    pub reward_r: Dec,
    pub sl_atr: Dec,
    pub min_stop_pct: Dec,
    pub trail_atr: Dec,
    pub pullback_bars: usize,
    pub pullback_atr: Dec,
    pub extend_atr: Dec,
    pub min_atr_pct: Dec,
    pub max_atr_pct: Dec,
    pub min_volume_frac: Dec,
    pub max_hold_bars: usize,
    pub cooldown_ms: i64,
    pub entry_windows: Seq<HourWindow>,
    pub always_enter: bool,
}

impl View for ScalpParams {
    type V = ScalpView;

    open spec fn view(&self) -> ScalpView {
        ScalpView {
            ema_fast: self.ema_fast,
            ema_slow: self.ema_slow,
            atr_period: self.atr_period,
            rsi_period: self.rsi_period,
            rsi_min: self.rsi_min,
            rsi_max: self.rsi_max,
            reward_r: self.reward_r,
            sl_atr: self.sl_atr,
            min_stop_pct: self.min_stop_pct,
            trail_atr: self.trail_atr,
            pullback_bars: self.pullback_bars,
            pullback_atr: self.pullback_atr,
            extend_atr: self.extend_atr,
            min_atr_pct: self.min_atr_pct,
            max_atr_pct: self.max_atr_pct,
            min_volume_frac: self.min_volume_frac,
            max_hold_bars: self.max_hold_bars,
            cooldown_ms: self.cooldown_ms,
            entry_windows: self.entry_windows@,
            always_enter: self.always_enter,
        }
    }
}

pub open spec fn default_scalp() -> ScalpView {
    ScalpView {
        ema_fast: 9,
        ema_slow: 21,
        atr_period: 14,
        rsi_period: 14,
        rsi_min: dec(40, 0),
        rsi_max: dec(68, 0),
        reward_r: dec(2, 0),
        sl_atr: dec(12, 1),
        min_stop_pct: dec(25, 4),
        trail_atr: dec(1, 0),
        pullback_bars: 5,
        pullback_atr: dec(35, 2),
        extend_atr: dec(9, 1),
        min_atr_pct: dec(4, 4),
        max_atr_pct: dec(8, 3),
        min_volume_frac: dec(8, 1),
        max_hold_bars: 8,
        cooldown_ms: 1_200_000,
        entry_windows: Seq::empty(),
        always_enter: false,
    }
}

impl Default for ScalpParams {
    fn default() -> (r: Self)
        ensures
            r@ == default_scalp(),
    {
        let r = ScalpParams {
            ema_fast: 9,
            ema_slow: 21,
            atr_period: 14,
            rsi_period: 14,
            rsi_min: Dec::from_int(40),
            rsi_max: Dec::from_int(68),
            reward_r: Dec::from_int(2),
            sl_atr: Dec::new(12, 1),
            min_stop_pct: Dec::new(25, 4),
            trail_atr: Dec::one(),
            pullback_bars: 5,
            pullback_atr: Dec::new(35, 2),
            extend_atr: Dec::new(9, 1),
            min_atr_pct: Dec::new(4, 4),
            max_atr_pct: Dec::new(8, 3),
            min_volume_frac: Dec::new(8, 1),
            max_hold_bars: DEFAULT_S2_MAX_HOLD_BARS,
            cooldown_ms: 1_200_000,
            entry_windows: Vec::new(),
            always_enter: false,
        };
        proof {
            assert(r.entry_windows@ =~= Seq::<HourWindow>::empty());
        }
        r
    }
}

impl ScalpParams {
    /// The knobs with the windows and the longest hold of the settings.
    pub fn from_config(cfg: &Config) -> (r: Self)
        ensures
            r@ == (ScalpView {
                entry_windows: cfg@.s2_entry_windows,
                always_enter: cfg@.s2_always_enter,
                max_hold_bars: cfg@.s2_max_hold_bars,
                ..default_scalp()
            }),
    {
        let mut r: ScalpParams = ScalpParams::default();
        r.entry_windows = crate::sessions::copy_windows(cfg.s2_entry_windows.as_slice());
        r.always_enter = cfg.s2_always_enter;
        r.max_hold_bars = cfg.s2_max_hold_bars;
        r
    }
}

pub open spec fn scalp_knobs(p: Option<&ScalpParams>) -> ScalpView {
    match p {
        Some(s) => s@,
        None => default_scalp(),
    }
}

/// The band above a level in which a low counts as a touch.
pub open spec fn touch_limit(ema: Dec, session: Dec, band: Num) -> Num {
    n_add(
        Some(
            if session.lt(ema) {
                ema
            } else {
                session
            },
        ),
        band,
    )
}

/// Whether bar `i` has a fast mean.
pub open spec fn has_fast(bars: Seq<Bar>, p: ScalpView, i: int) -> bool {
    ema_first(bars.len() as int, p.ema_fast as int) <= i < bars.len()
}

pub open spec fn fast_at(bars: Seq<Bar>, p: ScalpView, i: int) -> Num {
    ema_at(closes_of(bars), p.ema_fast as int, i)
}

/// Whether a bar of the pullback closed below the fast mean.
pub open spec fn dips(bars: Seq<Bar>, p: ScalpView, from: int, to: int) -> bool {
    exists|i: int|
        from <= i < to && #[trigger] has_fast(bars, p, i) && bars[i].close.lt(
            fast_at(bars, p, i)->0,
        )
}

/// Whether a bar of the pullback touched the higher of fast mean and VWAP.
pub open spec fn tags(
    bars: Seq<Bar>,
    p: ScalpView,
    session: Dec,
    band: Num,
    from: int,
    to: int,
) -> bool {
    exists|i: int|
        from <= i < to && #[trigger] has_fast(bars, p, i) && bars[i].low.le(
            touch_limit(fast_at(bars, p, i)->0, session, band)->0,
        )
}

/// Whether a touch limit of the pullback leaves the range.
pub open spec fn touch_overflows(
    bars: Seq<Bar>,
    p: ScalpView,
    session: Dec,
    band: Num,
    from: int,
    to: int,
) -> bool {
    exists|i: int|
        from <= i < to && #[trigger] has_fast(bars, p, i) && touch_limit(
            fast_at(bars, p, i)->0,
            session,
            band,
        ) is None
}

/// Whether price pulled back into the level before the signal bar.
pub open spec fn pulled_back(bars: Seq<Bar>, session: Dec, atr: Dec, p: ScalpView) -> Option<bool> {
    let n = bars.len() as int;
    let band = n_mul(Some(p.pullback_atr), Some(atr));
    let from = n - p.pullback_bars - 1;
    if ema_last(closes_of(bars), p.ema_fast as int) is None {
        None
    } else if from < 0 {
        Some(false)
    } else if band is None || touch_overflows(bars, p, session, band, from, n - 1) {
        None
    } else {
        Some(dips(bars, p, from, n - 1) && tags(bars, p, session, band, from, n - 1))
    }
}

fn pulled_into(bars: &[Bar], session: Dec, atr: Dec, p: &ScalpParams) -> (r: Option<bool>)
    ensures
        r == pulled_back(bars@, session, atr, p@),
{
    let n: usize = bars.len();
    let c: Vec<Dec> = closes(bars);
    let ghost at = |i: int| ema_at(c@, p.ema_fast as int, i);
    let ghost first = ema_first(c@.len() as int, p.ema_fast as int);
    let emas: Vec<Option<Dec>> = match ema_series(c.as_slice(), p.ema_fast) {
        Some(v) => v,
        None => {
            proof {
                let i = choose|i: int| first <= i < c@.len() && (#[trigger] at(i)) is None;
                assert(at(i) is None);
            }
            return None;
        },
    };
    proof {
        assert forall|i: int| first <= i < c@.len() implies (#[trigger] at(i)) is Some by {
            assert(emas@[i] is Some);
        }
        assert forall|i: int| 0 <= i < n implies (emas@[i] is Some <==> has_fast(bars@, p@, i))
            && (emas@[i] is Some ==> emas@[i] == fast_at(bars@, p@, i)) by {}
    }
    if p.pullback_bars >= n {
        return Some(false);
    }
    let start: usize = n - p.pullback_bars - 1;
    let band: Num = times(Some(p.pullback_atr), Some(atr));
    if band.is_none() {
        return None;
    }
    let mut dipped: bool = false;
    let mut tagged: bool = false;
    let mut i: usize = start;
    while i < n - 1
        invariant
            n == bars@.len(),
            n >= 1,
            start <= i <= n - 1,
            emas@.len() == n,
            band is Some,
            forall|j: int|
                0 <= j < n ==> ((#[trigger] emas@[j]) is Some <==> has_fast(bars@, p@, j)) && (
                emas@[j] is Some ==> emas@[j] == fast_at(bars@, p@, j)),
            dipped == dips(bars@, p@, start as int, i as int),
            tagged == tags(bars@, p@, session, band, start as int, i as int),
            !touch_overflows(bars@, p@, session, band, start as int, i as int),
            start == n - p.pullback_bars - 1,
            band == n_mul(Some(p.pullback_atr), Some(atr)),
            ema_last(closes_of(bars@), p.ema_fast as int) is Some,
        decreases n - i,
    {
        let e: Option<Dec> = emas[i];
        let bar: Bar = bars[i];
        match e {
            Some(x) => {
                proof {
                    assert(has_fast(bars@, p@, i as int));
                    assert(fast_at(bars@, p@, i as int) == Some(x));
                }
                if bar.close < x {
                    dipped = true;
                }
                let level: Dec = if x > session {
                    x
                } else {
                    session
                };
                match plus(Some(level), band) {
                    Some(limit) => {
                        if bar.low <= limit {
                            tagged = true;
                        }
                    },
                    None => {
                        proof {
                            assert(has_fast(bars@, p@, i as int));
                            assert(touch_overflows(
                                bars@,
                                p@,
                                session,
                                band,
                                start as int,
                                n - 1,
                            ));
                        }
                        return None;
                    },
                }
            },
            None => {
                proof {
                    assert(!has_fast(bars@, p@, i as int));
                }
            },
        }
        i = i + 1;
    }
    Some(dipped && tagged)
}

/// The best of the stops below the mark; of equals the later.
pub open spec fn best_below(stops: Seq<Dec>, mark: Dec, n: int) -> Option<Dec>
    decreases n,
{
    if n <= 0 {
        None
    } else {
        let rest = best_below(stops, mark, n - 1);
        let s = stops[n - 1];
        if !s.lt(mark) {
            rest
        } else {
            match rest {
                Some(m) => Some(
                    if m.le(s) {
                        s
                    } else {
                        m
                    },
                ),
                None => Some(s),
            }
        }
    }
}

fn better(best: Option<Dec>, s: Dec, mark: Dec) -> (r: Option<Dec>)
    ensures
        r == (if !s.lt(mark) {
            best
        } else {
            match best {
                Some(m) => Some(
                    if m.le(s) {
                        s
                    } else {
                        m
                    },
                ),
                None => Some(s),
            }
        }),
{
    if s >= mark {
        return best;
    }
    match best {
        Some(m) => if m <= s {
            Some(s)
        } else {
            Some(m)
        },
        None => Some(s),
    }
}

/// From where the pullback window counts.
pub open spec fn pullback_from(n: int, p: ScalpView) -> int {
    if n > p.pullback_bars + 1 {
        n - p.pullback_bars - 1
    } else {
        0
    }
}

/// The entry stop: the best of swing low, ATR distance and below the fast mean.
pub open spec fn scalp_stop(bars: Seq<Bar>, mark: Dec, ema: Dec, atr: Dec, p: ScalpView) -> Num {
    let n = bars.len() as int;
    let swing = lowest(bars, pullback_from(n, p), n);
    match (
        n_sub(Some(mark), n_mul(Some(p.sl_atr), Some(atr))),
        n_sub(Some(ema), n_mul(Some(dec(25, 2)), Some(atr))),
    ) {
        (Some(atr_stop), Some(under)) => match best_below(seq![swing, atr_stop, under], mark, 3) {
            Some(s) => Some(s),
            None => Some(atr_stop),
        },
        _ => None,
    }
}

fn entry_stop(bars: &[Bar], mark: Dec, ema: Dec, atr: Dec, p: &ScalpParams) -> (r: Num)
    requires
        bars@.len() > 0,
    ensures
        r == scalp_stop(bars@, mark, ema, atr, p@),
{
    let n: usize = bars.len();
    let start: usize = if n > 1 && p.pullback_bars < n - 1 {
        n - p.pullback_bars - 1
    } else {
        0
    };
    let mut swing: Dec = bars[start].low;
    let mut i: usize = start + 1;
    while i < n
        invariant
            start < i <= n,
            n == bars@.len(),
            swing == lowest(bars@, start as int, i as int),
        decreases n - i,
    {
        if bars[i].low < swing {
            swing = bars[i].low;
        }
        i = i + 1;
    }
    match (
        minus(Some(mark), times(Some(p.sl_atr), Some(atr))),
        minus(Some(ema), times(Some(Dec::new(25, 2)), Some(atr))),
    ) {
        (Some(atr_stop), Some(under)) => {
            let a: Option<Dec> = better(None, swing, mark);
            let b: Option<Dec> = better(a, atr_stop, mark);
            let c: Option<Dec> = better(b, under, mark);
            proof {
                let s = seq![swing, atr_stop, under];
                assert(best_below(s, mark, 0) is None);
                assert(best_below(s, mark, 1) == a);
                assert(best_below(s, mark, 2) == b);
                assert(best_below(s, mark, 3) == c);
            }
            match c {
                Some(s) => Some(s),
                None => Some(atr_stop),
            }
        },
        _ => None,
    }
}

/// The peak since entry: the mark, what the profit implies, and the highs since.
pub open spec fn peak_base(pos: Position, mark: Dec) -> Num {
    if pos.qty.pos() && pos.unrealized_pnl.pos() {
        match n_add(Some(pos.entry_price), n_div(Some(pos.unrealized_pnl), Some(pos.qty))) {
            Some(implied) => Some(
                if mark.lt(implied) {
                    implied
                } else {
                    mark
                },
            ),
            None => None,
        }
    } else {
        Some(mark)
    }
}

pub open spec fn peak_through(bars: Seq<Bar>, opened: Option<i64>, base: Dec, n: int) -> Dec
    decreases n,
{
    if n <= 0 {
        base
    } else {
        let m = peak_through(bars, opened, base, n - 1);
        let b = bars[n - 1];
        if (opened is Some && b.open_time < opened->0) || b.high.le(m) {
            m
        } else {
            b.high
        }
    }
}

/// The highest price since entry.
pub open spec fn entry_peak(bars: Seq<Bar>, pos: Position, mark: Dec) -> Num {
    match peak_base(pos, mark) {
        Some(base) => Some(peak_through(bars, pos.opened_bar_time, base, bars.len() as int)),
        None => None,
    }
}

/// The highest price since entry.
pub fn peak_since_entry(bars: &[Bar], pos: &Position, mark: Dec) -> (r: Num)
    ensures
        r == entry_peak(bars@, *pos, mark),
{
    let mut peak: Dec = mark;
    if pos.qty.is_pos() && pos.unrealized_pnl.is_pos() {
        match plus(Some(pos.entry_price), over(Some(pos.unrealized_pnl), Some(pos.qty))) {
            Some(implied) => {
                if implied > peak {
                    peak = implied;
                }
            },
            None => {
                return None;
            },
        }
    }
    let ghost base = peak;
    let mut i: usize = 0;
    while i < bars.len()
        invariant
            i <= bars@.len(),
            peak == peak_through(bars@, pos.opened_bar_time, base, i as int),
        decreases bars@.len() - i,
    {
        let after: bool = match pos.opened_bar_time {
            Some(since) => bars[i].open_time >= since,
            None => true,
        };
        if after && bars[i].high > peak {
            peak = bars[i].high;
        }
        i = i + 1;
    }
    Some(peak)
}

/// How many of the first `n` bars opened after the position.
pub open spec fn bars_held(bars: Seq<Bar>, opened: int, n: int) -> int
    decreases n,
{
    if n <= 0 {
        0
    } else {
        bars_held(bars, opened, n - 1) + (if bars[n - 1].open_time > opened {
            1int
        } else {
            0
        })
    }
}

fn count_held(bars: &[Bar], opened: i64) -> (r: usize)
    ensures
        r == bars_held(bars@, opened as int, bars@.len() as int),
{
    let mut n: usize = 0;
    let mut i: usize = 0;
    while i < bars.len()
        invariant
            i <= bars@.len(),
            n <= i,
            n == bars_held(bars@, opened as int, i as int),
        decreases bars@.len() - i,
    {
        if bars[i].open_time > opened {
            n = n + 1;
        }
        i = i + 1;
    }
    n
}

/// Two red closes below entry and VWAP.
pub open spec fn is_reversal(bars: Seq<Bar>, entry: Dec) -> Option<bool> {
    let n = bars.len() as int;
    let prev = bars[n - 2];
    let last = bars[n - 1];
    if n < 2 {
        Some(false)
    } else {
        match vwap_of(bars) {
            None => None,
            Some(v) => Some(
                prev.close.lt(prev.open) && last.close.lt(last.open) && last.close.lt(entry)
                    && v is Some && last.close.lt(v->0),
            ),
        }
    }
}

fn reversal(bars: &[Bar], entry: Dec) -> (r: Option<bool>)
    ensures
        r == is_reversal(bars@, entry),
{
    let n: usize = bars.len();
    if n < 2 {
        return Some(false);
    }
    let prev: Bar = bars[n - 2];
    let last: Bar = bars[n - 1];
    match vwap(bars) {
        None => None,
        Some(None) => Some(false),
        Some(Some(v)) => Some(
            prev.close < prev.open && last.close < last.open && last.close < entry && last.close
                < v,
        ),
    }
}

/// The exits of a held scalp, in their order; the inner `None` where none applies.
pub open spec fn scalp_exit(
    bars: Seq<Bar>,
    pos: Position,
    mark: Dec,
    p: ScalpView,
    ts: int,
) -> Option<Option<Seq<char>>> {
    if pos.take_profit is Some && pos.take_profit->0.le(mark) {
        Some(Some("scalp take profit"@))
    } else if pos.stop_loss is Some && mark.le(pos.stop_loss->0) {
        Some(Some("scalp stop loss"@))
    } else if !p.always_enter && p.entry_windows.len() > 0 && !entry_open(
        ts,
        Some(p.entry_windows),
        false,
    ) {
        Some(Some("конец сессии"@))
    } else if pos.opened_bar_time is Some && bars_held(
        bars,
        pos.opened_bar_time->0 as int,
        bars.len() as int,
    ) >= p.max_hold_bars {
        Some(Some("scalp time stop"@))
    } else {
        match is_reversal(bars, pos.entry_price) {
            None => None,
            Some(true) => Some(Some("scalp reversal"@)),
            Some(false) => Some(None),
        }
    }
}

/// The amount at risk: to the stop below entry, else the ATR distance.
pub open spec fn scalp_risk(pos: Position, atr: Dec, p: ScalpView) -> Num {
    if pos.stop_loss is Some && pos.stop_loss->0.lt(pos.entry_price) {
        n_sub(Some(pos.entry_price), pos.stop_loss)
    } else {
        n_mul(Some(p.sl_atr), Some(atr))
    }
}

/// What a giveback from the peak asks for; the inner `None` where there is none.
pub open spec fn giveback(
    bars: Seq<Bar>,
    pos: Position,
    mark: Dec,
    risk: Dec,
) -> Option<Option<DecisionView>> {
    if pos.stop_loss is None || !pos.stop_loss->0.lt(pos.entry_price) || !risk.pos() {
        Some(None)
    } else {
        match (
            entry_peak(bars, pos, mark),
            n_add(Some(pos.entry_price), n_mul(Some(dec(8, 1)), Some(risk))),
            n_add(Some(pos.entry_price), n_mul(Some(dec(25, 2)), Some(risk))),
        ) {
            (Some(peak), Some(high), Some(near)) => if high.le(peak) && mark.lt(near) {
                if pos.stop_loss->0.lt(near) && near.lt(mark) && valid_long_stop(near, mark) {
                    Some(Some(amend_view(near, "откат с пика — замок 0.25R"@, ""@)))
                } else {
                    Some(Some(exit_view("откат с пика"@, ""@)))
                }
            } else {
                Some(None)
            },
            _ => None,
        }
    }
}

/// The trail once the position is 1R ahead, or the stop it still lacks.
pub open spec fn scalp_trail(pos: Position, mark: Dec, atr: Dec, risk: Dec, p: ScalpView) -> Option<
    DecisionView,
> {
    let entry = pos.entry_price;
    let goal = n_add(Some(entry), Some(risk));
    if risk.pos() && goal is None {
        None
    } else if risk.pos() && goal->0.le(mark) {
        match (
            n_add(Some(entry), n_mul(Some(atr), Some(dec(5, 2)))),
            n_sub(Some(mark), n_mul(Some(p.trail_atr), Some(atr))),
        ) {
            (Some(breakeven), Some(trail)) => {
                let candidate = if breakeven.lt(trail) {
                    trail
                } else {
                    breakeven
                };
                match trailed(pos.stop_loss, candidate, "LONG"@) {
                    PriceView::Price(new_sl) => if pos.stop_loss is None || (pos.stop_loss->0.lt(
                        new_sl,
                    ) && valid_long_stop(new_sl, mark)) {
                        Some(amend_view(new_sl, "scalp trail / breakeven"@, ""@))
                    } else {
                        Some(hold_view("scalp hold"@))
                    },
                    _ => Some(hold_view("scalp hold"@)),
                }
            },
            _ => None,
        }
    } else if pos.stop_loss is None {
        match n_sub(Some(mark), n_mul(Some(p.sl_atr), Some(atr))) {
            Some(attached) => if valid_long_stop(attached, mark) {
                Some(amend_view(attached, "scalp attach stop"@, ""@))
            } else {
                Some(hold_view("scalp hold"@))
            },
            None => None,
        }
    } else {
        Some(hold_view("scalp hold"@))
    }
}

/// What the scalp does about a held long.
pub open spec fn scalp_manage(bars: Seq<Bar>, pos: Position, mark: Dec, p: ScalpView, ts: int) -> Option<
    DecisionView,
> {
    match scalp_exit(bars, pos, mark, p, ts) {
        None => None,
        Some(Some(reason)) => Some(exit_view(reason, ""@)),
        Some(None) => match atr_last(bars, p.atr_period as int) {
            None => None,
            Some(a) => if a is None || !a->0.pos() {
                if pos.stop_loss is None {
                    Some(hold_view("scalp hold, no atr for stop"@))
                } else {
                    Some(hold_view("scalp hold"@))
                }
            } else {
                match scalp_risk(pos, a->0, p) {
                    None => None,
                    Some(risk) => match giveback(bars, pos, mark, risk) {
                        None => None,
                        Some(Some(d)) => Some(d),
                        Some(None) => scalp_trail(pos, mark, a->0, risk, p),
                    },
                }
            },
        },
    }
}

fn exit_reason(bars: &[Bar], pos: &Position, mark: Dec, p: &ScalpParams, ts: i64) -> (r: Option<
    Option<&'static str>,
>)
    ensures
        match r {
            Some(Some(t)) => scalp_exit(bars@, *pos, mark, p@, ts as int) == Some(Some(t@)),
            Some(None) => scalp_exit(bars@, *pos, mark, p@, ts as int) == Some(None::<Seq<char>>),
            None => scalp_exit(bars@, *pos, mark, p@, ts as int) is None,
        },
{
    if let Some(tp) = pos.take_profit {
        if mark >= tp {
            return Some(Some("scalp take profit"));
        }
    }
    if let Some(sl) = pos.stop_loss {
        if mark <= sl {
            return Some(Some("scalp stop loss"));
        }
    }
    if !p.always_enter && p.entry_windows.len() > 0 && !in_entry_window(
        ts,
        Some(p.entry_windows.as_slice()),
        false,
    ) {
        return Some(Some("конец сессии"));
    }
    if let Some(opened) = pos.opened_bar_time {
        if count_held(bars, opened) >= p.max_hold_bars {
            return Some(Some("scalp time stop"));
        }
    }
    match reversal(bars, pos.entry_price) {
        None => None,
        Some(true) => Some(Some("scalp reversal")),
        Some(false) => Some(None),
    }
}

pub open spec fn opt_opt_decision(r: Option<Option<Decision>>) -> Option<Option<DecisionView>> {
    match r {
        Some(Some(d)) => Some(Some(d@)),
        Some(None) => Some(None),
        None => None,
    }
}

fn peak_giveback(bars: &[Bar], pos: &Position, mark: Dec, risk: Dec) -> (r: Option<Option<Decision>>)
    ensures
        opt_opt_decision(r) == giveback(bars@, *pos, mark, risk),
{
    let entry: Dec = pos.entry_price;
    match pos.stop_loss {
        None => Some(None),
        Some(sl) => {
            if !(sl < entry) || !risk.is_pos() {
                return Some(None);
            }
            match (
                peak_since_entry(bars, pos, mark),
                plus(Some(entry), times(Some(Dec::new(8, 1)), Some(risk))),
                plus(Some(entry), times(Some(Dec::new(25, 2)), Some(risk))),
            ) {
                (Some(peak), Some(high), Some(near)) => {
                    if peak >= high && mark < near {
                        if near > sl && near < mark && long_stop_is_valid(near, mark) {
                            return Some(Some(amend(near, "откат с пика — замок 0.25R", "")));
                        }
                        return Some(Some(exit("откат с пика", "")));
                    }
                    Some(None)
                },
                _ => None,
            }
        },
    }
}

fn trail_scalp(pos: &Position, mark: Dec, atr: Dec, risk: Dec, p: &ScalpParams) -> (r: Option<
    Decision,
>)
    ensures
        opt_decision(r) == scalp_trail(*pos, mark, atr, risk, p@),
{
    let entry: Dec = pos.entry_price;
    let mut ahead: bool = false;
    if risk.is_pos() {
        match plus(Some(entry), Some(risk)) {
            Some(goal) => {
                ahead = mark >= goal;
            },
            None => {
                return None;
            },
        }
    }
    if ahead {
        return match (
            plus(Some(entry), times(Some(atr), Some(Dec::new(5, 2)))),
            minus(Some(mark), times(Some(p.trail_atr), Some(atr))),
        ) {
            (Some(breakeven), Some(trail)) => {
                let candidate: Dec = if trail > breakeven {
                    trail
                } else {
                    breakeven
                };
                match trail_stop_upward(pos.stop_loss, candidate, "LONG") {
                    Ok(new_sl) => {
                        let take: bool = match pos.stop_loss {
                            None => true,
                            Some(sl) => new_sl > sl && long_stop_is_valid(new_sl, mark),
                        };
                        if take {
                            Some(amend(new_sl, "scalp trail / breakeven", ""))
                        } else {
                            Some(Decision::hold("scalp hold"))
                        }
                    },
                    Err(_) => Some(Decision::hold("scalp hold")),
                }
            },
            _ => None,
        };
    }
    if pos.stop_loss.is_none() {
        return match minus(Some(mark), times(Some(p.sl_atr), Some(atr))) {
            Some(attached) => if long_stop_is_valid(attached, mark) {
                Some(amend(attached, "scalp attach stop", ""))
            } else {
                Some(Decision::hold("scalp hold"))
            },
            None => None,
        };
    }
    Some(Decision::hold("scalp hold"))
}

fn manage_long(bars: &[Bar], pos: &Position, mark: Dec, p: &ScalpParams, ts: i64) -> (r: Option<
    Decision,
>)
    ensures
        opt_decision(r) == scalp_manage(bars@, *pos, mark, p@, ts as int),
{
    match exit_reason(bars, pos, mark, p, ts) {
        None => {
            return None;
        },
        Some(Some(reason)) => {
            return Some(exit(reason, ""));
        },
        Some(None) => {},
    }
    let found: Option<Dec> = match last_atr(bars, p.atr_period) {
        None => return None,
        Some(a) => a,
    };
    let atr: Dec = match found {
        Some(a) => a,
        None => {
            return if pos.stop_loss.is_none() {
                Some(Decision::hold("scalp hold, no atr for stop"))
            } else {
                Some(Decision::hold("scalp hold"))
            };
        },
    };
    if !atr.is_pos() {
        return if pos.stop_loss.is_none() {
            Some(Decision::hold("scalp hold, no atr for stop"))
        } else {
            Some(Decision::hold("scalp hold"))
        };
    }
    let below: bool = match pos.stop_loss {
        Some(sl) => sl < pos.entry_price,
        None => false,
    };
    let risk: Dec = match if below {
        minus(Some(pos.entry_price), pos.stop_loss)
    } else {
        times(Some(p.sl_atr), Some(atr))
    } {
        Some(x) => x,
        None => return None,
    };
    match peak_giveback(bars, pos, mark, risk) {
        None => None,
        Some(Some(d)) => Some(d),
        Some(None) => trail_scalp(pos, mark, atr, risk, p),
    }
}

/// What the filters say before an entry: a reason to hold, or nothing.
pub open spec fn scalp_filters(
    bars: Seq<Bar>,
    mark: Dec,
    ema_f: Dec,
    ema_s: Dec,
    atr: Dec,
    rsi: Dec,
    session: Dec,
    p: ScalpView,
) -> Option<Option<Seq<char>>> {
    let n = bars.len() as int;
    let last = bars[n - 1];
    let from = if n > 20 {
        n - 20
    } else {
        0
    };
    if !atr.pos() {
        Some(Some("atr is zero"@))
    } else {
        match n_div(Some(atr), Some(mark)) {
            None => None,
            Some(atr_pct) => if atr_pct.lt(p.min_atr_pct) {
                Some(Some("слишком тихо для скальпа"@))
            } else if p.max_atr_pct.lt(atr_pct) {
                Some(Some("слишком широко — не скальп"@))
            } else if ema_f.le(ema_s) {
                Some(Some("нет микротренда вверх"@))
            } else if mark.le(session) {
                Some(Some("ниже VWAP — лонг не беру"@))
            } else if rsi.lt(p.rsi_min) {
                Some(Some("RSI слабый"@))
            } else if p.rsi_max.lt(rsi) {
                Some(Some("RSI перекуплен — не догоняю"@))
            } else if last.close.le(last.open) {
                Some(Some("сигнальная свеча не зелёная"@))
            } else if last.close.le(bars[n - 2].close) {
                Some(Some("нет более высокого close"@))
            } else if last.close.lt(ema_f) {
                Some(Some("close ниже EMA9"@))
            } else {
                match (n_sub(Some(mark), Some(ema_f)), n_mul(Some(p.extend_atr), Some(atr))) {
                    (Some(stretch), Some(limit)) => if limit.lt(stretch) {
                        Some(Some("далеко от EMA — догон"@))
                    } else {
                        match pulled_back(bars, session, atr, p) {
                            None => None,
                            Some(false) => Some(Some("нет отката к EMA/VWAP"@)),
                            Some(true) => volume_filter(bars.subrange(from, n), last.volume, p),
                        }
                    },
                    _ => None,
                }
            },
        }
    }
}

/// Whether the signal bar's volume is too weak against the recent mean.
pub open spec fn volume_filter(recent: Seq<Bar>, volume: Dec, p: ScalpView) -> Option<
    Option<Seq<char>>,
> {
    match mean_volume_of(recent) {
        None => None,
        Some(None) => Some(None),
        Some(Some(avg)) => if !avg.pos() {
            Some(None)
        } else {
            match n_mul(Some(avg), Some(p.min_volume_frac)) {
                Some(limit) => if volume.lt(limit) {
                    Some(Some("объём слабый"@))
                } else {
                    Some(None)
                },
                None => None,
            }
        },
    }
}

fn filter_volume(recent: &[Bar], volume: Dec, p: &ScalpParams) -> (r: Option<Option<&'static str>>)
    ensures
        filter_view(r) == volume_filter(recent@, volume, p@),
{
    match mean_volume(recent) {
        None => None,
        Some(None) => Some(None),
        Some(Some(avg)) => {
            if !avg.is_pos() {
                return Some(None);
            }
            match times(Some(avg), Some(p.min_volume_frac)) {
                Some(limit) => if volume < limit {
                    Some(Some("объём слабый"))
                } else {
                    Some(None)
                },
                None => None,
            }
        },
    }
}

pub open spec fn filter_view(r: Option<Option<&'static str>>) -> Option<Option<Seq<char>>> {
    match r {
        Some(Some(t)) => Some(Some(t@)),
        Some(None) => Some(None),
        None => None,
    }
}

fn filter_scalp(
    bars: &[Bar],
    mark: Dec,
    ema_f: Dec,
    ema_s: Dec,
    atr: Dec,
    rsi: Dec,
    session: Dec,
    p: &ScalpParams,
) -> (r: Option<Option<&'static str>>)
    requires
        bars@.len() >= 2,
    ensures
        filter_view(r) == scalp_filters(bars@, mark, ema_f, ema_s, atr, rsi, session, p@),
{
    let n: usize = bars.len();
    let last: Bar = bars[n - 1];
    if !atr.is_pos() {
        return Some(Some("atr is zero"));
    }
    let atr_pct: Dec = match over(Some(atr), Some(mark)) {
        Some(x) => x,
        None => return None,
    };
    if atr_pct < p.min_atr_pct {
        return Some(Some("слишком тихо для скальпа"));
    }
    if atr_pct > p.max_atr_pct {
        return Some(Some("слишком широко — не скальп"));
    }
    if ema_f <= ema_s {
        return Some(Some("нет микротренда вверх"));
    }
    if mark <= session {
        return Some(Some("ниже VWAP — лонг не беру"));
    }
    if rsi < p.rsi_min {
        return Some(Some("RSI слабый"));
    }
    if rsi > p.rsi_max {
        return Some(Some("RSI перекуплен — не догоняю"));
    }
    if last.close <= last.open {
        return Some(Some("сигнальная свеча не зелёная"));
    }
    if last.close <= bars[n - 2].close {
        return Some(Some("нет более высокого close"));
    }
    if last.close < ema_f {
        return Some(Some("close ниже EMA9"));
    }
    match (minus(Some(mark), Some(ema_f)), times(Some(p.extend_atr), Some(atr))) {
        (Some(stretch), Some(limit)) => {
            if stretch > limit {
                return Some(Some("далеко от EMA — догон"));
            }
        },
        _ => {
            return None;
        },
    }
    match pulled_into(bars, session, atr, p) {
        None => {
            return None;
        },
        Some(false) => {
            return Some(Some("нет отката к EMA/VWAP"));
        },
        Some(true) => {},
    }
    let from: usize = if n > 20 {
        n - 20
    } else {
        0
    };
    filter_volume(vstd::slice::slice_subrange(bars, from, n), last.volume, p)
}

/// The entry once every filter is passed.
pub open spec fn scalp_entry(
    bars: Seq<Bar>,
    mark: Dec,
    ema_f: Dec,
    atr: Dec,
    symbol: Seq<char>,
    p: ScalpView,
) -> Option<DecisionView> {
    match scalp_stop(bars, mark, ema_f, atr, p) {
        None => None,
        Some(raw) => match stop_floor(mark, raw, p.min_stop_pct) {
            None => None,
            Some(sl) => if !valid_long_stop(sl, mark) {
                Some(hold_view("stop would be at or above mark"@))
            } else {
                match n_sub(Some(mark), Some(sl)) {
                    None => None,
                    Some(risk) => if !risk.pos() {
                        Some(hold_view("risk is zero"@))
                    } else {
                        match n_add(Some(mark), n_mul(Some(p.reward_r), Some(risk))) {
                            None => None,
                            Some(tp) => Some(
                                DecisionView::EnterLong {
                                    symbol,
                                    reason: "скальп: откат к VWAP/EMA9"@,
                                    take_profit: tp,
                                    stop_loss: sl,
                                },
                            ),
                        }
                    },
                }
            },
        },
    }
}

fn enter_scalp(bars: &[Bar], mark: Dec, ema_f: Dec, atr: Dec, symbol: &str, p: &ScalpParams) -> (r:
    Option<Decision>)
    requires
        bars@.len() > 0,
    ensures
        opt_decision(r) == scalp_entry(bars@, mark, ema_f, atr, symbol@, p@),
{
    let raw: Dec = match entry_stop(bars, mark, ema_f, atr, p) {
        Some(x) => x,
        None => return None,
    };
    let sl: Dec = match at_least_min_stop(mark, raw, p.min_stop_pct) {
        Some(x) => x,
        None => return None,
    };
    if !long_stop_is_valid(sl, mark) {
        return Some(Decision::hold("stop would be at or above mark"));
    }
    let risk: Dec = match minus(Some(mark), Some(sl)) {
        Some(x) => x,
        None => return None,
    };
    if !risk.is_pos() {
        return Some(Decision::hold("risk is zero"));
    }
    match plus(Some(mark), times(Some(p.reward_r), Some(risk))) {
        Some(tp) => Some(
            Decision::EnterLong {
                symbol: own(symbol),
                reason: own("скальп: откат к VWAP/EMA9"),
                take_profit: tp,
                stop_loss: sl,
            },
        ),
        None => None,
    }
}

/// How many bars the scalp needs.
pub open spec fn scalp_need(p: ScalpView) -> int {
    max_int(max_int(p.ema_slow as int, p.atr_period as int), p.rsi_period as int) + p.pullback_bars
        + 2
}

/// The scalp decision on a series.
pub open spec fn scalp_view(
    bars: Seq<Bar>,
    position: Option<Position>,
    symbol: Seq<char>,
    p: ScalpView,
    now: Option<int>,
) -> Option<DecisionView> {
    if bars.len() < scalp_need(p) {
        Some(hold_view("not enough bars for scalp"@))
    } else {
        let last = bars.last();
        let mark = last.close;
        let ts = match now {
            Some(n) => n,
            None => last.open_time as int,
        };
        let c = closes_of(bars);
        if !mark.pos() {
            Some(hold_view("invalid mark"@))
        } else if position is Some && position->0.qty.pos() {
            if position->0.side != Side::Long {
                Some(hold_view("scalp is buy-only; short not managed"@))
            } else {
                scalp_manage(bars, position->0, mark, p, ts)
            }
        } else if !entry_open(ts, Some(p.entry_windows), p.always_enter) {
            Some(hold_view("вне сессии скальпа (Лондон/Нью-Йорк)"@))
        } else {
            match (
                ema_last(c, p.ema_fast as int),
                ema_last(c, p.ema_slow as int),
                atr_last(bars, p.atr_period as int),
                rsi_last(c, p.rsi_period as int),
                vwap_of(bars),
            ) {
                (Some(f), Some(s), Some(a), Some(r), Some(v)) => if f is None || s is None || a
                    is None || r is None || v is None {
                    Some(hold_view("scalp indicators unavailable"@))
                } else {
                    match scalp_filters(bars, mark, f->0, s->0, a->0, r->0, v->0, p) {
                        None => None,
                        Some(Some(reason)) => Some(hold_view(reason)),
                        Some(None) => scalp_entry(bars, mark, f->0, a->0, symbol, p),
                    }
                },
                _ => None,
            }
        }
    }
}

pub fn scalp_decision(
    bars: &[Bar],
    position: Option<&Position>,
    symbol: &str,
    params: Option<&ScalpParams>,
    now: Option<i64>,
) -> (r: Option<Decision>)
    ensures
        opt_decision(r) == scalp_view(
            bars@,
            crate::models::opt_deref(position),
            symbol@,
            scalp_knobs(params),
            opt_ms(now),
        ),
{
    let owned: ScalpParams = ScalpParams::default();
    let p: &ScalpParams = match params {
        Some(s) => s,
        None => &owned,
    };
    let n: usize = bars.len();
    let a: usize = if p.ema_slow >= p.atr_period {
        p.ema_slow
    } else {
        p.atr_period
    };
    let b: usize = if a >= p.rsi_period {
        a
    } else {
        p.rsi_period
    };
    let need: u128 = b as u128 + p.pullback_bars as u128 + 2;
    if (n as u128) < need {
        return Some(Decision::hold("not enough bars for scalp"));
    }
    let last: Bar = bars[n - 1];
    let mark: Dec = last.close;
    if !mark.is_pos() {
        return Some(Decision::hold("invalid mark"));
    }
    let ts: i64 = match now {
        Some(t) => t,
        None => last.open_time,
    };
    if let Some(pos) = position {
        if pos.qty.is_pos() {
            if pos.side != Side::Long {
                return Some(Decision::hold("scalp is buy-only; short not managed"));
            }
            return manage_long(bars, pos, mark, p, ts);
        }
    }
    if !in_entry_window(ts, Some(p.entry_windows.as_slice()), p.always_enter) {
        return Some(Decision::hold("вне сессии скальпа (Лондон/Нью-Йорк)"));
    }
    let c: Vec<Dec> = closes(bars);
    let found: (Option<Dec>, Option<Dec>, Option<Dec>, Option<Dec>, Option<Dec>) = match (
        last_ema(c.as_slice(), p.ema_fast),
        last_ema(c.as_slice(), p.ema_slow),
        last_atr(bars, p.atr_period),
        last_rsi(c.as_slice(), p.rsi_period),
        vwap(bars),
    ) {
        (Some(f), Some(s), Some(x), Some(r), Some(v)) => (f, s, x, r, v),
        _ => return None,
    };
    match found {
        (Some(f), Some(s), Some(x), Some(r), Some(v)) => match filter_scalp(
            bars,
            mark,
            f,
            s,
            x,
            r,
            v,
            p,
        ) {
            None => None,
            Some(Some(reason)) => Some(Decision::hold(reason)),
            Some(None) => enter_scalp(bars, mark, f, x, symbol, p),
        },
        _ => Some(Decision::hold("scalp indicators unavailable")),
    }
}

/// A held scalp's stop only rises.
pub proof fn law_scalp_stop_only_rises(
    bars: Seq<Bar>,
    pos: Position,
    mark: Dec,
    p: ScalpView,
    ts: int,
)
    ensures
        scalp_manage(bars, pos, mark, p, ts) matches Some(
            DecisionView::AmendStop { stop_loss, .. },
        ) ==> (pos.stop_loss matches Some(sl) ==> sl.lt(stop_loss)),
{
}

/// An entry of the scalp has a positive stop below the last close.
pub proof fn law_scalp_entry_has_a_stop_below(
    bars: Seq<Bar>,
    mark: Dec,
    ema_f: Dec,
    atr: Dec,
    symbol: Seq<char>,
    p: ScalpView,
)
    ensures
        scalp_entry(bars, mark, ema_f, atr, symbol, p) matches Some(
            DecisionView::EnterLong { stop_loss, .. },
        ) ==> stop_loss.pos() && stop_loss.lt(mark),
{
}

} // verus!

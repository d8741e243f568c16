//! Setup score of a continuation entry: points over gates that already exist,
//! and a soft reject where fees eat too much of the risk.
//!
//! Fees: a round trip of 0.08% against the least 15m stop of 2% costs 0.04R; a
//! setup is rejected where its natural stop makes it cost that much or more.
//!
//! An outer `None` says that a number left the decimal range or is too long to be
//! shown.
use crate::continuation::entry::{
    depth_of_pullback, hist_bars, history, natural_stop, pullback_depth, stop_by_structure,
};
use crate::continuation::{ContinuationParams, ContinuationView};
use crate::dec::{
    dec, decimal_difference, decimal_product, decimal_quotient, decimal_rules, decimal_text_fixed,
    goes_into, larger, law_even_quotients_are_exact, minus, n_div, n_mul, n_sub, negated, over,
    prints, times, Dec,
};
use crate::indicators::{atr_last, closes, closes_of, ema_last, last_atr, last_ema};
use crate::models::{opt_view, Bar, MarketSnapshot, Ticker};
use crate::money::{round_trip, round_trip_taker_pct};
use crate::regime::{classify_snapshot, snapshot_regime, BtcRegime};
use crate::sessions::{entry_open, in_entry_window};
use crate::text::{int_text, own, print_u64};
use vstd::prelude::*;
use vstd::string::StringExecFns;

verus! {

/// From this score on a setup is entered.
pub const SCORE_ENTER: u8 = 75;

/// From this score on a setup is watched.
pub const SCORE_WATCH: u8 = 65;

/// The part of the risk from which on fees reject a setup, in percent.
pub const COST_R_SOFT_MAX_PCT: u8 = 4;

/// The part of the risk from which on fees reject a setup.
pub fn cost_r_soft_max() -> (r: Dec)
    ensures
        r == dec(4, 2),
{
    Dec::new(4, 2)
}

#[derive(Debug, Clone, Copy, PartialEq, Eq, Structural)]
pub enum SetupAction {
    /// A score to enter on and no soft reject.
    Enter,
    /// A score to watch.
    Watch,
    /// A reject, or a lower score.
    Skip,
}

#[derive(Debug)]
pub struct SetupScore {
    pub score: u8,
    pub action: SetupAction,
    pub hard_reject: Option<String>,
    pub soft_reject: Option<String>,
    /// What fees cost against the natural stop, in units of risk.
    pub cost_r: Option<Dec>,
    pub ema4h_pts: u8,
    pub pullback_pts: u8,
    pub tape_pts: u8,
    pub session_pts: u8,
    pub regime_pts: u8,
}

/// The score with its texts as sequences of characters.
pub struct SetupView {
    pub score: u8,
    pub action: SetupAction,
    pub hard_reject: Option<Seq<char>>,
    pub soft_reject: Option<Seq<char>>,
    pub cost_r: Option<Dec>,
    pub ema4h_pts: u8,
    pub pullback_pts: u8,
    pub tape_pts: u8,
    pub session_pts: u8,
    pub regime_pts: u8,
}

impl View for SetupScore {
    type V = SetupView;

    open spec fn view(&self) -> SetupView {
        SetupView {
            score: self.score,
            action: self.action,
            hard_reject: opt_view(self.hard_reject),
            soft_reject: opt_view(self.soft_reject),
            cost_r: self.cost_r,
            ema4h_pts: self.ema4h_pts,
            pullback_pts: self.pullback_pts,
            tape_pts: self.tape_pts,
            session_pts: self.session_pts,
            regime_pts: self.regime_pts,
        }
    }
}

impl SetupView {
    /// Why the setup is not entered.
    pub open spec fn skip_note(self) -> Option<Seq<char>> {
        if self.hard_reject is Some {
            self.hard_reject
        } else if self.soft_reject is Some {
            self.soft_reject
        } else {
            match self.action {
                SetupAction::Enter => None,
                SetupAction::Watch => Some(
                    "setup score "@ + int_text(self.score as int) + " — watch (need ≥"@ + int_text(
                        SCORE_ENTER as int,
                    ) + ")"@,
                ),
                SetupAction::Skip => Some(
                    "setup score "@ + int_text(self.score as int) + " — soft skip (need ≥"@
                        + int_text(SCORE_WATCH as int) + ")"@,
                ),
            }
        }
    }
}

impl SetupScore {
    pub fn skip_reason(&self) -> (r: Option<String>)
        ensures
            opt_view(r) == self@.skip_note(),
    {
        if let Some(t) = &self.hard_reject {
            return Some(own(t.as_str()));
        }
        if let Some(t) = &self.soft_reject {
            return Some(own(t.as_str()));
        }
        let mut out = own("setup score ");
        out.append(print_u64(self.score as u64).as_str());
        match self.action {
            SetupAction::Enter => None,
            SetupAction::Watch => {
                out.append(" — watch (need ≥");
                out.append(print_u64(SCORE_ENTER as u64).as_str());
                out.append(")");
                Some(out)
            },
            SetupAction::Skip => {
                out.append(" — soft skip (need ≥");
                out.append(print_u64(SCORE_WATCH as u64).as_str());
                out.append(")");
                Some(out)
            },
        }
    }
}

/// The risk of the natural stop as part of the mark.
pub open spec fn natural_risk(bars: Seq<Bar>, last: Bar, mark: Dec, p: ContinuationView) -> Option<
    Option<Dec>,
> {
    match natural_stop(bars, last, mark, p) {
        None => None,
        Some(None) => Some(None),
        Some(Some((_, risk))) => Some(Some(risk)),
    }
}

/// The risk of the stop before it is held at its least distance, as part of the
/// mark; the inner `None` where there is none or it is too wide.
pub fn natural_stop_risk_pct(
    snapshot: &MarketSnapshot,
    symbol: &str,
    last: &Bar,
    mark: Dec,
    p: &ContinuationParams,
) -> (r: Option<Option<Dec>>)
    ensures
        r == natural_risk(snapshot.series(symbol@), *last, mark, p@),
{
    match stop_by_structure(snapshot.bars_for(symbol), last, mark, p)? {
        Some((_, risk)) => Some(Some(risk)),
        None => Some(None),
    }
}

/// What a round trip costs in units of the risk.
pub open spec fn cost_in_r(stop_risk_pct: Dec) -> Option<Option<Dec>> {
    if !stop_risk_pct.pos() {
        Some(None)
    } else {
        match n_div(Some(round_trip()), Some(stop_risk_pct)) {
            Some(x) => Some(Some(x)),
            None => None,
        }
    }
}

/// What a round trip costs in units of the risk; the inner `None` without risk.
pub fn projected_cost_r(stop_risk_pct: Dec) -> (r: Option<Option<Dec>>)
    ensures
        r == cost_in_r(stop_risk_pct),
{
    if !stop_risk_pct.is_pos() {
        return Some(None);
    }
    Some(Some(over(Some(round_trip_taker_pct()), Some(stop_risk_pct))?))
}

/// What a round trip costs at a given stop.
pub fn cost_r_at_stop_pct(stop_pct: Dec) -> (r: Option<Option<Dec>>)
    ensures
        r == cost_in_r(stop_pct),
{
    projected_cost_r(stop_pct)
}

/// Points for the distance of the last 4h close above its mean: most for a
/// clear but modest one.
pub open spec fn ema4h_points(htf: Seq<Bar>) -> Option<u8> {
    if htf.len() < 21 {
        Some(0)
    } else {
        let close = htf[htf.len() - 1].close;
        match ema_last(closes_of(htf), 20) {
            None => None,
            Some(None) => Some(0),
            Some(Some(ema)) => if !ema.pos() || close.le(ema) {
                Some(0)
            } else {
                match n_div(n_sub(Some(close), Some(ema)), Some(ema)) {
                    None => None,
                    Some(dist) => Some(
                        if dist.lt(dec(3, 3)) {
                            12
                        } else if dist.lt(dec(15, 3)) {
                            25
                        } else if dist.lt(dec(3, 2)) {
                            20
                        } else if dist.lt(dec(5, 2)) {
                            12
                        } else {
                            6
                        },
                    ),
                }
            },
        }
    }
}

fn score_ema4h(htf: &[Bar]) -> (r: Option<u8>)
    ensures
        r == ema4h_points(htf@),
{
    let n: usize = htf.len();
    if n < 21 {
        return Some(0);
    }
    let c: Vec<Dec> = closes(htf);
    let ema: Dec = match last_ema(c.as_slice(), 20)? {
        Some(x) => x,
        None => return Some(0),
    };
    let close: Dec = htf[n - 1].close;
    if !ema.is_pos() || close <= ema {
        return Some(0);
    }
    let dist: Dec = over(minus(Some(close), Some(ema)), Some(ema))?;
    Some(
        if dist < Dec::new(3, 3) {
            12
        } else if dist < Dec::new(15, 3) {
            25
        } else if dist < Dec::new(3, 2) {
            20
        } else if dist < Dec::new(5, 2) {
            12
        } else {
            6
        },
    )
}

/// The ATR as part of the close; the inner `None` where either is missing.
pub open spec fn atr_part(bars: Seq<Bar>, close: Dec, p: ContinuationView) -> Option<Option<Dec>> {
    let period = if p.atr_period > 0 {
        p.atr_period as int
    } else {
        14
    };
    match atr_last(bars, period) {
        None => None,
        Some(None) => Some(None),
        Some(Some(atr)) => if !atr.pos() || !close.pos() {
            Some(None)
        } else {
            match n_div(Some(atr), Some(close)) {
                Some(x) => Some(Some(x)),
                None => None,
            }
        },
    }
}

fn atr_fraction(bars: &[Bar], close: Dec, p: &ContinuationParams) -> (r: Option<Option<Dec>>)
    ensures
        r == atr_part(bars@, close, p@),
{
    let period: usize = if p.atr_period > 0 {
        p.atr_period
    } else {
        14
    };
    match last_atr(bars, period)? {
        None => Some(None),
        Some(atr) => {
            if !atr.is_pos() || !close.is_pos() {
                return Some(None);
            }
            Some(Some(over(Some(atr), Some(close))?))
        },
    }
}

/// Points for the pullback: most where its depth is about the ATR; without an
/// ATR by the least depth.
pub open spec fn depth_points(depth: Dec, part: Option<Dec>, p: ContinuationView) -> Option<u8> {
    match part {
        None => if depth.lt(p.min_pullback_pct) {
            Some(5)
        } else {
            match n_mul(Some(p.min_pullback_pct), Some(dec(2, 0))) {
                None => None,
                Some(twice) => Some(
                    if depth.lt(twice) {
                        18
                    } else {
                        12
                    },
                ),
            }
        },
        Some(af) => if !af.pos() {
            Some(0)
        } else {
            match n_div(Some(depth), Some(af)) {
                None => None,
                Some(ratio) => Some(
                    if ratio.lt(dec(35, 2)) {
                        6
                    } else if ratio.lt(dec(75, 2)) {
                        16
                    } else if ratio.le(dec(20, 1)) {
                        25
                    } else if ratio.le(dec(35, 1)) {
                        12
                    } else {
                        4
                    },
                ),
            }
        },
    }
}

fn score_depth(depth: Dec, part: Option<Dec>, p: &ContinuationParams) -> (r: Option<u8>)
    ensures
        r == depth_points(depth, part, p@),
{
    let af: Dec = match part {
        Some(x) => x,
        None => {
            if depth < p.min_pullback_pct {
                return Some(5);
            }
            let twice: Dec = times(Some(p.min_pullback_pct), Some(Dec::from_int(2)))?;
            return if depth < twice {
                Some(18)
            } else {
                Some(12)
            };
        },
    };
    if !af.is_pos() {
        return Some(0);
    }
    let ratio: Dec = over(Some(depth), Some(af))?;
    Some(
        if ratio < Dec::new(35, 2) {
            6
        } else if ratio < Dec::new(75, 2) {
            16
        } else if ratio <= Dec::new(20, 1) {
            25
        } else if ratio <= Dec::new(35, 1) {
            12
        } else {
            4
        },
    )
}

/// Points for the pullback before the signal candle.
pub open spec fn pullback_points(bars: Seq<Bar>, last: Bar, p: ContinuationView) -> Option<u8> {
    let hist = history(bars, last);
    if hist.len() < 2 {
        Some(0)
    } else {
        match pullback_depth(hist) {
            None => None,
            Some(None) => Some(0),
            Some(Some(depth)) => match atr_part(bars, last.close, p) {
                None => None,
                Some(part) => depth_points(depth, part, p),
            },
        }
    }
}

fn score_pullback_vs_atr(bars: &[Bar], last: &Bar, p: &ContinuationParams) -> (r: Option<u8>)
    ensures
        r == pullback_points(bars@, *last, p@),
{
    let hist: &[Bar] = hist_bars(bars, last);
    if hist.len() < 2 {
        return Some(0);
    }
    let depth: Dec = match depth_of_pullback(hist)? {
        Some(x) => x,
        None => return Some(0),
    };
    let part: Option<Dec> = atr_fraction(bars, last.close, p)?;
    score_depth(depth, part, p)
}

/// Points for the day's tape: most for a green day of middling size.
pub open spec fn tape_points(t: Ticker, p: ContinuationView) -> Option<u8> {
    let c = t.price_change_percent;
    let stretch = larger(p.stretch_pct, dec(1, 0));
    let least = n_mul(Some(p.min_change_percent), Some(dec(2, 0)));
    let far = n_mul(Some(stretch), Some(dec(2, 0)));
    let chase = n_mul(p.max_change_percent, Some(dec(7, 1)));
    if !c.pos() || c.lt(p.min_change_percent) || c.le(negated(p.stretch_pct)) {
        Some(0)
    } else if least is None {
        None
    } else if c.lt(least->0) {
        Some(10)
    } else if c.le(stretch) {
        Some(20)
    } else if far is None {
        None
    } else if c.le(far->0) {
        Some(15)
    } else if p.max_change_percent is Some && chase is None {
        None
    } else if p.max_change_percent is Some && chase->0.lt(c) {
        Some(6)
    } else {
        Some(10)
    }
}

fn score_tape(t: &Ticker, p: &ContinuationParams) -> (r: Option<u8>)
    ensures
        r == tape_points(*t, p@),
{
    let c: Dec = t.price_change_percent;
    if !c.is_pos() || c < p.min_change_percent {
        return Some(0);
    }
    if c <= p.stretch_pct.neg() {
        return Some(0);
    }
    let stretch: Dec = p.stretch_pct.max(Dec::one());
    if c < times(Some(p.min_change_percent), Some(Dec::from_int(2)))? {
        return Some(10);
    }
    if c <= stretch {
        return Some(20);
    }
    if c <= times(Some(stretch), Some(Dec::from_int(2)))? {
        return Some(15);
    }
    if let Some(most) = p.max_change_percent {
        if c > times(Some(most), Some(Dec::new(7, 1)))? {
            return Some(6);
        }
    }
    Some(10)
}

/// Points for the hour.
pub open spec fn session_points(now: int, p: ContinuationView) -> u8 {
    if p.always_enter && p.entry_windows.len() == 0 {
        15
    } else if entry_open(now, Some(p.entry_windows), false) {
        20
    } else if p.always_enter {
        8
    } else {
        0
    }
}

fn score_session(now: i64, p: &ContinuationParams) -> (r: u8)
    ensures
        r == session_points(now as int, p@),
{
    if p.always_enter && p.entry_windows.len() == 0 {
        15
    } else if in_entry_window(now, Some(p.entry_windows.as_slice()), false) {
        20
    } else if p.always_enter {
        8
    } else {
        0
    }
}

/// Points for the regime of the leading coin.
pub open spec fn regime_points(g: BtcRegime) -> u8 {
    match g {
        BtcRegime::StrongBull => 10,
        BtcRegime::Bull => 8,
        BtcRegime::Neutral => 4,
        BtcRegime::Bear | BtcRegime::Panic => 0,
    }
}

fn score_regime(snapshot: &MarketSnapshot) -> (r: Option<u8>)
    ensures
        r == (match snapshot_regime(*snapshot) {
            Some(g) => Some(regime_points(g)),
            None => None,
        }),
{
    match classify_snapshot(snapshot)? {
        BtcRegime::StrongBull => Some(10),
        BtcRegime::Bull => Some(8),
        BtcRegime::Neutral => Some(4),
        BtcRegime::Bear | BtcRegime::Panic => Some(0),
    }
}

/// What fees cost a setup; the inner `None` without a natural stop.
pub open spec fn setup_cost(bars: Seq<Bar>, last: Bar, mark: Dec, p: ContinuationView) -> Option<
    Option<Dec>,
> {
    match natural_risk(bars, last, mark, p) {
        None => None,
        Some(None) => Some(None),
        Some(Some(risk)) => cost_in_r(risk),
    }
}

/// The soft reject of a cost; the inner `None` where it is in bounds.
pub open spec fn cost_reject(cost: Option<Dec>) -> Option<Option<Seq<char>>> {
    match cost {
        Some(cr) => if dec(4, 2).le(cr) {
            match n_mul(Some(dec(4, 2)), Some(dec(100, 0))) {
                Some(limit) => if prints(cr, 3) {
                    Some(
                        Some(
                            "costR "@ + decimal_text_fixed(cr, 3) + "R > "@ + decimal_text_fixed(
                                limit,
                                0,
                            ) + "% of 1R — soft reject"@,
                        ),
                    )
                } else {
                    None
                },
                None => None,
            }
        } else {
            Some(None)
        },
        None => Some(None),
    }
}

fn reject_cost(cost: Option<Dec>) -> (r: Option<Option<String>>)
    ensures
        crate::continuation::entry::gate_view(r) == cost_reject(cost),
{
    if let Some(cr) = cost {
        if cr >= cost_r_soft_max() {
            let limit: Dec = times(Some(cost_r_soft_max()), Some(Dec::from_int(100)))?;
            let mut out = own("costR ");
            out.append(cr.text_fixed(3)?.as_str());
            out.append("R > ");
            out.append(limit.text_short(0).as_str());
            out.append("% of 1R — soft reject");
            return Some(Some(out));
        }
    }
    Some(None)
}

/// What a score comes to.
pub open spec fn action_of(score: int, rejected: bool) -> SetupAction {
    if rejected {
        SetupAction::Skip
    } else if score >= SCORE_ENTER {
        SetupAction::Enter
    } else if score >= SCORE_WATCH {
        SetupAction::Watch
    } else {
        SetupAction::Skip
    }
}

/// The score of a setup.
pub open spec fn setup_of(s: MarketSnapshot, t: Ticker, signal: Bar, p: ContinuationView, now: int) -> Option<
    SetupView,
> {
    let bars = s.series(t.symbol@);
    match (
        ema4h_points(s.htf_series(t.symbol@)),
        pullback_points(bars, signal, p),
        tape_points(t, p),
        snapshot_regime(s),
    ) {
        (Some(ema), Some(pull), Some(tape), Some(g)) => match setup_cost(
            bars,
            signal,
            t.last_price,
            p,
        ) {
            None => None,
            Some(cost) => match cost_reject(cost) {
                None => None,
                Some(soft) => {
                    let score = (ema + pull + tape + session_points(now, p) + regime_points(g));
                    Some(
                        SetupView {
                            score: score as u8,
                            action: action_of(score, soft is Some),
                            hard_reject: None,
                            soft_reject: soft,
                            cost_r: cost,
                            ema4h_pts: ema,
                            pullback_pts: pull,
                            tape_pts: tape,
                            session_pts: session_points(now, p),
                            regime_pts: regime_points(g),
                        },
                    )
                },
            },
        },
        _ => None,
    }
}

/// Each part of the score has its most points, and together they make 100.
proof fn lemma_points_bounded(s: MarketSnapshot, t: Ticker, signal: Bar, p: ContinuationView, now: int)
    ensures
        ema4h_points(s.htf_series(t.symbol@)) matches Some(x) ==> x <= 25,
        pullback_points(s.series(t.symbol@), signal, p) matches Some(x) ==> x <= 25,
        tape_points(t, p) matches Some(x) ==> x <= 20,
        session_points(now, p) <= 20,
        snapshot_regime(s) matches Some(g) ==> regime_points(g) <= 10,
{
}

/// Scores a setup.
pub fn evaluate(
    snapshot: &MarketSnapshot,
    ticker: &Ticker,
    signal: &Bar,
    p: &ContinuationParams,
    now: i64,
) -> (r: Option<SetupScore>)
    ensures
        match (r, setup_of(*snapshot, *ticker, *signal, p@, now as int)) {
            (Some(x), Some(v)) => x@ == v,
            (None, None) => true,
            _ => false,
        },
{
    let sym: &str = ticker.symbol.as_str();
    let bars: &[Bar] = snapshot.bars_for(sym);
    let ema4h_pts: u8 = score_ema4h(snapshot.htf_bars_for(sym))?;
    let pullback_pts: u8 = score_pullback_vs_atr(bars, signal, p)?;
    let tape_pts: u8 = score_tape(ticker, p)?;
    let session_pts: u8 = score_session(now, p);
    let regime_pts: u8 = score_regime(snapshot)?;
    proof {
        lemma_points_bounded(*snapshot, *ticker, *signal, p@, now as int);
    }
    let score: u8 = ema4h_pts + pullback_pts + tape_pts + session_pts + regime_pts;
    let cost_r: Option<Dec> = match natural_stop_risk_pct(
        snapshot,
        sym,
        signal,
        ticker.last_price,
        p,
    )? {
        Some(risk) => projected_cost_r(risk)?,
        None => None,
    };
    let soft_reject: Option<String> = reject_cost(cost_r)?;
    let action: SetupAction = if soft_reject.is_some() {
        SetupAction::Skip
    } else if score >= SCORE_ENTER {
        SetupAction::Enter
    } else if score >= SCORE_WATCH {
        SetupAction::Watch
    } else {
        SetupAction::Skip
    };
    Some(
        SetupScore {
            score,
            action,
            hard_reject: None,
            soft_reject,
            cost_r,
            ema4h_pts,
            pullback_pts,
            tape_pts,
            session_pts,
            regime_pts,
        },
    )
}

/// Why the score keeps a setup out.
pub open spec fn soft_gate(s: MarketSnapshot, t: Ticker, signal: Bar, p: ContinuationView, now: int) -> Option<
    Option<Seq<char>>,
> {
    if !p.setup_score {
        Some(None)
    } else {
        match setup_of(s, t, signal, p, now) {
            Some(v) => Some(v.skip_note()),
            None => None,
        }
    }
}

/// Why the score keeps a setup out; nothing where it may be entered or the
/// score is switched off.
pub fn soft_entry_skip(
    snapshot: &MarketSnapshot,
    ticker: &Ticker,
    signal: &Bar,
    p: &ContinuationParams,
    now: i64,
) -> (r: Option<Option<String>>)
    ensures
        crate::continuation::entry::gate_view(r) == soft_gate(
            *snapshot,
            *ticker,
            *signal,
            p@,
            now as int,
        ),
{
    if !p.setup_score {
        return Some(None);
    }
    let s: SetupScore = evaluate(snapshot, ticker, signal, p, now)?;
    Some(s.skip_reason())
}

/// Fees reject a setup exactly where they cost at least four hundredths of its
/// risk; a setup that they reject is skipped, and any other goes by its score.
pub proof fn law_costly_setups_are_rejected(
    s: MarketSnapshot,
    t: Ticker,
    signal: Bar,
    p: ContinuationView,
    now: int,
)
    ensures
        setup_of(s, t, signal, p, now) matches Some(v) ==> {
            &&& v.soft_reject is Some <==> v.cost_r is Some && dec(4, 2).le(v.cost_r->0)
            &&& v.soft_reject is Some ==> v.action == SetupAction::Skip
            &&& v.soft_reject is None ==> v.action == (if v.score >= SCORE_ENTER {
                SetupAction::Enter
            } else if v.score >= SCORE_WATCH {
                SetupAction::Watch
            } else {
                SetupAction::Skip
            })
        },
{
    lemma_points_bounded(s, t, signal, p, now);
}

/// A score is the sum of its parts and at most 100; a setup is entered exactly
/// where the score reaches the entry mark and fees do not reject it.
pub proof fn law_score_is_the_sum_of_its_parts(
    s: MarketSnapshot,
    t: Ticker,
    signal: Bar,
    p: ContinuationView,
    now: int,
)
    ensures
        setup_of(s, t, signal, p, now) matches Some(v) ==> {
            &&& v.score == v.ema4h_pts + v.pullback_pts + v.tape_pts + v.session_pts + v.regime_pts
            &&& v.score <= 100
            &&& v.action == SetupAction::Enter <==> v.score >= SCORE_ENTER && v.soft_reject is None
            &&& v.skip_note() is None <==> v.action == SetupAction::Enter
        },
{
    lemma_points_bounded(s, t, signal, p, now);
}

/// Points for 4h: none at or below the mean, most within half a per cent and one
/// and a half per cent above it.
pub proof fn law_htf_points(htf: Seq<Bar>, mean: Dec, away: Dec)
    requires
        htf.len() >= 21,
        ema_last(closes_of(htf), 20) == Some(Some(mean)),
        mean.pos(),
        n_div(decimal_difference(htf.last().close, mean), Some(mean)) == Some(away),
    ensures
        htf.last().close.le(mean) ==> ema4h_points(htf) == Some(0u8),
        mean.lt(htf.last().close) ==> (ema4h_points(htf) matches Some(k) && {
            &&& k == 25 <==> dec(3, 3).le(away) && away.lt(dec(15, 3))
            &&& k == 20 <==> !away.lt(dec(3, 3)) && !away.lt(dec(15, 3)) && away.lt(dec(3, 2))
            &&& k >= 6
            &&& away.lt(dec(3, 3)) ==> k == 12
            &&& k == 6 ==> dec(5, 2).le(away)
        }),
{
}

/// Points for the depth of a pullback against the range: most from three quarters
/// of it to twice of it, fewer the further away on either side.
pub proof fn law_depth_points(depth: Dec, part: Dec, ratio: Dec, p: ContinuationView)
    requires
        part.pos(),
        decimal_quotient(depth, part) == Some(ratio),
    ensures
        depth_points(depth, Some(part), p) matches Some(k) && {
            &&& dec(75, 2).le(ratio) && ratio.le(dec(20, 1)) ==> k == 25 || ratio.lt(dec(35, 2))
            &&& k == 25 ==> dec(75, 2).le(ratio) && ratio.le(dec(20, 1))
            &&& ratio.lt(dec(35, 2)) <==> k == 6
            &&& k == 4 ==> dec(35, 1).lt(ratio)
            &&& k == 16 ==> dec(35, 2).le(ratio) && ratio.lt(dec(75, 2))
            &&& k == 12 ==> dec(20, 1).lt(ratio) && ratio.le(dec(35, 1))
        },
{
}

/// Points for the day's tape: none for a day that did not rise by the least change;
/// most for a rise of at least twice that and no more than the stretch.
pub proof fn law_tape_points(t: Ticker, p: ContinuationView, twice: Dec)
    requires
        tape_points(t, p) is Some,
        decimal_product(p.min_change_percent, dec(2, 0)) == Some(twice),
        p.stretch_pct.pos() && p.stretch_pct.wf(),
    ensures
        ({
            let c = t.price_change_percent;
            let k = tape_points(t, p)->0;
            &&& k == 0 <==> !c.pos() || c.lt(p.min_change_percent)
            &&& k == 20 <==> c.pos() && p.min_change_percent.le(c) && twice.le(c) && (c.le(
                p.stretch_pct,
            ) || c.le(dec(1, 0)))
            &&& k > 0 && c.lt(twice) ==> k == 10
        }),
{
    crate::dec::lemma_wf(p.stretch_pct);
    crate::dec::lemma_dec_parts(-p.stretch_pct.m(), p.stretch_pct.s());
    crate::dec::lemma_units_neg(negated(p.stretch_pct), p.stretch_pct);
}

/// Points for the hour and the regime: an open window beats a desk that is always
/// open, which beats a closed one; a better regime never scores less.
pub proof fn law_session_and_regime_points(now: int, p: ContinuationView)
    ensures
        p.entry_windows.len() > 0 && entry_open(now, Some(p.entry_windows), false) ==> session_points(
            now,
            p,
        ) == 20,
        p.entry_windows.len() > 0 && !entry_open(now, Some(p.entry_windows), false) ==> session_points(
            now,
            p,
        ) == (if p.always_enter {
            8u8
        } else {
            0
        }),
        regime_points(BtcRegime::StrongBull) > regime_points(BtcRegime::Bull),
        regime_points(BtcRegime::Bull) > regime_points(BtcRegime::Neutral),
        regime_points(BtcRegime::Neutral) > regime_points(BtcRegime::Bear),
        regime_points(BtcRegime::Bear) == 0 && regime_points(BtcRegime::Panic) == 0,
{
}

/// What a round trip costs in risks: times the risk it is the fee of both ways,
/// wherever the decimals divide evenly. A wider stop makes it cheaper.
pub proof fn law_cost_in_risks(risk: Dec)
    requires
        decimal_rules(),
        risk.pos(),
        goes_into(risk, round_trip()),
    ensures
        cost_in_r(risk) matches Some(Some(x)) && x.units() * risk.units() == round_trip().units() * dec(
            1,
            0,
        ).units(),
{
    law_even_quotients_are_exact(round_trip(), risk);
}

} // verus!

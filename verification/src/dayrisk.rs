//! UTC daily loss halt (USDT and/or R). Only the next UTC day lifts it.
//!
//! 1R USDT = `day_start_equity × risk_pct`. The layers are joined by "or": day
//! profit ≤ −limit, or ≤ −(R limit × 1R), halts new entries. A zero R limit or
//! risk percent switches the R layer off.
use crate::dec::{
    dec, decimal_product, decimal_rules, law_short_sums_are_exact, minus, n_mul, n_sub, short,
    times, Dec, Num,
};
use crate::models::{EngineState, EngineStateView};
use crate::sessions::{date_text, seconds_of, utc_date};
use crate::text::{own, same};
use vstd::prelude::*;

verus! {

pub fn default_daily_loss_usdt() -> (r: Dec)
    ensures
        r == dec(20, 0),
{
    Dec::from_int(20)
}

/// Default daily R budget. Account-scaled; sits on top of the USDT limit.
pub fn default_daily_loss_r() -> (r: Dec)
    ensures
        r == dec(3, 0),
{
    Dec::from_int(3)
}

/// The date that the day's numbers belong to.
pub open spec fn day_key(now: int) -> Option<Seq<char>> {
    date_text(seconds_of(now) as i64)
}

pub fn utc_day_key(now: i64) -> (r: Option<String>)
    ensures
        match r {
            Some(t) => day_key(now as int) == Some(t@),
            None => day_key(now as int) is None,
        },
{
    utc_date(now)
}

/// The size of 1R; the inner `None` says that the R layer is off.
pub open spec fn one_r(start_equity: Dec, risk_pct: Dec) -> Option<Option<Dec>> {
    if !risk_pct.pos() || !start_equity.pos() {
        Some(None)
    } else {
        match n_mul(Some(start_equity), Some(risk_pct)) {
            Some(one) => Some(
                if one.pos() {
                    Some(one)
                } else {
                    None
                },
            ),
            None => None,
        }
    }
}

/// 1R in USDT from day-start equity and the risk percent.
pub fn one_r_usdt(start_equity: Dec, risk_pct: Dec) -> (r: Option<Option<Dec>>)
    ensures
        r == one_r(start_equity, risk_pct),
{
    if !risk_pct.is_pos() || !start_equity.is_pos() {
        return Some(None);
    }
    match times(Some(start_equity), Some(risk_pct)) {
        Some(one) => if one.is_pos() {
            Some(Some(one))
        } else {
            Some(None)
        },
        None => None,
    }
}

/// USDT size of the R budget, zero where the layer is off.
pub open spec fn r_budget(start_equity: Dec, risk_pct: Dec, loss_r: Dec) -> Num {
    match one_r(start_equity, risk_pct) {
        Some(Some(one)) => if loss_r.pos() {
            n_mul(Some(one), Some(loss_r))
        } else {
            Some(dec(0, 0))
        },
        Some(None) => Some(dec(0, 0)),
        None => None,
    }
}

pub fn r_budget_usdt(start_equity: Dec, risk_pct: Dec, loss_r: Dec) -> (r: Num)
    ensures
        r == r_budget(start_equity, risk_pct, loss_r),
{
    match one_r_usdt(start_equity, risk_pct) {
        Some(Some(one)) => if loss_r.is_pos() {
            times(Some(one), Some(loss_r))
        } else {
            Some(Dec::zero())
        },
        Some(None) => Some(Dec::zero()),
        None => None,
    }
}

/// The day's loss account.
#[derive(Debug)]
pub struct DayRisk {
    pub day_utc: String,
    pub start_equity: Dec,
    pub halt: bool,
    pub pnl: Dec,
}

/// The day's loss account, text as characters.
pub struct DayRiskView {
    pub day_utc: Seq<char>,
    pub start_equity: Dec,
    pub halt: bool,
    pub pnl: Dec,
}

impl View for DayRisk {
    type V = DayRiskView;

    open spec fn view(&self) -> DayRiskView {
        DayRiskView {
            day_utc: self.day_utc@,
            start_equity: self.start_equity,
            halt: self.halt,
            pnl: self.pnl,
        }
    }
}

/// Whether a limit is on and the profit is at or below its negative.
pub open spec fn trips(limit: Dec, pnl: Dec) -> bool {
    limit.pos() && pnl.units() <= -limit.units()
}

/// The limits of a day: USDT, R count, and the risk percent behind 1R.
#[derive(Debug, Clone, Copy)]
pub struct DayLimits {
    pub usdt_limit: Dec,
    pub loss_r: Dec,
    pub risk_pct: Dec,
}

/// The account of the day that is `today`: a new day, or one without a start,
/// begins at the present equity; else a limit that trips halts, and a halt stays.
pub open spec fn day_risk(
    day_utc: Seq<char>,
    start_equity: Option<Dec>,
    halt: bool,
    today: Seq<char>,
    equity: Dec,
    limits: DayLimits,
) -> Option<DayRiskView> {
    if day_utc.len() == 0 || day_utc != today || start_equity is None {
        Some(DayRiskView { day_utc: today, start_equity: equity, halt: false, pnl: dec(0, 0) })
    } else {
        let start = start_equity->0;
        match (n_sub(Some(equity), Some(start)), r_budget(start, limits.risk_pct, limits.loss_r)) {
            (Some(pnl), Some(budget)) => Some(
                DayRiskView {
                    day_utc,
                    start_equity: start,
                    halt: halt || trips(limits.usdt_limit, pnl) || trips(budget, pnl),
                    pnl,
                },
            ),
            _ => None,
        }
    }
}

fn tripped(limit: Dec, pnl: Dec) -> (r: bool)
    ensures
        r == trips(limit, pnl),
{
    limit.is_pos() && pnl <= limit.neg()
}

/// The day's account at `now`; `None` where a number or the date leaves its range.
pub fn evaluate(
    day_utc: &str,
    start_equity: Option<Dec>,
    halt: bool,
    now: i64,
    equity: Dec,
    limits: DayLimits,
) -> (r: Option<DayRisk>)
    ensures
        match (day_key(now as int), r) {
            (Some(today), Some(d)) => day_risk(day_utc@, start_equity, halt, today, equity, limits)
                == Some(d@),
            (Some(today), None) => day_risk(
                day_utc@,
                start_equity,
                halt,
                today,
                equity,
                limits,
            ) is None,
            (None, _) => r is None,
        },
{
    let today = match utc_day_key(now) {
        Some(t) => t,
        None => return None,
    };
    if day_utc.is_empty() || !same(day_utc, today.as_str()) {
        return Some(
            DayRisk { day_utc: today, start_equity: equity, halt: false, pnl: Dec::zero() },
        );
    }
    match start_equity {
        None => Some(
            DayRisk { day_utc: today, start_equity: equity, halt: false, pnl: Dec::zero() },
        ),
        Some(start) => {
            match (
                minus(Some(equity), Some(start)),
                r_budget_usdt(start, limits.risk_pct, limits.loss_r),
            ) {
                (Some(pnl), Some(budget)) => Some(
                    DayRisk {
                        day_utc: own(day_utc),
                        start_equity: start,
                        halt: halt || tripped(limits.usdt_limit, pnl) || tripped(budget, pnl),
                        pnl,
                    },
                ),
                _ => None,
            }
        },
    }
}

/// The state with the day's account written back.
pub open spec fn with_day_risk(s: EngineStateView, d: DayRiskView) -> EngineStateView {
    EngineStateView {
        day_utc: d.day_utc,
        day_start_equity: Some(d.start_equity),
        daily_halt: d.halt,
        ..s
    }
}

/// The day's account for a state at an instant.
pub open spec fn state_day_risk(
    s: EngineStateView,
    now: int,
    equity: Dec,
    limits: DayLimits,
) -> Option<DayRiskView> {
    match day_key(now) {
        Some(today) => day_risk(
            s.day_utc,
            s.day_start_equity,
            s.daily_halt,
            today,
            equity,
            limits,
        ),
        None => None,
    }
}

/// Brings the state's day up to date; leaves it alone where that is not possible.
pub fn apply_day_risk(state: &mut EngineState, now: i64, equity: Dec, limits: DayLimits) -> (r:
    Option<DayRisk>)
    ensures
        match (state_day_risk(old(state)@, now as int, equity, limits), r) {
            (Some(d), Some(got)) => got@ == d && final(state)@ == with_day_risk(old(state)@, d),
            (None, None) => final(state)@ == old(state)@,
            _ => false,
        },
{
    match evaluate(
        state.day_utc.as_str(),
        state.day_start_equity,
        state.daily_halt,
        now,
        equity,
        limits,
    ) {
        Some(risk) => {
            state.day_utc = risk.day_utc.clone();
            state.day_start_equity = Some(risk.start_equity);
            state.daily_halt = risk.halt;
            Some(risk)
        },
        None => None,
    }
}

/// Within a day a halt is sticky and the start does not move; a new day lifts
/// the halt and starts at the equity of that moment.
pub proof fn law_halt_lasts_the_day(
    day_utc: Seq<char>,
    start: Dec,
    halt: bool,
    today: Seq<char>,
    equity: Dec,
    limits: DayLimits,
)
    ensures
        day_utc.len() > 0 && day_utc == today ==> (day_risk(
            day_utc,
            Some(start),
            halt,
            today,
            equity,
            limits,
        ) matches Some(d) ==> (halt ==> d.halt) && d.start_equity == start && d.day_utc == day_utc),
        day_utc != today ==> (day_risk(day_utc, Some(start), halt, today, equity, limits) matches
            Some(d) && !d.halt && d.start_equity == equity && d.day_utc == today),
{
}

/// Either layer halts on its own.
pub proof fn law_layers_are_joined_by_or(
    today: Seq<char>,
    start: Dec,
    equity: Dec,
    limits: DayLimits,
)
    requires
        today.len() > 0,
    ensures
        day_risk(today, Some(start), false, today, equity, limits) matches Some(d) ==> (d.halt
            <==> trips(limits.usdt_limit, d.pnl) || trips(
            r_budget(start, limits.risk_pct, limits.loss_r)->0,
            d.pnl,
        )),
{
}

/// Without a positive R limit or risk percent the R layer never trips.
pub proof fn law_r_layer_can_be_switched_off(start: Dec, limits: DayLimits, pnl: Dec)
    requires
        !limits.loss_r.pos() || !limits.risk_pct.pos(),
    ensures
        r_budget(start, limits.risk_pct, limits.loss_r) matches Some(b) ==> !trips(b, pnl),
{
    crate::dec::lemma_dec_parts(0, 0);
    crate::dec::lemma_units_sign(dec(0, 0));
}

/// When a day halts: exactly where the equity has fallen from the day's start by at
/// least a limit that is on, be it the amount or the number of risks, and from then
/// on. A rise never halts.
pub proof fn law_day_halts_at_its_limits(
    day: Seq<char>,
    start: Dec,
    halt: bool,
    equity: Dec,
    limits: DayLimits,
    budget: Dec,
)
    requires
        day.len() > 0,
        decimal_rules(),
        short(equity, start),
        start.pos() && limits.risk_pct.pos() && limits.loss_r.pos(),
        decimal_product(start, limits.risk_pct) matches Some(one) && one.pos(),
        n_mul(decimal_product(start, limits.risk_pct), Some(limits.loss_r)) == Some(budget),
    ensures
        ({
            let d = day_risk(day, Some(start), halt, day, equity, limits);
            let fall = start.units() - equity.units();
            &&& d is Some
            &&& d->0.pnl.units() == -fall
            &&& d->0.halt <==> {
                ||| halt
                ||| limits.usdt_limit.pos() && fall >= limits.usdt_limit.units()
                ||| budget.pos() && fall >= budget.units()
            }
            &&& fall <= 0 && !halt ==> !d->0.halt
        }),
{
    law_short_sums_are_exact(equity, start);
}

} // verus!

//! Decimal helpers for prices and quantities.
use crate::dec::{
    ceiled, dec as decimal, decimal_difference, decimal_normal, decimal_parse, decimal_product,
    decimal_quotient, decimal_rules, decimal_sum, decimal_text, floored, law_floor_and_ceiling,
    law_short_products_are_exact, law_short_sums_are_exact, minus, n_add, n_div, n_mul, n_sub, over,
    plus, short, short_product, times, Dec, Num,
};
use crate::text::{own, trim, trimmed};
use vstd::prelude::*;
use vstd::string::StringExecFns;

verus! {

/// What is wrong with an amount.
#[derive(Debug)]
pub enum MoneyError {
    Missing,
    Invalid(String),
    NotPositive(&'static str, Dec),
    NonPositiveStep,
    /// The result leaves the decimal range.
    Overflow,
}

impl MoneyError {
    pub open spec fn text(self) -> Seq<char> {
        match self {
            MoneyError::Missing => "missing numeric value"@,
            MoneyError::Invalid(v) => "not a decimal: "@ + v@,
            MoneyError::NotPositive(name, v) => name@ + " must be positive, got "@ + decimal_text(v),
            MoneyError::NonPositiveStep => "step must be positive"@,
            MoneyError::Overflow => "decimal overflow"@,
        }
    }

    pub fn message(&self) -> (r: String)
        ensures
            r@ == self.text(),
    {
        match self {
            MoneyError::Missing => own("missing numeric value"),
            MoneyError::Invalid(v) => {
                let mut out = own("not a decimal: ");
                out.append(v.as_str());
                out
            },
            MoneyError::NotPositive(name, v) => {
                let mut out = own(name);
                out.append(" must be positive, got ");
                out.append(v.text().as_str());
                out
            },
            MoneyError::NonPositiveStep => own("step must be positive"),
            MoneyError::Overflow => own("decimal overflow"),
        }
    }
}

/// Reads an amount, white space around it aside.
pub fn dec(value: &str) -> (r: Result<Dec, MoneyError>)
    ensures
        ({
            let t = trimmed(value@);
            match r {
                Ok(d) => t.len() > 0 && decimal_parse(t) == Some(d),
                Err(MoneyError::Missing) => t.len() == 0,
                Err(MoneyError::Invalid(v)) => t.len() > 0 && decimal_parse(t) is None && v@
                    == value@,
                Err(_) => false,
            }
        }),
{
    let t = trim(value);
    if t.is_empty() {
        return Err(MoneyError::Missing);
    }
    match Dec::parse(t) {
        Some(d) => Ok(d),
        None => Err(MoneyError::Invalid(own(value))),
    }
}

/// The amount that a text stands for, white space around it aside.
pub open spec fn amount(text: Seq<char>) -> Option<Dec> {
    if trimmed(text).len() == 0 {
        None
    } else {
        decimal_parse(trimmed(text))
    }
}

/// Reads an amount, white space around it aside; none where the text is none.
pub fn read_amount(text: &str) -> (r: Option<Dec>)
    ensures
        r == amount(text@),
{
    match dec(text) {
        Ok(d) => Some(d),
        Err(_) => None,
    }
}

pub fn require_positive(value: Dec, name: &'static str) -> (r: Result<Dec, MoneyError>)
    ensures
        match r {
            Ok(d) => value.pos() && d == value,
            Err(MoneyError::NotPositive(n, d)) => !value.pos() && n == name && d == value,
            Err(_) => false,
        },
{
    if !value.is_pos() {
        return Err(MoneyError::NotPositive(name, value));
    }
    Ok(value)
}

/// `value` moved to a multiple of `step`.
pub open spec fn quantized(value: Dec, step: Dec, round_up: bool) -> Num {
    match n_div(Some(value), Some(step)) {
        Some(u) => n_mul(
            Some(
                if round_up {
                    ceiled(u)
                } else {
                    floored(u)
                },
            ),
            Some(step),
        ),
        None => None,
    }
}

/// Rounds to a multiple of a positive step, up or down.
pub fn quantize_to_step(value: Dec, step: Dec, round_up: bool) -> (r: Result<Dec, MoneyError>)
    ensures
        match r {
            Ok(d) => step.pos() && quantized(value, step, round_up) == Some(d),
            Err(MoneyError::NonPositiveStep) => !step.pos(),
            Err(MoneyError::Overflow) => step.pos() && quantized(value, step, round_up) is None,
            Err(_) => false,
        },
{
    if !step.is_pos() {
        return Err(MoneyError::NonPositiveStep);
    }
    match over(Some(value), Some(step)) {
        Some(u) => {
            let rounded: Dec = if round_up {
                u.ceil()
            } else {
                u.floor()
            };
            match times(Some(rounded), Some(step)) {
                Some(d) => Ok(d),
                None => Err(MoneyError::Overflow),
            }
        },
        None => Err(MoneyError::Overflow),
    }
}

/// Prints without trailing zeros.
pub open spec fn fixed_text(value: Dec) -> Seq<char> {
    decimal_text(decimal_normal(value))
}

/// Prints without trailing zeros.
pub fn fmt_fixed(value: Dec) -> (r: String)
    ensures
        r@ == fixed_text(value),
{
    value.normalize().text()
}

/// Taker fee, one side.
pub open spec fn taker() -> Dec {
    decimal(4, 4)
}

/// Taker fee, one side: 0.0004.
pub fn taker_fee() -> (r: Dec)
    ensures
        r == taker(),
{
    Dec::new(4, 4)
}

/// Taker fee in and out.
pub open spec fn round_trip() -> Dec {
    decimal(8, 4)
}

/// Taker fee in and out: 0.0008.
pub fn round_trip_taker_pct() -> (r: Dec)
    ensures
        r == round_trip(),
{
    Dec::new(8, 4)
}

/// The round trip costs one taker fee on each side.
pub proof fn law_round_trip_is_two_takers()
    ensures
        round_trip().m() == 2 * taker().m(),
        round_trip().s() == taker().s(),
{
    crate::dec::lemma_dec_parts(4, 4);
    crate::dec::lemma_dec_parts(8, 4);
}

/// Fees on both legs of a round trip.
pub open spec fn legs_fee(entry: Dec, exit_price: Dec, qty: Dec, fee_rate: Dec) -> Num {
    n_mul(n_mul(n_add(Some(entry), Some(exit_price)), Some(qty)), Some(fee_rate))
}

/// Profit of a closed long after fees.
pub open spec fn net_long_pnl(entry: Dec, exit_price: Dec, qty: Dec, fee_rate: Dec) -> Num {
    n_sub(
        n_mul(n_sub(Some(exit_price), Some(entry)), Some(qty)),
        legs_fee(entry, exit_price, qty, fee_rate),
    )
}

/// Net profit of a closed long and the fees in it.
pub fn long_pnl(entry: Dec, exit_price: Dec, qty: Dec, fee_rate: Dec) -> (r: Option<(Dec, Dec)>)
    ensures
        match (
            net_long_pnl(entry, exit_price, qty, fee_rate),
            legs_fee(entry, exit_price, qty, fee_rate),
        ) {
            (Some(net), Some(fee)) => r == Some((net, fee)),
            _ => r is None,
        },
{
    let fee: Num = times(times(plus(Some(entry), Some(exit_price)), Some(qty)), Some(fee_rate));
    let net: Num = minus(times(minus(Some(exit_price), Some(entry)), Some(qty)), fee);
    match (net, fee) {
        (Some(n), Some(f)) => Some((n, f)),
        _ => None,
    }
}

/// An amount moved to a step is a whole number of steps: the largest one that the
/// amount over the step is not below, or, rounding up, the least one not below it.
pub proof fn law_steps_are_whole(value: Dec, step: Dec, steps: Dec)
    requires
        decimal_quotient(value, step) == Some(steps),
        steps.wf(),
    ensures
        exists|k: Dec|
            {
                &&& k.s() == 0 && k.le(steps) && steps.units() < k.units() + decimal(1, 0).units()
                &&& quantized(value, step, false) == #[trigger] decimal_product(k, step)
            },
        exists|k: Dec|
            {
                &&& k.s() == 0 && steps.le(k) && k.units() < steps.units() + decimal(1, 0).units()
                &&& quantized(value, step, true) == #[trigger] decimal_product(k, step)
            },
{
    law_floor_and_ceiling(steps);
    assert(quantized(value, step, false) == decimal_product(floored(steps), step));
    assert(quantized(value, step, true) == decimal_product(ceiled(steps), step));
}

/// What a closed long made, wherever the decimals hold all digits: the way from the
/// entry to the exit for each piece, less the fee's share of what was paid and of
/// what was got. So, fees aside, a long makes money exactly by being sold above its
/// entry.
pub proof fn law_long_profit(entry: Dec, exit_price: Dec, qty: Dec, fee_rate: Dec)
    requires
        decimal_rules(),
        short(exit_price, entry),
        short(entry, exit_price),
        ({
            let way = decimal_difference(exit_price, entry)->0;
            let both = decimal_sum(entry, exit_price)->0;
            let turnover = decimal_product(both, qty)->0;
            &&& short_product(way, qty)
            &&& short_product(both, qty)
            &&& short_product(turnover, fee_rate)
            &&& short(decimal_product(way, qty)->0, decimal_product(turnover, fee_rate)->0)
        }),
    ensures
        ({
            let one = decimal(1, 0).units();
            &&& legs_fee(entry, exit_price, qty, fee_rate) matches Some(fee) && fee.units() * one * one
                == (entry.units() + exit_price.units()) * qty.units() * fee_rate.units()
            &&& net_long_pnl(entry, exit_price, qty, fee_rate) matches Some(pnl) && (pnl.units()
                + legs_fee(entry, exit_price, qty, fee_rate)->0.units()) * one == (
            exit_price.units() - entry.units()) * qty.units()
        }),
{
    let one = decimal(1, 0).units();
    law_short_sums_are_exact(exit_price, entry);
    law_short_sums_are_exact(entry, exit_price);
    let way = decimal_difference(exit_price, entry)->0;
    let both = decimal_sum(entry, exit_price)->0;
    law_short_products_are_exact(way, qty);
    law_short_products_are_exact(both, qty);
    let gross = decimal_product(way, qty)->0;
    let turnover = decimal_product(both, qty)->0;
    law_short_products_are_exact(turnover, fee_rate);
    let fee = decimal_product(turnover, fee_rate)->0;
    law_short_sums_are_exact(gross, fee);
    let a = fee.units();
    let b = turnover.units();
    let c = fee_rate.units();
    let d = both.units();
    let q = qty.units();
    assert(a * one * one == d * q * c) by (nonlinear_arith)
        requires
            a * one == b * c,
            b * one == d * q,
    ;
}

} // verus!

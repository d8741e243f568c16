//! Exchange helpers: sizing, the shape of protective orders, and what is read of
//! the exchange's documents.
pub mod client;

use crate::dec::{
    dec, decimal_difference, decimal_product, decimal_quotient, decimal_rules, decimal_text,
    goes_into, law_even_quotients_are_exact, minus, n_add, n_div, n_mul, n_sub, over, plus, times,
    Dec, Num,
};
use crate::json::{amount_error, amount_in, amount_or_zero, opt_json, read_or_zero, require_amount, Json};
use crate::models::{or_empty, Account, Position, Side};
use crate::money::{amount, quantize_to_step, quantized, read_amount, MoneyError};
use crate::profit::{current_equity, equity_of};
use crate::ranking::{is_tradable, is_tradable_symbol};
use crate::signing::{
    drop_param, lemma_drop_keeps_keys, lemma_put_keeps_keys, param_of, put_param, Params,
};
use crate::text::{int_value, lower, own, parse_i64, same, trim, trimmed, upper};
use vstd::prelude::*;
use vstd::string::StringExecFns;

verus! {

/// What the exchange, or the way to it, said went wrong.
#[derive(Debug)]
pub struct ExchangeError(pub String);

impl View for ExchangeError {
    type V = Seq<char>;

    open spec fn view(&self) -> Seq<char> {
        self.0@
    }
}

impl Clone for ExchangeError {
    fn clone(&self) -> (r: Self)
        ensures
            r@ == self@,
    {
        ExchangeError(own(self.0.as_str()))
    }
}

fn fault(text: &str) -> (r: ExchangeError)
    ensures
        r@ == text@,
{
    ExchangeError(own(text))
}

/// Steps and minimums of a symbol.
#[derive(Debug, Clone, Copy)]
pub struct SymbolFilters {
    pub tick_size: Dec,
    pub step_size: Dec,
    pub min_qty: Dec,
    pub min_notional: Dec,
}

/// A quantity, what is wrong with an order, or that a number left the decimal
/// range.
pub enum Sized {
    Qty(Dec),
    Refused(Seq<char>),
    Overflow,
}

/// Why an amount cannot be moved to a step.
pub open spec fn step_error() -> Seq<char> {
    "step must be positive"@
}

/// `value` moved to a multiple of `step`.
pub open spec fn stepped(value: Num, step: Dec, round_up: bool) -> Sized {
    match value {
        None => Sized::Overflow,
        Some(v) => if !step.pos() {
            Sized::Refused(step_error())
        } else {
            match quantized(v, step, round_up) {
                Some(q) => Sized::Qty(q),
                None => Sized::Overflow,
            }
        },
    }
}

fn step_to(value: Num, step: Dec, round_up: bool) -> (r: Option<Result<Dec, ExchangeError>>)
    ensures
        sized_view(r) == stepped(value, step, round_up),
{
    match quantize_to_step(value?, step, round_up) {
        Ok(q) => Some(Ok(q)),
        Err(MoneyError::Overflow) => None,
        Err(_) => Some(Err(fault("step must be positive"))),
    }
}

/// The reading of a sizing result; the outer `None` says that a number left the
/// decimal range.
pub open spec fn sized_view(r: Option<Result<Dec, ExchangeError>>) -> Sized {
    match r {
        None => Sized::Overflow,
        Some(Ok(q)) => Sized::Qty(q),
        Some(Err(e)) => Sized::Refused(e@),
    }
}

/// The larger of a quantity and the smallest one that can be traded.
pub open spec fn at_least_min(qty: Dec, f: SymbolFilters) -> Dec {
    if qty.lt(f.min_qty) {
        f.min_qty
    } else {
        qty
    }
}

/// Whether an order is smaller than the exchange takes.
pub open spec fn below_minimum(qty: Dec, price: Dec, f: SymbolFilters) -> Option<bool> {
    match n_mul(Some(qty), Some(price)) {
        Some(n) => Some(n.lt(f.min_notional)),
        None => None,
    }
}

/// What an order that stays below the minimum is told.
pub open spec fn minimum_error(f: SymbolFilters) -> Seq<char> {
    "notional below exchange minimum ("@ + decimal_text(f.min_notional) + " USDT)"@
}

/// The quantity once it is accepted: positive, and worth the minimum.
pub open spec fn accepted(qty: Dec, price: Dec, f: SymbolFilters) -> Sized {
    if !qty.pos() {
        Sized::Refused(minimum_error(f))
    } else {
        match below_minimum(qty, price, f) {
            None => Sized::Overflow,
            Some(true) => Sized::Refused(minimum_error(f)),
            Some(false) => Sized::Qty(qty),
        }
    }
}

/// The quantity of a market order worth `notional`: rounded down to the step,
/// raised to the minimum where it stays below it.
pub open spec fn market_size(notional: Dec, price: Dec, f: SymbolFilters) -> Sized {
    if !price.pos() {
        Sized::Refused("cannot size order at non-positive price"@)
    } else if !notional.pos() {
        Sized::Refused("cannot size order at non-positive notional"@)
    } else {
        let target = if f.min_notional.le(notional) {
            notional
        } else {
            f.min_notional
        };
        match stepped(n_div(Some(target), Some(price)), f.step_size, false) {
            Sized::Qty(q) => {
                let first = at_least_min(q, f);
                match below_minimum(first, price, f) {
                    None => Sized::Overflow,
                    Some(false) => accepted(first, price, f),
                    Some(true) => match stepped(
                        n_div(Some(f.min_notional), Some(price)),
                        f.step_size,
                        true,
                    ) {
                        Sized::Qty(up) => accepted(at_least_min(up, f), price, f),
                        other => other,
                    },
                }
            },
            other => other,
        }
    }
}

fn raise_to_min(qty: Dec, f: &SymbolFilters) -> (r: Dec)
    ensures
        r == at_least_min(qty, *f),
{
    if qty < f.min_qty {
        f.min_qty
    } else {
        qty
    }
}

fn is_below_minimum(qty: Dec, price: Dec, f: &SymbolFilters) -> (r: Option<bool>)
    ensures
        r == below_minimum(qty, price, *f),
{
    let n: Dec = times(Some(qty), Some(price))?;
    Some(n < f.min_notional)
}

fn accept(qty: Dec, price: Dec, f: &SymbolFilters) -> (r: Option<Result<Dec, ExchangeError>>)
    ensures
        sized_view(r) == accepted(qty, price, *f),
{
    if qty.is_pos() && !is_below_minimum(qty, price, f)? {
        return Some(Ok(qty));
    }
    let mut text = own("notional below exchange minimum (");
    text.append(f.min_notional.text().as_str());
    text.append(" USDT)");
    Some(Err(ExchangeError(text)))
}

/// Sizes a market order. The outer `None` says that a number left the decimal
/// range.
pub fn size_market_order(notional: Dec, price: Dec, filters: &SymbolFilters) -> (r: Option<
    Result<Dec, ExchangeError>,
>)
    ensures
        sized_view(r) == market_size(notional, price, *filters),
{
    if !price.is_pos() {
        return Some(Err(fault("cannot size order at non-positive price")));
    }
    if !notional.is_pos() {
        return Some(Err(fault("cannot size order at non-positive notional")));
    }
    let target: Dec = if notional >= filters.min_notional {
        notional
    } else {
        filters.min_notional
    };
    let first: Dec = match step_to(over(Some(target), Some(price)), filters.step_size, false)? {
        Ok(q) => raise_to_min(q, filters),
        Err(e) => return Some(Err(e)),
    };
    if !is_below_minimum(first, price, filters)? {
        return accept(first, price, filters);
    }
    match step_to(over(Some(filters.min_notional), Some(price)), filters.step_size, true)? {
        Ok(up) => accept(raise_to_min(up, filters), price, filters),
        Err(e) => Some(Err(e)),
    }
}

/// What sizing by risk comes to.
pub enum RiskSized {
    Qty(Dec),
    /// The smallest order would risk more than the budget.
    TooRisky,
    Refused(Seq<char>),
    Overflow,
}

pub open spec fn risk_view(r: Option<Result<Option<Dec>, ExchangeError>>) -> RiskSized {
    match r {
        None => RiskSized::Overflow,
        Some(Ok(Some(q))) => RiskSized::Qty(q),
        Some(Ok(None)) => RiskSized::TooRisky,
        Some(Err(e)) => RiskSized::Refused(e@),
    }
}

/// The quantity that risks at most `risk_pct` of the equity between the entry
/// and the stop, rounded down to the step. A symbol whose smallest order is
/// larger than that is skipped, never bumped up.
pub open spec fn risk_size(equity: Num, risk_pct: Dec, entry: Dec, stop: Dec, f: SymbolFilters) -> RiskSized {
    if !entry.pos() {
        RiskSized::Refused("cannot size order at non-positive price"@)
    } else {
        match (n_mul(equity, Some(risk_pct)), n_sub(Some(entry), Some(stop))) {
            (Some(budget), Some(distance)) => if !budget.pos() || !distance.pos() {
                RiskSized::TooRisky
            } else {
                match stepped(n_div(Some(budget), Some(distance)), f.step_size, false) {
                    Sized::Overflow => RiskSized::Overflow,
                    Sized::Refused(e) => RiskSized::Refused(e),
                    Sized::Qty(q) => if !q.pos() || q.lt(f.min_qty) {
                        RiskSized::TooRisky
                    } else {
                        match (below_minimum(q, entry, f), n_mul(Some(q), Some(distance))) {
                            (Some(small), Some(risked)) => if small || budget.lt(risked) {
                                RiskSized::TooRisky
                            } else {
                                RiskSized::Qty(q)
                            },
                            _ => RiskSized::Overflow,
                        }
                    },
                }
            },
            _ => RiskSized::Overflow,
        }
    }
}

/// Sizes an order by the risk between the entry and the stop; the inner `None`
/// where the smallest order would risk more than the budget.
pub fn size_risk_market_order(
    equity: Num,
    risk_pct: Dec,
    entry: Dec,
    stop: Dec,
    filters: &SymbolFilters,
) -> (r: Option<Result<Option<Dec>, ExchangeError>>)
    ensures
        risk_view(r) == risk_size(equity, risk_pct, entry, stop, *filters),
{
    if !entry.is_pos() {
        return Some(Err(fault("cannot size order at non-positive price")));
    }
    let budget: Dec = times(equity, Some(risk_pct))?;
    let distance: Dec = minus(Some(entry), Some(stop))?;
    if !budget.is_pos() || !distance.is_pos() {
        return Some(Ok(None));
    }
    let q: Dec = match step_to(over(Some(budget), Some(distance)), filters.step_size, false)? {
        Ok(q) => q,
        Err(e) => return Some(Err(e)),
    };
    if !q.is_pos() || q < filters.min_qty {
        return Some(Ok(None));
    }
    let small: bool = is_below_minimum(q, entry, filters)?;
    let risked: Dec = times(Some(q), Some(distance))?;
    if small || risked > budget {
        return Some(Ok(None));
    }
    Some(Ok(Some(q)))
}

/// The worth of a position that risks a share of the equity between the entry and
/// the stop; the inner `None` where there is nothing to risk or no distance.
pub open spec fn risk_notional(equity: Dec, risk_pct: Dec, entry: Dec, stop: Dec) -> Option<Option<Dec>> {
    match n_sub(Some(entry), Some(stop)) {
        None => None,
        Some(distance) => if !equity.pos() || !risk_pct.pos() || !entry.pos() || !distance.pos() {
            Some(None)
        } else {
            match n_div(
                n_mul(n_mul(Some(equity), Some(risk_pct)), Some(entry)),
                Some(distance),
            ) {
                Some(d) => Some(Some(d)),
                None => None,
            }
        },
    }
}

/// The worth of a position that risks a share of the equity between the entry and
/// the stop.
pub fn risk_position_notional(equity: Dec, risk_pct: Dec, entry: Dec, stop: Dec) -> (r: Option<
    Option<Dec>,
>)
    ensures
        r == risk_notional(equity, risk_pct, entry, stop),
{
    let distance: Dec = minus(Some(entry), Some(stop))?;
    if !equity.is_pos() || !risk_pct.is_pos() || !entry.is_pos() || !distance.is_pos() {
        return Some(None);
    }
    let d: Dec = over(
        times(times(Some(equity), Some(risk_pct)), Some(entry)),
        Some(distance),
    )?;
    Some(Some(d))
}

/// An order sized by risk never risks more than the budget, and is one that the
/// exchange takes.
pub proof fn law_risk_stays_within_the_budget(
    equity: Num,
    risk_pct: Dec,
    entry: Dec,
    stop: Dec,
    f: SymbolFilters,
)
    ensures
        match risk_size(equity, risk_pct, entry, stop, f) {
            RiskSized::Qty(q) => {
                &&& q.pos()
                &&& f.min_qty.le(q)
                &&& n_mul(Some(q), n_sub(Some(entry), Some(stop))) is Some
                &&& n_mul(Some(q), n_sub(Some(entry), Some(stop)))->0.le(
                    n_mul(equity, Some(risk_pct))->0,
                )
                &&& n_mul(Some(q), Some(entry)) is Some
                &&& f.min_notional.le(n_mul(Some(q), Some(entry))->0)
            },
            _ => true,
        },
{
}

/// A market order that is sized is positive and worth the exchange's minimum.
pub proof fn law_sized_orders_meet_the_minimum(notional: Dec, price: Dec, f: SymbolFilters)
    ensures
        match market_size(notional, price, f) {
            Sized::Qty(q) => {
                &&& q.pos()
                &&& n_mul(Some(q), Some(price)) is Some
                &&& f.min_notional.le(n_mul(Some(q), Some(price))->0)
            },
            _ => true,
        },
{
}

/// Parameters as the conditional-order endpoint wants them.
pub open spec fn algo_params(p: Seq<(Seq<char>, Seq<char>)>) -> Seq<(Seq<char>, Seq<char>)> {
    let typed = if param_of(p, "algoType"@) is Some {
        p
    } else {
        put_param(p, "algoType"@, "CONDITIONAL"@)
    };
    if param_of(typed, "triggerPrice"@) is Some {
        drop_param(typed, "stopPrice"@)
    } else {
        match param_of(typed, "stopPrice"@) {
            Some(stop) => put_param(drop_param(typed, "stopPrice"@), "triggerPrice"@, stop),
            None => typed,
        }
    }
}

/// The conditional-order endpoint requires `algoType`, and `triggerPrice` in
/// place of `stopPrice`.
pub fn prepare_algo_params(params: &mut Params)
    ensures
        final(params)@ == algo_params(old(params)@),
{
    if params.get("algoType").is_none() {
        params.insert("algoType", "CONDITIONAL");
    }
    if params.get("triggerPrice").is_some() {
        params.remove("stopPrice");
    } else {
        let stop: Option<String> = match params.get("stopPrice") {
            Some(s) => Some(own(s)),
            None => None,
        };
        if let Some(s) = stop {
            params.remove("stopPrice");
            params.insert("triggerPrice", s.as_str());
        }
    }
}

/// Preparing parameters twice is preparing them once; what comes out has a type
/// and no legacy stop price beside a trigger.
pub proof fn law_prepared_params_stay(p: Seq<(Seq<char>, Seq<char>)>)
    ensures
        algo_params(algo_params(p)) == algo_params(p),
        param_of(algo_params(p), "algoType"@) is Some,
        param_of(algo_params(p), "stopPrice"@) is None,
{
    reveal_strlit("algoType");
    reveal_strlit("triggerPrice");
    reveal_strlit("stopPrice");
    assert("algoType"@.len() == 8 && "triggerPrice"@.len() == 12 && "stopPrice"@.len() == 9);
    lemma_put_keeps_keys(p, "algoType"@, "CONDITIONAL"@, "stopPrice"@);
    let typed = if param_of(p, "algoType"@) is Some {
        p
    } else {
        put_param(p, "algoType"@, "CONDITIONAL"@)
    };
    lemma_drop_keeps_keys(typed, "stopPrice"@, "algoType"@);
    lemma_drop_keeps_keys(typed, "stopPrice"@, "triggerPrice"@);
    let r = algo_params(p);
    if param_of(typed, "triggerPrice"@) is None {
        if let Some(stop) = param_of(typed, "stopPrice"@) {
            let d = drop_param(typed, "stopPrice"@);
            lemma_put_keeps_keys(d, "triggerPrice"@, stop, "algoType"@);
            lemma_put_keeps_keys(d, "triggerPrice"@, stop, "stopPrice"@);
        }
    }
    lemma_drop_keeps_keys(r, "stopPrice"@, "algoType"@);
}

/// A protective sell of an open long: reduce-only and sized, never one that
/// closes whatever is open.
#[derive(Debug, Clone, Copy)]
pub struct ProtectiveSell {
    pub side: &'static str,
    pub order_type: &'static str,
    pub quantity: Dec,
    pub reduce_only: bool,
    pub close_position: bool,
    pub trigger_price: Dec,
}

/// What is wrong with the numbers of protective orders.
pub open spec fn protective_error(qty: Dec, stop_loss: Dec, take_profit: Dec) -> Option<Seq<char>> {
    if !qty.pos() {
        Some("protective qty must be positive"@)
    } else if !stop_loss.pos() || !take_profit.pos() || take_profit.le(stop_loss) {
        Some("protective prices invalid"@)
    } else {
        None
    }
}

/// The stop and the take-profit of a long.
pub fn sized_long_protectives(qty: Dec, stop_loss: Dec, take_profit: Dec) -> (r: Result<
    Vec<ProtectiveSell>,
    ExchangeError,
>)
    ensures
        match r {
            Ok(v) => {
                &&& protective_error(qty, stop_loss, take_profit) is None
                &&& v@ == seq![
                    ProtectiveSell {
                        side: "SELL",
                        order_type: "STOP_MARKET",
                        quantity: qty,
                        reduce_only: true,
                        close_position: false,
                        trigger_price: stop_loss,
                    },
                    ProtectiveSell {
                        side: "SELL",
                        order_type: "TAKE_PROFIT_MARKET",
                        quantity: qty,
                        reduce_only: true,
                        close_position: false,
                        trigger_price: take_profit,
                    },
                ]
            },
            Err(e) => protective_error(qty, stop_loss, take_profit) == Some(e@),
        },
{
    if !qty.is_pos() {
        return Err(fault("protective qty must be positive"));
    }
    if !stop_loss.is_pos() || !take_profit.is_pos() || stop_loss >= take_profit {
        return Err(fault("protective prices invalid"));
    }
    let mut v: Vec<ProtectiveSell> = Vec::new();
    v.push(
        ProtectiveSell {
            side: "SELL",
            order_type: "STOP_MARKET",
            quantity: qty,
            reduce_only: true,
            close_position: false,
            trigger_price: stop_loss,
        },
    );
    v.push(
        ProtectiveSell {
            side: "SELL",
            order_type: "TAKE_PROFIT_MARKET",
            quantity: qty,
            reduce_only: true,
            close_position: false,
            trigger_price: take_profit,
        },
    );
    Ok(v)
}

/// Whether a value says yes.
pub open spec fn says_true(v: Option<Json>) -> bool {
    match v {
        Some(Json::Bool(b)) => b,
        Some(Json::Text(t)) => lower(trimmed(t@)) == lower("true"@),
        _ => false,
    }
}

fn flag_true(v: Option<&Json>) -> (r: bool)
    ensures
        r == says_true(opt_json(v)),
{
    match v {
        Some(Json::Bool(b)) => *b,
        Some(Json::Text(t)) => trim(t.as_str()).eq_ignore_ascii_case("true"),
        _ => false,
    }
}

/// Whether an order row is a sell.
pub open spec fn is_sell(row: Json) -> bool {
    lower(or_empty(row.text_at("side"@))) == lower("SELL"@)
}

/// The type of an order row, in upper case.
pub open spec fn order_type_of(row: Json) -> Seq<char> {
    match row.field_or("orderType"@, "type"@) {
        Some(v) => upper(or_empty(v.as_text())),
        None => upper(""@),
    }
}

pub open spec fn is_stop(row: Json) -> bool {
    order_type_of(row) == "STOP_MARKET"@ || order_type_of(row) == "STOP"@
}

pub open spec fn is_take_profit(row: Json) -> bool {
    order_type_of(row) == "TAKE_PROFIT_MARKET"@ || order_type_of(row) == "TAKE_PROFIT"@
}

/// The quantity of an order row.
pub open spec fn order_qty(row: Json) -> Option<Dec> {
    match row.field("quantity"@) {
        Some(Json::Text(t)) => amount(t@),
        Some(Json::Number(n)) => match n.plain {
            Some(t) => amount(t@),
            None => amount("0"@),
        },
        _ => amount("0"@),
    }
}

/// Whether a sell is sized: it has a positive quantity and does not close
/// whatever is open.
pub open spec fn is_sized(row: Json) -> bool {
    !says_true(row.field("closePosition"@)) && order_qty(row) is Some && order_qty(row)->0.pos()
}

/// Whether the open sells are a sized stop and a sized take-profit.
pub open spec fn protectives_sized(rows: Seq<Json>) -> bool {
    let sells = rows.filter(|row: Json| is_sell(row));
    &&& sells.len() >= 2
    &&& forall|i: int| 0 <= i < sells.len() ==> is_sized(#[trigger] sells[i])
    &&& exists|i: int| 0 <= i < sells.len() && is_stop(#[trigger] sells[i])
    &&& exists|i: int| 0 <= i < sells.len() && is_take_profit(#[trigger] sells[i])
}

fn read_order_type(row: &Json) -> (r: String)
    ensures
        r@ == order_type_of(*row),
{
    match row.get_or("orderType", "type") {
        Some(Json::Text(t)) => t.as_str().to_ascii_uppercase(),
        _ => "".to_ascii_uppercase(),
    }
}

fn sell_is_sized(row: &Json) -> (r: bool)
    ensures
        r == is_sized(*row),
{
    if flag_true(row.get("closePosition")) {
        return false;
    }
    let qty: Option<Dec> = match row.get("quantity") {
        Some(Json::Text(t)) => read_amount(t.as_str()),
        Some(Json::Number(n)) => match &n.plain {
            Some(t) => read_amount(t.as_str()),
            None => read_amount("0"),
        },
        _ => read_amount("0"),
    };
    match qty {
        Some(q) => q.is_pos(),
        None => false,
    }
}

/// Whether the open sells are a sized stop and a sized take-profit.
pub fn sell_protectives_are_sized(rows: &[Json]) -> (r: bool)
    ensures
        r == protectives_sized(rows@),
{
    let ghost test = |row: Json| is_sell(row);
    let ghost sells = rows@.filter(test);
    let mut count: usize = 0;
    let mut has_stop: bool = false;
    let mut has_tp: bool = false;
    let mut all_sized: bool = true;
    let mut i: usize = 0;
    proof {
        reveal(Seq::filter);
        assert(rows@.take(0).filter(test) =~= Seq::<Json>::empty());
    }
    while i < rows.len()
        invariant
            i <= rows@.len(),
            count <= i,
            test == (|row: Json| is_sell(row)),
            ({
                let seen = rows@.take(i as int).filter(test);
                &&& count == seen.len()
                &&& all_sized == (forall|j: int| 0 <= j < seen.len() ==> is_sized(#[trigger] seen[j]))
                &&& has_stop == (exists|j: int| 0 <= j < seen.len() && is_stop(#[trigger] seen[j]))
                &&& has_tp == (exists|j: int|
                    0 <= j < seen.len() && is_take_profit(#[trigger] seen[j]))
            }),
        decreases rows@.len() - i,
    {
        let ghost seen = rows@.take(i as int).filter(test);
        let ghost more = rows@.take(i as int + 1).filter(test);
        proof {
            reveal(Seq::filter);
            assert(rows@.take(i as int + 1).drop_last() =~= rows@.take(i as int));
        }
        let row: &Json = &rows[i];
        let side: &str = match row.get_text("side") {
            Some(s) => s,
            None => "",
        };
        if side.eq_ignore_ascii_case("SELL") {
            proof {
                assert(more == seen.push(*row));
            }
            count = count + 1;
            let t = read_order_type(row);
            let stop: bool = same(t.as_str(), "STOP_MARKET") || same(t.as_str(), "STOP");
            let tp: bool = same(t.as_str(), "TAKE_PROFIT_MARKET") || same(t.as_str(), "TAKE_PROFIT");
            let sized: bool = sell_is_sized(row);
            proof {
                let n = seen.len() as int;
                assert(more[n] == *row);
                assert forall|j: int| 0 <= j < n implies (#[trigger] more[j]) == seen[j] by {}
                if all_sized && sized {
                    assert forall|j: int| 0 <= j < more.len() implies is_sized(#[trigger] more[j]) by {
                        if j < n {
                            assert(is_sized(seen[j]));
                        }
                    }
                }
                if !all_sized {
                    let j = choose|j: int| 0 <= j < n && !is_sized(#[trigger] seen[j]);
                    assert(!is_sized(more[j]));
                }
                if has_stop {
                    let j = choose|j: int| 0 <= j < n && is_stop(#[trigger] seen[j]);
                    assert(is_stop(more[j]));
                }
                if has_tp {
                    let j = choose|j: int| 0 <= j < n && is_take_profit(#[trigger] seen[j]);
                    assert(is_take_profit(more[j]));
                }
            }
            has_stop = has_stop || stop;
            has_tp = has_tp || tp;
            all_sized = all_sized && sized;
        }
        i = i + 1;
    }
    proof {
        assert(rows@.take(i as int) =~= rows@);
    }
    count >= 2 && all_sized && has_stop && has_tp
}

/// The amount of a position row that is open; nothing where it is none.
pub open spec fn row_amount(item: Json) -> Option<Dec> {
    match item {
        Json::Object(_) => match amount_in(item.field("positionAmt"@)) {
            Some(a) => if a.units() == 0 {
                None
            } else {
                Some(a)
            },
            None => None,
        },
        _ => None,
    }
}

/// The symbol of a position row.
pub open spec fn position_symbol(item: Json) -> Seq<char> {
    upper(or_empty(item.text_at("symbol"@)))
}

/// Whether a position row is kept: it is open, and its symbol is tradable.
pub open spec fn keeps_position(item: Json) -> bool {
    row_amount(item) is Some && is_tradable(position_symbol(item))
}

/// The leverage of a position row.
pub open spec fn row_leverage(item: Json) -> i32 {
    match item.field("leverage"@) {
        Some(Json::Number(n)) => match n.exact {
            Some(x) => x as i32,
            None => 0,
        },
        Some(Json::Text(t)) => match int_value(t@) {
            Some(x) => if i64::MIN <= x <= i64::MAX {
                (x as i64) as i32
            } else {
                0
            },
            None => 0,
        },
        _ => 0,
    }
}

/// Whether a position says what an open row says.
pub open spec fn reads_position(p: Position, item: Json) -> bool {
    let amt = row_amount(item)->0;
    &&& p.symbol@ == position_symbol(item)
    &&& p.side == if amt.pos() {
        Side::Long
    } else {
        Side::Short
    }
    &&& p.qty == crate::dec::magnitude(amt)
    &&& p.entry_price == amount_or_zero(item.field("entryPrice"@))
    &&& p.unrealized_pnl == amount_or_zero(item.field("unRealizedProfit"@))
    &&& p.stop_loss is None
    &&& p.take_profit is None
    &&& p.opened_bar_time is None
    &&& p.leverage == row_leverage(item)
}

/// Whether positions say what the open rows of a document say, in order.
pub open spec fn reads_positions(v: Seq<Position>, rows: Seq<Json>) -> bool {
    let kept = rows.filter(|j: Json| keeps_position(j));
    &&& v.len() == kept.len()
    &&& forall|i: int| 0 <= i < v.len() ==> reads_position(#[trigger] v[i], kept[i])
}

fn read_leverage(item: &Json) -> (r: i32)
    ensures
        r == row_leverage(*item),
{
    match item.get("leverage") {
        Some(Json::Number(n)) => match n.exact {
            Some(x) => #[verifier::truncate] (x as i32),
            None => 0,
        },
        Some(Json::Text(t)) => match parse_i64(t.as_str()) {
            Some(x) => #[verifier::truncate] (x as i32),
            None => 0,
        },
        _ => 0,
    }
}

fn read_position(item: &Json) -> (r: Option<Position>)
    ensures
        match r {
            Some(p) => keeps_position(*item) && reads_position(p, *item),
            None => !keeps_position(*item),
        },
{
    if !matches!(item, Json::Object(_)) {
        return None;
    }
    let amt: Dec = match item.get("positionAmt") {
        Some(v) => match v.written() {
            Some(t) => read_amount(t)?,
            None => return None,
        },
        None => return None,
    };
    if amt.is_zero() {
        return None;
    }
    let raw: &str = match item.get_text("symbol") {
        Some(t) => t,
        None => "",
    };
    let symbol = raw.to_ascii_uppercase();
    if !is_tradable_symbol(symbol.as_str()) {
        return None;
    }
    Some(
        Position {
            symbol,
            side: if amt.is_pos() {
                Side::Long
            } else {
                Side::Short
            },
            qty: amt.abs(),
            entry_price: read_or_zero(item.get("entryPrice")),
            stop_loss: None,
            take_profit: None,
            unrealized_pnl: read_or_zero(item.get("unRealizedProfit")),
            opened_bar_time: None,
            leverage: read_leverage(item),
        },
    )
}

/// Reads the open positions of a document; rows that are flat, not tradable or
/// not readable are left out.
pub fn parse_positions(raw: &Json) -> (r: Result<Vec<Position>, ExchangeError>)
    ensures
        match (r, *raw) {
            (Ok(v), Json::List(rows)) => reads_positions(v@, rows@),
            (Err(e), Json::List(_)) => false,
            (Ok(_), _) => false,
            (Err(e), _) => e@ == "position payload is not a list"@,
        },
{
    match raw {
        Json::List(rows) => {
            let ghost test = |j: Json| keeps_position(j);
            let mut out: Vec<Position> = Vec::new();
            let mut i: usize = 0;
            proof {
                reveal(Seq::filter);
                assert(rows@.take(0).filter(test) =~= Seq::<Json>::empty());
            }
            while i < rows.len()
                invariant
                    i <= rows@.len(),
                    test == (|j: Json| keeps_position(j)),
                    reads_positions(out@, rows@.take(i as int)),
                decreases rows@.len() - i,
            {
                proof {
                    reveal(Seq::filter);
                    assert(rows@.take(i as int + 1).drop_last() =~= rows@.take(i as int));
                }
                if let Some(p) = read_position(&rows[i]) {
                    out.push(p);
                }
                i = i + 1;
            }
            proof {
                assert(rows@.take(i as int) =~= rows@);
            }
            Ok(out)
        },
        _ => Err(fault("position payload is not a list")),
    }
}

/// What is wrong with an account's document.
pub open spec fn account_error(raw: Json) -> Option<Seq<char>> {
    if !(raw is Object) {
        Some("account payload is not an object"@)
    } else if amount_in(raw.field("totalWalletBalance"@)) is None {
        Some("account fields invalid: "@ + amount_error(raw.field("totalWalletBalance"@)))
    } else if amount_in(raw.field("totalUnrealizedProfit"@)) is None {
        Some("account fields invalid: "@ + amount_error(raw.field("totalUnrealizedProfit"@)))
    } else if amount_in(raw.field("availableBalance"@)) is None {
        Some("account fields invalid: "@ + amount_error(raw.field("availableBalance"@)))
    } else {
        None
    }
}

fn labelled(label: &str, e: String) -> (r: ExchangeError)
    ensures
        r@ == label@ + e@,
{
    let mut text = own(label);
    text.append(e.as_str());
    ExchangeError(text)
}

/// Reads an account's document.
pub fn parse_account(raw: &Json, starting_equity: Dec) -> (r: Result<Account, ExchangeError>)
    ensures
        match r {
            Ok(a) => {
                &&& account_error(*raw) is None
                &&& a == (Account {
                    wallet_balance: amount_in(raw.field("totalWalletBalance"@))->0,
                    unrealized_pnl: amount_in(raw.field("totalUnrealizedProfit"@))->0,
                    available_balance: amount_in(raw.field("availableBalance"@))->0,
                    starting_equity,
                })
            },
            Err(e) => account_error(*raw) == Some(e@),
        },
{
    if !matches!(raw, Json::Object(_)) {
        return Err(fault("account payload is not an object"));
    }
    let wallet_balance: Dec = match require_amount(raw.get("totalWalletBalance")) {
        Ok(d) => d,
        Err(e) => return Err(labelled("account fields invalid: ", e)),
    };
    let unrealized_pnl: Dec = match require_amount(raw.get("totalUnrealizedProfit")) {
        Ok(d) => d,
        Err(e) => return Err(labelled("account fields invalid: ", e)),
    };
    let available_balance: Dec = match require_amount(raw.get("availableBalance")) {
        Ok(d) => d,
        Err(e) => return Err(labelled("account fields invalid: ", e)),
    };
    Ok(Account { wallet_balance, unrealized_pnl, available_balance, starting_equity })
}

/// The first balance row of the settlement asset.
pub open spec fn usdt_row(rows: Seq<Json>) -> Option<Json>
    decreases rows.len(),
{
    if rows.len() == 0 {
        None
    } else if lower(or_empty(rows[0].text_at("asset"@))) == lower("USDT"@) {
        Some(rows[0])
    } else {
        usdt_row(rows.drop_first())
    }
}

/// What is wrong with a document of balances.
pub open spec fn balances_error(raw: Json) -> Option<Seq<char>> {
    match raw {
        Json::List(rows) => match usdt_row(rows@) {
            None => Some("USDT balance missing"@),
            Some(row) => if amount_in(row.field("balance"@)) is None {
                Some("balance fields invalid: "@ + amount_error(row.field("balance"@)))
            } else {
                None
            },
        },
        _ => Some("balance payload is not a list"@),
    }
}

/// The account that a document of balances says.
pub open spec fn balances_account(raw: Json, starting_equity: Dec) -> Account {
    let row = usdt_row(raw->List_0@)->0;
    Account {
        wallet_balance: amount_in(row.field("balance"@))->0,
        unrealized_pnl: amount_or_zero(row.field("crossUnPnl"@)),
        available_balance: match amount_in(row.field("availableBalance"@)) {
            Some(d) => d,
            None => amount_in(row.field("balance"@))->0,
        },
        starting_equity,
    }
}

/// Reads a document of balances.
pub fn parse_balances(raw: &Json, starting_equity: Dec) -> (r: Result<Account, ExchangeError>)
    ensures
        match r {
            Ok(a) => balances_error(*raw) is None && a == balances_account(*raw, starting_equity),
            Err(e) => balances_error(*raw) == Some(e@),
        },
{
    match raw {
        Json::List(rows) => {
            let mut i: usize = 0;
            proof {
                assert(rows@.skip(0) =~= rows@);
            }
            while i < rows.len()
                invariant
                    i <= rows@.len(),
                    *raw == Json::List(*rows),
                    usdt_row(rows@) == usdt_row(rows@.skip(i as int)),
                decreases rows@.len() - i,
            {
                let ghost rest = rows@.skip(i as int);
                proof {
                    assert(rest[0] == rows@[i as int]);
                    assert(rest.drop_first() =~= rows@.skip(i as int + 1));
                }
                let row: &Json = &rows[i];
                let asset: &str = match row.get_text("asset") {
                    Some(t) => t,
                    None => "",
                };
                if asset.eq_ignore_ascii_case("USDT") {
                    let wallet_balance: Dec = match require_amount(row.get("balance")) {
                        Ok(d) => d,
                        Err(e) => return Err(labelled("balance fields invalid: ", e)),
                    };
                    let available_balance: Dec = match require_amount(row.get("availableBalance")) {
                        Ok(d) => d,
                        Err(_) => wallet_balance,
                    };
                    return Ok(
                        Account {
                            wallet_balance,
                            unrealized_pnl: read_or_zero(row.get("crossUnPnl")),
                            available_balance,
                            starting_equity,
                        },
                    );
                }
                i = i + 1;
            }
            Err(fault("USDT balance missing"))
        },
        _ => Err(fault("balance payload is not a list")),
    }
}

/// An account whose starting equity, where none is set, is what it is worth now.
pub open spec fn with_start(account: Account, starting_equity: Option<Dec>) -> Option<Account> {
    match starting_equity {
        Some(_) => Some(account),
        None => match equity_of(account.wallet_balance, account.unrealized_pnl) {
            Some(e) => Some(Account { starting_equity: e, ..account }),
            None => None,
        },
    }
}

/// Sets the starting equity where none is given.
pub fn start_account(account: Account, starting_equity: Option<Dec>) -> (r: Option<Account>)
    ensures
        r == with_start(account, starting_equity),
{
    if starting_equity.is_some() {
        return Some(account);
    }
    let start: Dec = current_equity(account.wallet_balance, account.unrealized_pnl)?;
    Some(Account { starting_equity: start, ..account })
}

/// The sum of the profits of the tradable rows, from the first on.
pub open spec fn book_upnl(positions: Seq<Position>, n: int) -> Num
    decreases n,
{
    if n <= 0 {
        Some(dec(0, 0))
    } else if is_tradable(positions[n - 1].symbol@) {
        n_add(book_upnl(positions, n - 1), Some(positions[n - 1].unrealized_pnl))
    } else {
        book_upnl(positions, n - 1)
    }
}

/// Whether some row is tradable.
pub open spec fn some_tradable(positions: Seq<Position>) -> bool {
    exists|i: int| 0 <= i < positions.len() && is_tradable((#[trigger] positions[i]).symbol@)
}

/// An account that says no open profit, with that of the book.
pub open spec fn with_book_upnl(account: Account, positions: Seq<Position>) -> Option<Account> {
    if !some_tradable(positions) {
        Some(account)
    } else {
        match book_upnl(positions, positions.len() as int) {
            None => None,
            Some(u) => if account.unrealized_pnl.units() != 0 || u.units() == 0 {
                Some(account)
            } else {
                Some(Account { unrealized_pnl: u, ..account })
            },
        }
    }
}

proof fn lemma_upnl_none(positions: Seq<Position>, n: int, m: int)
    requires
        0 <= n <= m,
        book_upnl(positions, n) is None,
    ensures
        book_upnl(positions, m) is None,
    decreases m - n,
{
    if n < m {
        lemma_upnl_none(positions, n, m - 1);
    }
}

/// Takes the open profit from the book where the account says none.
pub fn account_with_position_upnl(account: Account, positions: &[Position]) -> (r: Option<Account>)
    ensures
        r == with_book_upnl(account, positions@),
{
    let mut any: bool = false;
    let mut sum: Dec = Dec::zero();
    let mut i: usize = 0;
    while i < positions.len()
        invariant
            i <= positions@.len(),
            any == (exists|j: int| 0 <= j < i && is_tradable((#[trigger] positions@[j]).symbol@)),
            book_upnl(positions@, i as int) == Some(sum),
        decreases positions@.len() - i,
    {
        if is_tradable_symbol(positions[i].symbol.as_str()) {
            any = true;
            match plus(Some(sum), Some(positions[i].unrealized_pnl)) {
                Some(s) => {
                    sum = s;
                },
                None => {
                    proof {
                        assert(is_tradable(positions@[i as int].symbol@));
                        lemma_upnl_none(positions@, i as int + 1, positions@.len() as int);
                    }
                    return None;
                },
            }
        }
        i = i + 1;
    }
    if !any || !account.unrealized_pnl.is_zero() || sum.is_zero() {
        return Some(account);
    }
    Some(Account { unrealized_pnl: sum, ..account })
}

/// How a market order is sized: for the worth that is asked for, or the exchange's
/// least worth where that is more, at the price, rounded down to the step and
/// raised to the least quantity. Only where that stays below the least worth is it
/// rounded up.
pub proof fn law_market_orders_are_rounded_down(notional: Dec, price: Dec, f: SymbolFilters, q: Dec)
    requires
        price.pos(),
        notional.pos(),
        f.step_size.pos(),
        ({
            let worth = if notional.lt(f.min_notional) {
                f.min_notional
            } else {
                notional
            };
            decimal_quotient(worth, price) matches Some(u) && quantized(u, f.step_size, false) == Some(q)
        }),
    ensures
        ({
            let first = if q.lt(f.min_qty) {
                f.min_qty
            } else {
                q
            };
            let worth = decimal_product(first, price);
            &&& worth is Some && first.pos() && f.min_notional.le(worth->0) ==> market_size(
                notional,
                price,
                f,
            ) == Sized::Qty(first)
            &&& market_size(notional, price, f) is Qty && worth is Some && worth->0.lt(
                f.min_notional,
            ) ==> {
                let up = quantized(
                    decimal_quotient(f.min_notional, price)->0,
                    f.step_size,
                    true,
                );
                up is Some && market_size(notional, price, f) == Sized::Qty(
                    if up->0.lt(f.min_qty) {
                        f.min_qty
                    } else {
                        up->0
                    },
                )
            }
        }),
{
}

/// How an order is sized by risk: what the budget buys of the way to the stop,
/// rounded down to the step. The budget is the risk's share of the equity. It is
/// given up exactly where there is no budget or no way to the stop, or where the
/// quantity is less than the exchange takes, or would risk more than the budget.
pub proof fn law_risk_orders_spend_the_budget(
    equity: Dec,
    risk_pct: Dec,
    entry: Dec,
    stop: Dec,
    f: SymbolFilters,
    budget: Dec,
    way: Dec,
    q: Dec,
)
    requires
        entry.pos(),
        f.step_size.pos(),
        decimal_product(equity, risk_pct) == Some(budget),
        decimal_difference(entry, stop) == Some(way),
        budget.pos() && way.pos() ==> (decimal_quotient(budget, way) matches Some(u) && quantized(
            u,
            f.step_size,
            false,
        ) == Some(q)),
        decimal_product(q, entry) is Some,
        decimal_product(q, way) is Some,
    ensures
        ({
            let r = risk_size(Some(equity), risk_pct, entry, stop, f);
            let fits_it = {
                &&& budget.pos() && way.pos()
                &&& q.pos() && f.min_qty.le(q)
                &&& f.min_notional.le(decimal_product(q, entry)->0)
                &&& decimal_product(q, way)->0.le(budget)
            };
            &&& fits_it ==> r == RiskSized::Qty(q)
            &&& !fits_it ==> r == RiskSized::TooRisky
        }),
{
}

/// Protective orders are refused exactly where the quantity or a price is not
/// positive or the take-profit is not above the stop.
pub proof fn law_protective_numbers(qty: Dec, stop_loss: Dec, take_profit: Dec)
    ensures
        protective_error(qty, stop_loss, take_profit) is None <==> qty.pos() && stop_loss.pos()
            && take_profit.pos() && stop_loss.lt(take_profit),
{
}

/// The worth of a position by risk, wherever the decimals divide evenly and hold
/// all digits: times the way to the stop it is the equity's risked share times the
/// entry.
pub proof fn law_risk_worth(equity: Dec, risk_pct: Dec, entry: Dec, stop: Dec, way: Dec, total: Dec)
    requires
        decimal_rules(),
        decimal_difference(entry, stop) == Some(way),
        n_mul(decimal_product(equity, risk_pct), Some(entry)) == Some(total),
        goes_into(way, total),
        equity.pos() && risk_pct.pos() && entry.pos() && way.pos(),
    ensures
        risk_notional(equity, risk_pct, entry, stop) matches Some(Some(x)) && x.units() * way.units()
            == total.units() * dec(1, 0).units(),
{
    law_even_quotients_are_exact(total, way);
}

/// How a row of the exchange is read: a positive amount is a long and a negative
/// one a short, of that many pieces; a row without an amount is none.
pub proof fn law_the_sign_tells_the_side(p: Position, item: Json, amt: Dec)
    requires
        item is Object,
        amount_in(item.field("positionAmt"@)) == Some(amt),
        amt.wf(),
    ensures
        amt.units() == 0 ==> !keeps_position(item),
        amt.units() > 0 && reads_position(p, item) ==> p.side == Side::Long && p.qty.units() == amt.units(),
        amt.units() < 0 && reads_position(p, item) ==> p.side == Side::Short && p.qty.units()
            == -amt.units(),
        amt.units() != 0 && reads_position(p, item) ==> p.qty.pos(),
{
    crate::dec::lemma_wf(amt);
    crate::dec::lemma_units_sign(amt);
    crate::dec::lemma_dec_parts(-amt.m(), amt.s());
    crate::dec::lemma_units_neg(crate::dec::negated(amt), amt);
}

/// When a long counts as protected by its open orders: every sell has a positive
/// quantity and closes no more than that, and among them are a stop and a
/// take-profit.
pub proof fn law_protection_is_sized(rows: Seq<Json>, i: int)
    requires
        protectives_sized(rows),
        0 <= i < rows.len(),
        is_sell(rows[i]),
    ensures
        order_qty(rows[i]) matches Some(q) && q.pos(),
        !says_true(rows[i].field("closePosition"@)),
        exists|k: int| 0 <= k < rows.len() && is_sell(#[trigger] rows[k]) && is_stop(rows[k]),
        exists|k: int| 0 <= k < rows.len() && is_sell(#[trigger] rows[k]) && is_take_profit(rows[k]),
{
    let test = |row: Json| is_sell(row);
    let sells = rows.filter(test);
    assert(sells.contains(rows[i]));
    let j = choose|j: int| 0 <= j < sells.len() && sells[j] == rows[i];
    assert(is_sized(sells[j]));
    let a = choose|a: int| 0 <= a < sells.len() && is_stop(#[trigger] sells[a]);
    let b = choose|b: int| 0 <= b < sells.len() && is_take_profit(#[trigger] sells[b]);
    assert(sells.contains(sells[a]) && sells.contains(sells[b]));
    crate::models::lemma_filter_member(rows, test, sells[a]);
    crate::models::lemma_filter_member(rows, test, sells[b]);
    let x = choose|x: int| 0 <= x < rows.len() && rows[x] == sells[a];
    let y = choose|y: int| 0 <= y < rows.len() && rows[y] == sells[b];
    assert(is_sell(rows[x]) && is_stop(rows[x]));
    assert(is_sell(rows[y]) && is_take_profit(rows[y]));
}

/// The open profit of a book: one more tradable row adds its own, any other adds
/// nothing.
pub proof fn law_open_profit_adds_up(positions: Seq<Position>, n: int)
    requires
        0 < n <= positions.len(),
    ensures
        is_tradable(positions[n - 1].symbol@) ==> book_upnl(positions, n) == n_add(
            book_upnl(positions, n - 1),
            Some(positions[n - 1].unrealized_pnl),
        ),
        !is_tradable(positions[n - 1].symbol@) ==> book_upnl(positions, n) == book_upnl(positions, n - 1),
        book_upnl(positions, 0) == Some(dec(0, 0)),
{
}

/// An account takes its start from the one that is set, and else from what it is
/// worth; its open profit comes from the book only where it states none.
pub proof fn law_account_is_completed(a: Account, start: Option<Dec>, positions: Seq<Position>)
    ensures
        start is Some ==> with_start(a, start) == Some(a),
        start is None ==> (with_start(a, start) matches Some(x) ==> Some(x.starting_equity) == n_add(
            Some(a.wallet_balance),
            Some(a.unrealized_pnl),
        ) && x.wallet_balance == a.wallet_balance),
        with_book_upnl(a, positions) matches Some(x) ==> x.wallet_balance == a.wallet_balance && (
        a.unrealized_pnl.units() != 0 ==> x.unrealized_pnl == a.unrealized_pnl),
{
}

} // verus!

//! Take-profit attach and upward-only stop-loss trail: a long's stop only rises.
use crate::dec::{
    dec, decimal_difference, decimal_product, decimal_rules, decimal_sum, decimal_text,
    law_short_products_are_exact, law_short_sums_are_exact, lemma_units_sign, lemma_wf, minus, n_add,
    n_mul, n_sub, plus, short, short_product, times, Dec, Num,
};
use crate::models::Side;
use crate::money::{round_trip, round_trip_taker_pct};
use crate::text::{own, upper};
use vstd::prelude::*;
use vstd::string::StringExecFns;

verus! {

/// Why there is no price.
#[derive(Debug)]
pub enum TrailError {
    NotPositive(&'static str, Dec),
    UnknownSide(String),
    /// The price leaves the decimal range.
    Overflow,
}

impl TrailError {
    pub open spec fn text(self) -> Seq<char> {
        match self {
            TrailError::NotPositive(name, v) => name@ + " must be positive, got "@ + decimal_text(v),
            TrailError::UnknownSide(s) => "unknown side: "@ + s@,
            TrailError::Overflow => "decimal overflow"@,
        }
    }

    pub fn message(&self) -> (r: String)
        ensures
            r@ == self.text(),
    {
        match self {
            TrailError::NotPositive(name, v) => {
                let mut out = own(name);
                out.append(" must be positive, got ");
                out.append(v.text().as_str());
                out
            },
            TrailError::UnknownSide(s) => {
                let mut out = own("unknown side: ");
                out.append(s.as_str());
                out
            },
            TrailError::Overflow => own("decimal overflow"),
        }
    }
}

/// The outcome of a price formula on a side.
pub enum PriceView {
    Price(Dec),
    NotPositive(Seq<char>, Dec),
    UnknownSide(Seq<char>),
    Overflow,
}

pub open spec fn price_view(r: Result<Dec, TrailError>) -> PriceView {
    match r {
        Ok(d) => PriceView::Price(d),
        Err(TrailError::NotPositive(n, d)) => PriceView::NotPositive(n@, d),
        Err(TrailError::UnknownSide(s)) => PriceView::UnknownSide(s@),
        Err(TrailError::Overflow) => PriceView::Overflow,
    }
}

pub open spec fn price_of(n: Num) -> PriceView {
    match n {
        Some(d) => PriceView::Price(d),
        None => PriceView::Overflow,
    }
}

fn priced(n: Num) -> (r: Result<Dec, TrailError>)
    ensures
        price_view(r) == price_of(n),
{
    match n {
        Some(d) => Ok(d),
        None => Err(TrailError::Overflow),
    }
}

/// `price` moved by `pct`, up for one side and down for the other.
pub open spec fn moved(price: Dec, up: bool, pct: Dec) -> Num {
    n_mul(
        Some(price),
        if up {
            n_add(Some(dec(1, 0)), Some(pct))
        } else {
            n_sub(Some(dec(1, 0)), Some(pct))
        },
    )
}

fn moved_price(price: Dec, up: bool, pct: Dec) -> (r: Num)
    ensures
        r == moved(price, up, pct),
{
    if up {
        times(Some(price), plus(Some(Dec::one()), Some(pct)))
    } else {
        times(Some(price), minus(Some(Dec::one()), Some(pct)))
    }
}

/// The take profit: above the entry for a long, below it for a short.
pub open spec fn take_profit(entry: Dec, side: Seq<char>, tp_pct: Dec) -> PriceView {
    if !entry.pos() {
        PriceView::NotPositive("entry"@, entry)
    } else if !tp_pct.pos() {
        PriceView::NotPositive("tp_pct"@, tp_pct)
    } else {
        match Side::of(side) {
            Some(s) => price_of(moved(entry, s == Side::Long, tp_pct)),
            None => PriceView::UnknownSide(upper(side)),
        }
    }
}

pub fn take_profit_price(entry: Dec, side: &str, tp_pct: Dec) -> (r: Result<Dec, TrailError>)
    ensures
        price_view(r) == take_profit(entry, side@, tp_pct),
{
    if !entry.is_pos() {
        return Err(TrailError::NotPositive("entry", entry));
    }
    if !tp_pct.is_pos() {
        return Err(TrailError::NotPositive("tp_pct", tp_pct));
    }
    match Side::parse(side) {
        Some(s) => priced(moved_price(entry, s == Side::Long, tp_pct)),
        None => Err(TrailError::UnknownSide(side.to_ascii_uppercase())),
    }
}

/// The take profit that leaves `tp_pct` after both taker fees.
pub open spec fn take_profit_net(entry: Dec, side: Seq<char>, tp_pct: Dec) -> PriceView {
    match n_add(Some(tp_pct), Some(round_trip())) {
        Some(p) => take_profit(entry, side, p),
        None => PriceView::Overflow,
    }
}

/// TP so that `tp_pct` remains after taker in + taker out.
pub fn take_profit_price_net(entry: Dec, side: &str, tp_pct: Dec) -> (r: Result<Dec, TrailError>)
    ensures
        price_view(r) == take_profit_net(entry, side@, tp_pct),
{
    match plus(Some(tp_pct), Some(round_trip_taker_pct())) {
        Some(p) => take_profit_price(entry, side, p),
        None => Err(TrailError::Overflow),
    }
}

/// A stop at `trail_pct` behind the price.
pub open spec fn stop_behind(price: Dec, side: Seq<char>, trail_pct: Dec) -> PriceView {
    if !price.pos() {
        PriceView::NotPositive("price"@, price)
    } else if !trail_pct.pos() {
        PriceView::NotPositive("trail_pct"@, trail_pct)
    } else {
        match Side::of(side) {
            Some(s) => price_of(moved(price, s == Side::Short, trail_pct)),
            None => PriceView::UnknownSide(upper(side)),
        }
    }
}

pub fn candidate_stop(price: Dec, side: &str, trail_pct: Dec) -> (r: Result<Dec, TrailError>)
    ensures
        price_view(r) == stop_behind(price, side@, trail_pct),
{
    if !price.is_pos() {
        return Err(TrailError::NotPositive("price", price));
    }
    if !trail_pct.is_pos() {
        return Err(TrailError::NotPositive("trail_pct", trail_pct));
    }
    match Side::parse(side) {
        Some(s) => priced(moved_price(price, s == Side::Short, trail_pct)),
        None => Err(TrailError::UnknownSide(side.to_ascii_uppercase())),
    }
}

/// The stop after a trail: the better of the current one and the candidate.
pub open spec fn trailed(current_sl: Option<Dec>, candidate: Dec, side: Seq<char>) -> PriceView {
    if !candidate.pos() {
        PriceView::NotPositive("candidate"@, candidate)
    } else {
        match current_sl {
            None => PriceView::Price(candidate),
            Some(current) => if !current.pos() {
                PriceView::NotPositive("current_sl"@, current)
            } else {
                match Side::of(side) {
                    Some(Side::Long) => PriceView::Price(
                        if current.lt(candidate) {
                            candidate
                        } else {
                            current
                        },
                    ),
                    Some(Side::Short) => PriceView::Price(
                        if candidate.lt(current) {
                            candidate
                        } else {
                            current
                        },
                    ),
                    None => PriceView::UnknownSide(upper(side)),
                }
            },
        }
    }
}

pub fn trail_stop_upward(current_sl: Option<Dec>, candidate: Dec, side: &str) -> (r: Result<
    Dec,
    TrailError,
>)
    ensures
        price_view(r) == trailed(current_sl, candidate, side@),
{
    if !candidate.is_pos() {
        return Err(TrailError::NotPositive("candidate", candidate));
    }
    match current_sl {
        None => Ok(candidate),
        Some(current) => {
            if !current.is_pos() {
                return Err(TrailError::NotPositive("current_sl", current));
            }
            match Side::parse(side) {
                Some(Side::Long) => Ok(
                    if candidate > current {
                        candidate
                    } else {
                        current
                    },
                ),
                Some(Side::Short) => Ok(
                    if candidate < current {
                        candidate
                    } else {
                        current
                    },
                ),
                None => Err(TrailError::UnknownSide(side.to_ascii_uppercase())),
            }
        },
    }
}

pub open spec fn valid_long_stop(stop: Dec, mark: Dec) -> bool {
    stop.pos() && mark.pos() && stop.lt(mark)
}

pub fn long_stop_is_valid(stop: Dec, mark: Dec) -> (r: bool)
    ensures
        r == valid_long_stop(stop, mark),
{
    stop.is_pos() && mark.is_pos() && stop < mark
}

/// A long's stop only rises, a short's only falls, and the trail ends at least
/// at the candidate.
pub proof fn law_stop_only_tightens(current: Dec, candidate: Dec, side: Seq<char>)
    requires
        current.pos(),
        candidate.pos(),
    ensures
        Side::of(side) == Some(Side::Long) ==> (trailed(Some(current), candidate, side) matches
            PriceView::Price(p) && current.le(p) && candidate.le(p)),
        Side::of(side) == Some(Side::Short) ==> (trailed(Some(current), candidate, side) matches
            PriceView::Price(p) && p.le(current) && p.le(candidate)),
{
}

/// Trailing twice with the same candidate changes nothing.
pub proof fn law_trail_is_idempotent(current: Option<Dec>, candidate: Dec, side: Seq<char>)
    requires
        trailed(current, candidate, side) is Price,
        Side::of(side) is Some,
    ensures
        trailed(Some(trailed(current, candidate, side)->Price_0), candidate, side) == trailed(
            current,
            candidate,
            side,
        ),
{
}

/// What the words for the sides stand for.
pub proof fn law_side_words()
    ensures
        Side::of("LONG"@) == Some(Side::Long),
        Side::of("SHORT"@) == Some(Side::Short),
{
    reveal_strlit("LONG");
    reveal_strlit("SHORT");
    reveal_strlit("BUY");
    assert(upper("LONG"@) =~= "LONG"@);
    assert(upper("SHORT"@) =~= "SHORT"@);
    assert("SHORT"@.len() != "LONG"@.len() && "SHORT"@.len() != "BUY"@.len());
}

/// On which side of the price the lines of a position lie: the take-profit of a
/// long is the entry and a share more, its stop the price and a share less; a
/// short's are the other way round. The net take-profit's share has the fees of
/// both ways on top.
pub proof fn law_lines_lie_on_their_sides(price: Dec, pct: Dec)
    requires
        price.pos(),
        pct.pos(),
    ensures
        take_profit(price, "LONG"@, pct) == price_of(n_mul(Some(price), decimal_sum(dec(1, 0), pct))),
        take_profit(price, "SHORT"@, pct) == price_of(
            n_mul(Some(price), decimal_difference(dec(1, 0), pct)),
        ),
        stop_behind(price, "LONG"@, pct) == price_of(
            n_mul(Some(price), decimal_difference(dec(1, 0), pct)),
        ),
        stop_behind(price, "SHORT"@, pct) == price_of(
            n_mul(Some(price), decimal_sum(dec(1, 0), pct)),
        ),
        decimal_sum(pct, round_trip()) matches Some(q) ==> take_profit_net(price, "LONG"@, pct)
            == take_profit(price, "LONG"@, q),
{
    law_side_words();
}

/// A long's take-profit is above its entry by exactly that share of it, and its
/// stop below the price by exactly that share, wherever the decimals hold all
/// digits.
pub proof fn law_lines_keep_their_distance(price: Dec, pct: Dec)
    requires
        decimal_rules(),
        price.pos(),
        pct.pos(),
        short(dec(1, 0), pct),
        short_product(price, decimal_sum(dec(1, 0), pct)->0),
        short_product(price, decimal_difference(dec(1, 0), pct)->0),
    ensures
        take_profit(price, "LONG"@, pct) matches PriceView::Price(x) && price.lt(x) && (x.units()
            - price.units()) * dec(1, 0).units() == price.units() * pct.units(),
        stop_behind(price, "LONG"@, pct) matches PriceView::Price(x) && x.lt(price) && (price.units()
            - x.units()) * dec(1, 0).units() == price.units() * pct.units(),
{
    broadcast use crate::dec::lemma_dec_parts;

    law_side_words();
    let one = dec(1, 0);
    lemma_wf(one);
    lemma_wf(pct);
    lemma_units_sign(one);
    law_short_sums_are_exact(one, pct);
    let up = decimal_sum(one, pct)->0;
    let down = decimal_difference(one, pct)->0;
    law_short_products_are_exact(price, up);
    law_short_products_are_exact(price, down);
    let a = decimal_product(price, up)->0.units();
    let b = decimal_product(price, down)->0.units();
    let u = one.units();
    let p = price.units();
    let q = pct.units();
    assert((a - p) * u == p * q && a > p) by (nonlinear_arith)
        requires
            a * u == p * (u + q),
            u > 0,
            p > 0,
            q > 0,
    ;
    assert((p - b) * u == p * q && b < p) by (nonlinear_arith)
        requires
            b * u == p * (u - q),
            u > 0,
            p > 0,
            q > 0,
    ;
}

} // verus!

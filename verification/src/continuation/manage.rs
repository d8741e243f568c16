//! What continuation does about a held long.
use super::{signal_bar, signal_of, ContinuationParams, ContinuationView};
use crate::config::{pct_label, pct_text, TradeInterval};
use crate::dec::{
    dec, decimal_normal, decimal_text, minus, n_add, n_div, n_mul, n_sub, over, plus, times, Dec, Num,
};
use crate::indicators::{closes, closes_of, ema_last, last_ema};
use crate::models::{
    closed_bar, last_closed_bar, no_bars, Bar, Decision, DecisionView, MarketSnapshot, Position,
    Ticker,
};
use crate::momentum::{amend, amend_view, bar_of, exit, exit_view, get_bar, hold_view, opt_decision};
use crate::money::{round_trip, round_trip_taker_pct};
use crate::scalp::{entry_peak, opt_opt_decision, peak_since_entry};
use crate::sessions::{entry_open, in_entry_window};
use crate::symbols::SymMap;
use crate::text::{own, same, upper};
use crate::trail::{
    candidate_stop, long_stop_is_valid, stop_behind, trail_stop_upward, trailed, valid_long_stop,
    PriceView, TrailError,
};
use vstd::prelude::*;
use vstd::string::StringExecFns;

verus! {

/// The first row of a symbol.
pub open spec fn row_of(v: Seq<Ticker>, symbol: Seq<char>) -> Option<Ticker>
    decreases v.len(),
{
    if v.len() == 0 {
        None
    } else if v[0].symbol@ == symbol {
        Some(v[0])
    } else {
        row_of(v.drop_first(), symbol)
    }
}

proof fn lemma_row_skip(v: Seq<Ticker>, symbol: Seq<char>, n: int)
    requires
        0 <= n <= v.len(),
        forall|j: int| 0 <= j < n ==> (#[trigger] v[j]).symbol@ != symbol,
    ensures
        row_of(v, symbol) == row_of(v.skip(n), symbol),
    decreases n,
{
    if n == 0 {
        assert(v.skip(0) =~= v);
    } else {
        assert(v[0].symbol@ != symbol);
        assert forall|j: int| 0 <= j < n - 1 implies (#[trigger] v.drop_first()[j]).symbol@
            != symbol by {
            assert(v.drop_first()[j] == v[j + 1]);
        }
        lemma_row_skip(v.drop_first(), symbol, n - 1);
        assert(v.drop_first().skip(n - 1) =~= v.skip(n));
    }
}

/// The first row of a symbol.
pub fn find_row<'a>(tickers: &'a [Ticker], symbol: &str) -> (r: Option<&'a Ticker>)
    ensures
        match r {
            Some(t) => row_of(tickers@, symbol@) == Some(*t),
            None => row_of(tickers@, symbol@) is None,
        },
{
    let mut i: usize = 0;
    while i < tickers.len()
        invariant
            i <= tickers@.len(),
            forall|j: int| 0 <= j < i ==> (#[trigger] tickers@[j]).symbol@ != symbol@,
        decreases tickers@.len() - i,
    {
        if same(tickers[i].symbol.as_str(), symbol) {
            proof {
                lemma_row_skip(tickers@, symbol@, i as int);
                assert(tickers@.skip(i as int)[0] == tickers@[i as int]);
            }
            return Some(&tickers[i]);
        }
        i = i + 1;
    }
    proof {
        lemma_row_skip(tickers@, symbol@, tickers@.len() as int);
        assert(tickers@.skip(tickers@.len() as int) =~= Seq::<Ticker>::empty());
    }
    None
}

/// The price a long is marked at: the tape's, else the last close, else zero.
pub open spec fn mark_in(s: MarketSnapshot, symbol: Seq<char>) -> Dec {
    match row_of(s.tickers@, symbol) {
        Some(t) => t.last_price,
        None => match closed_bar(s.series(symbol)) {
            Some(b) => b.close,
            None => dec(0, 0),
        },
    }
}

fn mark_price(snapshot: &MarketSnapshot, symbol: &str) -> (r: Dec)
    ensures
        r == mark_in(*snapshot, symbol@),
{
    match find_row(snapshot.tickers.as_slice(), symbol) {
        Some(t) => t.last_price,
        None => match last_closed_bar(snapshot.bars_for(symbol)) {
            Some(b) => b.close,
            None => Dec::zero(),
        },
    }
}

/// The stop that a long without one gets.
pub open spec fn attached_stop(pos: Position, mark: Dec, p: ContinuationView) -> Option<DecisionView> {
    match stop_behind(pos.entry_price, "LONG"@, p.min_stop_pct) {
        PriceView::Price(c) => if mark.le(c) {
            Some(exit_view("continuation stop from entry"@, pos.symbol@))
        } else if !valid_long_stop(c, mark) {
            Some(hold_view("cannot attach stop from entry"@))
        } else {
            Some(amend_view(c, "attach stop from entry"@, pos.symbol@))
        },
        PriceView::Overflow => None,
        _ => Some(hold_view("cannot attach stop from entry"@)),
    }
}

fn attach_stop_from_entry(pos: &Position, mark: Dec, p: &ContinuationParams) -> (r: Option<Decision>)
    ensures
        opt_decision(r) == attached_stop(*pos, mark, p@),
{
    let c: Dec = match candidate_stop(pos.entry_price, "LONG", p.min_stop_pct) {
        Ok(c) => c,
        Err(TrailError::Overflow) => return None,
        Err(_) => return Some(Decision::hold("cannot attach stop from entry")),
    };
    if mark <= c {
        return Some(exit("continuation stop from entry", pos.symbol.as_str()));
    }
    if !long_stop_is_valid(c, mark) {
        return Some(Decision::hold("cannot attach stop from entry"));
    }
    Some(amend(c, "attach stop from entry", pos.symbol.as_str()))
}

/// Whether the last 4h close is at or below its mean; too little history says no.
pub open spec fn trend_broken(htf: Seq<Bar>) -> Option<bool> {
    if htf.len() < 21 {
        Some(false)
    } else {
        match ema_last(closes_of(htf), 20) {
            None => None,
            Some(None) => Some(false),
            Some(Some(ema)) => Some(htf[htf.len() - 1].close.le(ema)),
        }
    }
}

fn breaks_trend(htf: &[Bar]) -> (r: Option<bool>)
    ensures
        r == trend_broken(htf@),
{
    let n: usize = htf.len();
    if n < 21 {
        return Some(false);
    }
    let c: Vec<Dec> = closes(htf);
    match last_ema(c.as_slice(), 20)? {
        Some(ema) => Some(htf[n - 1].close <= ema),
        None => Some(false),
    }
}

/// How long a long is held.
pub open spec fn max_hold(p: ContinuationView) -> int {
    if p.interval == TradeInterval::Hour1 {
        43_200_000
    } else {
        14_400_000
    }
}

/// Why time ends a long: held too long, or, but on 1h, the entry hours are over.
pub open spec fn time_stop(pos: Position, now: int, p: ContinuationView) -> Option<Seq<char>> {
    if pos.opened_bar_time is Some && pos.opened_bar_time->0 > 0 && now - pos.opened_bar_time->0
        >= max_hold(p) {
        Some(
            if p.interval == TradeInterval::Hour1 {
                "тайм-стоп 12ч"@
            } else {
                "тайм-стоп 4ч"@
            },
        )
    } else if p.interval == TradeInterval::Hour1 {
        None
    } else if !p.always_enter && p.entry_windows.len() > 0 && !entry_open(
        now,
        Some(p.entry_windows),
        false,
    ) {
        Some("конец окна входа"@)
    } else {
        None
    }
}

fn time_stop_reason(pos: &Position, now: i64, p: &ContinuationParams) -> (r: Option<&'static str>)
    ensures
        match r {
            Some(t) => time_stop(*pos, now as int, p@) == Some(t@),
            None => time_stop(*pos, now as int, p@) is None,
        },
{
    let hour1: bool = p.interval == TradeInterval::Hour1;
    if let Some(opened) = pos.opened_bar_time {
        let hold: i128 = if hour1 {
            43_200_000
        } else {
            14_400_000
        };
        if opened > 0 && now as i128 - opened as i128 >= hold {
            return Some(
                if hour1 {
                    "тайм-стоп 12ч"
                } else {
                    "тайм-стоп 4ч"
                },
            );
        }
    }
    if hour1 {
        return None;
    }
    if !p.always_enter && p.entry_windows.len() > 0 && !in_entry_window(
        now,
        Some(p.entry_windows.as_slice()),
        false,
    ) {
        return Some("конец окна входа");
    }
    None
}

/// The highest price since entry. Without an opening time no candle counts.
pub open spec fn peak_of(pos: Position, mark: Dec, s: MarketSnapshot) -> Num {
    if pos.opened_bar_time is None {
        entry_peak(Seq::empty(), pos, mark)
    } else {
        match entry_peak(s.series(pos.symbol@), pos, mark) {
            Some(peak) => match bar_of(s.last_bars@, pos.symbol@) {
                Some(b) => if b.open_time >= pos.opened_bar_time->0 && peak.lt(b.high) {
                    Some(b.high)
                } else {
                    Some(peak)
                },
                None => Some(peak),
            },
            None => None,
        }
    }
}

fn peak_price(pos: &Position, mark: Dec, snapshot: &MarketSnapshot) -> (r: Num)
    ensures
        r == peak_of(*pos, mark, *snapshot),
{
    let since: i64 = match pos.opened_bar_time {
        Some(t) => t,
        None => return peak_since_entry(no_bars(), pos, mark),
    };
    let sym: &str = pos.symbol.as_str();
    let peak: Dec = peak_since_entry(snapshot.bars_for(sym), pos, mark)?;
    if let Some(b) = get_bar(&snapshot.last_bars, sym) {
        if b.open_time >= since && b.high > peak {
            return Some(b.high);
        }
    }
    Some(peak)
}

/// The price one risk above entry; the inner `None` where no risk is open.
pub open spec fn one_r_of(pos: Position) -> Option<Option<Dec>> {
    if pos.stop_loss is None || pos.entry_price.le(pos.stop_loss->0) || !pos.entry_price.pos() {
        Some(None)
    } else {
        match n_sub(Some(pos.entry_price), pos.stop_loss) {
            None => None,
            Some(risk) => if !risk.pos() {
                Some(None)
            } else {
                match n_add(Some(pos.entry_price), Some(risk)) {
                    Some(t) => Some(Some(t)),
                    None => None,
                }
            },
        }
    }
}

fn one_r_price(pos: &Position) -> (r: Option<Option<Dec>>)
    ensures
        r == one_r_of(*pos),
{
    match pos.stop_loss {
        None => Some(None),
        Some(sl) => {
            if sl >= pos.entry_price || !pos.entry_price.is_pos() {
                return Some(None);
            }
            let risk: Dec = minus(Some(pos.entry_price), Some(sl))?;
            if !risk.is_pos() {
                return Some(None);
            }
            Some(Some(plus(Some(pos.entry_price), Some(risk))?))
        },
    }
}

/// Whether a bar from index `from` on that opened at `since` or later reached a price.
pub open spec fn high_reached(bars: Seq<Bar>, from: int, since: Option<i64>, target: Dec) -> bool {
    exists|i: int|
        from <= i < bars.len() && (since is None || (#[trigger] bars[i]).open_time >= since->0)
            && target.le(bars[i].high)
}

fn reaches_high(bars: &[Bar], from: usize, since: Option<i64>, target: Dec) -> (r: bool)
    ensures
        r == high_reached(bars@, from as int, since, target),
{
    let mut i: usize = from;
    while i < bars.len()
        invariant
            from <= i,
            forall|j: int|
                from <= j < i && j < bars@.len() ==> !((since is None || (
                #[trigger] bars@[j]).open_time >= since->0) && target.le(bars@[j].high)),
        decreases bars@.len() - i,
    {
        let counts: bool = match since {
            Some(t) => bars[i].open_time >= t,
            None => true,
        };
        if counts && bars[i].high >= target {
            return true;
        }
        i = i + 1;
    }
    false
}

/// Where the last eight bars start.
pub open spec fn last_eight(n: int) -> int {
    if n > 8 {
        n - 8
    } else {
        0
    }
}

/// Whether the long has been one risk ahead: on the mark, by its profit, or by
/// a candle since entry; without an opening time only the last eight count.
pub open spec fn reached_r(pos: Position, mark: Dec, s: MarketSnapshot) -> Option<bool> {
    let bars = s.series(pos.symbol@);
    match one_r_of(pos) {
        None => None,
        Some(None) => Some(false),
        Some(Some(target)) => if target.le(mark) {
            Some(true)
        } else {
            match n_sub(Some(target), Some(pos.entry_price)) {
                None => None,
                Some(risk) => {
                    let need = n_mul(Some(pos.qty), Some(risk));
                    if pos.qty.pos() && need is None {
                        None
                    } else if pos.qty.pos() && need->0.le(pos.unrealized_pnl) {
                        Some(true)
                    } else {
                        let from = if pos.opened_bar_time is Some {
                            0
                        } else {
                            last_eight(bars.len() as int)
                        };
                        let last = closed_bar(bars);
                        Some(
                            high_reached(bars, from, pos.opened_bar_time, target) || (last is Some
                                && target.le(last->0.close)),
                        )
                    }
                },
            }
        },
    }
}

fn reached_one_r(pos: &Position, mark: Dec, snapshot: &MarketSnapshot) -> (r: Option<bool>)
    ensures
        r == reached_r(*pos, mark, *snapshot),
{
    let target: Dec = match one_r_price(pos)? {
        Some(t) => t,
        None => return Some(false),
    };
    if mark >= target {
        return Some(true);
    }
    let risk: Dec = minus(Some(target), Some(pos.entry_price))?;
    if pos.qty.is_pos() {
        let need: Dec = times(Some(pos.qty), Some(risk))?;
        if pos.unrealized_pnl >= need {
            return Some(true);
        }
    }
    let bars: &[Bar] = snapshot.bars_for(pos.symbol.as_str());
    let n: usize = bars.len();
    let from: usize = if pos.opened_bar_time.is_some() {
        0
    } else if n > 8 {
        n - 8
    } else {
        0
    };
    if reaches_high(bars, from, pos.opened_bar_time, target) {
        return Some(true);
    }
    match last_closed_bar(bars) {
        Some(b) => Some(b.close >= target),
        None => Some(false),
    }
}

/// The risk that a take profit stands for, fees taken out.
pub open spec fn risk_by_target(pos: Position, reward_r: Dec) -> Option<Option<Dec>> {
    if pos.take_profit is None || !reward_r.pos() || !pos.entry_price.pos() {
        Some(None)
    } else {
        match n_div(pos.take_profit, n_add(Some(dec(1, 0)), Some(round_trip()))) {
            None => None,
            Some(gross) => if gross.le(pos.entry_price) {
                Some(None)
            } else {
                match n_div(n_sub(Some(gross), Some(pos.entry_price)), Some(reward_r)) {
                    None => None,
                    Some(risk) => if risk.pos() {
                        Some(Some(risk))
                    } else {
                        Some(None)
                    },
                }
            },
        }
    }
}

fn risk_from_take_profit(pos: &Position, reward_r: Dec) -> (r: Option<Option<Dec>>)
    ensures
        r == risk_by_target(*pos, reward_r),
{
    let tp: Dec = match pos.take_profit {
        Some(t) => t,
        None => return Some(None),
    };
    if !reward_r.is_pos() || !pos.entry_price.is_pos() {
        return Some(None);
    }
    let gross: Dec = over(Some(tp), plus(Some(Dec::one()), Some(round_trip_taker_pct())))?;
    if gross <= pos.entry_price {
        return Some(None);
    }
    let risk: Dec = over(minus(Some(gross), Some(pos.entry_price)), Some(reward_r))?;
    if risk.is_pos() {
        Some(Some(risk))
    } else {
        Some(None)
    }
}

/// The note on a long that is banked.
pub open spec fn bank_note(p: ContinuationView) -> Seq<char> {
    decimal_text(decimal_normal(p.bank_r)) + "R — фиксирую"@
}

fn bank_reason(p: &ContinuationParams) -> (r: String)
    ensures
        r@ == bank_note(p@),
{
    let mut out = p.bank_r.normalize().text();
    out.append("R — фиксирую");
    out
}

/// Whether a stop may take the place of `sl` below the mark.
pub open spec fn raises(stop: Dec, sl: Dec, mark: Dec) -> bool {
    sl.lt(stop) && stop.lt(mark) && valid_long_stop(stop, mark)
}

fn raises_stop(stop: Dec, sl: Dec, mark: Dec) -> (r: bool)
    ensures
        r == raises(stop, sl, mark),
{
    stop > sl && stop < mark && long_stop_is_valid(stop, mark)
}

/// The multiple `k` of the risk above entry.
pub open spec fn ahead(pos: Position, k: Dec, risk: Dec) -> Num {
    n_add(Some(pos.entry_price), n_mul(Some(k), Some(risk)))
}

/// While the risk is open and one risk was not reached: a giveback from the
/// peak is locked in or closed.
pub open spec fn waiting_for_r(pos: Position, mark: Dec, peak: Dec, sl: Dec, risk: Dec) -> Option<
    DecisionView,
> {
    if !risk.pos() {
        Some(hold_view("continuation hold / жду 1R"@))
    } else {
        match (ahead(pos, dec(8, 1), risk), ahead(pos, dec(25, 2), risk)) {
            (Some(high), Some(near)) => if high.le(peak) && mark.lt(near) {
                if raises(near, sl, mark) {
                    Some(amend_view(near, "откат с пика — замок 0.25R"@, pos.symbol@))
                } else {
                    Some(exit_view("откат с пика"@, pos.symbol@))
                }
            } else {
                Some(hold_view("continuation hold / жду 1R"@))
            },
            _ => None,
        }
    }
}

fn wait_for_r(pos: &Position, mark: Dec, peak: Dec, sl: Dec, risk: Dec) -> (r: Option<Decision>)
    ensures
        opt_decision(r) == waiting_for_r(*pos, mark, peak, sl, risk),
{
    if !risk.is_pos() {
        return Some(Decision::hold("continuation hold / жду 1R"));
    }
    let high: Dec = plus(Some(pos.entry_price), times(Some(Dec::new(8, 1)), Some(risk)))?;
    let near: Dec = plus(Some(pos.entry_price), times(Some(Dec::new(25, 2)), Some(risk)))?;
    if peak >= high && mark < near {
        if raises_stop(near, sl, mark) {
            return Some(amend(near, "откат с пика — замок 0.25R", pos.symbol.as_str()));
        }
        return Some(exit("откат с пика", pos.symbol.as_str()));
    }
    Some(Decision::hold("continuation hold / жду 1R"))
}

/// The half that is banked at one risk; the inner `None` where none is.
pub open spec fn scaled_out(pos: Position, mark: Dec, sl: Dec, be: Dec) -> Option<Option<DecisionView>> {
    match n_div(Some(pos.qty), Some(dec(2, 0))) {
        None => None,
        Some(half) => {
            let q = decimal_normal(half);
            Some(
                if q.pos() && q.lt(pos.qty) && raises(be, sl, mark) {
                    Some(
                        DecisionView::ReduceLong {
                            symbol: pos.symbol@,
                            reason: "частичная фиксация 1R"@,
                            qty: q,
                            stop_loss: be,
                        },
                    )
                } else {
                    None
                },
            )
        },
    }
}

fn scale_out(pos: &Position, mark: Dec, sl: Dec, be: Dec) -> (r: Option<Option<Decision>>)
    ensures
        opt_opt_decision(r) == scaled_out(*pos, mark, sl, be),
{
    let q: Dec = over(Some(pos.qty), Some(Dec::from_int(2)))?.normalize();
    if q.is_pos() && q < pos.qty && raises_stop(be, sl, mark) {
        return Some(
            Some(
                Decision::ReduceLong {
                    symbol: own(pos.symbol.as_str()),
                    reason: own("частичная фиксация 1R"),
                    qty: q,
                    stop_loss: be,
                },
            ),
        );
    }
    Some(None)
}

/// Whether the bank is reached: by the mark, or by the peak with one risk still
/// in hand.
pub open spec fn bank_reached(pos: Position, mark: Dec, peak: Dec, risk: Dec, p: ContinuationView) -> Option<
    bool,
> {
    if !risk.pos() {
        Some(false)
    } else {
        match (ahead(pos, p.bank_r, risk), n_add(Some(pos.entry_price), Some(risk))) {
            (Some(bank), Some(one_r)) => Some(bank.le(mark) || (bank.le(peak) && one_r.le(mark))),
            _ => None,
        }
    }
}

fn reaches_bank(pos: &Position, mark: Dec, peak: Dec, risk: Dec, p: &ContinuationParams) -> (r: Option<
    bool,
>)
    ensures
        r == bank_reached(*pos, mark, peak, risk, p@),
{
    if !risk.is_pos() {
        return Some(false);
    }
    let bank: Dec = plus(Some(pos.entry_price), times(Some(p.bank_r), Some(risk)))?;
    let one_r: Dec = plus(Some(pos.entry_price), Some(risk))?;
    Some(mark >= bank || (peak >= bank && mark >= one_r))
}

/// Whether one risk is in hand on the mark itself.
pub open spec fn in_hand(pos: Position, mark: Dec) -> Option<bool> {
    match one_r_of(pos) {
        None => None,
        Some(None) => Some(false),
        Some(Some(target)) => Some(target.le(mark)),
    }
}

/// One risk was reached while the risk is still open: scale out, bank, or move
/// the stop to break even, but only while the mark itself is one risk ahead.
pub open spec fn at_one_r(
    pos: Position,
    mark: Dec,
    peak: Dec,
    sl: Dec,
    risk: Dec,
    p: ContinuationView,
    already_scaled: bool,
) -> Option<DecisionView> {
    let be = n_mul(Some(pos.entry_price), n_add(Some(dec(1, 0)), Some(round_trip())));
    match (be, in_hand(pos, mark)) {
        (Some(be), Some(true)) => {
            let scaled = if already_scaled || p.interval == TradeInterval::Hour1 {
                Some(None)
            } else {
                scaled_out(pos, mark, sl, be)
            };
            match scaled {
                None => None,
                Some(Some(d)) => Some(d),
                Some(None) => match bank_reached(pos, mark, peak, risk, p) {
                    None => None,
                    Some(true) => Some(exit_view(bank_note(p), pos.symbol@)),
                    Some(false) => if raises(be, sl, mark) {
                        Some(amend_view(be, "безубыток на 1R"@, pos.symbol@))
                    } else {
                        Some(exit_view("1R был — фиксирую"@, pos.symbol@))
                    },
                },
            }
        },
        (Some(_), Some(false)) => Some(hold_view("continuation hold / 1R wick отдан"@)),
        _ => None,
    }
}

fn act_at_one_r(
    pos: &Position,
    mark: Dec,
    peak: Dec,
    sl: Dec,
    risk: Dec,
    p: &ContinuationParams,
    already_scaled: bool,
) -> (r: Option<Decision>)
    ensures
        opt_decision(r) == at_one_r(*pos, mark, peak, sl, risk, p@, already_scaled),
{
    let be: Dec = times(
        Some(pos.entry_price),
        plus(Some(Dec::one()), Some(round_trip_taker_pct())),
    )?;
    let hand: bool = match one_r_price(pos)? {
        Some(target) => mark >= target,
        None => false,
    };
    if !hand {
        return Some(Decision::hold("continuation hold / 1R wick отдан"));
    }
    if !already_scaled && p.interval != TradeInterval::Hour1 {
        if let Some(d) = scale_out(pos, mark, sl, be)? {
            return Some(d);
        }
    }
    if reaches_bank(pos, mark, peak, risk, p)? {
        let note = bank_reason(p);
        return Some(exit(note.as_str(), pos.symbol.as_str()));
    }
    if raises_stop(be, sl, mark) {
        return Some(amend(be, "безубыток на 1R", pos.symbol.as_str()));
    }
    Some(exit("1R был — фиксирую", pos.symbol.as_str()))
}

/// Past break even: the bank closes the long, and half a risk is locked in
/// where the peak had reached the bank.
pub open spec fn banked(pos: Position, mark: Dec, peak: Dec, sl: Dec, p: ContinuationView) -> Option<
    Option<DecisionView>,
> {
    match risk_by_target(pos, p.reward_r) {
        None => None,
        Some(None) => Some(None),
        Some(Some(risk)) => match (ahead(pos, p.bank_r, risk), ahead(pos, dec(5, 1), risk)) {
            (Some(bank), Some(lock)) => if bank.le(mark) {
                Some(Some(exit_view(bank_note(p), pos.symbol@)))
            } else if bank.le(peak) {
                if raises(lock, sl, mark) {
                    Some(Some(amend_view(lock, "замок 0.5R"@, pos.symbol@)))
                } else {
                    Some(Some(exit_view(bank_note(p), pos.symbol@)))
                }
            } else {
                Some(None)
            },
            _ => None,
        },
    }
}

fn bank_or_lock(pos: &Position, mark: Dec, peak: Dec, sl: Dec, p: &ContinuationParams) -> (r: Option<
    Option<Decision>,
>)
    ensures
        opt_opt_decision(r) == banked(*pos, mark, peak, sl, p@),
{
    let risk: Dec = match risk_from_take_profit(pos, p.reward_r)? {
        Some(x) => x,
        None => return Some(None),
    };
    let bank: Dec = plus(Some(pos.entry_price), times(Some(p.bank_r), Some(risk)))?;
    let lock: Dec = plus(Some(pos.entry_price), times(Some(Dec::new(5, 1)), Some(risk)))?;
    if mark >= bank {
        let note = bank_reason(p);
        return Some(Some(exit(note.as_str(), pos.symbol.as_str())));
    }
    if peak >= bank {
        if raises_stop(lock, sl, mark) {
            return Some(Some(amend(lock, "замок 0.5R", pos.symbol.as_str())));
        }
        let note = bank_reason(p);
        return Some(Some(exit(note.as_str(), pos.symbol.as_str())));
    }
    Some(None)
}

/// Where the trail wants the stop: the candle's low, or, but on 1h, the trail
/// distance behind the mark where that is higher.
pub open spec fn trail_goal(low: Dec, mark: Dec, p: ContinuationView) -> Num {
    if p.interval == TradeInterval::Hour1 || !p.trail_pct.pos() {
        Some(low)
    } else {
        match stop_behind(mark, "LONG"@, p.trail_pct) {
            PriceView::Price(c) => Some(
                if low.lt(c) {
                    c
                } else {
                    low
                },
            ),
            PriceView::Overflow => None,
            _ => Some(low),
        }
    }
}

fn trail_candidate(low: Dec, mark: Dec, p: &ContinuationParams) -> (r: Num)
    ensures
        r == trail_goal(low, mark, p@),
{
    if p.interval == TradeInterval::Hour1 || !p.trail_pct.is_pos() {
        return Some(low);
    }
    match candidate_stop(mark, "LONG", p.trail_pct) {
        Ok(c) => if c > low {
            Some(c)
        } else {
            Some(low)
        },
        Err(TrailError::Overflow) => None,
        Err(_) => Some(low),
    }
}

/// The note on a trailed stop.
pub open spec fn trail_note(by_mark: bool, p: ContinuationView) -> Option<Seq<char>> {
    if by_mark {
        match pct_text(p.trail_pct) {
            Some(t) => Some("trail mark "@ + t + "%"@),
            None => None,
        }
    } else {
        Some("trail по минимуму "@ + p.interval.ru())
    }
}

fn trail_reason(by_mark: bool, p: &ContinuationParams) -> (r: Option<String>)
    ensures
        match r {
            Some(t) => trail_note(by_mark, p@) == Some(t@),
            None => trail_note(by_mark, p@) is None,
        },
{
    if by_mark {
        let mut out = own("trail mark ");
        out.append(pct_label(p.trail_pct)?.as_str());
        out.append("%");
        Some(out)
    } else {
        let mut out = own("trail по минимуму ");
        out.append(p.interval.as_ru());
        Some(out)
    }
}

/// The candle the trail goes by.
pub open spec fn trail_bar(s: MarketSnapshot, symbol: Seq<char>, p: ContinuationView, now: int) -> Option<
    Bar,
> {
    if p.interval == TradeInterval::Hour1 {
        closed_bar(s.series(symbol))
    } else {
        signal_of(s, symbol, p.interval, now)
    }
}

/// The trail past break even; on 1h once per candle.
pub open spec fn trailing(
    pos: Position,
    mark: Dec,
    sl: Dec,
    bar: Option<Bar>,
    p: ContinuationView,
    trailed_bars: Map<Seq<char>, i64>,
) -> Option<DecisionView> {
    let still = hold_view("continuation hold / trail not raised"@);
    let key = upper(pos.symbol@);
    match bar {
        None => Some(still),
        Some(last) => if p.interval == TradeInterval::Hour1 && trailed_bars.contains_key(key)
            && trailed_bars[key] == last.open_time {
            Some(hold_view("continuation hold / trail already this 1h bar"@))
        } else {
            match trail_goal(last.low, mark, p) {
                None => None,
                Some(goal) => if !goal.pos() || goal.le(sl) {
                    Some(still)
                } else {
                    match trailed(Some(sl), goal, "LONG"@) {
                        PriceView::Price(new_sl) => if sl.lt(new_sl) && valid_long_stop(
                            new_sl,
                            mark,
                        ) {
                            match trail_note(last.low.lt(new_sl), p) {
                                Some(note) => Some(amend_view(new_sl, note, pos.symbol@)),
                                None => None,
                            }
                        } else {
                            Some(still)
                        },
                        PriceView::Overflow => None,
                        _ => Some(still),
                    }
                },
            }
        },
    }
}

fn trail_long(
    pos: &Position,
    mark: Dec,
    sl: Dec,
    bar: Option<Bar>,
    p: &ContinuationParams,
    trailed_bars: &SymMap<i64>,
) -> (r: Option<Decision>)
    ensures
        opt_decision(r) == trailing(*pos, mark, sl, bar, p@, trailed_bars@),
{
    let last: Bar = match bar {
        Some(b) => b,
        None => return Some(Decision::hold("continuation hold / trail not raised")),
    };
    if p.interval == TradeInterval::Hour1 {
        let key = pos.symbol.as_str().to_ascii_uppercase();
        if let Some(t) = trailed_bars.get(key.as_str()) {
            if *t == last.open_time {
                return Some(Decision::hold("continuation hold / trail already this 1h bar"));
            }
        }
    }
    let goal: Dec = trail_candidate(last.low, mark, p)?;
    if !goal.is_pos() || goal <= sl {
        return Some(Decision::hold("continuation hold / trail not raised"));
    }
    let new_sl: Dec = match trail_stop_upward(Some(sl), goal, "LONG") {
        Ok(v) => v,
        Err(TrailError::Overflow) => return None,
        Err(_) => return Some(Decision::hold("continuation hold / trail not raised")),
    };
    if new_sl > sl && long_stop_is_valid(new_sl, mark) {
        let note = trail_reason(new_sl > last.low, p)?;
        return Some(amend(new_sl, note.as_str(), pos.symbol.as_str()));
    }
    Some(Decision::hold("continuation hold / trail not raised"))
}

/// What a long with a stop comes to once no exit applies.
pub open spec fn steered(
    pos: Position,
    mark: Dec,
    sl: Dec,
    s: MarketSnapshot,
    p: ContinuationView,
    now: int,
    already_scaled: bool,
    trailed_bars: Map<Seq<char>, i64>,
) -> Option<DecisionView> {
    match peak_of(pos, mark, s) {
        None => None,
        Some(peak) => if sl.lt(pos.entry_price) {
            match (n_sub(Some(pos.entry_price), Some(sl)), reached_r(pos, mark, s)) {
                (Some(risk), Some(true)) => at_one_r(
                    pos,
                    mark,
                    peak,
                    sl,
                    risk,
                    p,
                    already_scaled,
                ),
                (Some(risk), Some(false)) => waiting_for_r(pos, mark, peak, sl, risk),
                _ => None,
            }
        } else {
            match banked(pos, mark, peak, sl, p) {
                None => None,
                Some(Some(d)) => Some(d),
                Some(None) => trailing(
                    pos,
                    mark,
                    sl,
                    trail_bar(s, pos.symbol@, p, now),
                    p,
                    trailed_bars,
                ),
            }
        },
    }
}

fn steer(
    pos: &Position,
    mark: Dec,
    sl: Dec,
    snapshot: &MarketSnapshot,
    p: &ContinuationParams,
    now: i64,
    already_scaled: bool,
    trailed_bars: &SymMap<i64>,
) -> (r: Option<Decision>)
    ensures
        opt_decision(r) == steered(
            *pos,
            mark,
            sl,
            *snapshot,
            p@,
            now as int,
            already_scaled,
            trailed_bars@,
        ),
{
    let peak: Dec = peak_price(pos, mark, snapshot)?;
    if sl < pos.entry_price {
        let risk: Dec = minus(Some(pos.entry_price), Some(sl))?;
        if reached_one_r(pos, mark, snapshot)? {
            return act_at_one_r(pos, mark, peak, sl, risk, p, already_scaled);
        }
        return wait_for_r(pos, mark, peak, sl, risk);
    }
    if let Some(d) = bank_or_lock(pos, mark, peak, sl, p)? {
        return Some(d);
    }
    let sym: &str = pos.symbol.as_str();
    let bar: Option<Bar> = if p.interval == TradeInterval::Hour1 {
        last_closed_bar(snapshot.bars_for(sym))
    } else {
        signal_bar(snapshot, sym, p.interval, now)
    };
    trail_long(pos, mark, sl, bar, p, trailed_bars)
}

/// What continuation does about a held long.
pub open spec fn continuation_manage(
    pos: Position,
    s: MarketSnapshot,
    p: ContinuationView,
    now: int,
    already_scaled: bool,
    trailed_bars: Map<Seq<char>, i64>,
) -> Option<DecisionView> {
    let sym = pos.symbol@;
    let mark = mark_in(s, sym);
    if !pos.is_open_long() {
        Some(hold_view("continuation is buy-only; short not managed"@))
    } else if !mark.pos() {
        Some(hold_view("no mark for open position"@))
    } else if pos.take_profit is Some && pos.take_profit->0.le(mark) {
        Some(exit_view("continuation take profit"@, sym))
    } else if pos.stop_loss is None {
        attached_stop(pos, mark, p)
    } else if mark.le(pos.stop_loss->0) {
        Some(exit_view("continuation stop loss"@, sym))
    } else {
        match trend_broken(s.htf_series(sym)) {
            None => None,
            Some(true) => Some(exit_view("4ч сломал тренд"@, sym)),
            Some(false) => match time_stop(pos, now, p) {
                Some(reason) => Some(exit_view(reason, sym)),
                None => steered(
                    pos,
                    mark,
                    pos.stop_loss->0,
                    s,
                    p,
                    now,
                    already_scaled,
                    trailed_bars,
                ),
            },
        }
    }
}

pub fn manage_continuation_long(
    pos: &Position,
    snapshot: &MarketSnapshot,
    p: &ContinuationParams,
    now: i64,
    already_scaled: bool,
    hour1_trail_bar: &SymMap<i64>,
) -> (r: Option<Decision>)
    ensures
        opt_decision(r) == continuation_manage(
            *pos,
            *snapshot,
            p@,
            now as int,
            already_scaled,
            hour1_trail_bar@,
        ),
{
    let sym: &str = pos.symbol.as_str();
    if !pos.open_long() {
        return Some(Decision::hold("continuation is buy-only; short not managed"));
    }
    let mark: Dec = mark_price(snapshot, sym);
    if !mark.is_pos() {
        return Some(Decision::hold("no mark for open position"));
    }
    if let Some(tp) = pos.take_profit {
        if mark >= tp {
            return Some(exit("continuation take profit", sym));
        }
    }
    let sl: Dec = match pos.stop_loss {
        Some(x) => x,
        None => return attach_stop_from_entry(pos, mark, p),
    };
    if mark <= sl {
        return Some(exit("continuation stop loss", sym));
    }
    if breaks_trend(snapshot.htf_bars_for(sym))? {
        return Some(exit("4ч сломал тренд", sym));
    }
    if let Some(reason) = time_stop_reason(pos, now, p) {
        return Some(exit(reason, sym));
    }
    steer(pos, mark, sl, snapshot, p, now, already_scaled, hour1_trail_bar)
}

/// A continuation stop only rises: an amended or scaled-out stop is above the
/// one before it and below the mark, whatever the phase.
pub proof fn law_continuation_stop_only_rises(
    pos: Position,
    s: MarketSnapshot,
    p: ContinuationView,
    now: int,
    already_scaled: bool,
    trailed_bars: Map<Seq<char>, i64>,
)
    ensures
        ({
            let r = continuation_manage(pos, s, p, now, already_scaled, trailed_bars);
            let mark = mark_in(s, pos.symbol@);
            &&& r matches Some(DecisionView::AmendStop { stop_loss, .. }) ==> stop_loss.lt(mark) && (
            pos.stop_loss is Some ==> pos.stop_loss->0.lt(stop_loss))
            &&& r matches Some(DecisionView::ReduceLong { stop_loss, .. }) ==> stop_loss.lt(mark)
                && pos.stop_loss is Some && pos.stop_loss->0.lt(stop_loss)
        }),
{
}

/// Half a long is banked at most once, only while one risk is in hand on the
/// mark, and never on 1h; what is sold is less than what is held.
pub proof fn law_scale_out_needs_one_r_in_hand(
    pos: Position,
    s: MarketSnapshot,
    p: ContinuationView,
    now: int,
    already_scaled: bool,
    trailed_bars: Map<Seq<char>, i64>,
)
    ensures
        continuation_manage(pos, s, p, now, already_scaled, trailed_bars) matches Some(
            DecisionView::ReduceLong { qty, symbol, .. },
        ) ==> {
            &&& !already_scaled
            &&& p.interval != TradeInterval::Hour1
            &&& in_hand(pos, mark_in(s, pos.symbol@)) == Some(true)
            &&& qty.pos() && qty.lt(pos.qty)
            &&& symbol == pos.symbol@
        },
{
}

} // verus!

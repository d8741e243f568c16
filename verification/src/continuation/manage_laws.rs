//! What continuation does with a long it holds, told by prices and candles.
use super::manage::{
    continuation_manage, mark_in, peak_of, reached_r, risk_by_target, row_of, trail_bar,
};
use super::ContinuationView;
use crate::config::TradeInterval;
use crate::dec::{
    dec, decimal_difference, decimal_normal, decimal_product, decimal_quotient, decimal_rules,
    decimal_sum, goes_into, law_even_quotients_are_exact, n_add, n_div, n_mul, Dec,
};
use crate::indicators::{closes_of, ema_last};
use crate::models::{Bar, MarketSnapshot, Position, Side, Ticker};
use crate::money::round_trip;
use crate::sessions::entry_open;
use crate::scalp::{peak_base, peak_through};
use crate::text::upper;
use crate::trail::law_side_words;
use vstd::prelude::*;

verus! {

/// What a long is worth: the price of the first row of its name on the tape.
pub proof fn law_mark_is_the_tape_price(s: MarketSnapshot, symbol: Seq<char>, k: int)
    requires
        0 <= k < s.tickers@.len(),
        s.tickers@[k].symbol@ == symbol,
        forall|i: int| 0 <= i < k ==> (#[trigger] s.tickers@[i]).symbol@ != symbol,
    ensures
        mark_in(s, symbol) == s.tickers@[k].last_price,
{
    lemma_row(s.tickers@, symbol, k);
}

proof fn lemma_row(v: Seq<Ticker>, symbol: Seq<char>, k: int)
    requires
        0 <= k < v.len(),
        v[k].symbol@ == symbol,
        forall|i: int| 0 <= i < k ==> (#[trigger] v[i]).symbol@ != symbol,
    ensures
        row_of(v, symbol) == Some(v[k]),
    decreases k,
{
    if k > 0 {
        let rest = v.drop_first();
        assert forall|i: int| 0 <= i < k - 1 implies (#[trigger] rest[i]).symbol@ != symbol by {
            assert(rest[i] == v[i + 1]);
        }
        lemma_row(rest, symbol, k - 1);
    }
}

/// Whether 4h keeps a long: there is too little of it, or its last close is above
/// the mean of its closes.
pub open spec fn htf_holds(htf: Seq<Bar>) -> bool {
    htf.len() < 21 || (ema_last(closes_of(htf), 20) matches Some(Some(e)) && e.lt(htf.last().close))
}

/// Whether a long was held too long: twelve hours on 1h, four on the others.
pub open spec fn held_too_long(pos: Position, now: int, p: ContinuationView) -> bool {
    pos.opened_bar_time matches Some(t) && t > 0 && now - t >= if p.interval == TradeInterval::Hour1 {
        12 * 60 * 60 * 1000
    } else {
        4 * 60 * 60 * 1000
    }
}

/// Whether the hours of a long are over. On 1h they never are.
pub open spec fn hours_over(now: int, p: ContinuationView) -> bool {
    p.interval != TradeInterval::Hour1 && !p.always_enter && p.entry_windows.len() > 0 && !entry_open(
        now,
        Some(p.entry_windows),
        false,
    )
}

/// A long goes at once where the price is at or above its take-profit, at or below
/// its stop, where 4h closed at or below its mean, where it was held too long, or
/// where its hours are over.
pub proof fn law_continuation_lets_go(
    pos: Position,
    s: MarketSnapshot,
    p: ContinuationView,
    now: int,
    scaled: bool,
    trailed_bars: Map<Seq<char>, i64>,
)
    requires
        pos.side == Side::Long,
        pos.qty.pos(),
        mark_in(s, pos.symbol@).pos(),
        continuation_manage(pos, s, p, now, scaled, trailed_bars) is Some,
    ensures
        ({
            let d = continuation_manage(pos, s, p, now, scaled, trailed_bars)->0;
            let mark = mark_in(s, pos.symbol@);
            let htf = s.htf_series(pos.symbol@);
            &&& pos.take_profit is Some && pos.take_profit->0.le(mark) ==> d is ExitPosition
            &&& pos.stop_loss is Some && mark.le(pos.stop_loss->0) ==> d is ExitPosition
            &&& pos.stop_loss is Some && htf.len() >= 21 && (ema_last(closes_of(htf), 20) matches Some(
                Some(e),
            ) && htf.last().close.le(e)) ==> d is ExitPosition
            &&& pos.stop_loss is Some && held_too_long(pos, now, p) ==> d is ExitPosition
            &&& pos.stop_loss is Some && hours_over(now, p) ==> d is ExitPosition
            &&& d is ExitPosition ==> d->ExitPosition_symbol == pos.symbol@
            &&& d is AmendStop ==> d->AmendStop_symbol == pos.symbol@
            &&& d is ReduceLong ==> d->ReduceLong_symbol == pos.symbol@
            &&& !(d is EnterLong)
        }),
{
}

/// Whether nothing lets a long with a stop go at once.
pub open spec fn kept(pos: Position, s: MarketSnapshot, p: ContinuationView, now: int) -> bool {
    let mark = mark_in(s, pos.symbol@);
    &&& pos.side == Side::Long
    &&& pos.qty.pos()
    &&& mark.pos()
    &&& pos.take_profit is Some ==> mark.lt(pos.take_profit->0)
    &&& pos.stop_loss is Some && pos.stop_loss->0.lt(mark)
    &&& htf_holds(s.htf_series(pos.symbol@))
    &&& !held_too_long(pos, now, p)
    &&& !hours_over(now, p)
}

/// Once a long's risk is in hand (the price is as far above the entry as the stop
/// is below it), half of it is sold and the stop goes to the entry with the fees of
/// both ways, where that is between the stop and the price; on 1h, or where half
/// was sold before, the long is closed at the bank's multiple of the risk and
/// otherwise the stop goes there.
pub proof fn law_risk_in_hand_is_banked(
    pos: Position,
    s: MarketSnapshot,
    p: ContinuationView,
    now: int,
    scaled: bool,
    trailed_bars: Map<Seq<char>, i64>,
    risk: Dec,
    be: Dec,
)
    requires
        kept(pos, s, p, now),
        pos.entry_price.pos(),
        pos.stop_loss->0.lt(pos.entry_price),
        decimal_difference(pos.entry_price, pos.stop_loss->0) == Some(risk),
        risk.pos(),
        decimal_sum(pos.entry_price, risk) matches Some(goal) && goal.le(mark_in(s, pos.symbol@)),
        n_mul(Some(pos.entry_price), decimal_sum(dec(1, 0), round_trip())) == Some(be),
        pos.stop_loss->0.lt(be) && be.pos() && be.lt(mark_in(s, pos.symbol@)),
        continuation_manage(pos, s, p, now, scaled, trailed_bars) is Some,
    ensures
        ({
            let d = continuation_manage(pos, s, p, now, scaled, trailed_bars)->0;
            let mark = mark_in(s, pos.symbol@);
            let half = decimal_quotient(pos.qty, dec(2, 0));
            let bank = n_add(Some(pos.entry_price), decimal_product(p.bank_r, risk));
            let splits = !scaled && p.interval != TradeInterval::Hour1 && half is Some && {
                let q = decimal_normal(half->0);
                q.pos() && q.lt(pos.qty)
            };
            &&& splits ==> d is ReduceLong && d->ReduceLong_qty == decimal_normal(half->0)
                && d->ReduceLong_stop_loss == be
            &&& !splits ==> !(d is ReduceLong)
            &&& !splits && bank is Some && bank->0.le(mark) ==> d is ExitPosition
            &&& !splits && bank is Some && mark.lt(bank->0) && peak_of(pos, mark, s) is Some && peak_of(
                pos,
                mark,
                s,
            )->0.lt(bank->0) ==> d is AmendStop && d->AmendStop_stop_loss == be
        }),
{
}

/// While a long's risk is not in hand it is neither split nor taken to break-even:
/// it is held, or, where it had been most of the way and gave it back, closed or
/// locked in.
pub proof fn law_nothing_is_banked_before_the_risk_is_in_hand(
    pos: Position,
    s: MarketSnapshot,
    p: ContinuationView,
    now: int,
    scaled: bool,
    trailed_bars: Map<Seq<char>, i64>,
    risk: Dec,
)
    requires
        kept(pos, s, p, now),
        pos.entry_price.pos(),
        pos.stop_loss->0.lt(pos.entry_price),
        decimal_difference(pos.entry_price, pos.stop_loss->0) == Some(risk),
        risk.pos(),
        decimal_sum(pos.entry_price, risk) matches Some(goal) && mark_in(s, pos.symbol@).lt(goal),
        continuation_manage(pos, s, p, now, scaled, trailed_bars) is Some,
    ensures
        ({
            let d = continuation_manage(pos, s, p, now, scaled, trailed_bars)->0;
            let mark = mark_in(s, pos.symbol@);
            let peak = peak_of(pos, mark, s);
            let most = n_add(Some(pos.entry_price), decimal_product(dec(8, 1), risk));
            let little = n_add(Some(pos.entry_price), decimal_product(dec(25, 2), risk));
            &&& !(d is ReduceLong)
            &&& !(d is Hold) ==> {
                &&& peak is Some && most is Some && little is Some
                &&& most->0.le(peak->0) && mark.lt(little->0)
                &&& d is AmendStop ==> d->AmendStop_stop_loss == little->0
            }
        }),
{
}

/// Once a long's stop is at or above its entry, the stop follows the candle's low,
/// or the trail's distance behind the price where that is higher and the timeframe
/// is not 1h; it is moved only upwards and stays below the price.
pub proof fn law_trail_follows_the_candle(
    pos: Position,
    s: MarketSnapshot,
    p: ContinuationView,
    now: int,
    scaled: bool,
    trailed_bars: Map<Seq<char>, i64>,
)
    requires
        kept(pos, s, p, now),
        pos.entry_price.le(pos.stop_loss->0),
        pos.stop_loss->0.pos(),
        pos.take_profit is None,
        continuation_manage(pos, s, p, now, scaled, trailed_bars) is Some,
        trail_bar(s, pos.symbol@, p, now) is Some,
    ensures
        ({
            let d = continuation_manage(pos, s, p, now, scaled, trailed_bars)->0;
            let mark = mark_in(s, pos.symbol@);
            let sl = pos.stop_loss->0;
            let bar = trail_bar(s, pos.symbol@, p, now)->0;
            let hour1 = p.interval == TradeInterval::Hour1;
            let behind = n_mul(Some(mark), decimal_difference(dec(1, 0), p.trail_pct));
            let key = upper(pos.symbol@);
            let again = hour1 && trailed_bars.contains_key(key) && trailed_bars[key]
                == bar.open_time;
            let goal = if !hour1 && p.trail_pct.pos() && behind is Some && bar.low.lt(behind->0) {
                behind->0
            } else {
                bar.low
            };
            &&& d is AmendStop || d is Hold
            &&& again ==> d is Hold
            &&& !again ==> (d is AmendStop <==> goal.pos() && sl.lt(goal) && goal.lt(mark))
            &&& d is AmendStop ==> d->AmendStop_stop_loss == goal
        }),
{
    law_side_words();
}

/// A long without a stop gets one at the smallest distance below its entry; where
/// the price is already there it goes.
pub proof fn law_missing_stop_is_set_below_the_entry(
    pos: Position,
    s: MarketSnapshot,
    p: ContinuationView,
    now: int,
    scaled: bool,
    trailed_bars: Map<Seq<char>, i64>,
    stop: Dec,
)
    requires
        pos.side == Side::Long,
        pos.qty.pos(),
        pos.entry_price.pos(),
        pos.stop_loss is None,
        mark_in(s, pos.symbol@).pos(),
        pos.take_profit is Some ==> mark_in(s, pos.symbol@).lt(pos.take_profit->0),
        p.min_stop_pct.pos(),
        n_mul(Some(pos.entry_price), decimal_difference(dec(1, 0), p.min_stop_pct)) == Some(stop),
        stop.pos(),
    ensures
        ({
            let d = continuation_manage(pos, s, p, now, scaled, trailed_bars);
            let mark = mark_in(s, pos.symbol@);
            &&& d is Some
            &&& mark.le(stop) ==> d->0 is ExitPosition
            &&& stop.lt(mark) ==> d->0 is AmendStop && d->0->AmendStop_stop_loss == stop
        }),
{
    law_side_words();
}

/// What the peak of a long is: at least the price, and the high of every candle
/// since it was opened.
pub proof fn law_peak_covers_every_high(pos: Position, mark: Dec, s: MarketSnapshot, i: int)
    requires
        peak_of(pos, mark, s) is Some,
        pos.opened_bar_time is Some,
        0 <= i < s.series(pos.symbol@).len(),
        pos.opened_bar_time->0 <= s.series(pos.symbol@)[i].open_time,
    ensures
        mark.le(peak_of(pos, mark, s)->0),
        s.series(pos.symbol@)[i].high.le(peak_of(pos, mark, s)->0),
        s.last_bars@.contains_key(pos.symbol@) && s.last_bars@[pos.symbol@].open_time
            >= pos.opened_bar_time->0 ==> s.last_bars@[pos.symbol@].high.le(peak_of(pos, mark, s)->0),
{
    let bars = s.series(pos.symbol@);
    let base = peak_base(pos, mark)->0;
    lemma_peak_through(bars, pos.opened_bar_time, base, bars.len() as int, i);
}

proof fn lemma_peak_through(bars: Seq<Bar>, opened: Option<i64>, base: Dec, n: int, i: int)
    requires
        0 <= n <= bars.len(),
    ensures
        base.le(peak_through(bars, opened, base, n)),
        0 <= i < n && (opened is Some ==> opened->0 <= bars[i].open_time) ==> bars[i].high.le(
            peak_through(bars, opened, base, n),
        ),
        peak_through(bars, opened, base, n) == base || exists|k: int|
            0 <= k < n && (#[trigger] bars[k]).high == peak_through(bars, opened, base, n) && (opened is Some
                ==> opened->0 <= bars[k].open_time),
    decreases n,
{
    if n > 0 {
        lemma_peak_through(bars, opened, base, n - 1, i);
        let m = peak_through(bars, opened, base, n);
        assert(m == peak_through(bars, opened, base, n - 1) || bars[n - 1].high == m);
    }
}

/// When a long counts as having been its risk ahead: on the price, by its open
/// profit, by the high of a candle since it was opened, or by the last whole close;
/// and by nothing else.
pub proof fn law_one_risk_ahead(pos: Position, mark: Dec, s: MarketSnapshot, risk: Dec, goal: Dec)
    requires
        pos.entry_price.pos() && pos.qty.pos(),
        pos.stop_loss is Some && pos.stop_loss->0.lt(pos.entry_price),
        pos.opened_bar_time is Some,
        decimal_difference(pos.entry_price, pos.stop_loss->0) == Some(risk),
        risk.pos(),
        decimal_sum(pos.entry_price, risk) == Some(goal),
        reached_r(pos, mark, s) is Some,
        mark.lt(goal) ==> decimal_difference(goal, pos.entry_price) is Some,
    ensures
        ({
            let bars = s.series(pos.symbol@);
            let way = decimal_difference(goal, pos.entry_price);
            let by_high = exists|i: int|
                0 <= i < bars.len() && (#[trigger] bars[i]).open_time >= pos.opened_bar_time->0 && goal.le(
                    bars[i].high,
                );
            let by_close = bars.len() >= 2 && goal.le(bars[bars.len() - 2].close) || bars.len() == 1
                && goal.le(bars[0].close);
            reached_r(pos, mark, s)->0 <==> {
                ||| goal.le(mark)
                ||| n_mul(Some(pos.qty), way) is Some && n_mul(Some(pos.qty), way)->0.le(
                    pos.unrealized_pnl,
                ) && way is Some
                ||| by_high
                ||| by_close
            }
        }),
{
    let bars = s.series(pos.symbol@);
    if exists|i: int|
        0 <= i < bars.len() && (#[trigger] bars[i]).open_time >= pos.opened_bar_time->0 && goal.le(
            bars[i].high,
        ) {
        let i = choose|i: int|
            0 <= i < bars.len() && (#[trigger] bars[i]).open_time >= pos.opened_bar_time->0 && goal.le(
                bars[i].high,
            );
        assert(super::manage::high_reached(bars, 0, pos.opened_bar_time, goal));
    }
}

/// Past break-even a long is closed once the price is the bank's multiple of the
/// risk above the entry; had only its peak been there, half a risk is locked in, or
/// the long is closed where that is not between the stop and the price.
pub proof fn law_bank_past_break_even(
    pos: Position,
    s: MarketSnapshot,
    p: ContinuationView,
    now: int,
    scaled: bool,
    trailed_bars: Map<Seq<char>, i64>,
    risk: Dec,
    bank: Dec,
    lock: Dec,
)
    requires
        kept(pos, s, p, now),
        pos.entry_price.le(pos.stop_loss->0),
        risk_by_target(pos, p.reward_r) == Some(Some(risk)),
        n_add(Some(pos.entry_price), decimal_product(p.bank_r, risk)) == Some(bank),
        n_add(Some(pos.entry_price), decimal_product(dec(5, 1), risk)) == Some(lock),
        continuation_manage(pos, s, p, now, scaled, trailed_bars) is Some,
    ensures
        ({
            let d = continuation_manage(pos, s, p, now, scaled, trailed_bars)->0;
            let mark = mark_in(s, pos.symbol@);
            let peak = peak_of(pos, mark, s)->0;
            let fits_it = pos.stop_loss->0.lt(lock) && lock.lt(mark) && lock.pos();
            &&& bank.le(mark) ==> d is ExitPosition
            &&& mark.lt(bank) && bank.le(peak) && fits_it ==> d is AmendStop && d->AmendStop_stop_loss
                == lock
            &&& mark.lt(bank) && bank.le(peak) && !fits_it ==> d is ExitPosition
            &&& mark.lt(bank) && peak.lt(bank) ==> !(d is ExitPosition)
        }),
{
}

/// The risk that a take-profit stands for, wherever the decimals divide evenly:
/// times the reward it is the way from the entry up to the take-profit without its
/// fees.
pub proof fn law_risk_of_a_take_profit(pos: Position, reward: Dec, gross: Dec, way: Dec)
    requires
        decimal_rules(),
        pos.entry_price.pos() && reward.pos(),
        pos.take_profit is Some,
        n_div(pos.take_profit, decimal_sum(dec(1, 0), round_trip())) == Some(gross),
        pos.entry_price.lt(gross),
        decimal_difference(gross, pos.entry_price) == Some(way),
        goes_into(reward, way),
        way.pos(),
    ensures
        risk_by_target(pos, reward) matches Some(Some(r)) && r.units() * reward.units() == way.units() * dec(
            1,
            0,
        ).units(),
{
    law_even_quotients_are_exact(way, reward);
    let r = decimal_quotient(way, reward)->0;
    let a = r.units();
    let b = reward.units();
    let c = way.units();
    let one = dec(1, 0).units();
    crate::dec::lemma_dec_parts(1, 0);
    crate::dec::lemma_units_sign(dec(1, 0));
    assert(a > 0) by (nonlinear_arith)
        requires
            a * b == c * one,
            b > 0,
            c > 0,
            one > 0,
    ;
}

/// A long that had been most of its risk ahead and gave all but a quarter of it
/// back goes; any other that was not its whole risk ahead is held.
pub proof fn law_giveback_is_answered(
    pos: Position,
    s: MarketSnapshot,
    p: ContinuationView,
    now: int,
    scaled: bool,
    trailed_bars: Map<Seq<char>, i64>,
    risk: Dec,
    most: Dec,
    little: Dec,
)
    requires
        kept(pos, s, p, now),
        pos.stop_loss->0.lt(pos.entry_price),
        decimal_difference(pos.entry_price, pos.stop_loss->0) == Some(risk),
        risk.pos(),
        reached_r(pos, mark_in(s, pos.symbol@), s) == Some(false),
        n_add(Some(pos.entry_price), decimal_product(dec(8, 1), risk)) == Some(most),
        n_add(Some(pos.entry_price), decimal_product(dec(25, 2), risk)) == Some(little),
        peak_of(pos, mark_in(s, pos.symbol@), s) is Some,
    ensures
        ({
            let d = continuation_manage(pos, s, p, now, scaled, trailed_bars);
            let mark = mark_in(s, pos.symbol@);
            let peak = peak_of(pos, mark, s)->0;
            let gave = most.le(peak) && mark.lt(little);
            &&& d is Some
            &&& !gave ==> d->0 is Hold
            &&& gave ==> d->0 is ExitPosition
        }),
{
}

} // verus!

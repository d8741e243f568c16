//! When momentum buys and lets go, told by the tape and the candles.
use super::{entry_view, manage_view, row_verdict, tape_mark, MomentumView, RowContext};
use crate::dec::{dec, decimal_difference, decimal_sum, n_mul, Dec};
use crate::models::{Bar, Position, Side, Ticker};
use crate::money::round_trip;
use crate::ranking::{
    book_rows, eligible_rows, law_ranking_is_in_order, law_ranking_keeps_the_rows, momentum_book,
    ranked, ranks_before, Eligibility, RankBy,
};
use crate::text::upper;
use crate::trail::law_side_words;
use vstd::prelude::*;

verus! {

/// The price that a position is marked at is the first positive one of its name on
/// the tape.
pub proof fn law_tape_mark_is_the_first_price(symbol: Seq<char>, tickers: Seq<Ticker>, k: int)
    requires
        0 <= k < tickers.len(),
        tickers[k].symbol@ == symbol,
        tickers[k].last_price.pos(),
        forall|i: int|
            0 <= i < k ==> (#[trigger] tickers[i]).symbol@ != symbol || !tickers[i].last_price.pos(),
    ensures
        tape_mark(symbol, tickers) == Some(tickers[k].last_price),
    decreases k,
{
    if k > 0 {
        let rest = tickers.drop_first();
        assert forall|i: int| 0 <= i < k - 1 implies (#[trigger] rest[i]).symbol@ != symbol
            || !rest[i].last_price.pos() by {
            assert(rest[i] == tickers[i + 1]);
        }
        assert(tickers[0].symbol@ != symbol || !tickers[0].last_price.pos());
        law_tape_mark_is_the_first_price(symbol, rest, k - 1);
    }
}

/// When momentum lets a long go: exactly where the price is at or above the
/// take-profit or at or below the stop, where the name fell out of the book, or
/// where its last candle fell.
pub proof fn law_momentum_lets_go(
    pos: Position,
    tickers: Seq<Ticker>,
    last_bars: Map<Seq<char>, Bar>,
    book: Seq<Ticker>,
    p: MomentumView,
    mark: Dec,
)
    requires
        pos.side == Side::Long,
        tape_mark(pos.symbol@, tickers) == Some(mark),
        manage_view(pos, tickers, last_bars, book, p) is Some,
    ensures
        ({
            let d = manage_view(pos, tickers, last_bars, book, p)->0;
            &&& d is ExitPosition <==> {
                ||| pos.take_profit is Some && pos.take_profit->0.le(mark)
                ||| pos.stop_loss is Some && mark.le(pos.stop_loss->0)
                ||| book.len() > 0 && forall|i: int|
                    0 <= i < book.len() ==> (#[trigger] book[i]).symbol@ != pos.symbol@
                ||| last_bars.contains_key(pos.symbol@) && last_bars[pos.symbol@].close.lt(
                    last_bars[pos.symbol@].open,
                )
            }
            &&& d is ExitPosition ==> d->ExitPosition_symbol == pos.symbol@
            &&& d is AmendStop ==> d->AmendStop_symbol == pos.symbol@
            &&& d is ExitPosition || d is AmendStop || d is Hold
        }),
{
}

/// How momentum trails: the stop goes to the trail's share below the price, where
/// that is above the stop that is there.
pub proof fn law_momentum_trails_the_price(
    pos: Position,
    tickers: Seq<Ticker>,
    last_bars: Map<Seq<char>, Bar>,
    book: Seq<Ticker>,
    p: MomentumView,
    mark: Dec,
    goal: Dec,
)
    requires
        pos.side == Side::Long,
        tape_mark(pos.symbol@, tickers) == Some(mark),
        mark.pos(),
        p.trail_pct.pos(),
        n_mul(Some(mark), decimal_difference(dec(1, 0), p.trail_pct)) == Some(goal),
        pos.stop_loss is Some ==> pos.stop_loss->0.pos(),
        manage_view(pos, tickers, last_bars, book, p) matches Some(d) && !(d is ExitPosition),
    ensures
        ({
            let d = manage_view(pos, tickers, last_bars, book, p)->0;
            let better = goal.pos() && goal.lt(mark) && (pos.stop_loss is Some ==> pos.stop_loss->0.lt(
                goal,
            ));
            &&& d is AmendStop <==> better
            &&& d is AmendStop ==> d->AmendStop_stop_loss == goal
        }),
{
    law_side_words();
}

/// How an entry of momentum is bracketed: the stop lies the trail's share below the
/// price, the take-profit its share and the fees of both ways above it.
pub proof fn law_momentum_bracket(t: Ticker, p: MomentumView)
    requires
        entry_view(t, p) matches Some(d) && d is EnterLong,
    ensures
        ({
            let d = entry_view(t, p)->0;
            let share = decimal_sum(p.tp_pct, round_trip());
            &&& d->EnterLong_symbol == t.symbol@
            &&& d->EnterLong_stop_loss.pos() && d->EnterLong_stop_loss.lt(t.last_price)
            &&& Some(d->EnterLong_stop_loss) == n_mul(
                Some(t.last_price),
                decimal_difference(dec(1, 0), p.trail_pct),
            )
            &&& share is Some && Some(d->EnterLong_take_profit) == n_mul(
                Some(t.last_price),
                decimal_sum(dec(1, 0), share->0),
            )
        }),
{
    law_side_words();
}

/// What momentum buys is not held, not in flight and not cooling, is below the top
/// fiftieth of its day, and its last candle did not fall.
pub proof fn law_momentum_buys(t: Ticker, c: RowContext)
    requires
        row_verdict(t, c) is Enter,
    ensures
        !c.held.contains(upper(t.symbol@)),
        forall|k: Seq<char>|
            #[trigger] c.cooldowns.contains_key(k) && upper(k) == upper(t.symbol@)
                ==> c.cooldowns[k] <= c.now,
        forall|i: int|
            0 <= i < c.inflight.len() ==> upper(#[trigger] c.inflight[i]) != upper(t.symbol@),
        t.high_price.pos() && t.last_price.pos() ==> (n_mul(
            Some(t.high_price),
            decimal_difference(dec(1, 0), dec(2, 2)),
        ) matches Some(limit) && t.last_price.lt(limit)),
        c.last_bars.contains_key(t.symbol@) ==> c.last_bars[t.symbol@].open.le(
            c.last_bars[t.symbol@].close,
        ),
        row_verdict(t, c)->Enter_0 is EnterLong,
        row_verdict(t, c)->Enter_0->EnterLong_symbol == t.symbol@,
{
    law_momentum_bracket(t, c.p);
    assert(super::is_blocked(upper(t.symbol@), c.held, c.inflight, c.cooldowns, c.now) == false);
}

/// Whether a row is fit for the book, told by its figures.
pub open spec fn fit_row(t: Ticker, e: Eligibility) -> bool {
    &&& t.last_price.pos()
    &&& e.min_price.le(t.last_price)
    &&& t.quote_volume.pos()
    &&& e.min_quote_volume.le(t.quote_volume)
    &&& e.min_change_percent is Some ==> e.min_change_percent->0.le(t.price_change_percent)
    &&& e.max_change_percent is Some ==> t.price_change_percent.le(e.max_change_percent->0)
}

/// The book holds rows of the tape that are fit for it, the day's largest rise
/// first, and no more than asked for.
pub proof fn law_momentum_book_is_the_top_of_the_tape(
    tickers: Seq<Ticker>,
    n: int,
    e: Eligibility,
    exclude: Seq<Seq<char>>,
    i: int,
    j: int,
)
    requires
        n >= 0,
        momentum_book(tickers, n, e, exclude, true) is Some,
        0 <= i <= j < momentum_book(tickers, n, e, exclude, true)->0.len(),
    ensures
        ({
            let book = momentum_book(tickers, n, e, exclude, true)->0;
            &&& book.len() <= n
            &&& tickers.contains(book[i])
            &&& fit_row(book[i], e)
            &&& book[j].price_change_percent.le(book[i].price_change_percent)
        }),
{
    let rows = eligible_rows(tickers, e, exclude);
    let kept = book_rows(rows, true);
    let all = ranked(RankBy::Rise, kept);
    let book = momentum_book(tickers, n, e, exclude, true)->0;
    law_ranking_is_in_order(RankBy::Rise, kept);
    law_ranking_keeps_the_rows(RankBy::Rise, kept);
    assert(book[i] == all[i] && book[j] == all[j]);
    if i < j {
        assert(!ranks_before(RankBy::Rise, all[j], all[i]));
    }
    lemma_same_members(all, kept, all[i]);
    let drop_range_top = true;
    let test = |t: Ticker|
        t.quote_volume.pos() && !(drop_range_top && crate::models::near_high(t, dec(2, 2)) == Some(
            true,
        ));
    assert(kept == rows.filter(test));
    crate::models::lemma_filter_member(rows, test, all[i]);
    crate::models::lemma_filter_member(
        tickers,
        |t: Ticker| crate::ranking::is_eligible(t, e, exclude),
        all[i],
    );
}

proof fn lemma_same_members(a: Seq<Ticker>, b: Seq<Ticker>, x: Ticker)
    requires
        a.to_multiset() == b.to_multiset(),
        a.contains(x),
    ensures
        b.contains(x),
{
    broadcast use vstd::seq_lib::group_to_multiset_ensures;

    assert(a.to_multiset().count(x) > 0);
    assert(b.to_multiset().count(x) > 0);
}

} // verus!

//! What the lines of the journal say, and what they come to.
use super::{
    amount_or_zero, book_step, close_won, cooldowns_after, desk_pause_after, ledger_closed,
    ledger_opened, line_cooldown, line_desk_pause, line_price, line_symbol, loss_cooldown,
    merged_later, opener_of, openers, openers_step, put_later, stated_pnl, symbol_pause, EventView,
    LedgerView, OpenRow, OpenedBy, StampView,
};
use crate::dec::{
    dec, decimal_difference, decimal_text, difference_facts, law_short_sums_are_exact, short, Dec,
};
use crate::money::{legs_fee, net_long_pnl, taker};
use crate::openmeta::MetaView;
use crate::sessions::{instant_of, loss_pause_end, HourWindow};
use crate::text::upper;
use vstd::prelude::*;

verus! {

/// When a closed long won: exactly where it was sold at or above its take-profit,
/// or above its entry by more than the fees of both ways.
pub proof fn law_a_win_beats_its_fees(entry: Dec, exit_px: Dec, take_profit: Option<Dec>, net: Dec)
    requires
        net_long_pnl(entry, exit_px, dec(1, 0), taker()) == Some(net),
    ensures
        close_won(entry, exit_px, take_profit) is Some,
        close_won(entry, exit_px, take_profit)->0 <==> {
            ||| take_profit is Some && take_profit->0.le(exit_px)
            ||| entry.pos() && entry.lt(exit_px) && net.pos()
        },
{
}

/// How long a symbol sits out after a close: not at all without a pause, the pause
/// after a win, and after a loss the longer of the pause and the strategy's loss
/// cooldown.
pub proof fn law_symbol_pause(strategy_id: int, pause_ms: int)
    ensures
        pause_ms <= 0 ==> symbol_pause(strategy_id, true, pause_ms) == 0 && symbol_pause(
            strategy_id,
            false,
            pause_ms,
        ) == 0,
        pause_ms > 0 ==> symbol_pause(strategy_id, true, pause_ms) == pause_ms,
        pause_ms > 0 ==> {
            let p = symbol_pause(strategy_id, false, pause_ms);
            p >= pause_ms && p >= loss_cooldown(strategy_id) && (p == pause_ms || p == loss_cooldown(
                strategy_id,
            ))
        },
{
}

/// Which lines keep a symbol off: closes and flattens of the strategy that is asked
/// for, from their own instant on. A close that stated no profit above zero counts
/// as a loss.
pub proof fn law_line_cooldown(ev: EventView, pause_ms: int, strategy_id: i32, ts: int)
    requires
        instant_of(ev.ts) == Some(ts),
        i64::MIN <= ts <= i64::MAX - pause_ms - loss_cooldown(strategy_id as int),
        pause_ms > 0,
        loss_cooldown(strategy_id as int) >= 0,
    ensures
        ev.strategy_id != strategy_id ==> line_cooldown(ev, pause_ms, Some(strategy_id)) is None,
        ev.event != "close"@ && ev.event != "flatten"@ ==> line_cooldown(
            ev,
            pause_ms,
            Some(strategy_id),
        ) is None,
        ev.strategy_id == strategy_id && ev.event == "close"@ && stated_pnl(ev.pnl) is Some && stated_pnl(
            ev.pnl,
        )->0.pos() ==> line_cooldown(ev, pause_ms, Some(strategy_id)) == Some(ts + pause_ms),
        ev.strategy_id == strategy_id && ev.event == "close"@ && (stated_pnl(ev.pnl) is None
            || !stated_pnl(ev.pnl)->0.pos()) ==> (line_cooldown(ev, pause_ms, Some(strategy_id)) matches Some(
            t,
        ) && t >= ts + pause_ms && t >= ts + loss_cooldown(strategy_id as int)),
        ev.strategy_id == strategy_id && ev.event == "flatten"@ ==> line_cooldown(
            ev,
            pause_ms,
            Some(strategy_id),
        ) == Some(ts + pause_ms),
{
    reveal_strlit("close");
    reveal_strlit("flatten");
    assert("close"@.len() != "flatten"@.len());
}

/// Keeping the later of two instants: the kept one is at or after both and is one
/// of them, and no other key changes.
pub proof fn law_the_later_instant_is_kept(
    m: Map<Seq<char>, i64>,
    key: Seq<char>,
    until: i64,
    other: Seq<char>,
)
    ensures
        ({
            let r = put_later(m, key, until as int);
            let before = if m.contains_key(key) {
                m[key]
            } else {
                0
            };
            &&& r.contains_key(key)
            &&& r[key] >= until && r[key] >= before
            &&& r[key] == until || r[key] == before
            &&& other != key ==> (r.contains_key(other) <==> m.contains_key(other)) && (m.contains_key(
                other,
            ) ==> r[other] == m[other])
        }),
{
}

/// One more line keeps a symbol off until its own end, where that is still to come;
/// every other symbol keeps what it had.
pub proof fn law_one_more_line_cools_its_symbol(
    events: Seq<EventView>,
    n: int,
    now: int,
    pause_ms: int,
    strategy_id: Option<i32>,
    until: i64,
    other: Seq<char>,
)
    requires
        0 < n <= events.len(),
        pause_ms > 0,
        line_cooldown(events[n - 1], pause_ms, strategy_id) == Some(until as int),
        line_symbol(events[n - 1].symbol).len() > 0,
    ensures
        ({
            let before = cooldowns_after(events, n - 1, now, pause_ms, strategy_id);
            let after = cooldowns_after(events, n, now, pause_ms, strategy_id);
            let key = line_symbol(events[n - 1].symbol);
            &&& until <= now ==> after == before
            &&& until > now ==> after.contains_key(key) && after[key] >= until
            &&& other != key ==> (after.contains_key(other) <==> before.contains_key(other)) && (
            before.contains_key(other) ==> after[other] == before[other])
        }),
{
}

/// Which lines pause the desk: closes of the strategy that is asked for that stated
/// no profit above zero. A win never does.
pub proof fn law_only_losses_pause_the_desk(
    ev: EventView,
    pause_ms: int,
    windows: Seq<HourWindow>,
    strategy_id: i32,
    ts: int,
)
    requires
        instant_of(ev.ts) == Some(ts),
    ensures
        line_desk_pause(ev, pause_ms, windows, Some(strategy_id)) is Some <==> ev.event == "close"@
            && ev.strategy_id == strategy_id && !(stated_pnl(ev.pnl) is Some && stated_pnl(
            ev.pnl,
        )->0.pos()),
        line_desk_pause(ev, pause_ms, windows, Some(strategy_id)) matches Some(t) ==> t
            == loss_pause_end(ts, windows, pause_ms),
{
}

/// The desk pauses until the latest end that a line asks for.
pub proof fn law_desk_pause_is_the_latest(
    events: Seq<EventView>,
    n: int,
    pause_ms: int,
    windows: Seq<HourWindow>,
    strategy_id: Option<i32>,
    k: int,
)
    requires
        0 <= k < n <= events.len(),
    ensures
        line_desk_pause(events[k], pause_ms, windows, strategy_id) matches Some(t) ==> desk_pause_after(
            events,
            n,
            pause_ms,
            windows,
            strategy_id,
        ) >= t,
    decreases n,
{
    if k < n - 1 {
        law_desk_pause_is_the_latest(events, n - 1, pause_ms, windows, strategy_id, k);
    }
}

/// A partial close leaves the rest open, at the entry and the lines it had: what
/// was closed and what is left add up to what was open, and the long stays with
/// whoever opened it. Every other symbol stays as it was.
pub proof fn law_partial_close_leaves_the_rest(
    book: Map<Seq<char>, OpenRow>,
    owners: Map<Seq<char>, OpenedBy>,
    ev: EventView,
    other: Seq<char>,
)
    requires
        ev.event == "close"@,
        line_symbol(ev.symbol).len() > 0,
        book.contains_key(line_symbol(ev.symbol)),
        owners.contains_key(line_symbol(ev.symbol)),
        owners[line_symbol(ev.symbol)].qty == book[line_symbol(ev.symbol)].qty,
        amount_or_zero(ev.qty).pos(),
        amount_or_zero(ev.qty).lt(book[line_symbol(ev.symbol)].qty),
        difference_facts(
            book[line_symbol(ev.symbol)].qty,
            amount_or_zero(ev.qty),
            decimal_difference(book[line_symbol(ev.symbol)].qty, amount_or_zero(ev.qty)),
        ),
    ensures
        ({
            let key = line_symbol(ev.symbol);
            let held = book[key];
            let sold = amount_or_zero(ev.qty);
            let b = book_step(book, ev);
            let o = openers_step(owners, ev);
            &&& b is Some && b->0.contains_key(key)
            &&& o is Some && o->0.contains_key(key)
            &&& b->0[key].qty.pos()
            &&& Some(b->0[key].qty) == decimal_difference(held.qty, sold)
            &&& short(held.qty, sold) ==> b->0[key].qty.units() + sold.units() == held.qty.units()
            &&& b->0[key].entry == held.entry
            &&& b->0[key].stop_loss == held.stop_loss && b->0[key].take_profit == held.take_profit
            &&& o->0[key].strategy_id == owners[key].strategy_id
            &&& o->0[key].qty == b->0[key].qty
            &&& other != key ==> (b->0.contains_key(other) <==> book.contains_key(other)) && (
            book.contains_key(other) ==> b->0[other] == book[other])
        }),
{
    reveal_strlit("close");
    reveal_strlit("open");
    reveal_strlit("amend");
    assert("close"@ != "amend"@) by {
        assert("close"@[0] != "amend"@[0]);
    }
    assert("close"@.len() != "open"@.len());
    if short(book[line_symbol(ev.symbol)].qty, amount_or_zero(ev.qty)) {
        law_short_sums_are_exact(book[line_symbol(ev.symbol)].qty, amount_or_zero(ev.qty));
    }
}

/// A moved stop changes the stop of its symbol and nothing else of it; its
/// take-profit changes only where the line states one.
pub proof fn law_moved_stop_changes_the_stop(book: Map<Seq<char>, OpenRow>, ev: EventView, stop: Dec)
    requires
        ev.event == "amend"@,
        line_symbol(ev.symbol).len() > 0,
        book.contains_key(line_symbol(ev.symbol)),
        line_price(ev.stop_loss) == Some(stop),
    ensures
        ({
            let key = line_symbol(ev.symbol);
            let b = book_step(book, ev);
            &&& b is Some && b->0.contains_key(key)
            &&& b->0[key].stop_loss == Some(stop)
            &&& b->0[key].qty == book[key].qty && b->0[key].entry == book[key].entry
            &&& line_price(ev.take_profit) is None ==> b->0[key].take_profit == book[key].take_profit
            &&& line_price(ev.take_profit) is Some ==> b->0[key].take_profit == line_price(
                ev.take_profit,
            )
        }),
{
    reveal_strlit("open");
    reveal_strlit("amend");
    assert("amend"@.len() != "open"@.len());
}

/// A recorded close adds one line and keeps the others: it names the symbol, the
/// quantity and the price, and states what the long made after the fees of both
/// ways. A whole close forgets the open trade.
pub proof fn law_recorded_close(
    l: LedgerView,
    at: StampView,
    strategy_id: i32,
    symbol: Seq<char>,
    qty: Dec,
    entry: Dec,
    exit_price: Dec,
    reason: Seq<char>,
    live: bool,
    stop_loss: Option<Dec>,
    take_profit: Option<Dec>,
    partial: bool,
)
    requires
        ledger_closed(
            l,
            at,
            strategy_id,
            symbol,
            qty,
            entry,
            exit_price,
            reason,
            live,
            stop_loss,
            take_profit,
            partial,
        ) is Some,
    ensures
        ({
            let r = ledger_closed(
                l,
                at,
                strategy_id,
                symbol,
                qty,
                entry,
                exit_price,
                reason,
                live,
                stop_loss,
                take_profit,
                partial,
            )->0;
            let line = r.events.last();
            let pnl = net_long_pnl(entry, exit_price, qty, taker());
            let fee = legs_fee(entry, exit_price, qty, taker());
            &&& r.events.len() == l.events.len() + 1
            &&& r.events.drop_last() == l.events
            &&& line.event == "close"@ && line.symbol == symbol && line.reason == reason
            &&& line.ts == at.ts && line.live == live
            &&& line.qty == decimal_text(qty) && line.price == decimal_text(exit_price)
            &&& pnl is Some && line.pnl == Some(decimal_text(pnl->0))
            &&& fee is Some && line.fee == Some(decimal_text(fee->0))
            &&& !partial ==> !r.meta.contains_key(upper(symbol))
            &&& partial && l.meta.contains_key(upper(symbol)) ==> r.meta.contains_key(upper(symbol))
                && r.meta[upper(symbol)].scaled_at_1r
        }),
{
    let r = ledger_closed(
        l,
        at,
        strategy_id,
        symbol,
        qty,
        entry,
        exit_price,
        reason,
        live,
        stop_loss,
        take_profit,
        partial,
    )->0;
    assert(r.events.drop_last() =~= l.events);
}

/// A recorded open adds one line and keeps the others: it names the strategy, the
/// symbol, the quantity and the price, and both lines of the long.
pub proof fn law_recorded_open(
    l: LedgerView,
    at: StampView,
    strategy_id: i32,
    symbol: Seq<char>,
    qty: Dec,
    price: Dec,
    reason: Seq<char>,
    live: bool,
    stop_loss: Dec,
    take_profit: Dec,
)
    requires
        ledger_opened(
            l,
            at,
            strategy_id,
            symbol,
            qty,
            price,
            reason,
            live,
            Some(stop_loss),
            Some(take_profit),
        ) is Some,
    ensures
        ({
            let r = ledger_opened(
                l,
                at,
                strategy_id,
                symbol,
                qty,
                price,
                reason,
                live,
                Some(stop_loss),
                Some(take_profit),
            )->0;
            let line = r.events.last();
            &&& r.events.len() == l.events.len() + 1
            &&& r.events.drop_last() == l.events
            &&& r.meta == l.meta
            &&& line.event == "open"@ && line.symbol == symbol && line.reason == reason
            &&& line.strategy_id == strategy_id && line.ts == at.ts && line.live == live
            &&& line.qty == decimal_text(qty) && line.price == decimal_text(price)
            &&& line.stop_loss == Some(decimal_text(stop_loss))
            &&& line.take_profit == Some(decimal_text(take_profit))
        }),
{
    let r = ledger_opened(
        l,
        at,
        strategy_id,
        symbol,
        qty,
        price,
        reason,
        live,
        Some(stop_loss),
        Some(take_profit),
    )->0;
    assert(r.events.drop_last() =~= l.events);
}

/// Who opened a symbol: whoever the lines say holds it, else whoever is remembered
/// for it, else the one that is asked for.
pub proof fn law_opener(
    events: Seq<EventView>,
    meta: Map<Seq<char>, MetaView>,
    symbol: Seq<char>,
    fallback: i32,
    m: Map<Seq<char>, OpenedBy>,
)
    requires
        openers(events, events.len() as int) == Some(m),
        line_symbol(symbol).len() > 0,
    ensures
        ({
            let want = line_symbol(symbol);
            let r = opener_of(events, meta, symbol, fallback);
            &&& m.contains_key(want) ==> r == Some(m[want].strategy_id)
            &&& !m.contains_key(want) && meta.contains_key(upper(want)) && 1 <= meta[upper(
                want,
            )].strategy_id <= 5 ==> r == Some(meta[upper(want)].strategy_id)
            &&& !m.contains_key(want) && !meta.contains_key(upper(want)) ==> r == Some(fallback)
        }),
{
}

/// An open is held by the strategy that opened it, for its quantity, until a close
/// of all of it or a flatten.
pub proof fn law_open_is_owned(m: Map<Seq<char>, OpenedBy>, ev: EventView)
    requires
        ev.event == "open"@,
        line_symbol(ev.symbol).len() > 0,
        amount_or_zero(ev.qty).pos(),
        1 <= ev.strategy_id <= 5,
    ensures
        openers_step(m, ev) == Some(
            m.insert(
                line_symbol(ev.symbol),
                OpenedBy { strategy_id: ev.strategy_id, qty: amount_or_zero(ev.qty) },
            ),
        ),
{
}

/// Two maps of pauses are merged to the later end of each name.
pub proof fn law_pauses_are_merged(m: Map<Seq<char>, i64>, add: Map<Seq<char>, i64>, k: Seq<char>)
    ensures
        merged_later(m, add).contains_key(k) <==> m.contains_key(k) || add.contains_key(k),
        m.contains_key(k) && add.contains_key(k) ==> merged_later(m, add)[k] >= m[k] && merged_later(
            m,
            add,
        )[k] >= add[k],
        m.contains_key(k) && !add.contains_key(k) ==> merged_later(m, add)[k] == m[k],
{
}

} // verus!

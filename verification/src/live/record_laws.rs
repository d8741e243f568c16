//! What becomes of the desk's own book once the exchange is done with a decision.
use super::adopt::{
    dropped, fill_adopted, flatten_recorded, loss_paused, on_paper, rows_part_sold, stops_moved,
    symbol_cooled, Book,
};
use super::book::{mark_or, position_of};
use super::{close_recorded, entry_adopted, error_noted, ApplyView};
use crate::config::load::ConfigView;
use crate::dec::{dec, decimal_difference, decimal_text, Dec};
use crate::errors::{error_policy, ErrorAction};
use crate::flatten::FlattenView;
use crate::journal::{close_won, laws::law_recorded_close, laws::law_recorded_open, StampView};
use crate::models::{Decision, EngineStateView, MarketSnapshot, Position, Side};
use crate::money::{net_long_pnl, taker};
use crate::text::{lower, upper};
use vstd::prelude::*;

verus! {

/// A filled exit is written down for all that was held, at the price it was filled
/// at; its symbol then sits out, and after a loss the desk pauses too. One that was
/// not filled changes nothing.
pub proof fn law_filled_exit_is_written_down(
    b: Book,
    cfg: ConfigView,
    s: MarketSnapshot,
    d: Decision,
    p: Position,
    result: ApplyView,
    at: StampView,
    mark: Dec,
)
    requires
        d@ is ExitPosition,
        result.mark == Some(mark),
        close_recorded(b, cfg, s, d, Some(p), result, at) is Some,
    ensures
        ({
            let r = close_recorded(b, cfg, s, d, Some(p), result, at)->0;
            let line = r.ledger.events.last();
            let filled = result.error is None && result.filled;
            &&& !filled ==> r == b
            &&& filled ==> {
                &&& r.ledger.events.len() == b.ledger.events.len() + 1
                &&& r.ledger.events.drop_last() == b.ledger.events
                &&& line.event == "close"@ && line.symbol == p.symbol@
                &&& line.qty == decimal_text(p.qty) && line.price == decimal_text(mark)
                &&& line.reason == d@->ExitPosition_reason && line.live == cfg.live
                &&& net_long_pnl(p.entry_price, mark, p.qty, taker()) matches Some(pnl) && line.pnl
                    == Some(decimal_text(pnl))
                &&& !r.ledger.meta.contains_key(upper(p.symbol@))
                &&& r.state.positions == b.state.positions && r.state.position == b.state.position
                &&& close_won(p.entry_price, mark, p.take_profit) is Some
                &&& close_won(p.entry_price, mark, p.take_profit)->0 ==> r.state.cooldown_until
                    == b.state.cooldown_until
                &&& !close_won(p.entry_price, mark, p.take_profit)->0 ==> r.state.cooldown_until
                    >= b.state.cooldown_until && r.state.cooldown_until == loss_paused(
                    cfg,
                    b.state,
                    at.now as int,
                ).cooldown_until
            }
        }),
{
    if result.error is None && result.filled {
        law_recorded_close(
            b.ledger,
            at,
            b.state.strategy_id,
            p.symbol@,
            p.qty,
            p.entry_price,
            mark,
            d@->ExitPosition_reason,
            cfg.live,
            p.stop_loss,
            p.take_profit,
            false,
        );
    }
}

/// A filled partial sale is written down for what was sold, at the price it was
/// filled at, and the desk's state stays as it was until the sale is taken over.
pub proof fn law_partial_sale_is_written_down(
    b: Book,
    cfg: ConfigView,
    s: MarketSnapshot,
    d: Decision,
    p: Position,
    result: ApplyView,
    at: StampView,
    mark: Dec,
    sold: Dec,
)
    requires
        d@ is ReduceLong,
        result.error is None && result.filled,
        result.mark == Some(mark),
        result.qty == Some(sold),
        close_recorded(b, cfg, s, d, Some(p), result, at) is Some,
    ensures
        ({
            let r = close_recorded(b, cfg, s, d, Some(p), result, at)->0;
            let line = r.ledger.events.last();
            &&& r.state == b.state
            &&& r.ledger.events.len() == b.ledger.events.len() + 1
            &&& r.ledger.events.drop_last() == b.ledger.events
            &&& line.event == "close"@ && line.symbol == p.symbol@
            &&& line.qty == decimal_text(sold) && line.price == decimal_text(mark)
            &&& net_long_pnl(p.entry_price, mark, sold, taker()) matches Some(pnl) && line.pnl == Some(
                decimal_text(pnl),
            )
            &&& p.qty.le(sold) ==> !r.ledger.meta.contains_key(upper(p.symbol@))
            &&& sold.lt(p.qty) && b.ledger.meta.contains_key(upper(p.symbol@))
                ==> r.ledger.meta.contains_key(upper(p.symbol@))
        }),
{
    law_recorded_close(
        b.ledger,
        at,
        b.state.strategy_id,
        p.symbol@,
        sold,
        p.entry_price,
        mark,
        d@->ReduceLong_reason,
        cfg.live,
        p.stop_loss,
        p.take_profit,
        sold.lt(p.qty),
    );
}

/// A filled entry is taken over as one long of its name: the quantity and the price
/// that were filled, at the decided stop and take-profit, opened now; and it is
/// written down.
pub proof fn law_filled_entry_is_taken_over(
    b: Book,
    cfg: ConfigView,
    d: Decision,
    result: ApplyView,
    at: StampView,
    mark: Dec,
    qty: Dec,
)
    requires
        d@ is EnterLong,
        result.error is None,
        result.filled ==> result.mark == Some(mark) && result.qty == Some(qty),
        entry_adopted(b, cfg, d, result, at) is Some,
    ensures
        ({
            let r = entry_adopted(b, cfg, d, result, at)->0;
            let p = r.state.positions.last();
            let line = r.ledger.events.last();
            &&& !result.filled ==> r == b
            &&& result.filled ==> {
                &&& r.state.positions.len() > 0
                &&& p.symbol@ == d@->EnterLong_symbol && p.side == Side::Long
                &&& p.qty == qty && p.entry_price == mark
                &&& p.stop_loss == Some(d@->EnterLong_stop_loss)
                &&& p.take_profit == Some(d@->EnterLong_take_profit)
                &&& p.opened_bar_time == Some(at.now)
                &&& r.state.sized_stops.contains(upper(d@->EnterLong_symbol))
                &&& r.ledger.events.len() == b.ledger.events.len() + 1
                &&& r.ledger.events.drop_last() == b.ledger.events
                &&& line.event == "open"@ && line.symbol == d@->EnterLong_symbol
                &&& line.qty == decimal_text(qty) && line.price == decimal_text(mark)
                &&& line.stop_loss == Some(decimal_text(d@->EnterLong_stop_loss))
                &&& line.take_profit == Some(decimal_text(d@->EnterLong_take_profit))
                &&& line.strategy_id == b.state.strategy_id
            }
        }),
{
    if result.filled {
        let st = fill_adopted(b.state, d, mark, qty, at.now);
        law_recorded_open(
            b.ledger,
            at,
            st.strategy_id,
            d@->EnterLong_symbol,
            qty,
            mark,
            d@->EnterLong_reason,
            cfg.live,
            d@->EnterLong_stop_loss,
            d@->EnterLong_take_profit,
        );
    }
}

/// A moved stop is the stop of every row of its name afterwards, whatever the case
/// it is written in, and of no other row; nothing else of a row changes.
pub proof fn law_moved_stop_is_taken_over(
    st: EngineStateView,
    symbol: Seq<char>,
    stop_loss: Dec,
    i: int,
)
    requires
        0 <= i < st.positions.len(),
    ensures
        ({
            let r = stops_moved(st, symbol, stop_loss);
            let p = st.positions[i];
            &&& r.positions.len() == st.positions.len()
            &&& lower(p.symbol@) == lower(symbol) ==> r.positions[i] == (Position {
                stop_loss: Some(stop_loss),
                ..p
            })
            &&& lower(p.symbol@) != lower(symbol) ==> r.positions[i] == p
            &&& r.position is Some <==> st.position is Some
            &&& st.position is Some && lower(st.position->0.symbol@) == lower(symbol)
                ==> r.position->0.stop_loss == Some(stop_loss) && r.position->0.qty
                == st.position->0.qty
            &&& st.position is Some && lower(st.position->0.symbol@) != lower(symbol) ==> r.position
                == st.position
        }),
{
}

/// A partial sale leaves the rest of a long at the new stop: the row keeps its
/// name, its entry and its take-profit, and holds what the sale has left. A row of
/// another name stays.
pub proof fn law_partial_sale_is_taken_over(
    p: Position,
    symbol: Seq<char>,
    sold: Dec,
    stop_loss: Dec,
    rest: Dec,
)
    requires
        decimal_difference(p.qty, sold) == Some(rest),
        rest.pos(),
        lower(p.symbol@) == lower(symbol),
    ensures
        rows_part_sold(seq![p], 1, symbol, sold, stop_loss) == Some(
            seq![Position { qty: rest, stop_loss: Some(stop_loss), ..p }],
        ),
{
    reveal_with_fuel(rows_part_sold, 2);
    crate::dec::lemma_dec_parts(0, 0);
    crate::dec::lemma_units_sign(dec(0, 0));
    assert(seq![p][0] == p);
    assert(rows_part_sold(seq![p], 1, symbol, sold, stop_loss)->0 =~= seq![
        Position { qty: rest, stop_loss: Some(stop_loss), ..p },
    ]);
}

/// A forgotten symbol leaves nothing behind: no row, no entry in flight, no count
/// of its stops.
pub proof fn law_forgotten_symbols_leave_nothing(st: EngineStateView, symbol: Seq<char>, p: Position)
    ensures
        ({
            let r = dropped(st, symbol);
            let key = upper(symbol);
            &&& r.positions.contains(p) ==> upper(p.symbol@) != key && st.positions.contains(p)
            &&& st.positions.contains(p) && upper(p.symbol@) != key ==> r.positions.contains(p)
            &&& !r.sized_stops.contains(key) && !r.scaled_one_r.contains(key)
            &&& !r.rearm_fail_count.contains_key(key) && !r.rearm_miss_since.contains_key(key)
        }),
{
    let r = dropped(st, symbol);
    let key = upper(symbol);
    if r.positions.contains(p) {
        crate::models::lemma_filter_member(st.positions, |p: Position| upper(p.symbol@) != key, p);
    }
}

/// What an error leads to: an ignored one is dropped; one that asks to try again
/// makes the desk wait, one strike more each time and three at most; after a
/// decision that went well there is no strike left.
pub proof fn law_errors_lead_to_waiting(st: EngineStateView, d: Decision, e: Seq<char>, now: i64)
    ensures
        error_policy(e).0 == ErrorAction::Ignore ==> error_noted(st, d, Some(e), now as int).last_error
            is None,
        error_policy(e).0 != ErrorAction::Ignore ==> error_noted(st, d, Some(e), now as int).retry_until
            >= st.retry_until,
        error_policy(e).0 == ErrorAction::Retry && d@ is Hold ==> {
            let r = error_noted(st, d, Some(e), now as int);
            r.last_error == Some(e) && r.retry_strikes == if st.retry_strikes < 3 {
                st.retry_strikes + 1
            } else {
                3
            }
        },
        !(d@ is Hold) ==> error_noted(st, d, None, now as int).retry_strikes == 0 && error_noted(
            st,
            d,
            None,
            now as int,
        ).last_error is None,
{
}

/// On paper an exit is written down for all that is held at the price of its name,
/// and forgotten; a partial sale for what is sold, and the rest stays at the new
/// stop.
pub proof fn law_paper_exit_is_written_down(b: Book, s: MarketSnapshot, d: Decision, at: StampView, p: Position)
    requires
        d@ is ExitPosition,
        position_of(s, Some(b.state), d@->ExitPosition_symbol) == Some(p),
        on_paper(b, s, d, at) is Some,
    ensures
        ({
            let r = on_paper(b, s, d, at)->0;
            let line = r.ledger.events.last();
            let px = mark_or(s, d@->ExitPosition_symbol, p.entry_price);
            &&& r.ledger.events.len() == b.ledger.events.len() + 1
            &&& r.ledger.events.drop_last() == b.ledger.events
            &&& line.event == "close"@ && line.symbol == p.symbol@ && !line.live
            &&& line.qty == decimal_text(p.qty) && line.price == decimal_text(px)
            &&& net_long_pnl(p.entry_price, px, p.qty, taker()) matches Some(pnl) && line.pnl == Some(
                decimal_text(pnl),
            )
            &&& forall|i: int|
                0 <= i < r.state.positions.len() ==> upper((#[trigger] r.state.positions[i]).symbol@)
                    != upper(d@->ExitPosition_symbol)
        }),
{
    let r = on_paper(b, s, d, at)->0;
    let key = upper(d@->ExitPosition_symbol);
    law_recorded_close(
        b.ledger,
        at,
        b.state.strategy_id,
        p.symbol@,
        p.qty,
        p.entry_price,
        mark_or(s, d@->ExitPosition_symbol, p.entry_price),
        d@->ExitPosition_reason,
        false,
        p.stop_loss,
        p.take_profit,
        false,
    );
    assert forall|i: int| 0 <= i < r.state.positions.len() implies upper(
        (#[trigger] r.state.positions[i]).symbol@,
    ) != key by {
        let x = r.state.positions[i];
        assert(r.state.positions.contains(x));
        crate::models::lemma_filter_member(b.state.positions, |p: Position| upper(p.symbol@) != key, x);
    }
}

/// On paper a partial sale is written down for what is sold at the price of its
/// name, and then the moved stop.
pub proof fn law_paper_sale_is_written_down(b: Book, s: MarketSnapshot, d: Decision, at: StampView, p: Position)
    requires
        d@ is ReduceLong,
        position_of(s, Some(b.state), d@->ReduceLong_symbol) == Some(p),
        d@->ReduceLong_qty.pos(),
        d@->ReduceLong_qty.lt(p.qty),
        crate::dec::difference_facts(
            p.qty,
            d@->ReduceLong_qty,
            decimal_difference(p.qty, d@->ReduceLong_qty),
        ),
        on_paper(b, s, d, at) is Some,
    ensures
        ({
            let r = on_paper(b, s, d, at)->0;
            let n = b.ledger.events.len() as int;
            let sold = d@->ReduceLong_qty;
            let line = r.ledger.events[n];
            let px = mark_or(s, d@->ReduceLong_symbol, p.entry_price);
            &&& r.ledger.events.len() == n + 2
            &&& line.event == "close"@ && line.symbol == p.symbol@
            &&& line.qty == decimal_text(sold) && line.price == decimal_text(px)
            &&& net_long_pnl(p.entry_price, px, sold, taker()) matches Some(pnl) && line.pnl == Some(
                decimal_text(pnl),
            )
            &&& r.ledger.events[n + 1].event == "amend"@
            &&& r.ledger.events[n + 1].stop_loss == Some(decimal_text(d@->ReduceLong_stop_loss))
            &&& r.state.scaled_one_r.contains(upper(d@->ReduceLong_symbol))
        }),
{
    law_recorded_close(
        b.ledger,
        at,
        b.state.strategy_id,
        p.symbol@,
        d@->ReduceLong_qty,
        p.entry_price,
        mark_or(s, d@->ReduceLong_symbol, p.entry_price),
        d@->ReduceLong_reason,
        false,
        p.stop_loss,
        p.take_profit,
        true,
    );
}

/// After everything was closed the desk holds nothing, waits for nothing, and takes
/// no entries for a while; where only some rows were closed the others stay, and
/// entries are not paused.
pub proof fn law_flatten_leaves_nothing(st: EngineStateView, r: FlattenView, now: i64, p: Position)
    requires
        r.closed.len() > 0,
    ensures
        ({
            let all = flatten_recorded(st, r, true, now);
            let some = flatten_recorded(st, r, false, now);
            &&& all.positions.len() == 0 && all.position is None && all.inflight_symbols.len() == 0
            &&& all.entries_paused && !all.entry_inflight
            &&& all.cooldown_until >= st.cooldown_until
            &&& some.entries_paused == st.entries_paused && some.cooldown_until == st.cooldown_until
            &&& st.positions.contains(p) && !crate::flatten::label_symbols(r.closed).contains(p.symbol@)
                ==> some.positions.contains(p)
            &&& some.positions.contains(p) ==> st.positions.contains(p)
                && !crate::flatten::label_symbols(r.closed).contains(p.symbol@)
        }),
{
    let names = crate::flatten::label_symbols(r.closed);
    let some = flatten_recorded(st, r, false, now);
    if some.positions.contains(p) {
        crate::models::lemma_filter_member(
            st.positions,
            |p: Position| !names.contains(p.symbol@),
            p,
        );
    }
}

/// A pause after a close never ends earlier than one that runs already, and covers
/// the symbol's pause.
pub proof fn law_closed_symbols_pause(st: EngineStateView, symbol: Seq<char>, now: i64, won: bool)
    requires
        now + crate::journal::symbol_pause(0, won, crate::errors::COOLDOWN_MS as int) <= i64::MAX,
    ensures
        ({
            let r = symbol_cooled(st, symbol, now as int, won);
            let key = upper(symbol);
            let until = now + crate::journal::symbol_pause(0, won, crate::errors::COOLDOWN_MS as int);
            &&& until > now ==> r.cooldowns.contains_key(key) && r.cooldowns[key] >= until
            &&& st.cooldowns.contains_key(key) && until > now ==> r.cooldowns[key] >= st.cooldowns[key]
            &&& r.positions == st.positions && r.cooldown_until == st.cooldown_until
        }),
{
}

} // verus!

//! How what was done changes the desk's own book.
use super::book::{
    append_rows, append_slot, mark_or, mark_or_entry, one_or_none, position_for, position_of,
};
use crate::config::load::{Config, ConfigView};
use crate::dec::{dec, larger, minus, n_sub, smaller, Dec};
use crate::engine::tick::{find_like, first_like};
use crate::errors::COOLDOWN_MS;
use crate::flatten::{label_symbols, FlattenResult, FlattenView};
use crate::journal::{
    keep_later, ledger_amended, ledger_closed, put_later, symbol_cooldown_until, symbol_pause, Ledger,
    LedgerView, Stamp, StampView,
};
use crate::models::{
    last_n, ActionView, Decision, EngineState, EngineStateView, MarketSnapshot, Position, Side,
    RECENT_KEPT,
};
use crate::sessions::{add_ms, clamp_ms, loss_pause_end, pause_until_after_loss};
use crate::text::{join, joined, listed, lower, own, same, upper, views};
use vstd::prelude::*;
use vstd::string::StringExecFns;

verus! {

/// The state with an action recorded.
pub open spec fn with_action(st: EngineStateView, at: i64, text: Seq<char>) -> EngineStateView {
    EngineStateView {
        recent_actions: last_n(
            st.recent_actions.push(ActionView { at, text }),
            RECENT_KEPT as int,
        ),
        ..st
    }
}

/// A row with another stop, where it is of a symbol.
pub open spec fn with_stop(p: Position, symbol: Seq<char>, stop_loss: Dec) -> Position {
    if lower(p.symbol@) == lower(symbol) {
        Position { stop_loss: Some(stop_loss), ..p }
    } else {
        p
    }
}

fn set_stop(p: &Position, symbol: &str, stop_loss: Dec) -> (r: Position)
    ensures
        r == with_stop(*p, symbol@, stop_loss),
{
    let mut q: Position = p.clone();
    if q.symbol.as_str().eq_ignore_ascii_case(symbol) {
        q.stop_loss = Some(stop_loss);
    }
    q
}

/// The state with the stops of a symbol moved.
pub open spec fn stops_moved(st: EngineStateView, symbol: Seq<char>, stop_loss: Dec) -> EngineStateView {
    EngineStateView {
        positions: Seq::new(
            st.positions.len(),
            |i: int| with_stop(st.positions[i], symbol, stop_loss),
        ),
        position: match st.position {
            Some(p) => Some(with_stop(p, symbol, stop_loss)),
            None => None,
        },
        ..st
    }
}

/// Moves the stops of a symbol in the state.
pub fn adopt_amended_stop(state: &mut EngineState, symbol: &str, stop_loss: Dec)
    ensures
        final(state)@ == stops_moved(old(state)@, symbol@, stop_loss),
{
    let ghost goal = stops_moved(state@, symbol@, stop_loss).positions;
    let mut out: Vec<Position> = Vec::new();
    let mut i: usize = 0;
    while i < state.positions.len()
        invariant
            i <= state.positions@.len(),
            state@ == old(state)@,
            goal == stops_moved(state@, symbol@, stop_loss).positions,
            out@ == goal.take(i as int),
        decreases state.positions@.len() - i,
    {
        out.push(set_stop(&state.positions[i], symbol, stop_loss));
        proof {
            assert(goal.take(i as int + 1) =~= goal.take(i as int).push(goal[i as int]));
        }
        i = i + 1;
    }
    proof {
        assert(goal.take(i as int) =~= goal);
    }
    let slot: Option<Position> = match &state.position {
        Some(p) => Some(set_stop(p, symbol, stop_loss)),
        None => None,
    };
    state.positions = out;
    state.position = slot;
}

/// A row with part of it sold, where it is of a symbol.
pub open spec fn with_part_sold(p: Position, symbol: Seq<char>, closed: Dec, stop_loss: Dec) -> Option<
    Position,
> {
    if lower(p.symbol@) == lower(symbol) {
        match n_sub(Some(p.qty), Some(closed)) {
            Some(q) => Some(
                Position { qty: larger(q, dec(0, 0)), stop_loss: Some(stop_loss), ..p },
            ),
            None => None,
        }
    } else {
        Some(p)
    }
}

fn sell_part(p: &Position, symbol: &str, closed: Dec, stop_loss: Dec) -> (r: Option<Position>)
    ensures
        r == with_part_sold(*p, symbol@, closed, stop_loss),
{
    let mut q: Position = p.clone();
    if q.symbol.as_str().eq_ignore_ascii_case(symbol) {
        let rest: Dec = minus(Some(p.qty), Some(closed))?;
        q.qty = rest.max(Dec::zero());
        q.stop_loss = Some(stop_loss);
    }
    Some(q)
}

/// The first `n` rows with part of a symbol sold, those that are gone left out.
pub open spec fn rows_part_sold(
    v: Seq<Position>,
    n: int,
    symbol: Seq<char>,
    closed: Dec,
    stop_loss: Dec,
) -> Option<Seq<Position>>
    decreases n,
{
    if n <= 0 {
        Some(Seq::empty())
    } else {
        match (
            rows_part_sold(v, n - 1, symbol, closed, stop_loss),
            with_part_sold(v[n - 1], symbol, closed, stop_loss),
        ) {
            (Some(rest), Some(p)) => Some(
                if p.qty.pos() {
                    rest.push(p)
                } else {
                    rest
                },
            ),
            _ => None,
        }
    }
}

proof fn lemma_part_none(
    v: Seq<Position>,
    n: int,
    m: int,
    symbol: Seq<char>,
    closed: Dec,
    stop_loss: Dec,
)
    requires
        0 <= n <= m,
        rows_part_sold(v, n, symbol, closed, stop_loss) is None,
    ensures
        rows_part_sold(v, m, symbol, closed, stop_loss) is None,
    decreases m - n,
{
    if n < m {
        lemma_part_none(v, n, m - 1, symbol, closed, stop_loss);
    }
}

pub open spec fn first_row(v: Seq<Position>) -> Option<Position> {
    if v.len() > 0 {
        Some(v[0])
    } else {
        None
    }
}

/// A copy of the first row.
pub fn copy_first(v: &[Position]) -> (r: Option<Position>)
    ensures
        r == first_row(v@),
{
    if v.len() > 0 {
        Some(v[0].clone())
    } else {
        None
    }
}

/// The state with part of a long sold and the rest at another stop.
pub open spec fn part_sold(st: EngineStateView, symbol: Seq<char>, closed: Dec, stop_loss: Dec) -> Option<
    EngineStateView,
> {
    match rows_part_sold(st.positions, st.positions.len() as int, symbol, closed, stop_loss) {
        None => None,
        Some(rows) => {
            let slot = match st.position {
                None => Some(first_row(rows)),
                Some(p) => if lower(p.symbol@) != lower(symbol) {
                    Some(Some(p))
                } else {
                    match with_part_sold(p, symbol, closed, stop_loss) {
                        None => None,
                        Some(q) => Some(
                            if q.qty.pos() {
                                Some(q)
                            } else {
                                first_row(rows)
                            },
                        ),
                    }
                },
            };
            match slot {
                None => None,
                Some(position) => Some(
                    EngineStateView {
                        positions: rows,
                        position,
                        sized_stops: st.sized_stops.insert(upper(symbol)),
                        scaled_one_r: st.scaled_one_r.insert(upper(symbol)),
                        ..st
                    },
                ),
            }
        },
    }
}

/// Takes a partial sale over into the state.
pub fn adopt_reduced_long(state: &mut EngineState, symbol: &str, closed: Dec, stop_loss: Dec) -> (r:
    Option<()>)
    ensures
        match part_sold(old(state)@, symbol@, closed, stop_loss) {
            Some(next) => r is Some && final(state)@ == next,
            None => r is None,
        },
{
    let ghost rows = state@.positions;
    let mut out: Vec<Position> = Vec::new();
    let mut i: usize = 0;
    while i < state.positions.len()
        invariant
            i <= state.positions@.len(),
            state@ == old(state)@,
            rows == state.positions@,
            rows_part_sold(rows, i as int, symbol@, closed, stop_loss) == Some(out@),
        decreases state.positions@.len() - i,
    {
        match sell_part(&state.positions[i], symbol, closed, stop_loss) {
            Some(p) => {
                if p.qty.is_pos() {
                    out.push(p);
                }
            },
            None => {
                proof {
                    lemma_part_none(
                        rows,
                        i as int + 1,
                        rows.len() as int,
                        symbol@,
                        closed,
                        stop_loss,
                    );
                }
                return None;
            },
        }
        i = i + 1;
    }
    let slot: Option<Position> = match &state.position {
        None => copy_first(out.as_slice()),
        Some(p) => {
            let q: Position = sell_part(p, symbol, closed, stop_loss)?;
            if p.symbol.as_str().eq_ignore_ascii_case(symbol) && !q.qty.is_pos() {
                copy_first(out.as_slice())
            } else {
                Some(q)
            }
        },
    };
    state.positions = out;
    state.position = slot;
    let key = symbol.to_ascii_uppercase();
    state.sized_stops.insert(key.as_str());
    state.scaled_one_r.insert(key.as_str());
    Some(())
}

/// The rows of other symbols.
pub open spec fn rows_without(v: Seq<Position>, key: Seq<char>) -> Seq<Position> {
    v.filter(|p: Position| upper(p.symbol@) != key)
}

fn drop_rows(v: &[Position], key: &str) -> (r: Vec<Position>)
    ensures
        r@ == rows_without(v@, key@),
{
    let ghost test = |p: Position| upper(p.symbol@) != key@;
    let mut out: Vec<Position> = Vec::new();
    let mut i: usize = 0;
    proof {
        reveal(Seq::filter);
        assert(v@.take(0).filter(test) =~= Seq::<Position>::empty());
    }
    while i < v.len()
        invariant
            i <= v@.len(),
            test == (|p: Position| upper(p.symbol@) != key@),
            out@ == v@.take(i as int).filter(test),
        decreases v@.len() - i,
    {
        proof {
            reveal(Seq::filter);
            assert(v@.take(i as int + 1).drop_last() =~= v@.take(i as int));
        }
        let up = v[i].symbol.as_str().to_ascii_uppercase();
        if !same(up.as_str(), key) {
            out.push(v[i].clone());
        }
        i = i + 1;
    }
    proof {
        assert(v@.take(i as int) =~= v@);
    }
    out
}

/// The texts with another upper case.
pub open spec fn texts_without(v: Seq<Seq<char>>, key: Seq<char>) -> Seq<Seq<char>> {
    v.filter(|t: Seq<char>| upper(t) != key)
}

fn drop_texts(v: &[String], key: &str) -> (r: Vec<String>)
    ensures
        views(r@) == texts_without(views(v@), key@),
{
    let ghost all = views(v@);
    let ghost test = |t: Seq<char>| upper(t) != key@;
    let mut out: Vec<String> = Vec::new();
    let mut i: usize = 0;
    proof {
        reveal(Seq::filter);
        assert(views(out@) =~= all.take(0).filter(test));
    }
    while i < v.len()
        invariant
            i <= v@.len(),
            all == views(v@),
            test == (|t: Seq<char>| upper(t) != key@),
            views(out@) == all.take(i as int).filter(test),
        decreases v@.len() - i,
    {
        proof {
            reveal(Seq::filter);
            assert(all.take(i as int + 1).drop_last() =~= all.take(i as int));
        }
        let up = v[i].as_str().to_ascii_uppercase();
        if !same(up.as_str(), key) {
            let ghost prior = views(out@);
            out.push(own(v[i].as_str()));
            proof {
                assert(views(out@) =~= prior.push(all[i as int]));
            }
        }
        i = i + 1;
    }
    proof {
        assert(all.take(i as int) =~= all);
    }
    out
}

/// The state with nothing of a symbol left.
pub open spec fn dropped(st: EngineStateView, symbol: Seq<char>) -> EngineStateView {
    let key = upper(symbol);
    let rows = rows_without(st.positions, key);
    let inflight = texts_without(st.inflight_symbols, key);
    EngineStateView {
        positions: rows,
        position: first_row(rows),
        inflight_symbols: inflight,
        entry_inflight: inflight.len() > 0 && rows.len() == 0,
        sized_stops: st.sized_stops.remove(key),
        rearm_miss_since: st.rearm_miss_since.remove(key),
        rearm_fail_count: st.rearm_fail_count.remove(key),
        scaled_one_r: st.scaled_one_r.remove(key),
        ..st
    }
}

/// Forgets a symbol.
pub fn drop_symbol(state: &mut EngineState, symbol: &str)
    ensures
        final(state)@ == dropped(old(state)@, symbol@),
{
    let key = symbol.to_ascii_uppercase();
    let k: &str = key.as_str();
    let rows: Vec<Position> = drop_rows(state.positions.as_slice(), k);
    let inflight: Vec<String> = drop_texts(state.inflight_symbols.as_slice(), k);
    proof {
        assert(views(inflight@).len() == inflight@.len());
    }
    state.entry_inflight = inflight.len() > 0 && rows.len() == 0;
    state.position = copy_first(rows.as_slice());
    state.positions = rows;
    state.inflight_symbols = inflight;
    state.sized_stops.remove(k);
    state.rearm_miss_since.remove(k);
    state.rearm_fail_count.remove(k);
    state.scaled_one_r.remove(k);
}

/// What the state knows of a symbol: a listed row first, then the slot.
pub open spec fn known_row(st: EngineStateView, symbol: Seq<char>) -> Option<Position> {
    first_like(st.positions + one_or_none(st.position), symbol)
}

/// What the state knows of a symbol: a listed row first, then the slot.
pub fn find_known(state: &EngineState, symbol: &str) -> (r: Option<Position>)
    ensures
        r == known_row(state@, symbol@),
{
    let mut rows: Vec<Position> = Vec::new();
    append_rows(&mut rows, state.positions.as_slice());
    append_slot(&mut rows, &state.position);
    proof {
        assert(rows@ =~= state@.positions + one_or_none(state@.position));
    }
    match find_like(rows.as_slice(), symbol) {
        Some(p) => Some(p.clone()),
        None => None,
    }
}

/// The take-profit that the state knows of a symbol.
pub open spec fn known_take_profit(st: EngineStateView, symbol: Seq<char>) -> Option<Dec> {
    match known_row(st, symbol) {
        Some(p) => p.take_profit,
        None => None,
    }
}

/// The take-profit that the state knows of a symbol.
pub fn find_take_profit(state: &EngineState, symbol: &str) -> (r: Option<Dec>)
    ensures
        r == known_take_profit(state@, symbol@),
{
    match find_known(state, symbol) {
        Some(p) => p.take_profit,
        None => None,
    }
}

/// The book of the desk: its state and its ledger.
pub struct Book {
    pub state: EngineStateView,
    pub ledger: LedgerView,
}

/// A decision on paper: the desk's own book changes, nothing is sent.
pub open spec fn on_paper(b: Book, s: MarketSnapshot, d: Decision, at: StampView) -> Option<Book> {
    let st = b.state;
    let sid = st.strategy_id;
    match d {
        Decision::AmendStop { stop_loss, symbol, reason } => {
            let next = stops_moved(st, symbol@, stop_loss);
            Some(
                Book {
                    state: next,
                    ledger: ledger_amended(
                        b.ledger,
                        at,
                        sid,
                        symbol@,
                        stop_loss,
                        known_take_profit(next, symbol@),
                        false,
                        reason@,
                    ),
                },
            )
        },
        Decision::ReduceLong { symbol, qty, stop_loss, reason } => match position_of(
            s,
            Some(st),
            symbol@,
        ) {
            None => Some(b),
            Some(p) => {
                let close_qty = smaller(qty, p.qty);
                if !close_qty.pos() {
                    Some(b)
                } else {
                    match n_sub(Some(p.qty), Some(close_qty)) {
                        None => None,
                        Some(remaining) => {
                            let px = mark_or(s, symbol@, p.entry_price);
                            let part = remaining.pos();
                            match ledger_closed(
                                b.ledger,
                                at,
                                sid,
                                p.symbol@,
                                if part {
                                    close_qty
                                } else {
                                    p.qty
                                },
                                p.entry_price,
                                px,
                                reason@,
                                false,
                                p.stop_loss,
                                p.take_profit,
                                part,
                            ) {
                                None => None,
                                Some(l) => if !part {
                                    Some(Book { state: dropped(st, symbol@), ledger: l })
                                } else {
                                    match part_sold(st, symbol@, close_qty, stop_loss) {
                                        None => None,
                                        Some(next) => Some(
                                            Book {
                                                state: next,
                                                ledger: ledger_amended(
                                                    l,
                                                    at,
                                                    sid,
                                                    symbol@,
                                                    stop_loss,
                                                    known_take_profit(next, symbol@),
                                                    false,
                                                    "безубыток на 1R"@,
                                                ),
                                            },
                                        ),
                                    }
                                },
                            }
                        },
                    }
                }
            },
        },
        Decision::ExitPosition { symbol, reason } => match position_of(s, Some(st), symbol@) {
            None => Some(b),
            Some(p) => match ledger_closed(
                b.ledger,
                at,
                sid,
                p.symbol@,
                p.qty,
                p.entry_price,
                mark_or(s, symbol@, p.entry_price),
                reason@,
                false,
                p.stop_loss,
                p.take_profit,
                false,
            ) {
                None => None,
                Some(l) => Some(Book { state: dropped(st, symbol@), ledger: l }),
            },
        },
        _ => Some(b),
    }
}

/// Carries a decision out on paper: the desk's own book changes, nothing is sent.
pub fn apply_paper_decision(
    state: &mut EngineState,
    snapshot: &MarketSnapshot,
    decision: &Decision,
    ledger: &mut Ledger,
    at: &Stamp,
) -> (r: Option<()>)
    ensures
        match on_paper(
            Book { state: old(state)@, ledger: old(ledger)@ },
            *snapshot,
            *decision,
            at@,
        ) {
            Some(next) => {
                &&& r is Some
                &&& final(state)@ == next.state
                &&& final(ledger)@ == next.ledger
            },
            None => r is None,
        },
{
    let sid: i32 = state.strategy_id;
    match decision {
        Decision::AmendStop { stop_loss, symbol, reason } => {
            adopt_amended_stop(state, symbol.as_str(), *stop_loss);
            let tp: Option<Dec> = find_take_profit(state, symbol.as_str());
            ledger.amend(at, sid, symbol.as_str(), *stop_loss, tp, false, reason.as_str());
            Some(())
        },
        Decision::ReduceLong { symbol, qty, stop_loss, reason } => {
            let p: Position = match position_for(snapshot, Some(state), symbol.as_str()) {
                Some(p) => p,
                None => return Some(()),
            };
            let close_qty: Dec = (*qty).min(p.qty);
            if !close_qty.is_pos() {
                return Some(());
            }
            let remaining: Dec = minus(Some(p.qty), Some(close_qty))?;
            let px: Dec = mark_or_entry(snapshot, symbol.as_str(), p.entry_price);
            let part: bool = remaining.is_pos();
            ledger.close(
                at,
                sid,
                p.symbol.as_str(),
                if part {
                    close_qty
                } else {
                    p.qty
                },
                p.entry_price,
                px,
                reason.as_str(),
                false,
                p.stop_loss,
                p.take_profit,
                part,
            )?;
            if !part {
                drop_symbol(state, symbol.as_str());
                return Some(());
            }
            adopt_reduced_long(state, symbol.as_str(), close_qty, *stop_loss)?;
            let tp: Option<Dec> = find_take_profit(state, symbol.as_str());
            ledger.amend(at, sid, symbol.as_str(), *stop_loss, tp, false, "безубыток на 1R");
            Some(())
        },
        Decision::ExitPosition { symbol, reason } => {
            let p: Position = match position_for(snapshot, Some(state), symbol.as_str()) {
                Some(p) => p,
                None => return Some(()),
            };
            let px: Dec = mark_or_entry(snapshot, symbol.as_str(), p.entry_price);
            ledger.close(
                at,
                sid,
                p.symbol.as_str(),
                p.qty,
                p.entry_price,
                px,
                reason.as_str(),
                false,
                p.stop_loss,
                p.take_profit,
                false,
            )?;
            drop_symbol(state, symbol.as_str());
            Some(())
        },
        _ => Some(()),
    }
}

/// The rows with another symbol, letter for letter.
pub open spec fn rows_but(v: Seq<Position>, symbol: Seq<char>) -> Seq<Position> {
    v.filter(|p: Position| p.symbol@ != symbol)
}

fn rows_except(v: &[Position], symbol: &str) -> (r: Vec<Position>)
    ensures
        r@ == rows_but(v@, symbol@),
{
    let ghost test = |p: Position| p.symbol@ != symbol@;
    let mut out: Vec<Position> = Vec::new();
    let mut i: usize = 0;
    proof {
        reveal(Seq::filter);
        assert(v@.take(0).filter(test) =~= Seq::<Position>::empty());
    }
    while i < v.len()
        invariant
            i <= v@.len(),
            test == (|p: Position| p.symbol@ != symbol@),
            out@ == v@.take(i as int).filter(test),
        decreases v@.len() - i,
    {
        proof {
            reveal(Seq::filter);
            assert(v@.take(i as int + 1).drop_last() =~= v@.take(i as int));
        }
        if !same(v[i].symbol.as_str(), symbol) {
            out.push(v[i].clone());
        }
        i = i + 1;
    }
    proof {
        assert(v@.take(i as int) =~= v@);
    }
    out
}

/// The long that an entry filled.
pub open spec fn filled_long(d: Decision, mark: Dec, qty: Dec, now: i64) -> Position {
    match d {
        Decision::EnterLong { symbol, stop_loss, take_profit, .. } => Position {
            symbol,
            side: Side::Long,
            qty,
            entry_price: mark,
            stop_loss: Some(stop_loss),
            take_profit: Some(take_profit),
            unrealized_pnl: dec(0, 0),
            opened_bar_time: Some(now),
            leverage: 0,
        },
        _ => arbitrary(),
    }
}

/// The state with a filled entry.
pub open spec fn fill_adopted(st: EngineStateView, d: Decision, mark: Dec, qty: Dec, now: i64) -> EngineStateView {
    if !(d is EnterLong) {
        st
    } else {
        let p = filled_long(d, mark, qty, now);
        let rows = rows_but(st.positions, p.symbol@).push(p);
        EngineStateView {
            entry_inflight: true,
            positions: rows,
            position: first_row(rows),
            inflight_symbols: if st.inflight_symbols.contains(p.symbol@) {
                st.inflight_symbols
            } else {
                st.inflight_symbols.push(p.symbol@)
            },
            ..st
        }
    }
}

/// Takes a filled entry over into the state.
pub fn adopt_live_fill(state: &mut EngineState, decision: &Decision, mark: Dec, qty: Dec, now: i64)
    ensures
        final(state)@ == fill_adopted(old(state)@, *decision, mark, qty, now),
{
    if let Decision::EnterLong { symbol, stop_loss, take_profit, .. } = decision {
        let p = Position {
            symbol: symbol.clone(),
            side: Side::Long,
            qty,
            entry_price: mark,
            stop_loss: Some(*stop_loss),
            take_profit: Some(*take_profit),
            unrealized_pnl: Dec::zero(),
            opened_bar_time: Some(now),
            leverage: 0,
        };
        let mut rows: Vec<Position> = rows_except(state.positions.as_slice(), symbol.as_str());
        rows.push(p);
        state.entry_inflight = true;
        state.position = copy_first(rows.as_slice());
        state.positions = rows;
        if !listed(state.inflight_symbols.as_slice(), symbol.as_str()) {
            let ghost before = views(state.inflight_symbols@);
            state.inflight_symbols.push(own(symbol.as_str()));
            proof {
                assert(views(state.inflight_symbols@) =~= before.push(symbol@));
            }
        }
    }
}

/// The state with entries paused.
pub open spec fn pause_armed(st: EngineStateView, now: int) -> EngineStateView {
    let until = clamp_ms(now + COOLDOWN_MS);
    EngineStateView {
        entries_paused: true,
        cooldown_until: if until > st.cooldown_until {
            until as i64
        } else {
            st.cooldown_until
        },
        ..st
    }
}

/// Pauses entries.
pub fn arm_entry_pause(state: &mut EngineState, now: i64)
    ensures
        final(state)@ == pause_armed(old(state)@, now as int),
{
    state.entries_paused = true;
    let until: i64 = add_ms(now, COOLDOWN_MS);
    if until > state.cooldown_until {
        state.cooldown_until = until;
    }
}

/// The state paused after a loss.
pub open spec fn loss_paused(cfg: ConfigView, st: EngineStateView, now: int) -> EngineStateView {
    let until = loss_pause_end(
        now,
        if st.strategy_id == 4 {
            cfg.s4_entry_windows
        } else {
            cfg.entry_windows
        },
        COOLDOWN_MS as int,
    );
    EngineStateView {
        cooldown_until: if until > st.cooldown_until {
            until as i64
        } else {
            st.cooldown_until
        },
        ..st
    }
}

/// Pauses the desk after a loss.
pub fn desk_pause_after_loss(cfg: &Config, state: &mut EngineState, now: i64)
    ensures
        final(state)@ == loss_paused(cfg@, old(state)@, now as int),
{
    let until: i64 = if state.strategy_id == 4 {
        pause_until_after_loss(now, cfg.s4_entry_windows.as_slice(), COOLDOWN_MS)
    } else {
        pause_until_after_loss(now, cfg.entry_windows.as_slice(), COOLDOWN_MS)
    };
    if until > state.cooldown_until {
        state.cooldown_until = until;
    }
}

/// The state with a symbol paused after a close.
pub open spec fn symbol_cooled(st: EngineStateView, symbol: Seq<char>, now: int, won: bool) -> EngineStateView {
    let until = clamp_ms(now + symbol_pause(0, won, COOLDOWN_MS as int));
    if until <= now {
        st
    } else {
        EngineStateView { cooldowns: put_later(st.cooldowns, upper(symbol), until), ..st }
    }
}

/// Pauses a symbol after a close.
pub fn cool_symbol(state: &mut EngineState, symbol: &str, now: i64, won: bool)
    ensures
        final(state)@ == symbol_cooled(old(state)@, symbol@, now as int, won),
{
    let until: i64 = symbol_cooldown_until(now, won, COOLDOWN_MS);
    if until <= now {
        return ;
    }
    let key = symbol.to_ascii_uppercase();
    keep_later(&mut state.cooldowns, key.as_str(), until);
}

/// The rows whose symbol is not listed.
pub open spec fn rows_not_in(v: Seq<Position>, names: Seq<Seq<char>>) -> Seq<Position> {
    v.filter(|p: Position| !names.contains(p.symbol@))
}

fn rows_unlisted(v: &[Position], names: &[String]) -> (r: Vec<Position>)
    ensures
        r@ == rows_not_in(v@, views(names@)),
{
    let ghost test = |p: Position| !views(names@).contains(p.symbol@);
    let mut out: Vec<Position> = Vec::new();
    let mut i: usize = 0;
    proof {
        reveal(Seq::filter);
        assert(v@.take(0).filter(test) =~= Seq::<Position>::empty());
    }
    while i < v.len()
        invariant
            i <= v@.len(),
            test == (|p: Position| !views(names@).contains(p.symbol@)),
            out@ == v@.take(i as int).filter(test),
        decreases v@.len() - i,
    {
        proof {
            reveal(Seq::filter);
            assert(v@.take(i as int + 1).drop_last() =~= v@.take(i as int));
        }
        if !listed(names, v[i].symbol.as_str()) {
            out.push(v[i].clone());
        }
        i = i + 1;
    }
    proof {
        assert(v@.take(i as int) =~= v@);
    }
    out
}

/// The state after a flatten.
pub open spec fn flatten_recorded(st: EngineStateView, result: FlattenView, pause: bool, now: i64) -> EngineStateView {
    let moved = if result.closed.len() == 0 {
        st
    } else {
        let book = if pause {
            pause_armed(
                EngineStateView {
                    position: None,
                    positions: Seq::empty(),
                    entry_inflight: false,
                    inflight_symbols: Seq::empty(),
                    ..st
                },
                now as int,
            )
        } else {
            let rows = rows_not_in(st.positions, label_symbols(result.closed));
            EngineStateView { positions: rows, position: first_row(rows), ..st }
        };
        with_action(
            book,
            now,
            (if pause {
                "FLAT "@
            } else {
                "FLAT хвосты "@
            }) + joined(result.closed, ", "@),
        )
    };
    EngineStateView {
        last_error: if result.errors.len() > 0 {
            result.error()
        } else if result.closed.len() > 0 {
            if pause {
                None
            } else {
                moved.last_error
            }
        } else {
            Some("нечего закрывать"@)
        },
        ..moved
    }
}

/// Takes a flatten over into the state.
pub fn record_flatten(state: &mut EngineState, result: FlattenResult, pause_entries: bool, now: i64) -> (r:
    FlattenResult)
    ensures
        r == result,
        final(state)@ == flatten_recorded(old(state)@, result@, pause_entries, now),
{
    proof {
        assert(result@.closed.len() == result.closed@.len());
        assert(result@.errors.len() == result.errors@.len());
    }
    if result.closed.len() > 0 {
        if pause_entries {
            state.position = None;
            state.positions = Vec::new();
            state.entry_inflight = false;
            state.inflight_symbols = Vec::new();
            proof {
                assert(views(state.inflight_symbols@) =~= Seq::<Seq<char>>::empty());
                assert(state.positions@ =~= Seq::<Position>::empty());
            }
            arm_entry_pause(state, now);
        } else {
            let names: Vec<String> = result.symbols();
            let rows: Vec<Position> = rows_unlisted(state.positions.as_slice(), names.as_slice());
            state.position = copy_first(rows.as_slice());
            state.positions = rows;
        }
        let mut text = own(
            if pause_entries {
                "FLAT "
            } else {
                "FLAT хвосты "
            },
        );
        text.append(join(result.closed.as_slice(), ", ").as_str());
        state.push_action(now, text);
    }
    if result.errors.len() > 0 {
        state.last_error = result.error();
    } else if result.closed.len() > 0 {
        if pause_entries {
            state.last_error = None;
        }
    } else {
        state.last_error = Some(own("нечего закрывать"));
    }
    result
}

} // verus!

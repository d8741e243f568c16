//! What holds of every tick.
use super::tick::{
    base_pause, desk_opening, forgotten, halted, held_rows, lists_like, marked_all, marked_one,
    named_only, no_enters, own_opening, own_rule, own_state, pause_windows, picked, refreshed,
    refreshed_inflight, retrying, still_paused, tick_result, vanished_keys, with_day,
    DeskKnobs, Marks, Opening, PauseRule, VanishContext,
};
use crate::desk_orchestrator::{
    desk_pick, desk_rule, desk_start, desk_state, desk_tick, heat_block, is_double,
    law_desk_opens_one_fresh_long, open_names, open_sids, status_text, HeatLimits,
};
use crate::desk_schedule::owner;
use crate::models::{DecisionView, EngineStateView, MarketSnapshot, Position};
use crate::openmeta::{store_updated, MetaView};
use crate::sessions::{hour_at, HourWindow};
use crate::text::{lower, upper};
use vstd::prelude::*;

verus! {

proof fn lemma_no_enters(ds: Seq<DecisionView>)
    ensures
        forall|i: int| 0 <= i < no_enters(ds).len() ==> !((#[trigger] no_enters(ds)[i]) is EnterLong),
    decreases ds.len(),
{
    reveal(Seq::filter);
    if ds.len() > 0 {
        lemma_no_enters(ds.drop_last());
    }
}

proof fn lemma_withheld(ds: Seq<DecisionView>, halt: bool, a: Seq<char>, waits: bool, b: Seq<char>)
    requires
        halt || waits,
    ensures
        forall|i: int|
            0 <= i < retrying(halted(ds, halt, a), waits, b).len() ==> !((#[trigger] retrying(
                halted(ds, halt, a),
                waits,
                b,
            )[i]) is EnterLong),
{
    lemma_no_enters(ds);
    lemma_no_enters(halted(ds, halt, a));
}

/// On a halted day, and while a retry waits, a tick opens nothing.
pub proof fn law_no_entry_while_withheld(
    st: EngineStateView,
    s: MarketSnapshot,
    k: DeskKnobs,
    meta: Map<Seq<char>, MetaView>,
    pending_error: Option<Seq<char>>,
    orchestrated: bool,
    heat: HeatLimits,
    now: i64,
)
    ensures
        match tick_result(st, s, k, meta, pending_error, orchestrated, heat, now) {
            Some(t) => (t.state.daily_halt || now < t.state.retry_until) ==> forall|i: int|
                0 <= i < t.decisions.len() ==> !((#[trigger] t.decisions[i]) is EnterLong),
            None => true,
        },
{
    if let Some(t) = tick_result(st, s, k, meta, pending_error, orchestrated, heat, now) {
        if !orchestrated {
            if t.state.daily_halt || now < t.state.retry_until {
                let o = own_opening(st, s, meta, now as int);
                let meta1 = (store_updated(meta, o.book, o.book.len() as int, s, now)->0).0;
                let st1 = own_state(st, s, o, meta1, k, now as int)->0;
                let x = picked(
                    st1,
                    s,
                    o.book,
                    refreshed_inflight(o),
                    still_paused(st, now as int),
                    k,
                    now as int,
                )->0;
                lemma_withheld(
                    x.decisions,
                    st1.daily_halt,
                    "стоп дня. Новых входов нет до 00:00 UTC."@,
                    now < st1.retry_until,
                    "сеть: повтор входа после сбоя"@,
                );
            }
        } else {
            let o = desk_opening(st, s, meta, now as int);
            let meta1 = (store_updated(meta, o.book, o.book.len() as int, s, now)->0).0;
            let day = with_day(st, s, now as int, k.momentum)->0;
            assert forall|i: int| 0 <= i < t.decisions.len() && (t.state.daily_halt || now
                < t.state.retry_until) implies !((#[trigger] t.decisions[i]) is EnterLong) by {
                law_desk_tick_respects_its_state(
                    day,
                    s,
                    o.book,
                    o.inflight,
                    st.cooldowns,
                    st.cooldown_until,
                    k,
                    meta1,
                    still_paused(st, now as int),
                    base_pause(st.strategy_id, k) as i64,
                    pause_windows(st.strategy_id, k),
                    heat,
                    pending_error,
                    now,
                    i,
                    i,
                );
            }
        }
    }
}

/// Whether two states have the same strategy, day's account and waiting retry.
pub open spec fn same_day(a: EngineStateView, b: EngineStateView) -> bool {
    &&& a.strategy_id == b.strategy_id
    &&& a.day_utc == b.day_utc
    &&& a.day_start_equity == b.day_start_equity
    &&& a.daily_halt == b.daily_halt
    &&& a.retry_until == b.retry_until
}

proof fn lemma_forgotten_keeps_the_day(st: EngineStateView, keys: Seq<Seq<char>>, n: int, c: VanishContext)
    ensures
        forgotten(st, keys, n, c) matches Some(next) ==> same_day(next, st),
    decreases n,
{
    if n > 0 {
        lemma_forgotten_keeps_the_day(st, keys, n - 1, c);
    }
}

proof fn lemma_refreshed_keeps_the_day(
    st: EngineStateView,
    s: MarketSnapshot,
    o: Opening,
    meta: Map<Seq<char>, MetaView>,
    rule: PauseRule,
    windows: Seq<HourWindow>,
    now: int,
)
    ensures
        refreshed(st, s, o, meta, rule, windows, now) matches Some(next) ==> same_day(next, st),
{
    let keys = vanished_keys(o.mem, o.book);
    let c = VanishContext { mem: o.mem, tickers: s.tickers@, meta, rule, windows, now };
    lemma_forgotten_keeps_the_day(st, keys, keys.len() as int, c);
}

/// A tick of the desk hands on the day's account as it came, makes the owner of the
/// hour the running strategy, drops no held row, and always says something. It opens
/// at most one long, never one that is already open, and none while entries are
/// paused, on a halted day, while a retry waits, or without room.
pub proof fn law_desk_tick_respects_its_state(
    st: EngineStateView,
    s: MarketSnapshot,
    book: Seq<Position>,
    inflight: Seq<Seq<char>>,
    cooldowns: Map<Seq<char>, i64>,
    cooldown_until: i64,
    k: DeskKnobs,
    meta: Map<Seq<char>, MetaView>,
    paused: bool,
    pause_ms: i64,
    windows: Seq<HourWindow>,
    heat: HeatLimits,
    pending_error: Option<Seq<char>>,
    now: i64,
    i: int,
    j: int,
)
    ensures
        match desk_tick(
            st,
            s,
            book,
            inflight,
            cooldowns,
            cooldown_until,
            k,
            meta,
            paused,
            pause_ms,
            windows,
            heat,
            pending_error,
            now,
        ) {
            Some(t) => {
                let sid = owner(hour_at(now as int)).number();
                &&& t.state.day_utc == st.day_utc
                &&& t.state.day_start_equity == st.day_start_equity
                &&& t.state.daily_halt == st.daily_halt
                &&& t.state.retry_until == st.retry_until
                &&& t.state.strategy_id == sid
                &&& t.state.positions == held_rows(book)
                &&& t.decisions.len() > 0
                &&& 0 <= i < t.decisions.len() && t.decisions[i] is EnterLong ==> {
                    &&& !paused
                    &&& !st.daily_halt
                    &&& now >= st.retry_until
                    &&& heat_block(sid, open_sids(book, meta, sid), heat) is None
                    &&& !is_double(t.decisions[i].symbol(), open_names(book))
                    &&& 0 <= j < t.decisions.len() && t.decisions[j] is EnterLong ==> i == j
                }
            },
            None => true,
        },
{
    reveal(desk_tick);
    let sid = owner(hour_at(now as int)).number();
    let o = desk_start(st, book, inflight);
    lemma_refreshed_keeps_the_day(
        EngineStateView { strategy_id: sid, cooldowns, cooldown_until, ..st },
        s,
        o,
        meta,
        desk_rule(sid, pause_ms, k),
        windows,
        now as int,
    );
    if let Some(st1) = desk_state(
        st,
        s,
        o,
        cooldowns,
        cooldown_until,
        k,
        meta,
        pause_ms,
        windows,
        now as int,
    ) {
        let flight = refreshed_inflight(o);
        if let Some(x) = desk_pick(s, st1, book, flight, meta, paused, heat, k, now as int) {
            let a = status_text(now as int, Some("стоп дня. Новых входов нет до 00:00 UTC."@));
            let b = status_text(now as int, Some("сеть: повтор входа после сбоя"@));
            let waits = now < st1.retry_until;
            if st1.daily_halt || waits {
                lemma_withheld(x.decisions, st1.daily_halt, a, waits, b);
            }
            law_desk_opens_one_fresh_long(
                s,
                st1,
                book,
                flight,
                meta,
                paused,
                heat,
                k,
                now as int,
                i,
                j,
            );
        }
    }
}

/// With the orchestrator on, a tick leaves the owner of the hour as the running
/// strategy; with it off, the running strategy stays.
pub proof fn law_owner_runs_the_hour(
    st: EngineStateView,
    s: MarketSnapshot,
    k: DeskKnobs,
    meta: Map<Seq<char>, MetaView>,
    pending_error: Option<Seq<char>>,
    orchestrated: bool,
    heat: HeatLimits,
    now: i64,
)
    ensures
        match tick_result(st, s, k, meta, pending_error, orchestrated, heat, now) {
            Some(t) => t.state.strategy_id == if orchestrated {
                owner(hour_at(now as int)).number()
            } else {
                st.strategy_id
            },
            None => true,
        },
{
    if !orchestrated {
        let o = own_opening(st, s, meta, now as int);
        if let Some((meta1, _)) = store_updated(meta, o.book, o.book.len() as int, s, now) {
            lemma_refreshed_keeps_the_day(
                st,
                s,
                o,
                meta1,
                own_rule(st.strategy_id, k),
                pause_windows(st.strategy_id, k),
                now as int,
            );
        }
    } else {
        let o = desk_opening(st, s, meta, now as int);
        if let Some((meta1, _)) = store_updated(meta, o.book, o.book.len() as int, s, now) {
            if let Some(day) = with_day(st, s, now as int, k.momentum) {
                law_desk_tick_respects_its_state(
                    day,
                    s,
                    o.book,
                    o.inflight,
                    st.cooldowns,
                    st.cooldown_until,
                    k,
                    meta1,
                    still_paused(st, now as int),
                    base_pause(st.strategy_id, k) as i64,
                    pause_windows(st.strategy_id, k),
                    heat,
                    pending_error,
                    now,
                    0,
                    0,
                );
            }
        }
    }
}

proof fn lemma_marks_grow(m: Marks, ds: Seq<DecisionView>, n: int, i: int, sid: i32, s: MarketSnapshot)
    requires
        0 <= i < n <= ds.len(),
    ensures
        ds[i] is ReduceLong ==> marked_all(m, ds, n, sid, s).scaled.contains(upper(ds[i].symbol())),
        ds[i] is EnterLong ==> lists_like(marked_all(m, ds, n, sid, s).inflight, ds[i].symbol()),
    decreases n,
{
    let before = marked_all(m, ds, n - 1, sid, s);
    let after = marked_all(m, ds, n, sid, s);
    assert(after == marked_one(before, ds[n - 1], sid, s));
    if i < n - 1 {
        lemma_marks_grow(m, ds, n - 1, i, sid, s);
        if ds[i] is EnterLong {
            let j = choose|j: int|
                0 <= j < before.inflight.len() && lower(#[trigger] before.inflight[j]) == lower(
                    ds[i].symbol(),
                );
            assert(after.inflight[j] == before.inflight[j]);
        }
    } else if ds[i] is EnterLong {
        if !lists_like(before.inflight, ds[i].symbol()) {
            assert(after.inflight[before.inflight.len() as int] == ds[i].symbol());
        }
    }
}

proof fn lemma_named_kept(v: Seq<Seq<char>>, symbol: Seq<char>)
    requires
        lists_like(v, symbol),
        lower(symbol) != lower("*"@),
    ensures
        lists_like(named_only(v), symbol),
    decreases v.len(),
{
    reveal(Seq::filter);
    let test = |k: Seq<char>| k != "*"@;
    let i = choose|i: int| 0 <= i < v.len() && lower(#[trigger] v[i]) == lower(symbol);
    let head = v.drop_last();
    if i < v.len() - 1 {
        assert(head[i] == v[i]);
        lemma_named_kept(head, symbol);
        let rest = named_only(head);
        let j = choose|j: int| 0 <= j < rest.len() && lower(#[trigger] rest[j]) == lower(symbol);
        assert(named_only(v)[j] == rest[j]);
    } else {
        assert(named_only(v)[named_only(head).len() as int] == v[i]);
    }
}

/// What a tick decides, the next state remembers: a partial sale is latched, so
/// that the next tick does not sell again, and an entry is in flight.
pub proof fn law_tick_latches_its_decisions(
    st: EngineStateView,
    s: MarketSnapshot,
    k: DeskKnobs,
    meta: Map<Seq<char>, MetaView>,
    pending_error: Option<Seq<char>>,
    orchestrated: bool,
    heat: HeatLimits,
    now: i64,
    i: int,
)
    ensures
        match tick_result(st, s, k, meta, pending_error, orchestrated, heat, now) {
            Some(t) => 0 <= i < t.decisions.len() ==> {
                let d = t.decisions[i];
                &&& d is ReduceLong ==> t.state.scaled_one_r.contains(upper(d.symbol()))
                &&& d is EnterLong && lower(d.symbol()) != lower("*"@) ==> lists_like(
                    t.state.inflight_symbols,
                    d.symbol(),
                )
            },
            None => true,
        },
{
    reveal(desk_tick);
    if let Some(t) = tick_result(st, s, k, meta, pending_error, orchestrated, heat, now) {
        if 0 <= i < t.decisions.len() {
            let o = if orchestrated {
                desk_opening(st, s, meta, now as int)
            } else {
                own_opening(st, s, meta, now as int)
            };
            let meta1 = (store_updated(meta, o.book, o.book.len() as int, s, now)->0).0;
            let st1 = if orchestrated {
                desk_state(
                    with_day(st, s, now as int, k.momentum)->0,
                    s,
                    o,
                    st.cooldowns,
                    st.cooldown_until,
                    k,
                    meta1,
                    base_pause(st.strategy_id, k) as i64,
                    pause_windows(st.strategy_id, k),
                    now as int,
                )->0
            } else {
                own_state(st, s, o, meta1, k, now as int)->0
            };
            let m0 = Marks {
                inflight: refreshed_inflight(o),
                scaled: st1.scaled_one_r,
                trailed: st1.hour1_trail_bar,
                meta: meta1,
                touched: false,
            };
            let n = t.decisions.len() as int;
            lemma_marks_grow(m0, t.decisions, n, i, st1.strategy_id, s);
            let m = marked_all(m0, t.decisions, n, st1.strategy_id, s);
            assert(t.state.inflight_symbols == named_only(m.inflight));
            assert(t.state.scaled_one_r == m.scaled);
            let d = t.decisions[i];
            if d is EnterLong && lower(d.symbol()) != lower("*"@) {
                lemma_named_kept(m.inflight, d.symbol());
            }
        }
    }
}

} // verus!

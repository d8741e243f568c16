//! What a tick makes of the book, of entries in flight and of pauses.
use super::{cools, decided, live_names};
use super::tick::{
    exit_wait, first_like, forgotten_one, halted, held_rows, in_book, inflight_stale, keyed,
    latched, live_rows, merged_book, no_enters, retrying, settled, starting_inflight, still_paused,
    vanished_keys, PauseRule, VanishContext,
};
use crate::dec::Dec;
use crate::continuation::ContinuationView;
use crate::journal::{close_won, symbol_pause};
use crate::models::{
    lemma_filter_member, DecisionView, EngineStateView, MarketSnapshot, Position, Side,
};
use crate::momentum::{held_keys, tape_mark, MomentumView};
use crate::openmeta::MetaView;
use crate::scalp::{scalp_view, ScalpView};
use crate::sessions::{clamp_ms, loss_pause_end};
use crate::text::{has, lower, upper};
use crate::trend::{trend_view, TrendView};
use vstd::prelude::*;

verus! {

/// Where the snapshot is the exchange's book, the tick's book is that book: a row
/// for each of its open longs, with its name, side and quantity. Otherwise it is
/// what the desk remembers, and the snapshot's slot where the desk has no row of
/// its name.
pub proof fn law_book_follows_the_exchange(mem: Seq<Position>, s: MarketSnapshot, i: int)
    ensures
        s.live_book ==> merged_book(mem, s).len() == live_rows(s).len(),
        s.live_book && 0 <= i < live_rows(s).len() ==> {
            let p = merged_book(mem, s)[i];
            let q = live_rows(s)[i];
            p.symbol@ == q.symbol@ && p.side == q.side && (q.qty.pos() ==> p.qty == q.qty)
        },
        !s.live_book && 0 <= i < mem.len() ==> merged_book(mem, s)[i] == mem[i],
        !s.live_book ==> merged_book(mem, s).len() <= mem.len() + 1 && mem.len() <= merged_book(
            mem,
            s,
        ).len(),
        !s.live_book && s.position is None ==> merged_book(mem, s) == mem,
{
}

/// The rows of the exchange's book that count are its open longs; the slot counts
/// only where there is none.
pub proof fn law_live_rows_are_open_longs(s: MarketSnapshot, p: Position)
    ensures
        live_rows(s).contains(p) ==> p.side == Side::Long && p.qty.pos(),
        s.open_positions@.contains(p) && p.side == Side::Long && p.qty.pos() ==> live_rows(s).contains(p),
{
    let test = |p: Position| p.is_open_long();
    let longs = crate::models::open_longs(s.open_positions@);
    assert(longs == s.open_positions@.filter(test));
    if longs.contains(p) {
        lemma_filter_member(s.open_positions@, test, p);
    }
    if live_rows(s).contains(p) && !longs.contains(p) {
        let k = choose|k: int| 0 <= k < live_rows(s).len() && live_rows(s)[k] == p;
        assert(live_rows(s)[k] == s.position->0);
    }
}

/// Which entries stay in flight on the exchange's book: those whose name the book
/// does not have yet, and none once a fresh account shows a whole scan later that
/// nothing was filled.
pub proof fn law_entries_in_flight(
    st: EngineStateView,
    s: MarketSnapshot,
    book: Seq<Position>,
    now: int,
    k: Seq<char>,
)
    requires
        s.live_book,
    ensures
        ({
            let v = starting_inflight(st, s, book, now);
            let stale = now >= st.retry_until && s.account_fresh && st.last_scan_ts > 0 && now
                - st.last_scan_ts >= crate::continuation::SCAN_MS;
            &&& stale ==> v.len() == 0
            &&& !stale && v.contains(k) ==> st.inflight_symbols.contains(k) && forall|i: int|
                0 <= i < book.len() ==> upper((#[trigger] book[i]).symbol@) != upper(k)
            &&& !stale && st.inflight_symbols.contains(k) && !keyed(book, upper(k)) ==> v.contains(k)
        }),
{
    let test = |k: Seq<char>| !keyed(book, upper(k));
    let v = starting_inflight(st, s, book, now);
    if !inflight_stale(st, s, now) && v.contains(k) {
        lemma_filter_member(st.inflight_symbols, test, k);
    }
}

/// What a long that vanished leaves behind: nothing of it is remembered; its name
/// pauses, for longer after a loss; and after a loss the desk pauses too. Whether
/// it won is told by the last price of its name against its entry and its
/// take-profit.
pub proof fn law_vanished_name_pauses(
    st: EngineStateView,
    key: Seq<char>,
    c: VanishContext,
    p: Position,
    mark: Dec,
)
    requires
        first_like(c.mem, key) == Some(p),
        tape_mark(key, c.tickers) == Some(mark),
        !c.rule.by_opener,
        c.rule.pause_ms > 0,
        key.len() > 0,
        forgotten_one(st, key, c) is Some,
    ensures
        ({
            let r = forgotten_one(st, key, c)->0;
            let won = close_won(p.entry_price, mark, p.take_profit);
            let until = clamp_ms(
                c.now + symbol_pause(c.rule.sid as int, won->0, c.rule.pause_ms as int),
            );
            &&& won is Some
            &&& r.cooldowns.contains_key(key) && r.cooldowns[key] >= until
            &&& won->0 ==> r.cooldown_until == st.cooldown_until
            &&& !won->0 ==> r.cooldown_until >= st.cooldown_until && r.cooldown_until >= loss_pause_end(
                c.now,
                c.windows,
                c.rule.pause_ms as int,
            )
            &&& !r.scaled_one_r.contains(key) && !r.s4_inherited.contains(key)
            &&& !r.hour1_trail_bar.contains_key(key) && !r.rearm_fail_count.contains_key(key)
        }),
{
}

/// Which names vanished: those that were held and have no row in the book any more.
pub proof fn law_vanished_names(mem: Seq<Position>, book: Seq<Position>, k: Seq<char>)
    ensures
        vanished_keys(mem, book).contains(k) ==> held_keys(mem).contains(k) && forall|i: int|
            0 <= i < book.len() ==> upper((#[trigger] book[i]).symbol@) != k,
        held_keys(mem).contains(k) && !in_book(book, k) ==> vanished_keys(mem, book).contains(k),
{
    let test = |k: Seq<char>| !in_book(book, k);
    if vanished_keys(mem, book).contains(k) {
        lemma_filter_member(held_keys(mem), test, k);
    }
}

/// When entries stay paused: while the pause stands, unless it has an end that has
/// come.
pub proof fn law_pause_ends_at_its_time(st: EngineStateView, now: int)
    ensures
        !st.entries_paused ==> !still_paused(st, now),
        st.entries_paused && st.cooldown_until > 0 && now >= st.cooldown_until ==> !still_paused(st, now),
        st.entries_paused && now < st.cooldown_until ==> still_paused(st, now),
        st.entries_paused && st.cooldown_until <= 0 ==> still_paused(st, now),
{
}

/// What a halt and a wait take out: entries and nothing else. Every other decision
/// stays.
pub proof fn law_only_entries_are_withheld(
    ds: Seq<DecisionView>,
    halt: bool,
    waits: bool,
    note: Seq<char>,
    d: DecisionView,
)
    ensures
        !halt ==> halted(ds, halt, note) == ds,
        !waits ==> retrying(ds, waits, note) == ds,
        halt && ds.contains(d) && !(d is EnterLong) ==> halted(ds, halt, note).contains(d),
        halt && d is EnterLong ==> !halted(ds, halt, note).contains(d),
        waits && d is EnterLong ==> !retrying(ds, waits, note).contains(d),
        waits && ds.contains(d) && !(d is EnterLong) && !(d is Hold) ==> retrying(ds, waits, note).contains(
            d,
        ),
{
    let test = |d: DecisionView| !(d is EnterLong);
    let kept = no_enters(ds);
    assert(kept == ds.filter(test));
    if kept.contains(d) {
        lemma_filter_member(ds, test, d);
    }
    if ds.contains(d) && !(d is EnterLong) {
        assert(kept.contains(d));
        let k = choose|k: int| 0 <= k < kept.len() && kept[k] == d;
        assert(!(kept[k] is Hold) || d is Hold);
    }
}

/// After a tick the desk remembers exactly the rows with a quantity, the first of
/// them in its slot, and it waits for an entry only where one is in flight and
/// nothing is held.
pub proof fn law_tick_remembers_what_is_held(
    st: EngineStateView,
    book: Seq<Position>,
    inflight: Seq<Seq<char>>,
    ds: Seq<DecisionView>,
    scan_ts: int,
    leaders: Seq<Seq<char>>,
    paused: bool,
    pending: Option<Seq<char>>,
    now: i64,
    p: Position,
)
    ensures
        ({
            let r = settled(st, book, inflight, ds, scan_ts, leaders, paused, pending, now);
            &&& r.positions.contains(p) <==> book.contains(p) && p.qty.pos()
            &&& r.position is Some <==> r.positions.len() > 0
            &&& r.positions.len() > 0 ==> r.position == Some(r.positions[0])
            &&& r.entry_inflight <==> inflight.len() > 0 && book.len() == 0
            &&& r.entries_paused == paused
            &&& r.cooldowns == st.cooldowns && r.daily_halt == st.daily_halt
        }),
{
    let test = |p: Position| p.qty.pos();
    if held_rows(book).contains(p) {
        lemma_filter_member(book, test, p);
    }
}

/// A long whose stop stands at or above its entry counts as half sold; one whose
/// stop is below it and that is not remembered as half sold does not start to
/// count.
pub proof fn law_break_even_counts_as_half_sold(
    scaled: Set<Seq<char>>,
    p: Position,
    meta: Map<Seq<char>, MetaView>,
    rule: PauseRule,
)
    requires
        p.side == Side::Long,
        p.qty.pos(),
        p.stop_loss is Some,
        latched(scaled, seq![p], 1, meta, rule) is Some,
    ensures
        p.entry_price.le(p.stop_loss->0) ==> latched(scaled, seq![p], 1, meta, rule) == Some(
            scaled.insert(upper(p.symbol@)),
        ),
        p.stop_loss->0.lt(p.entry_price) && !meta.contains_key(upper(upper(p.symbol@))) ==> latched(
            scaled,
            seq![p],
            1,
            meta,
            rule,
        ) == Some(scaled),
{
    reveal_with_fuel(latched, 2);
    assert(seq![p][0] == p);
}

/// How long a strategy with one slot waits after an exit: the base pause, and no
/// more than five minutes after a take-profit.
pub proof fn law_wait_after_an_exit(d: DecisionView, base: int)
    requires
        d is ExitPosition,
    ensures
        base <= 0 ==> exit_wait(d, base) == 0,
        base > 0 && has(lower(d->ExitPosition_reason), "take profit"@) == false ==> exit_wait(d, base) == base,
        base > 0 && has(lower(d->ExitPosition_reason), "take profit"@) ==> exit_wait(d, base) <= base
            && exit_wait(d, base) <= 5 * 60 * 1000 && (exit_wait(d, base) == base || exit_wait(d, base)
            == 5 * 60 * 1000),
{
}

/// Which strategy decides about a held position: the scalp for its own number
/// and the trend for its own, on the candles of the position's name.
pub proof fn law_each_strategy_decides_about_its_own(
    s: MarketSnapshot,
    p: Position,
    now: int,
    scan_ts: int,
    m: MomentumView,
    scalp: ScalpView,
    trend: TrendView,
    c: ContinuationView,
    exclude: Seq<Seq<char>>,
    cooldowns: Map<Seq<char>, i64>,
)
    requires
        p.qty.pos(),
    ensures
        decided(2, s, Some(p), now, scan_ts, m, scalp, trend, c, exclude, cooldowns) matches Some(x)
            ==> scalp_view(s.series(p.symbol@), Some(p), p.symbol@, scalp, Some(now)) == Some(
            x.decision,
        ),
        decided(3, s, Some(p), now, scan_ts, m, scalp, trend, c, exclude, cooldowns) matches Some(x)
            ==> trend_view(s.series(p.symbol@), Some(p), p.symbol@, trend, Some(now)) == Some(
            x.decision,
        ),
        p.side == Side::Short ==> (decided(
            1,
            s,
            Some(p),
            now,
            scan_ts,
            m,
            scalp,
            trend,
            c,
            exclude,
            cooldowns,
        ) matches Some(x) && x.decision is Hold),
{
}

/// Which names a strategy with one slot looks at: none whose pause still runs,
/// and every other one of the desk's.
pub proof fn law_paused_names_are_left_out(
    names: Seq<Seq<char>>,
    cooldowns: Map<Seq<char>, i64>,
    now: int,
    k: Seq<char>,
)
    ensures
        live_names(names, cooldowns, now).contains(k) ==> names.contains(k) && !cools(
            cooldowns,
            now,
            k,
        ),
        names.contains(k) && !cools(cooldowns, now, k) ==> live_names(names, cooldowns, now).contains(
            k,
        ),
{
    let test = |k: Seq<char>| !cools(cooldowns, now, k);
    if live_names(names, cooldowns, now).contains(k) {
        lemma_filter_member(names, test, k);
    }
}

} // verus!

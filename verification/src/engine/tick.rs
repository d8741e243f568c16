//! One tick of the desk: what is held is brought up to date, the running
//! strategy decides, and the next state remembers what was decided.
use super::{
    continuation_params_for, continues, decide_with, decided, desk_continuation, is_continuation,
    is_strategy, knobs_or_default, opt_momentum, opt_scalp, opt_trend, strategy_error,
    MomentumParams,
};
use crate::config::default_risk_pct;
use crate::continuation::entry::{continuation_result, ContinuationInput};
use crate::continuation::{
    continuation_decisions, default_continuation, noted_all, ContinuationParams, SkipTally, SCAN_MS,
};
use crate::dayrisk::{
    apply_day_risk, default_daily_loss_r, default_daily_loss_usdt, state_day_risk, with_day_risk,
    DayLimits,
};
use crate::dec::{dec, Dec};
use crate::desk_orchestrator::{desk_rows, desk_tick, keep_desk_rows, tick_orchestrated, HeatLimits};
use crate::errors::{asks_retry, is_retry_error};
use crate::journal::{close_won, keep_later, long_close_was_win, put_later, symbol_cooldown_until_for, symbol_pause};
use crate::models::{
    closed_bar, coalesce_live, coalesced, copy_instants, decision_views, last_closed_bar, last_n, open_long_rows,
    open_longs, opt_deref, opt_view, remembered, remembered_positions, unmanaged,
    unmanaged_positions, ActionView, Decision, DecisionView, EngineState, EngineStateView,
    MarketSnapshot, Position, Ticker, RECENT_KEPT,
};
use crate::momentum::{
    held_keys, held_symbols, hold_view, mark_for, momentum_decisions, momentum_result, one_hold,
    tape_mark, MomentumInput, MomentumView,
};
use crate::openmeta::{owned_by, store_scaled, store_updated, was_scaled, MetaView, OpenMeta};
use crate::profit::{current_equity, equity_of};
use crate::scalp::{default_scalp, ScalpParams, ScalpView};
use crate::sessions::{
    add_ms, clamp_ms, default_entry_windows, default_windows, loss_pause_end, pause_until_after_loss,
    HourWindow,
};
use crate::symbols::{SymMap, SymSet};
use crate::text::{contains, has, join, joined, lower, own, same, upper, views};
use crate::trend::{default_trend, TrendParams, TrendView};
use vstd::prelude::*;
use vstd::string::StringExecFns;

verus! {

/// The settings of the strategies, as far as they are given.
pub struct DeskKnobs {
    pub momentum: Option<MomentumView>,
    pub scalp: Option<ScalpView>,
    pub trend: Option<TrendView>,
}

/// The settings of the strategies, as far as they are given.
pub open spec fn desk_knobs(
    momentum: Option<&MomentumParams>,
    scalp: Option<&ScalpParams>,
    trend: Option<&TrendParams>,
) -> DeskKnobs {
    DeskKnobs {
        momentum: opt_momentum(momentum),
        scalp: opt_scalp(scalp),
        trend: opt_trend(trend),
    }
}

/// The first position of a symbol, ASCII case aside.
pub open spec fn first_like(v: Seq<Position>, symbol: Seq<char>) -> Option<Position>
    decreases v.len(),
{
    if v.len() == 0 {
        None
    } else if lower(v[0].symbol@) == lower(symbol) {
        Some(v[0])
    } else {
        first_like(v.drop_first(), symbol)
    }
}

proof fn lemma_like_skip(v: Seq<Position>, symbol: Seq<char>, n: int)
    requires
        0 <= n <= v.len(),
        forall|j: int| 0 <= j < n ==> lower((#[trigger] v[j]).symbol@) != lower(symbol),
    ensures
        first_like(v, symbol) == first_like(v.skip(n), symbol),
    decreases n,
{
    if n == 0 {
        assert(v.skip(0) =~= v);
    } else {
        assert(lower(v[0].symbol@) != lower(symbol));
        assert forall|j: int| 0 <= j < n - 1 implies lower((#[trigger] v.drop_first()[j]).symbol@)
            != lower(symbol) by {
            assert(v.drop_first()[j] == v[j + 1]);
        }
        lemma_like_skip(v.drop_first(), symbol, n - 1);
        assert(v.drop_first().skip(n - 1) =~= v.skip(n));
    }
}

/// The first position of a symbol, ASCII case aside.
pub fn find_like<'a>(v: &'a [Position], symbol: &str) -> (r: Option<&'a Position>)
    ensures
        opt_deref(r) == first_like(v@, symbol@),
{
    let mut i: usize = 0;
    while i < v.len()
        invariant
            i <= v@.len(),
            forall|j: int| 0 <= j < i ==> lower((#[trigger] v@[j]).symbol@) != lower(symbol@),
        decreases v@.len() - i,
    {
        if v[i].symbol.as_str().eq_ignore_ascii_case(symbol) {
            proof {
                lemma_like_skip(v@, symbol@, i as int);
                assert(v@.skip(i as int)[0] == v@[i as int]);
            }
            return Some(&v[i]);
        }
        i = i + 1;
    }
    proof {
        lemma_like_skip(v@, symbol@, v@.len() as int);
        assert(v@.skip(v@.len() as int) =~= Seq::<Position>::empty());
    }
    None
}

/// The longs of a live book: those listed, else the single slot.
pub open spec fn live_rows(s: MarketSnapshot) -> Seq<Position> {
    let longs = open_longs(s.open_positions@);
    if longs.len() == 0 && s.position is Some && s.position->0.is_open_long() {
        seq![s.position->0]
    } else {
        longs
    }
}

/// The positions of a tick: the live longs completed from memory, or without a
/// live book what is remembered and the snapshot's slot.
pub open spec fn merged_book(mem: Seq<Position>, s: MarketSnapshot) -> Seq<Position> {
    let live = live_rows(s);
    if s.live_book {
        Seq::new(live.len(), |i: int| coalesced(live[i], first_like(mem, live[i].symbol@)))
    } else if s.position is Some && s.position->0.qty.pos() && first_like(
        mem,
        s.position->0.symbol@,
    ) is None {
        mem.push(s.position->0)
    } else {
        mem
    }
}

pub(crate) fn merge_book(snapshot: &MarketSnapshot, mem: &[Position]) -> (r: Vec<Position>)
    ensures
        r@ == merged_book(mem@, *snapshot),
{
    if snapshot.live_book {
        let mut live: Vec<Position> = open_long_rows(snapshot.open_positions.as_slice());
        if live.len() == 0 {
            if let Some(p) = &snapshot.position {
                if p.open_long() {
                    live.push(p.clone());
                }
            }
        }
        proof {
            assert(live@ =~= live_rows(*snapshot));
        }
        let ghost goal = Seq::new(
            live@.len(),
            |i: int| coalesced(live@[i], first_like(mem@, live@[i].symbol@)),
        );
        let mut out: Vec<Position> = Vec::new();
        let mut i: usize = 0;
        while i < live.len()
            invariant
                i <= live@.len(),
                goal == Seq::new(
                    live@.len(),
                    |i: int| coalesced(live@[i], first_like(mem@, live@[i].symbol@)),
                ),
                out@ == goal.take(i as int),
            decreases live@.len() - i,
        {
            let m: Option<&Position> = find_like(mem, live[i].symbol.as_str());
            out.push(coalesce_live(&live[i], m));
            proof {
                assert(goal.take(i as int + 1) =~= goal.take(i as int).push(goal[i as int]));
            }
            i = i + 1;
        }
        proof {
            assert(goal.take(i as int) =~= goal);
        }
        return out;
    }
    let mut out: Vec<Position> = crate::models::copy_positions(mem);
    if let Some(p) = &snapshot.position {
        if p.qty.is_pos() && find_like(mem, p.symbol.as_str()).is_none() {
            out.push(p.clone());
        }
    }
    out
}

/// Whether a position of the list has the given upper-case symbol.
pub open spec fn keyed(v: Seq<Position>, key: Seq<char>) -> bool {
    exists|i: int| 0 <= i < v.len() && upper((#[trigger] v[i]).symbol@) == key
}

fn is_keyed(v: &[Position], key: &str) -> (r: bool)
    ensures
        r == keyed(v@, key@),
{
    let mut i: usize = 0;
    while i < v.len()
        invariant
            i <= v@.len(),
            forall|j: int| 0 <= j < i ==> upper((#[trigger] v@[j]).symbol@) != key@,
        decreases v@.len() - i,
    {
        let up = v[i].symbol.as_str().to_ascii_uppercase();
        if same(up.as_str(), key) {
            proof {
                assert(upper(v@[i as int].symbol@) == key@);
            }
            return true;
        }
        i = i + 1;
    }
    false
}

/// Whether entries in flight have gone stale: a fresh account shows no fill a
/// full scan later, and no retry is running.
pub open spec fn inflight_stale(st: EngineStateView, s: MarketSnapshot, now: int) -> bool {
    now >= st.retry_until && s.live_book && s.account_fresh && st.last_scan_ts > 0 && now
        - st.last_scan_ts >= SCAN_MS
}

/// The entries in flight at the start of a tick. `*` stands for one whose
/// symbol is not known.
pub open spec fn starting_inflight(
    st: EngineStateView,
    s: MarketSnapshot,
    book: Seq<Position>,
    now: int,
) -> Seq<Seq<char>> {
    if s.live_book {
        if inflight_stale(st, s, now) {
            Seq::empty()
        } else {
            st.inflight_symbols.filter(|k: Seq<char>| !keyed(book, upper(k)))
        }
    } else if st.entry_inflight && st.position is None && st.inflight_symbols.len() == 0 {
        seq!["*"@]
    } else {
        st.inflight_symbols
    }
}

pub(crate) fn start_inflight(state: &EngineState, snapshot: &MarketSnapshot, book: &[Position], now: i64) -> (r:
    Vec<String>)
    ensures
        views(r@) == starting_inflight(state@, *snapshot, book@, now as int),
{
    let mut out: Vec<String> = Vec::new();
    proof {
        assert(views(out@) =~= Seq::<Seq<char>>::empty());
    }
    if snapshot.live_book {
        if now >= state.retry_until && snapshot.account_fresh && state.last_scan_ts > 0
            && now as i128 - state.last_scan_ts as i128 >= SCAN_MS as i128 {
            return out;
        }
        let ghost all = views(state.inflight_symbols@);
        let ghost test = |k: Seq<char>| !keyed(book@, upper(k));
        let mut i: usize = 0;
        proof {
            reveal(Seq::filter);
            assert(views(out@) =~= all.take(0).filter(test));
        }
        while i < state.inflight_symbols.len()
            invariant
                i <= state.inflight_symbols@.len(),
                all == views(state.inflight_symbols@),
                test == (|k: Seq<char>| !keyed(book@, upper(k))),
                views(out@) == all.take(i as int).filter(test),
            decreases state.inflight_symbols@.len() - i,
        {
            proof {
                reveal(Seq::filter);
                assert(all.take(i as int + 1).drop_last() =~= all.take(i as int));
            }
            let k: &str = state.inflight_symbols[i].as_str();
            let up = k.to_ascii_uppercase();
            if !is_keyed(book, up.as_str()) {
                let ghost before = views(out@);
                out.push(own(k));
                proof {
                    assert(views(out@) =~= before.push(k@));
                }
            }
            i = i + 1;
        }
        proof {
            assert(all.take(i as int) =~= all);
        }
        return out;
    }
    if state.entry_inflight && state.position.is_none() && state.inflight_symbols.len() == 0 {
        out.push(own("*"));
        proof {
            assert(views(out@) =~= seq!["*"@]);
        }
        return out;
    }
    crate::models::copy_texts(state.inflight_symbols.as_slice())
}

/// The positions that continuation manages for a strategy.
pub open spec fn owned_rows(
    book: Seq<Position>,
    meta: Map<Seq<char>, MetaView>,
    sid: i32,
    inherited: Set<Seq<char>>,
) -> Seq<Position> {
    book.filter(|p: Position| owned_by(meta, p.symbol@, sid, inherited))
}

pub(crate) fn keep_owned(book: Vec<Position>, meta: &OpenMeta, sid: i32, inherited: &SymSet) -> (r: Vec<Position>)
    ensures
        r@ == owned_rows(book@, meta@, sid, inherited@),
{
    let ghost test = |p: Position| owned_by(meta@, p.symbol@, sid, inherited@);
    let mut out: Vec<Position> = Vec::new();
    let mut i: usize = 0;
    proof {
        reveal(Seq::filter);
        assert(book@.take(0) =~= Seq::<Position>::empty());
        assert(book@.take(0).filter(test) =~= Seq::<Position>::empty());
    }
    while i < book.len()
        invariant
            i <= book@.len(),
            test == (|p: Position| owned_by(meta@, p.symbol@, sid, inherited@)),
            out@ == book@.take(i as int).filter(test),
        decreases book@.len() - i,
    {
        proof {
            reveal(Seq::filter);
            assert(book@.take(i as int + 1).drop_last() =~= book@.take(i as int));
        }
        if meta.continuation_owns(book[i].symbol.as_str(), sid, inherited) {
            out.push(book[i].clone());
        }
        i = i + 1;
    }
    proof {
        assert(book@.take(i as int) =~= book@);
    }
    out
}

/// The plain pause of a strategy after a trade.
pub open spec fn base_pause(sid: i32, k: DeskKnobs) -> int {
    if sid == 1 {
        match k.momentum {
            Some(m) => m.cooldown_ms as int,
            None => 1_800_000,
        }
    } else if sid == 2 {
        match k.scalp {
            Some(p) => p.cooldown_ms as int,
            None => 1_200_000,
        }
    } else if continues(sid) {
        default_continuation().cooldown_ms as int
    } else {
        match k.trend {
            Some(p) => p.cooldown_ms as int,
            None => 3_600_000,
        }
    }
}

pub(crate) fn base_cooldown(
    sid: i32,
    momentum: Option<&MomentumParams>,
    scalp: Option<&ScalpParams>,
    trend: Option<&TrendParams>,
) -> (r: i64)
    ensures
        r == base_pause(sid, desk_knobs(momentum, scalp, trend)),
{
    if sid == 1 {
        match momentum {
            Some(m) => m.cooldown_ms,
            None => 1_800_000,
        }
    } else if sid == 2 {
        match scalp {
            Some(p) => p.cooldown_ms,
            None => 1_200_000,
        }
    } else if is_continuation(sid) {
        ContinuationParams::default().cooldown_ms
    } else {
        match trend {
            Some(p) => p.cooldown_ms,
            None => 3_600_000,
        }
    }
}

/// The hours that a loss pauses a strategy within.
pub open spec fn pause_windows(sid: i32, k: DeskKnobs) -> Seq<HourWindow> {
    match k.momentum {
        Some(m) => if continues(sid) {
            m.s4_entry_windows
        } else {
            m.entry_windows
        },
        None => default_windows(),
    }
}

pub(crate) fn loss_windows(sid: i32, momentum: Option<&MomentumParams>) -> (r: Vec<HourWindow>)
    ensures
        r@ == (match momentum {
            Some(m) => if continues(sid) {
                m.s4_entry_windows@
            } else {
                m.entry_windows@
            },
            None => default_windows(),
        }),
{
    match momentum {
        Some(m) => if is_continuation(sid) {
            crate::sessions::copy_windows(m.s4_entry_windows.as_slice())
        } else {
            crate::sessions::copy_windows(m.entry_windows.as_slice())
        },
        None => default_entry_windows(),
    }
}

/// Whose pause a position that vanished takes: the running strategy's, or that
/// of the strategy that opened it.
#[derive(Debug, Clone, Copy)]
pub struct PauseRule {
    pub by_opener: bool,
    pub sid: i32,
    pub pause_ms: i64,
    pub scalp_ms: i64,
    pub trend_ms: i64,
}

/// The strategy that a symbol counts for.
pub open spec fn counts_for(rule: PauseRule, meta: Map<Seq<char>, MetaView>, symbol: Seq<char>) -> i32 {
    if rule.by_opener && meta.contains_key(upper(symbol)) {
        meta[upper(symbol)].strategy_id
    } else {
        rule.sid
    }
}

/// The pause of a strategy under a rule.
pub open spec fn rule_pause(rule: PauseRule, sid: i32) -> int {
    if rule.by_opener && sid == 2 {
        rule.scalp_ms as int
    } else if rule.by_opener && sid == 3 {
        rule.trend_ms as int
    } else {
        rule.pause_ms as int
    }
}

impl PauseRule {
    fn strategy_of(&self, meta: &OpenMeta, symbol: &str) -> (r: i32)
        ensures
            r == counts_for(*self, meta@, symbol@),
    {
        if self.by_opener {
            if let Some(m) = meta.get(symbol) {
                return m.strategy_id;
            }
        }
        self.sid
    }

    fn pause(&self, sid: i32) -> (r: i64)
        ensures
            r == rule_pause(*self, sid),
    {
        if self.by_opener && sid == 2 {
            self.scalp_ms
        } else if self.by_opener && sid == 3 {
            self.trend_ms
        } else {
            self.pause_ms
        }
    }
}

/// What the handling of vanished positions reads.
pub struct VanishContext {
    pub mem: Seq<Position>,
    pub tickers: Seq<Ticker>,
    pub meta: Map<Seq<char>, MetaView>,
    pub rule: PauseRule,
    pub windows: Seq<HourWindow>,
    pub now: int,
}

/// Whether a position that vanished had won, by the tape.
pub open spec fn vanished_won(key: Seq<char>, c: VanishContext) -> Option<bool> {
    let mark = match tape_mark(key, c.tickers) {
        Some(m) => m,
        None => dec(0, 0),
    };
    match first_like(c.mem, key) {
        Some(p) => close_won(p.entry_price, mark, p.take_profit),
        None => Some(false),
    }
}

pub open spec fn later_of(a: i64, b: int) -> i64 {
    if a >= b {
        a
    } else {
        b as i64
    }
}

/// The state after one symbol vanished: nothing of it is remembered, and its
/// pause, after a loss also that of the desk, starts.
pub open spec fn forgotten_one(st: EngineStateView, key: Seq<char>, c: VanishContext) -> Option<
    EngineStateView,
> {
    let sid = counts_for(c.rule, c.meta, key);
    let pause = rule_pause(c.rule, sid);
    match vanished_won(key, c) {
        None => None,
        Some(won) => Some(
            EngineStateView {
                scaled_one_r: st.scaled_one_r.remove(key),
                hour1_trail_bar: st.hour1_trail_bar.remove(key),
                s4_inherited: st.s4_inherited.remove(key),
                rearm_miss_since: st.rearm_miss_since.remove(key),
                rearm_fail_count: st.rearm_fail_count.remove(key),
                cooldowns: if pause > 0 && (c.rule.by_opener || key.len() > 0) {
                    put_later(
                        st.cooldowns,
                        key,
                        clamp_ms(c.now + symbol_pause(sid as int, won, pause)),
                    )
                } else {
                    st.cooldowns
                },
                cooldown_until: if pause > 0 && !won {
                    later_of(st.cooldown_until, loss_pause_end(c.now, c.windows, pause))
                } else {
                    st.cooldown_until
                },
                ..st
            },
        ),
    }
}

/// The state after the first `n` of the keys vanished.
pub open spec fn forgotten(st: EngineStateView, keys: Seq<Seq<char>>, n: int, c: VanishContext) -> Option<
    EngineStateView,
>
    decreases n,
{
    if n <= 0 {
        Some(st)
    } else {
        match forgotten(st, keys, n - 1, c) {
            Some(x) => forgotten_one(x, keys[n - 1], c),
            None => None,
        }
    }
}

proof fn lemma_forgotten_none(st: EngineStateView, keys: Seq<Seq<char>>, n: int, m: int, c: VanishContext)
    requires
        0 <= n <= m,
        forgotten(st, keys, n, c) is None,
    ensures
        forgotten(st, keys, m, c) is None,
    decreases m - n,
{
    if n < m {
        lemma_forgotten_none(st, keys, n, m - 1, c);
    }
}

/// Whether a row of a book has a symbol, which is given in upper case.
pub open spec fn in_book(book: Seq<Position>, key: Seq<char>) -> bool {
    exists|i: int| 0 <= i < book.len() && upper((#[trigger] book[i]).symbol@) == key
}

fn stands_in_book(book: &[Position], key: &str) -> (r: bool)
    ensures
        r == in_book(book@, key@),
{
    let mut i: usize = 0;
    while i < book.len()
        invariant
            i <= book@.len(),
            forall|j: int| 0 <= j < i ==> upper((#[trigger] book@[j]).symbol@) != key@,
        decreases book@.len() - i,
    {
        if same(book[i].symbol.as_str().to_ascii_uppercase().as_str(), key) {
            return true;
        }
        i = i + 1;
    }
    false
}

/// The upper-case symbols that were remembered and have no row in the book.
pub open spec fn vanished_keys(mem: Seq<Position>, book: Seq<Position>) -> Seq<Seq<char>> {
    held_keys(mem).filter(|k: Seq<char>| !in_book(book, k))
}

fn list_vanished(mem: &[Position], book: &[Position]) -> (r: Vec<String>)
    ensures
        views(r@) == vanished_keys(mem@, book@),
{
    let before: Vec<String> = held_symbols(mem);
    let ghost all = views(before@);
    let ghost test = |k: Seq<char>| !in_book(book@, k);
    let mut out: Vec<String> = Vec::new();
    let mut i: usize = 0;
    proof {
        reveal(Seq::filter);
        assert(views(out@) =~= all.take(0).filter(test));
    }
    while i < before.len()
        invariant
            i <= before@.len(),
            all == views(before@),
            test == (|k: Seq<char>| !in_book(book@, k)),
            views(out@) == all.take(i as int).filter(test),
        decreases before@.len() - i,
    {
        proof {
            reveal(Seq::filter);
            assert(all.take(i as int + 1).drop_last() =~= all.take(i as int));
        }
        let k: &str = before[i].as_str();
        if !stands_in_book(book, k) {
            let ghost prior = views(out@);
            out.push(own(k));
            proof {
                assert(views(out@) =~= prior.push(k@));
            }
        }
        i = i + 1;
    }
    proof {
        assert(all.take(i as int) =~= all);
    }
    out
}

/// Removes a text, ASCII case aside, from a list.
pub open spec fn without_like(v: Seq<Seq<char>>, key: Seq<char>) -> Seq<Seq<char>> {
    v.filter(|k: Seq<char>| lower(k) != lower(key))
}

/// The entries in flight without the first `n` keys.
pub open spec fn without_all(v: Seq<Seq<char>>, keys: Seq<Seq<char>>, n: int) -> Seq<Seq<char>>
    decreases n,
{
    if n <= 0 {
        v
    } else {
        without_like(without_all(v, keys, n - 1), keys[n - 1])
    }
}

fn drop_like(v: &Vec<String>, key: &str) -> (r: Vec<String>)
    ensures
        views(r@) == without_like(views(v@), key@),
{
    let ghost all = views(v@);
    let ghost test = |k: Seq<char>| lower(k) != lower(key@);
    let mut out: Vec<String> = Vec::new();
    let mut i: usize = 0;
    proof {
        reveal(Seq::filter);
        assert(views(out@) =~= all.take(0).filter(test));
    }
    while i < v.len()
        invariant
            i <= v@.len(),
            all == views(v@),
            test == (|k: Seq<char>| lower(k) != lower(key@)),
            views(out@) == all.take(i as int).filter(test),
        decreases v@.len() - i,
    {
        proof {
            reveal(Seq::filter);
            assert(all.take(i as int + 1).drop_last() =~= all.take(i as int));
        }
        let k: &str = v[i].as_str();
        if !k.eq_ignore_ascii_case(key) {
            let ghost prior = views(out@);
            out.push(own(k));
            proof {
                assert(views(out@) =~= prior.push(k@));
            }
        }
        i = i + 1;
    }
    proof {
        assert(all.take(i as int) =~= all);
    }
    out
}

fn forget_one(
    state: &mut EngineState,
    key: &str,
    mem: &[Position],
    tickers: &[Ticker],
    meta: &OpenMeta,
    rule: &PauseRule,
    windows: &[HourWindow],
    now: i64,
) -> (r: Option<()>)
    ensures
        match forgotten_one(
            old(state)@,
            key@,
            VanishContext {
                mem: mem@,
                tickers: tickers@,
                meta: meta@,
                rule: *rule,
                windows: windows@,
                now: now as int,
            },
        ) {
            Some(next) => r is Some && final(state)@ == next,
            None => r is None,
        },
{
    let mark: Dec = match mark_for(key, tickers, None) {
        Some(m) => m,
        None => Dec::zero(),
    };
    let won: bool = match find_like(mem, key) {
        Some(p) => long_close_was_win(p.entry_price, mark, p.take_profit)?,
        None => false,
    };
    state.scaled_one_r.remove(key);
    state.hour1_trail_bar.remove(key);
    state.s4_inherited.remove(key);
    state.rearm_miss_since.remove(key);
    state.rearm_fail_count.remove(key);
    let sid: i32 = rule.strategy_of(meta, key);
    let pause: i64 = rule.pause(sid);
    if pause > 0 {
        if rule.by_opener || !key.is_empty() {
            keep_later(
                &mut state.cooldowns,
                key,
                symbol_cooldown_until_for(sid, now, won, pause),
            );
        }
        if !won {
            let until: i64 = pause_until_after_loss(now, windows, pause);
            if until > state.cooldown_until {
                state.cooldown_until = until;
            }
        }
    }
    Some(())
}

/// Forgets the symbols that vanished from the book and starts their pauses.
pub fn forget_vanished(
    state: &mut EngineState,
    inflight: &mut Vec<String>,
    mem: &[Position],
    book: &[Position],
    tickers: &[Ticker],
    meta: &OpenMeta,
    rule: &PauseRule,
    windows: &[HourWindow],
    now: i64,
) -> (r: Option<()>)
    ensures
        ({
            let keys = vanished_keys(mem@, book@);
            match forgotten(
                old(state)@,
                keys,
                keys.len() as int,
                VanishContext {
                    mem: mem@,
                    tickers: tickers@,
                    meta: meta@,
                    rule: *rule,
                    windows: windows@,
                    now: now as int,
                },
            ) {
                Some(next) => {
                    &&& r is Some
                    &&& final(state)@ == next
                    &&& views(final(inflight)@) == without_all(
                        views(old(inflight)@),
                        keys,
                        keys.len() as int,
                    )
                },
                None => r is None,
            }
        }),
{
    let gone: Vec<String> = list_vanished(mem, book);
    let ghost keys = views(gone@);
    let ghost c = VanishContext {
        mem: mem@,
        tickers: tickers@,
        meta: meta@,
        rule: *rule,
        windows: windows@,
        now: now as int,
    };
    let ghost st0 = state@;
    let ghost fl0 = views(inflight@);
    let mut i: usize = 0;
    while i < gone.len()
        invariant
            i <= gone@.len(),
            keys == views(gone@),
            keys == vanished_keys(mem@, book@),
            st0 == old(state)@,
            c == (VanishContext {
                mem: mem@,
                tickers: tickers@,
                meta: meta@,
                rule: *rule,
                windows: windows@,
                now: now as int,
            }),
            forgotten(st0, keys, i as int, c) == Some(state@),
            views(inflight@) == without_all(fl0, keys, i as int),
        decreases gone@.len() - i,
    {
        let key: &str = gone[i].as_str();
        proof {
            assert(keys[i as int] == key@);
        }
        *inflight = drop_like(inflight, key);
        match forget_one(state, key, mem, tickers, meta, rule, windows, now) {
            Some(_) => {},
            None => {
                proof {
                    lemma_forgotten_none(st0, keys, i as int + 1, keys.len() as int, c);
                }
                return None;
            },
        }
        i = i + 1;
    }
    Some(())
}

/// The half-sold symbols after a look at the first `n` longs: a stop at or above
/// entry, or what is remembered of this very trade, says so.
pub open spec fn latched(
    scaled: Set<Seq<char>>,
    book: Seq<Position>,
    n: int,
    meta: Map<Seq<char>, MetaView>,
    rule: PauseRule,
) -> Option<Set<Seq<char>>>
    decreases n,
{
    if n <= 0 {
        Some(scaled)
    } else {
        match latched(scaled, book, n - 1, meta, rule) {
            None => None,
            Some(so_far) => {
                let pos = book[n - 1];
                let key = upper(pos.symbol@);
                if !pos.is_open_long() {
                    Some(so_far)
                } else if pos.stop_loss is Some && pos.entry_price.le(pos.stop_loss->0) {
                    Some(so_far.insert(key))
                } else {
                    match was_scaled(meta, key, pos.entry_price, counts_for(rule, meta, pos.symbol@)) {
                        None => None,
                        Some(true) => Some(so_far.insert(key)),
                        Some(false) => Some(so_far),
                    }
                }
            },
        }
    }
}

proof fn lemma_latched_none(
    scaled: Set<Seq<char>>,
    book: Seq<Position>,
    n: int,
    m: int,
    meta: Map<Seq<char>, MetaView>,
    rule: PauseRule,
)
    requires
        0 <= n <= m,
        latched(scaled, book, n, meta, rule) is None,
    ensures
        latched(scaled, book, m, meta, rule) is None,
    decreases m - n,
{
    if n < m {
        lemma_latched_none(scaled, book, n, m - 1, meta, rule);
    }
}

/// Restores which longs are half sold after the book lost sight of them.
pub fn restore_latch(scaled: &mut SymSet, book: &[Position], meta: &OpenMeta, rule: &PauseRule) -> (r:
    Option<()>)
    ensures
        match latched(old(scaled)@, book@, book@.len() as int, meta@, *rule) {
            Some(next) => r is Some && final(scaled)@ == next,
            None => r is None,
        },
{
    let ghost start = scaled@;
    let mut i: usize = 0;
    while i < book.len()
        invariant
            i <= book@.len(),
            start == old(scaled)@,
            latched(start, book@, i as int, meta@, *rule) == Some(scaled@),
        decreases book@.len() - i,
    {
        let pos: &Position = &book[i];
        if pos.open_long() {
            let key = pos.symbol.as_str().to_ascii_uppercase();
            let even: bool = match pos.stop_loss {
                Some(sl) => sl >= pos.entry_price,
                None => false,
            };
            if even {
                scaled.insert(key.as_str());
            } else {
                let sid: i32 = rule.strategy_of(meta, pos.symbol.as_str());
                match meta.meta_scaled_for_entry(key.as_str(), pos.entry_price, sid) {
                    Some(x) => {
                        if x {
                            scaled.insert(key.as_str());
                        }
                    },
                    None => {
                        proof {
                            lemma_latched_none(
                                start,
                                book@,
                                i as int + 1,
                                book@.len() as int,
                                meta@,
                                *rule,
                            );
                        }
                        return None;
                    },
                }
            }
        }
        i = i + 1;
    }
    Some(())
}

/// The limits of the day.
pub open spec fn day_limits(momentum: Option<MomentumView>) -> DayLimits {
    match momentum {
        Some(m) => DayLimits {
            usdt_limit: m.daily_loss_usdt,
            loss_r: m.daily_loss_r,
            risk_pct: m.risk_pct,
        },
        None => DayLimits { usdt_limit: dec(20, 0), loss_r: dec(3, 0), risk_pct: dec(25, 4) },
    }
}

/// The state with the day's loss account, where the account is known.
pub open spec fn with_day(
    st: EngineStateView,
    s: MarketSnapshot,
    now: int,
    momentum: Option<MomentumView>,
) -> Option<EngineStateView> {
    if !s.account_ok {
        Some(st)
    } else {
        match equity_of(s.account.wallet_balance, s.account.unrealized_pnl) {
            None => None,
            Some(equity) => match state_day_risk(st, now, equity, day_limits(momentum)) {
                Some(d) => Some(with_day_risk(st, d)),
                None => None,
            },
        }
    }
}

/// Brings the day's loss account up to date.
pub fn update_day(
    state: &mut EngineState,
    snapshot: &MarketSnapshot,
    now: i64,
    momentum: Option<&MomentumParams>,
) -> (r: Option<()>)
    ensures
        match with_day(old(state)@, *snapshot, now as int, opt_momentum(momentum)) {
            Some(next) => r is Some && final(state)@ == next,
            None => r is None,
        },
{
    if !snapshot.account_ok {
        return Some(());
    }
    let limits = match momentum {
        Some(m) => DayLimits {
            usdt_limit: m.daily_loss_usdt,
            loss_r: m.daily_loss_r,
            risk_pct: m.risk_pct,
        },
        None => DayLimits {
            usdt_limit: default_daily_loss_usdt(),
            loss_r: default_daily_loss_r(),
            risk_pct: default_risk_pct(),
        },
    };
    let equity: Dec = current_equity(
        snapshot.account.wallet_balance,
        snapshot.account.unrealized_pnl,
    )?;
    match apply_day_risk(state, now, equity, limits) {
        Some(_) => Some(()),
        None => None,
    }
}

/// Whether entries are still paused: a pause with an end is over at that end.
pub open spec fn still_paused(st: EngineStateView, now: int) -> bool {
    st.entries_paused && !(st.cooldown_until > 0 && now >= st.cooldown_until)
}

/// The decisions without entries.
pub open spec fn no_enters(ds: Seq<DecisionView>) -> Seq<DecisionView> {
    ds.filter(|d: DecisionView| !(d is EnterLong))
}

fn drop_enters(ds: Vec<Decision>) -> (r: Vec<Decision>)
    ensures
        decision_views(r@) == no_enters(decision_views(ds@)),
{
    let ghost all = decision_views(ds@);
    let ghost test = |d: DecisionView| !(d is EnterLong);
    let mut out: Vec<Decision> = Vec::new();
    let mut i: usize = 0;
    proof {
        reveal(Seq::filter);
        assert(decision_views(out@) =~= all.take(0).filter(test));
    }
    while i < ds.len()
        invariant
            i <= ds@.len(),
            all == decision_views(ds@),
            test == (|d: DecisionView| !(d is EnterLong)),
            decision_views(out@) == all.take(i as int).filter(test),
        decreases ds@.len() - i,
    {
        proof {
            reveal(Seq::filter);
            assert(all.take(i as int + 1).drop_last() =~= all.take(i as int));
        }
        if !ds[i].is_enter_long() {
            let ghost prior = decision_views(out@);
            out.push(ds[i].clone());
            proof {
                assert(decision_views(out@) =~= prior.push(all[i as int]));
            }
        }
        i = i + 1;
    }
    proof {
        assert(all.take(i as int) =~= all);
    }
    out
}

/// Whether some decision acts.
pub open spec fn some_act(ds: Seq<DecisionView>) -> bool {
    exists|i: int| 0 <= i < ds.len() && !((#[trigger] ds[i]) is Hold)
}

/// Whether some decision acts.
pub fn any_act(ds: &[Decision]) -> (r: bool)
    ensures
        r == some_act(decision_views(ds@)),
{
    let mut i: usize = 0;
    while i < ds.len()
        invariant
            i <= ds@.len(),
            forall|j: int| 0 <= j < i ==> (#[trigger] decision_views(ds@)[j]) is Hold,
        decreases ds@.len() - i,
    {
        if !ds[i].is_hold() {
            proof {
                assert(!(decision_views(ds@)[i as int] is Hold));
            }
            return true;
        }
        i = i + 1;
    }
    false
}

/// The decisions on a day that is halted: no entries.
pub open spec fn halted(ds: Seq<DecisionView>, halt: bool, note: Seq<char>) -> Seq<DecisionView> {
    if !halt {
        ds
    } else if no_enters(ds).len() == 0 {
        seq![hold_view(note)]
    } else {
        no_enters(ds)
    }
}

/// The decisions while a retry waits: no entries, and one hold where nothing acts.
pub open spec fn retrying(ds: Seq<DecisionView>, waits: bool, note: Seq<char>) -> Seq<DecisionView> {
    if !waits {
        ds
    } else if some_act(no_enters(ds)) {
        no_enters(ds)
    } else {
        seq![hold_view(note)]
    }
}

/// Takes entries out on a halted day and while a retry waits.
pub fn withhold(ds: Vec<Decision>, halt: bool, halt_note: &str, waits: bool, wait_note: &str) -> (r: Vec<
    Decision,
>)
    ensures
        decision_views(r@) == retrying(
            halted(decision_views(ds@), halt, halt_note@),
            waits,
            wait_note@,
        ),
{
    let mut out: Vec<Decision> = ds;
    if halt {
        let kept: Vec<Decision> = drop_enters(out);
        out = if kept.len() == 0 {
            one_hold(halt_note)
        } else {
            kept
        };
    }
    if waits {
        let kept: Vec<Decision> = drop_enters(out);
        out = if any_act(kept.as_slice()) {
            kept
        } else {
            one_hold(wait_note)
        };
    }
    out
}

/// What the decisions of a tick leave behind.
pub struct Marks {
    pub inflight: Seq<Seq<char>>,
    pub scaled: Set<Seq<char>>,
    pub trailed: Map<Seq<char>, i64>,
    pub meta: Map<Seq<char>, MetaView>,
    pub touched: bool,
}

/// Whether a list holds a text, ASCII case aside.
pub open spec fn lists_like(v: Seq<Seq<char>>, key: Seq<char>) -> bool {
    crate::continuation::named_in(v, key)
}

/// What one decision leaves behind: an entry is in flight, a partial sale is
/// latched, and a 1h trail by the candle's low is done for that candle.
pub open spec fn marked_one(m: Marks, d: DecisionView, sid: i32, s: MarketSnapshot) -> Marks {
    match d {
        DecisionView::EnterLong { symbol, .. } => Marks {
            inflight: if lists_like(m.inflight, symbol) {
                m.inflight
            } else {
                m.inflight.push(symbol)
            },
            ..m
        },
        DecisionView::ReduceLong { symbol, .. } => Marks {
            scaled: m.scaled.insert(upper(symbol)),
            meta: store_scaled(m.meta, upper(symbol)),
            touched: m.touched || m.meta.contains_key(upper(upper(symbol))),
            ..m
        },
        DecisionView::AmendStop { symbol, reason, .. } => {
            let bar = closed_bar(s.series(symbol));
            if sid == 5 && has(reason, "trail по минимуму"@) && bar is Some {
                Marks { trailed: m.trailed.insert(upper(symbol), bar->0.open_time), ..m }
            } else {
                m
            }
        },
        _ => m,
    }
}

/// What the first `n` decisions leave behind.
pub open spec fn marked_all(m: Marks, ds: Seq<DecisionView>, n: int, sid: i32, s: MarketSnapshot) -> Marks
    decreases n,
{
    if n <= 0 {
        m
    } else {
        marked_one(marked_all(m, ds, n - 1, sid, s), ds[n - 1], sid, s)
    }
}

fn mark_decision(
    d: &Decision,
    sid: i32,
    snapshot: &MarketSnapshot,
    inflight: &mut Vec<String>,
    scaled: &mut SymSet,
    trailed: &mut SymMap<i64>,
    meta: &mut OpenMeta,
    touched: &mut bool,
)
    ensures
        marked_one(
            Marks {
                inflight: views(old(inflight)@),
                scaled: old(scaled)@,
                trailed: old(trailed)@,
                meta: old(meta)@,
                touched: *old(touched),
            },
            d@,
            sid,
            *snapshot,
        ) == (Marks {
            inflight: views(final(inflight)@),
            scaled: final(scaled)@,
            trailed: final(trailed)@,
            meta: final(meta)@,
            touched: *final(touched),
        }),
{
    match d {
        Decision::EnterLong { symbol, .. } => {
            if !crate::continuation::is_named_in(inflight.as_slice(), symbol.as_str()) {
                let ghost prior = views(inflight@);
                inflight.push(own(symbol.as_str()));
                proof {
                    assert(views(inflight@) =~= prior.push(symbol@));
                }
            }
        },
        Decision::ReduceLong { symbol, .. } => {
            let key = symbol.as_str().to_ascii_uppercase();
            scaled.insert(key.as_str());
            let hit: bool = meta.mark_scaled(key.as_str());
            *touched = *touched || hit;
        },
        Decision::AmendStop { symbol, reason, .. } => {
            if sid == 5 && contains(reason.as_str(), "trail по минимуму") {
                if let Some(bar) = last_closed_bar(snapshot.bars_for(symbol.as_str())) {
                    let key = symbol.as_str().to_ascii_uppercase();
                    trailed.insert(key.as_str(), bar.open_time);
                }
            }
        },
        _ => {},
    }
}

/// Remembers what the decisions of a tick leave behind.
pub fn mark_decisions(
    ds: &[Decision],
    sid: i32,
    snapshot: &MarketSnapshot,
    inflight: &mut Vec<String>,
    state: &mut EngineState,
    meta: &mut OpenMeta,
) -> (r: bool)
    ensures
        ({
            let m = marked_all(
                Marks {
                    inflight: views(old(inflight)@),
                    scaled: old(state)@.scaled_one_r,
                    trailed: old(state)@.hour1_trail_bar,
                    meta: old(meta)@,
                    touched: false,
                },
                decision_views(ds@),
                ds@.len() as int,
                sid,
                *snapshot,
            );
            &&& views(final(inflight)@) == m.inflight
            &&& final(state)@ == (EngineStateView {
                scaled_one_r: m.scaled,
                hour1_trail_bar: m.trailed,
                ..old(state)@
            })
            &&& final(meta)@ == m.meta
            &&& r == m.touched
        }),
{
    let mut scaled: SymSet = state.scaled_one_r.clone();
    let mut trailed: SymMap<i64> = crate::models::copy_instants(&state.hour1_trail_bar);
    let mut touched: bool = false;
    let ghost start = Marks {
        inflight: views(inflight@),
        scaled: scaled@,
        trailed: trailed@,
        meta: meta@,
        touched: false,
    };
    let mut i: usize = 0;
    while i < ds.len()
        invariant
            i <= ds@.len(),
            state@ == old(state)@,
            marked_all(start, decision_views(ds@), i as int, sid, *snapshot) == (Marks {
                inflight: views(inflight@),
                scaled: scaled@,
                trailed: trailed@,
                meta: meta@,
                touched,
            }),
        decreases ds@.len() - i,
    {
        proof {
            assert(decision_views(ds@)[i as int] == ds@[i as int]@);
        }
        mark_decision(
            &ds[i],
            sid,
            snapshot,
            inflight,
            &mut scaled,
            &mut trailed,
            meta,
            &mut touched,
        );
        i = i + 1;
    }
    state.scaled_one_r = scaled;
    state.hour1_trail_bar = trailed;
    touched
}

/// The recent actions after the first `n` decisions.
pub open spec fn acted_on(actions: Seq<ActionView>, ds: Seq<DecisionView>, n: int, now: i64) -> Seq<
    ActionView,
>
    decreases n,
{
    if n <= 0 {
        actions
    } else {
        let rest = acted_on(actions, ds, n - 1, now);
        if ds[n - 1] is Hold {
            rest
        } else {
            last_n(
                rest.push(ActionView { at: now, text: ds[n - 1].description() }),
                RECENT_KEPT as int,
            )
        }
    }
}

/// Records the decisions that act.
pub fn record_actions(state: &mut EngineState, ds: &[Decision], now: i64)
    ensures
        final(state)@ == (EngineStateView {
            recent_actions: acted_on(
                old(state)@.recent_actions,
                decision_views(ds@),
                ds@.len() as int,
                now,
            ),
            ..old(state)@
        }),
{
    let mut i: usize = 0;
    while i < ds.len()
        invariant
            i <= ds@.len(),
            state@ == (EngineStateView {
                recent_actions: acted_on(
                    old(state)@.recent_actions,
                    decision_views(ds@),
                    i as int,
                    now,
                ),
                ..old(state)@
            }),
        decreases ds@.len() - i,
    {
        proof {
            assert(decision_views(ds@)[i as int] == ds@[i as int]@);
        }
        if !ds[i].is_hold() {
            state.push_action(now, ds[i].describe());
        }
        i = i + 1;
    }
}

/// Whether an error stays: a retryable one only until its pause is over.
pub open spec fn error_stays(st: EngineStateView, now: int) -> bool {
    match st.last_error {
        Some(t) => !(asks_retry(t) && now >= st.retry_until),
        None => false,
    }
}

/// Whether the desk has room for an error from elsewhere.
pub fn wants_pending_error(state: &EngineState, now: i64) -> (r: bool)
    ensures
        r == !error_stays(state@, now as int),
{
    match &state.last_error {
        Some(t) => is_retry_error(Some(t.as_str())) && now >= state.retry_until,
        None => true,
    }
}

/// The positions with a quantity.
pub open spec fn held_rows(book: Seq<Position>) -> Seq<Position> {
    book.filter(|p: Position| p.qty.pos())
}

/// Keeps the positions with a quantity.
pub fn keep_held(book: Vec<Position>) -> (r: Vec<Position>)
    ensures
        r@ == held_rows(book@),
{
    let ghost test = |p: Position| p.qty.pos();
    let mut out: Vec<Position> = Vec::new();
    let mut i: usize = 0;
    proof {
        reveal(Seq::filter);
        assert(book@.take(0) =~= Seq::<Position>::empty());
        assert(book@.take(0).filter(test) =~= Seq::<Position>::empty());
    }
    while i < book.len()
        invariant
            i <= book@.len(),
            test == (|p: Position| p.qty.pos()),
            out@ == book@.take(i as int).filter(test),
        decreases book@.len() - i,
    {
        proof {
            reveal(Seq::filter);
            assert(book@.take(i as int + 1).drop_last() =~= book@.take(i as int));
        }
        if book[i].qty.is_pos() {
            out.push(book[i].clone());
        }
        i = i + 1;
    }
    proof {
        assert(book@.take(i as int) =~= book@);
    }
    out
}

/// The list without the entry whose symbol is not known.
pub open spec fn named_only(v: Seq<Seq<char>>) -> Seq<Seq<char>> {
    v.filter(|k: Seq<char>| k != "*"@)
}

/// Leaves out the entry whose symbol is not known.
pub fn keep_named(v: &[String]) -> (r: Vec<String>)
    ensures
        views(r@) == named_only(views(v@)),
{
    let ghost all = views(v@);
    let ghost test = |k: Seq<char>| k != "*"@;
    let mut out: Vec<String> = Vec::new();
    let mut i: usize = 0;
    proof {
        reveal(Seq::filter);
        assert(views(out@) =~= all.take(0).filter(test));
    }
    while i < v.len()
        invariant
            i <= v@.len(),
            all == views(v@),
            test == (|k: Seq<char>| k != "*"@),
            views(out@) == all.take(i as int).filter(test),
        decreases v@.len() - i,
    {
        proof {
            reveal(Seq::filter);
            assert(all.take(i as int + 1).drop_last() =~= all.take(i as int));
        }
        let k: &str = v[i].as_str();
        if !same(k, "*") {
            let ghost prior = views(out@);
            out.push(own(k));
            proof {
                assert(views(out@) =~= prior.push(k@));
            }
        }
        i = i + 1;
    }
    proof {
        assert(all.take(i as int) =~= all);
    }
    out
}

/// The state that a tick ends in.
pub open spec fn settled(
    st: EngineStateView,
    book: Seq<Position>,
    inflight: Seq<Seq<char>>,
    ds: Seq<DecisionView>,
    scan_ts: int,
    leaders: Seq<Seq<char>>,
    paused: bool,
    pending_error: Option<Seq<char>>,
    now: i64,
) -> EngineStateView {
    let held = held_rows(book);
    EngineStateView {
        last_scan_ts: scan_ts as i64,
        positions: held,
        position: if held.len() > 0 {
            Some(held[0])
        } else {
            None
        },
        last_error: if error_stays(st, now as int) {
            st.last_error
        } else {
            pending_error
        },
        recent_actions: acted_on(st.recent_actions, ds, ds.len() as int, now),
        entry_inflight: inflight.len() > 0 && book.len() == 0,
        inflight_symbols: named_only(inflight),
        recent_leaders: leaders,
        entries_paused: paused,
        ..st
    }
}

/// Brings the state to the end of a tick.
pub fn settle(
    state: &mut EngineState,
    book: Vec<Position>,
    inflight: &[String],
    ds: &[Decision],
    scan_ts: i64,
    leaders: Vec<String>,
    paused: bool,
    pending_error: Option<String>,
    now: i64,
)
    ensures
        final(state)@ == settled(
            old(state)@,
            book@,
            views(inflight@),
            decision_views(ds@),
            scan_ts as int,
            views(leaders@),
            paused,
            opt_view(pending_error),
            now,
        ),
{
    let flat: bool = book.len() == 0;
    record_actions(state, ds, now);
    if wants_pending_error(state, now) {
        state.last_error = pending_error;
    }
    let held: Vec<Position> = keep_held(book);
    state.position = if held.len() > 0 {
        Some(held[0].clone())
    } else {
        None
    };
    state.positions = held;
    state.last_scan_ts = scan_ts;
    proof {
        assert(views(inflight@).len() == inflight@.len());
    }
    state.entry_inflight = inflight.len() > 0 && flat;
    state.inflight_symbols = keep_named(inflight);
    state.recent_leaders = leaders;
    state.entries_paused = paused;
}

/// Whether the only entry in flight is one whose symbol is not known.
pub open spec fn unknown_inflight(v: Seq<Seq<char>>) -> bool {
    v.len() == 1 && v[0] == "*"@
}

/// Whether the only entry in flight is one whose symbol is not known.
pub fn is_unknown_inflight(v: &[String]) -> (r: bool)
    ensures
        r == unknown_inflight(views(v@)),
{
    if v.len() != 1 {
        proof {
            assert(views(v@).len() == v@.len());
        }
        return false;
    }
    proof {
        assert(views(v@)[0] == v@[0]@);
    }
    same(v[0].as_str(), "*")
}

/// `SIDE SYMBOL` of each row.
pub open spec fn row_labels(v: Seq<Position>) -> Seq<Seq<char>> {
    Seq::new(v.len(), |i: int| v[i].side.text() + " "@ + v[i].symbol@)
}

/// `SIDE SYMBOL` of each row.
pub fn label_rows(v: &[Position]) -> (r: Vec<String>)
    ensures
        views(r@) == row_labels(v@),
{
    let ghost goal = row_labels(v@);
    let mut out: Vec<String> = Vec::new();
    let mut i: usize = 0;
    proof {
        assert(views(out@) =~= goal.take(0));
    }
    while i < v.len()
        invariant
            i <= v@.len(),
            goal == row_labels(v@),
            views(out@) == goal.take(i as int),
        decreases v@.len() - i,
    {
        let mut t = own(v[i].side.as_str());
        t.append(" ");
        t.append(v[i].symbol.as_str());
        let ghost tv = t@;
        let ghost prior = views(out@);
        out.push(t);
        proof {
            assert(views(out@) =~= prior.push(tv));
            assert(goal.take(i as int + 1) =~= goal.take(i as int).push(goal[i as int]));
        }
        i = i + 1;
    }
    proof {
        assert(goal.take(i as int) =~= goal);
    }
    out
}

/// Why nothing is done while rows are on the book that no strategy manages.
pub open spec fn tail_note(tail: Seq<Position>) -> Seq<char> {
    "на бирже хвост "@ + joined(row_labels(tail), ", "@)
        + ". Стратегия не ведёт шорты. x x закроет."@
}

/// How long the desk waits after a decision to exit.
pub open spec fn exit_wait(d: DecisionView, base: int) -> int {
    if base <= 0 {
        0
    } else {
        match d {
            DecisionView::ExitPosition { reason, .. } => if has(lower(reason), "take profit"@) && base
                > 300_000 {
                300_000
            } else {
                base
            },
            _ => base,
        }
    }
}

fn cooldown_after(d: &Decision, base: i64) -> (r: i64)
    ensures
        r == exit_wait(d@, base as int),
{
    if base <= 0 {
        return 0;
    }
    if let Decision::ExitPosition { reason, .. } = d {
        let low = reason.as_str().to_ascii_lowercase();
        if contains(low.as_str(), "take profit") && base > 300_000 {
            return 300_000;
        }
    }
    base
}

/// What the strategy comes to in a tick, and what it does to the pauses.
pub struct Picked {
    pub decisions: Seq<DecisionView>,
    pub scan_ts: int,
    pub leaders: Seq<Seq<char>>,
    pub skips: Seq<Seq<char>>,
    pub cooldowns: Map<Seq<char>, i64>,
    pub cooldown_until: i64,
}

/// A tick that only holds.
pub open spec fn picked_hold(st: EngineStateView, reason: Seq<char>) -> Picked {
    Picked {
        decisions: seq![hold_view(reason)],
        scan_ts: st.last_scan_ts as int,
        leaders: st.recent_leaders,
        skips: Seq::empty(),
        cooldowns: st.cooldowns,
        cooldown_until: st.cooldown_until,
    }
}

/// A single-slot strategy in a tick: an exit starts a pause at once.
pub open spec fn picked_single(
    st: EngineStateView,
    s: MarketSnapshot,
    position: Option<Position>,
    k: DeskKnobs,
    now: int,
) -> Option<Picked> {
    let sid = st.strategy_id;
    let pause = base_pause(sid, k);
    if !is_strategy(sid) {
        Some(picked_hold(st, strategy_error()))
    } else {
        match decided(
            sid,
            s,
            position,
            now,
            st.last_scan_ts as int,
            knobs_or_default(k.momentum),
            match k.scalp {
                Some(p) => p,
                None => default_scalp(),
            },
            match k.trend {
                Some(p) => p,
                None => default_trend(),
            },
            default_continuation(),
            st.skip_symbols,
            st.cooldowns,
        ) {
            None => None,
            Some(x) => {
                let wait = exit_wait(x.decision, pause);
                let pauses = x.decision is ExitPosition && wait > 0;
                let symbol = x.decision.symbol();
                Some(
                    Picked {
                        decisions: seq![x.decision],
                        scan_ts: x.scan_ts,
                        leaders: st.recent_leaders,
                        skips: x.skips,
                        cooldowns: if pauses && symbol.len() > 0 {
                            put_later(st.cooldowns, upper(symbol), clamp_ms(now + wait))
                        } else {
                            st.cooldowns
                        },
                        cooldown_until: if pauses {
                            later_of(st.cooldown_until, clamp_ms(now + wait))
                        } else {
                            st.cooldown_until
                        },
                    },
                )
            },
        }
    }
}

/// What the running strategy comes to in a tick.
pub open spec fn picked(
    st: EngineStateView,
    s: MarketSnapshot,
    book: Seq<Position>,
    inflight: Seq<Seq<char>>,
    paused: bool,
    k: DeskKnobs,
    now: int,
) -> Option<Picked> {
    let sid = st.strategy_id;
    let tail = if s.live_book {
        unmanaged(s.open_positions@, book)
    } else {
        Seq::empty()
    };
    if paused {
        Some(picked_hold(st, "вход на паузе после закрытия всех"@))
    } else if unknown_inflight(inflight) && book.len() == 0 {
        Some(picked_hold(st, "entry in flight"@))
    } else if tail.len() > 0 {
        Some(picked_hold(st, tail_note(tail)))
    } else if sid == 1 {
        match momentum_result(
            MomentumInput {
                tickers: s.tickers@,
                positions: book,
                now,
                last_scan_ts: st.last_scan_ts as int,
                inflight: named_only(inflight),
                cooldowns: st.cooldowns,
                exclude: st.skip_symbols,
                last_bars: s.last_bars@,
                allow_enter: !st.daily_halt,
                desk_until: st.cooldown_until as int,
            },
            knobs_or_default(k.momentum),
        ) {
            Some((ds, ts)) => Some(
                Picked { decisions: ds, scan_ts: ts, ..picked_hold(st, ""@) },
            ),
            None => None,
        }
    } else if continues(sid) {
        match continuation_result(
            ContinuationInput {
                s,
                positions: book,
                now,
                last_scan_ts: st.last_scan_ts as int,
                inflight: named_only(inflight),
                cooldowns: st.cooldowns,
                exclude: st.skip_symbols,
                allow_enter: !st.daily_halt,
                recent: st.recent_leaders,
                desk_until: st.cooldown_until as int,
                scaled: st.scaled_one_r,
                trailed_bars: st.hour1_trail_bar,
                inherited: st.s4_inherited,
            },
            desk_continuation(sid, k.momentum),
        ) {
            Some(x) => Some(
                Picked {
                    decisions: x.decisions,
                    scan_ts: x.scan_ts,
                    leaders: x.leaders,
                    skips: x.skips,
                    ..picked_hold(st, ""@)
                },
            ),
            None => None,
        }
    } else {
        picked_single(
            st,
            s,
            if book.len() > 0 {
                Some(book[0])
            } else {
                None
            },
            k,
            now,
        )
    }
}

fn pick_single(
    state: &mut EngineState,
    snapshot: &MarketSnapshot,
    position: Option<&Position>,
    now: i64,
    momentum: Option<&MomentumParams>,
    scalp: Option<&ScalpParams>,
    trend: Option<&TrendParams>,
    tally: &mut SkipTally,
) -> (r: Option<(Vec<Decision>, i64)>)
    ensures
        match (
            r,
            picked_single(
                old(state)@,
                *snapshot,
                opt_deref(position),
                desk_knobs(momentum, scalp, trend),
                now as int,
            ),
        ) {
            (Some((ds, ts)), Some(x)) => {
                &&& decision_views(ds@) == x.decisions
                &&& ts == x.scan_ts
                &&& x.leaders == old(state)@.recent_leaders
                &&& final(tally)@ == noted_all(old(tally)@, x.skips)
                &&& final(state)@ == (EngineStateView {
                    cooldowns: x.cooldowns,
                    cooldown_until: x.cooldown_until,
                    ..old(state)@
                })
            },
            (None, None) => true,
            _ => false,
        },
{
    let sid: i32 = state.strategy_id;
    let pause: i64 = base_cooldown(sid, momentum, scalp, trend);
    let found: Result<(Decision, i64), String> = decide_with(
        sid,
        snapshot,
        position,
        now,
        state.last_scan_ts,
        momentum,
        scalp,
        trend,
        None,
        state.skip_symbols.as_slice(),
        &state.cooldowns,
        tally,
    )?;
    match found {
        Err(e) => Some((one_hold(e.as_str()), state.last_scan_ts)),
        Ok((d, ts)) => {
            let exits: bool = matches!(&d, Decision::ExitPosition { .. });
            if exits {
                let wait: i64 = cooldown_after(&d, pause);
                if wait > 0 {
                    let until: i64 = add_ms(now, wait);
                    if until > state.cooldown_until {
                        state.cooldown_until = until;
                    }
                    let key = d.symbol().to_ascii_uppercase();
                    if !d.symbol().is_empty() {
                        keep_later(&mut state.cooldowns, key.as_str(), until);
                    }
                }
            }
            let mut out: Vec<Decision> = Vec::new();
            let ghost dv = d@;
            out.push(d);
            proof {
                assert(decision_views(out@) =~= seq![dv]);
            }
            Some((out, ts))
        },
    }
}

fn pick(
    state: &mut EngineState,
    snapshot: &MarketSnapshot,
    book: &[Position],
    inflight: &[String],
    paused: bool,
    now: i64,
    momentum: Option<&MomentumParams>,
    scalp: Option<&ScalpParams>,
    trend: Option<&TrendParams>,
    tally: &mut SkipTally,
) -> (r: Option<(Vec<Decision>, i64, Vec<String>)>)
    ensures
        match (
            r,
            picked(
                old(state)@,
                *snapshot,
                book@,
                views(inflight@),
                paused,
                desk_knobs(momentum, scalp, trend),
                now as int,
            ),
        ) {
            (Some((ds, ts, leaders)), Some(x)) => {
                &&& decision_views(ds@) == x.decisions
                &&& ts == x.scan_ts
                &&& views(leaders@) == x.leaders
                &&& final(tally)@ == noted_all(old(tally)@, x.skips)
                &&& final(state)@ == (EngineStateView {
                    cooldowns: x.cooldowns,
                    cooldown_until: x.cooldown_until,
                    ..old(state)@
                })
            },
            (None, None) => true,
            _ => false,
        },
{
    let sid: i32 = state.strategy_id;
    let leaders: Vec<String> = crate::models::copy_texts(state.recent_leaders.as_slice());
    if paused {
        return Some((one_hold("вход на паузе после закрытия всех"), state.last_scan_ts, leaders));
    }
    if is_unknown_inflight(inflight) && book.len() == 0 {
        return Some((one_hold("entry in flight"), state.last_scan_ts, leaders));
    }
    if snapshot.live_book {
        let tail: Vec<Position> = unmanaged_positions(snapshot.open_positions.as_slice(), book);
        if tail.len() > 0 {
            let names: Vec<String> = label_rows(tail.as_slice());
            let mut note = own("на бирже хвост ");
            note.append(join(names.as_slice(), ", ").as_str());
            note.append(". Стратегия не ведёт шорты. x x закроет.");
            return Some((one_hold(note.as_str()), state.last_scan_ts, leaders));
        }
    }
    if sid == 1 {
        let named: Vec<String> = keep_named(inflight);
        let (ds, ts) = momentum_decisions(
            snapshot.tickers.as_slice(),
            book,
            now,
            state.last_scan_ts,
            named.as_slice(),
            &state.cooldowns,
            momentum,
            state.skip_symbols.as_slice(),
            &snapshot.last_bars,
            !state.daily_halt,
            state.cooldown_until,
        )?;
        return Some((ds, ts, leaders));
    }
    if is_continuation(sid) {
        let named: Vec<String> = keep_named(inflight);
        let params: ContinuationParams = continuation_params_for(sid, momentum);
        return continuation_decisions(
            snapshot,
            book,
            now,
            state.last_scan_ts,
            named.as_slice(),
            &state.cooldowns,
            Some(&params),
            state.skip_symbols.as_slice(),
            !state.daily_halt,
            state.recent_leaders.as_slice(),
            state.cooldown_until,
            &state.scaled_one_r,
            &state.hour1_trail_bar,
            &state.s4_inherited,
            tally,
        );
    }
    let position: Option<&Position> = if book.len() > 0 {
        Some(&book[0])
    } else {
        None
    };
    let (ds, ts) = pick_single(
        state,
        snapshot,
        position,
        now,
        momentum,
        scalp,
        trend,
        tally,
    )?;
    Some((ds, ts, leaders))
}

/// What a tick comes to.
pub struct TickView {
    pub state: EngineStateView,
    pub decisions: Seq<DecisionView>,
    pub meta: Map<Seq<char>, MetaView>,
    /// Reasons for which names were skipped.
    pub skips: Seq<Seq<char>>,
    /// Whether what is remembered of the open trades changed.
    pub persist: bool,
}

/// What a tick starts from: the longs that were remembered, the book, and what
/// is in flight.
pub struct Opening {
    pub mem: Seq<Position>,
    pub book: Seq<Position>,
    pub inflight: Seq<Seq<char>>,
}

/// The state once what vanished is forgotten and the half-sold longs are latched.
pub open spec fn refreshed(
    st: EngineStateView,
    s: MarketSnapshot,
    o: Opening,
    meta: Map<Seq<char>, MetaView>,
    rule: PauseRule,
    windows: Seq<HourWindow>,
    now: int,
) -> Option<EngineStateView> {
    let keys = vanished_keys(o.mem, o.book);
    let c = VanishContext { mem: o.mem, tickers: s.tickers@, meta, rule, windows, now };
    match forgotten(st, keys, keys.len() as int, c) {
        None => None,
        Some(st1) => match latched(st1.scaled_one_r, o.book, o.book.len() as int, meta, rule) {
            None => None,
            Some(scaled) => Some(EngineStateView { scaled_one_r: scaled, ..st1 }),
        },
    }
}

/// What is in flight once what vanished is forgotten.
pub open spec fn refreshed_inflight(o: Opening) -> Seq<Seq<char>> {
    let keys = vanished_keys(o.mem, o.book);
    without_all(o.inflight, keys, keys.len() as int)
}

/// Forgets what vanished and latches the half-sold longs.
pub fn refresh(
    state: &mut EngineState,
    inflight: &mut Vec<String>,
    snapshot: &MarketSnapshot,
    mem: &[Position],
    book: &[Position],
    meta: &OpenMeta,
    rule: &PauseRule,
    windows: &[HourWindow],
    now: i64,
) -> (r: Option<()>)
    ensures
        ({
            let o = Opening { mem: mem@, book: book@, inflight: views(old(inflight)@) };
            match refreshed(
                old(state)@,
                *snapshot,
                o,
                meta@,
                *rule,
                windows@,
                now as int,
            ) {
                Some(next) => {
                    &&& r is Some
                    &&& final(state)@ == next
                    &&& views(final(inflight)@) == refreshed_inflight(o)
                },
                None => r is None,
            }
        }),
{
    forget_vanished(
        state,
        inflight,
        mem,
        book,
        snapshot.tickers.as_slice(),
        meta,
        rule,
        windows,
        now,
    )?;
    let mut scaled: SymSet = state.scaled_one_r.clone();
    restore_latch(&mut scaled, book, meta, rule)?;
    state.scaled_one_r = scaled;
    Some(())
}

/// The state that one strategy decides on: refreshed, with the day's account up to
/// date.
pub open spec fn own_state(
    st: EngineStateView,
    s: MarketSnapshot,
    o: Opening,
    meta: Map<Seq<char>, MetaView>,
    k: DeskKnobs,
    now: int,
) -> Option<EngineStateView> {
    match refreshed(
        st,
        s,
        o,
        meta,
        own_rule(st.strategy_id, k),
        pause_windows(st.strategy_id, k),
        now,
    ) {
        None => None,
        Some(st1) => with_day(st1, s, now, k.momentum),
    }
}

/// What a tick leaves behind at its end.
pub struct TickEnd {
    pub state: EngineStateView,
    pub meta: Map<Seq<char>, MetaView>,
    pub touched: bool,
}

/// The end of a tick, once the strategy has decided.
pub open spec fn closed_tick(
    st: EngineStateView,
    s: MarketSnapshot,
    book: Seq<Position>,
    inflight: Seq<Seq<char>>,
    ds: Seq<DecisionView>,
    meta: Map<Seq<char>, MetaView>,
    scan_ts: int,
    leaders: Seq<Seq<char>>,
    paused: bool,
    pending_error: Option<Seq<char>>,
    now: i64,
) -> TickEnd {
    let m = marked_all(
        Marks {
            inflight,
            scaled: st.scaled_one_r,
            trailed: st.hour1_trail_bar,
            meta,
            touched: false,
        },
        ds,
        ds.len() as int,
        st.strategy_id,
        s,
    );
    TickEnd {
        state: settled(
            EngineStateView { scaled_one_r: m.scaled, hour1_trail_bar: m.trailed, ..st },
            book,
            m.inflight,
            ds,
            scan_ts,
            leaders,
            paused,
            pending_error,
            now,
        ),
        meta: m.meta,
        touched: m.touched,
    }
}

/// Ends a tick: remembers what the decisions leave behind. Says whether what is
/// remembered of the open trades changed.
pub fn close_tick(
    state: &mut EngineState,
    snapshot: &MarketSnapshot,
    book: Vec<Position>,
    inflight: Vec<String>,
    ds: &[Decision],
    meta: &mut OpenMeta,
    scan_ts: i64,
    leaders: Vec<String>,
    paused: bool,
    pending_error: Option<String>,
    now: i64,
) -> (r: bool)
    ensures
        ({
            let t = closed_tick(
                old(state)@,
                *snapshot,
                book@,
                views(inflight@),
                decision_views(ds@),
                old(meta)@,
                scan_ts as int,
                views(leaders@),
                paused,
                opt_view(pending_error),
                now,
            );
            &&& final(state)@ == t.state
            &&& final(meta)@ == t.meta
            &&& r == t.touched
        }),
{
    let mut flight: Vec<String> = inflight;
    let sid: i32 = state.strategy_id;
    let touched: bool = mark_decisions(ds, sid, snapshot, &mut flight, state, meta);
    settle(
        state,
        book,
        flight.as_slice(),
        ds,
        scan_ts,
        leaders,
        paused,
        pending_error,
        now,
    );
    touched
}

/// A list of decisions, else one hold.
pub open spec fn or_hold(ds: Seq<DecisionView>) -> Seq<DecisionView> {
    if ds.len() == 0 {
        seq![hold_view("hold"@)]
    } else {
        ds
    }
}

/// The rule under which what vanishes pauses the running strategy.
pub open spec fn own_rule(sid: i32, k: DeskKnobs) -> PauseRule {
    PauseRule {
        by_opener: false,
        sid,
        pause_ms: base_pause(sid, k) as i64,
        scalp_ms: 0,
        trend_ms: 0,
    }
}

/// What a tick of one strategy starts from.
pub open spec fn own_opening(
    st: EngineStateView,
    s: MarketSnapshot,
    meta: Map<Seq<char>, MetaView>,
    now: int,
) -> Opening {
    let mem = remembered(st.position, st.positions);
    let merged = merged_book(mem, s);
    Opening {
        mem,
        book: if continues(st.strategy_id) {
            owned_rows(merged, meta, st.strategy_id, st.s4_inherited)
        } else {
            merged
        },
        inflight: starting_inflight(st, s, merged, now),
    }
}

/// The decisions of a strategy once a halt and a waiting retry are respected.
pub open spec fn withheld(ds: Seq<DecisionView>, st: EngineStateView, now: int) -> Seq<DecisionView> {
    retrying(
        halted(ds, st.daily_halt, "стоп дня. Новых входов нет до 00:00 UTC."@),
        now < st.retry_until,
        "сеть: повтор входа после сбоя"@,
    )
}

/// A tick of one strategy.
pub open spec fn own_tick(
    st: EngineStateView,
    s: MarketSnapshot,
    k: DeskKnobs,
    meta: Map<Seq<char>, MetaView>,
    pending_error: Option<Seq<char>>,
    now: i64,
) -> Option<TickView> {
    let o = own_opening(st, s, meta, now as int);
    let paused = still_paused(st, now as int);
    match store_updated(meta, o.book, o.book.len() as int, s, now) {
        None => None,
        Some((meta1, dirty)) => match own_state(st, s, o, meta1, k, now as int) {
            None => None,
            Some(st1) => {
                let inflight = refreshed_inflight(o);
                match picked(st1, s, o.book, inflight, paused, k, now as int) {
                    None => None,
                    Some(x) => {
                        let ds = or_hold(withheld(x.decisions, st1, now as int));
                        let end = closed_tick(
                            EngineStateView {
                                cooldowns: x.cooldowns,
                                cooldown_until: x.cooldown_until,
                                ..st1
                            },
                            s,
                            o.book,
                            inflight,
                            ds,
                            meta1,
                            x.scan_ts,
                            x.leaders,
                            paused,
                            pending_error,
                            now,
                        );
                        Some(
                            TickView {
                                state: end.state,
                                decisions: ds,
                                meta: end.meta,
                                skips: x.skips,
                                persist: dirty || end.touched,
                            },
                        )
                    },
                }
            },
        },
    }
}

fn tick_own(
    state: &EngineState,
    snapshot: &MarketSnapshot,
    now: i64,
    momentum: Option<&MomentumParams>,
    scalp: Option<&ScalpParams>,
    trend: Option<&TrendParams>,
    meta: &mut OpenMeta,
    tally: &mut SkipTally,
    pending_error: Option<String>,
) -> (r: Option<(EngineState, Vec<Decision>, bool)>)
    ensures
        match (
            r,
            own_tick(
                state@,
                *snapshot,
                desk_knobs(momentum, scalp, trend),
                old(meta)@,
                opt_view(pending_error),
                now,
            ),
        ) {
            (Some((st, ds, persist)), Some(t)) => {
                &&& st@ == t.state
                &&& decision_views(ds@) == t.decisions
                &&& persist == t.persist
                &&& final(meta)@ == t.meta
                &&& final(tally)@ == noted_all(old(tally)@, t.skips)
            },
            (None, None) => true,
            _ => false,
        },
{
    let mut st: EngineState = state.clone();
    let sid: i32 = st.strategy_id;
    let slot: Option<&Position> = match &state.position {
        Some(p) => Some(p),
        None => None,
    };
    let mem: Vec<Position> = remembered_positions(slot, state.positions.as_slice());
    let merged: Vec<Position> = merge_book(snapshot, mem.as_slice());
    let mut inflight: Vec<String> = start_inflight(state, snapshot, merged.as_slice(), now);
    let book: Vec<Position> = if is_continuation(sid) {
        keep_owned(merged, meta, sid, &st.s4_inherited)
    } else {
        merged
    };
    let dirty: bool = meta.update_from_positions(book.as_slice(), snapshot, now)?;
    let paused: bool = st.entries_paused && !(st.cooldown_until > 0 && now >= st.cooldown_until);
    let rule = PauseRule {
        by_opener: false,
        sid,
        pause_ms: base_cooldown(sid, momentum, scalp, trend),
        scalp_ms: 0,
        trend_ms: 0,
    };
    let windows: Vec<HourWindow> = loss_windows(sid, momentum);
    refresh(
        &mut st,
        &mut inflight,
        snapshot,
        mem.as_slice(),
        book.as_slice(),
        meta,
        &rule,
        windows.as_slice(),
        now,
    )?;
    update_day(&mut st, snapshot, now, momentum)?;
    let halt: bool = st.daily_halt;
    let (found, scan_ts, leaders) = pick(
        &mut st,
        snapshot,
        book.as_slice(),
        inflight.as_slice(),
        paused,
        now,
        momentum,
        scalp,
        trend,
        tally,
    )?;
    let mut ds: Vec<Decision> = withhold(
        found,
        halt,
        "стоп дня. Новых входов нет до 00:00 UTC.",
        now < st.retry_until,
        "сеть: повтор входа после сбоя",
    );
    proof {
        assert(decision_views(ds@).len() == ds@.len());
    }
    if ds.len() == 0 {
        ds = one_hold("hold");
    }
    let touched: bool = close_tick(
        &mut st,
        snapshot,
        book,
        inflight,
        ds.as_slice(),
        meta,
        scan_ts,
        leaders,
        paused,
        pending_error,
        now,
    );
    Some((st, ds, dirty || touched))
}

/// What the desk's tick starts from.
pub open spec fn desk_opening(
    st: EngineStateView,
    s: MarketSnapshot,
    meta: Map<Seq<char>, MetaView>,
    now: int,
) -> Opening {
    let mem = remembered(st.position, st.positions);
    let merged = merged_book(mem, s);
    Opening {
        mem,
        book: desk_rows(merged, meta),
        inflight: starting_inflight(st, s, merged, now),
    }
}

/// A tick where the orchestrator is on: the day's account is brought up to date,
/// then the desk decides.
pub open spec fn hosted_tick(
    st: EngineStateView,
    s: MarketSnapshot,
    k: DeskKnobs,
    meta: Map<Seq<char>, MetaView>,
    pending_error: Option<Seq<char>>,
    heat: HeatLimits,
    now: i64,
) -> Option<TickView> {
    let o = desk_opening(st, s, meta, now as int);
    match store_updated(meta, o.book, o.book.len() as int, s, now) {
        None => None,
        Some((meta1, dirty)) => match with_day(st, s, now as int, k.momentum) {
            None => None,
            Some(st1) => match desk_tick(
                st1,
                s,
                o.book,
                o.inflight,
                st.cooldowns,
                st.cooldown_until,
                k,
                meta1,
                still_paused(st, now as int),
                base_pause(st.strategy_id, k) as i64,
                pause_windows(st.strategy_id, k),
                heat,
                pending_error,
                now,
            ) {
                None => None,
                Some(t) => Some(TickView { persist: dirty || t.persist, ..t }),
            },
        },
    }
}

fn tick_hosted(
    state: &EngineState,
    snapshot: &MarketSnapshot,
    now: i64,
    momentum: Option<&MomentumParams>,
    scalp: Option<&ScalpParams>,
    trend: Option<&TrendParams>,
    meta: &mut OpenMeta,
    tally: &mut SkipTally,
    pending_error: Option<String>,
    heat: HeatLimits,
) -> (r: Option<(EngineState, Vec<Decision>, bool)>)
    ensures
        match (
            r,
            hosted_tick(
                state@,
                *snapshot,
                desk_knobs(momentum, scalp, trend),
                old(meta)@,
                opt_view(pending_error),
                heat,
                now,
            ),
        ) {
            (Some((st, ds, persist)), Some(t)) => {
                &&& st@ == t.state
                &&& decision_views(ds@) == t.decisions
                &&& persist == t.persist
                &&& final(meta)@ == t.meta
                &&& final(tally)@ == noted_all(old(tally)@, t.skips)
            },
            (None, None) => true,
            _ => false,
        },
{
    let sid: i32 = state.strategy_id;
    let slot: Option<&Position> = match &state.position {
        Some(p) => Some(p),
        None => None,
    };
    let mem: Vec<Position> = remembered_positions(slot, state.positions.as_slice());
    let merged: Vec<Position> = merge_book(snapshot, mem.as_slice());
    let inflight: Vec<String> = start_inflight(state, snapshot, merged.as_slice(), now);
    let book: Vec<Position> = keep_desk_rows(merged, meta);
    let dirty: bool = meta.update_from_positions(book.as_slice(), snapshot, now)?;
    let paused: bool = state.entries_paused && !(state.cooldown_until > 0 && now
        >= state.cooldown_until);
    let pause_ms: i64 = base_cooldown(sid, momentum, scalp, trend);
    let windows: Vec<HourWindow> = loss_windows(sid, momentum);
    let mut day: EngineState = state.clone();
    update_day(&mut day, snapshot, now, momentum)?;
    let (st, ds, touched) = tick_orchestrated(
        &day,
        snapshot,
        now,
        momentum,
        scalp,
        trend,
        book,
        inflight,
        copy_instants(&state.cooldowns),
        state.cooldown_until,
        paused,
        pause_ms,
        windows.as_slice(),
        heat,
        meta,
        tally,
        pending_error,
    )?;
    Some((st, ds, dirty || touched))
}

/// What a tick comes to: that of the running strategy, or that of the desk where
/// the orchestrator is on.
pub open spec fn tick_result(
    st: EngineStateView,
    s: MarketSnapshot,
    k: DeskKnobs,
    meta: Map<Seq<char>, MetaView>,
    pending_error: Option<Seq<char>>,
    orchestrated: bool,
    heat: HeatLimits,
    now: i64,
) -> Option<TickView> {
    if !orchestrated {
        own_tick(st, s, k, meta, pending_error, now)
    } else {
        hosted_tick(st, s, k, meta, pending_error, heat, now)
    }
}

/// Pure strategy tick: it sends nothing. May give several decisions that act (a
/// trail and an entry). Says last whether what is remembered of the open trades
/// changed.
///
/// `pending_error` is an error from elsewhere, shown where the desk has none of
/// its own.
pub fn tick_decisions(
    state: &EngineState,
    snapshot: &MarketSnapshot,
    now: i64,
    momentum: Option<&MomentumParams>,
    scalp: Option<&ScalpParams>,
    trend: Option<&TrendParams>,
    _continuation_override: Option<&ContinuationParams>,
    meta: &mut OpenMeta,
    tally: &mut SkipTally,
    pending_error: Option<String>,
    orchestrated: bool,
    heat: HeatLimits,
) -> (r: Option<(EngineState, Vec<Decision>, bool)>)
    ensures
        match (
            r,
            tick_result(
                state@,
                *snapshot,
                desk_knobs(momentum, scalp, trend),
                old(meta)@,
                opt_view(pending_error),
                orchestrated,
                heat,
                now,
            ),
        ) {
            (Some((st, ds, persist)), Some(t)) => {
                &&& st@ == t.state
                &&& decision_views(ds@) == t.decisions
                &&& persist == t.persist
                &&& final(meta)@ == t.meta
                &&& final(tally)@ == noted_all(old(tally)@, t.skips)
            },
            (None, None) => true,
            _ => false,
        },
{
    if !orchestrated {
        return tick_own(
            state,
            snapshot,
            now,
            momentum,
            scalp,
            trend,
            meta,
            tally,
            pending_error,
        );
    }
    tick_hosted(
        state,
        snapshot,
        now,
        momentum,
        scalp,
        trend,
        meta,
        tally,
        pending_error,
        heat,
    )
}

/// A tick's first decision.
pub fn tick(
    state: &EngineState,
    snapshot: &MarketSnapshot,
    now: i64,
    momentum: Option<&MomentumParams>,
    scalp: Option<&ScalpParams>,
    trend: Option<&TrendParams>,
    meta: &mut OpenMeta,
    tally: &mut SkipTally,
    pending_error: Option<String>,
    orchestrated: bool,
    heat: HeatLimits,
) -> (r: Option<(EngineState, Decision, bool)>)
    ensures
        match (
            r,
            tick_result(
                state@,
                *snapshot,
                desk_knobs(momentum, scalp, trend),
                old(meta)@,
                opt_view(pending_error),
                orchestrated,
                heat,
                now,
            ),
        ) {
            (Some((st, d, persist)), Some(t)) => {
                &&& st@ == t.state
                &&& d@ == first_or_hold(t.decisions)
                &&& persist == t.persist
                &&& final(meta)@ == t.meta
                &&& final(tally)@ == noted_all(old(tally)@, t.skips)
            },
            (None, None) => true,
            _ => false,
        },
{
    let (st, ds, persist) = tick_decisions(
        state,
        snapshot,
        now,
        momentum,
        scalp,
        trend,
        None,
        meta,
        tally,
        pending_error,
        orchestrated,
        heat,
    )?;
    proof {
        assert(decision_views(ds@).len() == ds@.len());
    }
    let d: Decision = if ds.len() > 0 {
        proof {
            assert(decision_views(ds@)[0] == ds@[0]@);
        }
        ds[0].clone()
    } else {
        Decision::hold("hold")
    };
    Some((st, d, persist))
}

/// The first decision, else a hold.
pub open spec fn first_or_hold(ds: Seq<DecisionView>) -> DecisionView {
    if ds.len() > 0 {
        ds[0]
    } else {
        hold_view("hold"@)
    }
}

} // verus!

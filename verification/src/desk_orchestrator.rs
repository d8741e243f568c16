//! Desk orchestrator: one process, an owner by UTC hour for entries, and
//! management by the strategy that opened a position. The hours are those of
//! the desk schedule; there is no second clock.
//!
//! An outer `None` says that a number left the decimal range.
use crate::continuation::entry::{
    book_actions, continuation_result, BookContext, ContinuationInput,
};
use crate::continuation::{continuation_decisions, noted_all, ContinuationParams, SkipTally};
use crate::desk_schedule::{desk_owner_at, owner, switch_enabled, switched_on, DeskSid};
use crate::engine::tick::{
    close_tick, closed_tick, desk_knobs, halted, is_unknown_inflight, keep_named, named_only,
    refresh, refreshed, refreshed_inflight, retrying, unknown_inflight, withhold, DeskKnobs,
    Opening, PauseRule, TickView,
};
use crate::engine::{
    continuation_params_for, decide_with, desk_continuation, flat_desk, opt_momentum, MomentumParams,
};
use crate::models::{
    decision_views, opt_view, remembered, remembered_positions, Decision, DecisionView, EngineState,
    EngineStateView, MarketSnapshot, Position, Side,
};
use crate::momentum::{hold_view, one_hold, opt_decisions};
use crate::openmeta::{MetaView, OpenMeta};
use crate::scalp::{default_scalp, scalp_decision, scalp_view, ScalpParams, ScalpView};
use crate::sessions::{hour_at, utc_hour, HourWindow};
use crate::symbols::SymMap;
use crate::text::{
    int_text, int_value, own, padded2, parse_i64, print_i64, print_padded2, print_u64, trim,
    trimmed, upper, views,
};
use crate::trend::{default_trend, trend_decision, trend_view, TrendParams, TrendView};
use vstd::prelude::*;
use vstd::string::StringExecFns;

verus! {

/// Whether the value of `DESK_ORCHESTRATOR` switches the orchestrator on.
pub fn desk_orchestrator_enabled(value: Option<&str>) -> (r: bool)
    ensures
        r == switched_on(
            match value {
                Some(v) => Some(v@),
                None => None,
            },
        ),
{
    switch_enabled(value)
}

/// A setting from 1 to 20, else a default.
pub open spec fn small_count(value: Option<Seq<char>>, default: int) -> int {
    match value {
        Some(v) => match int_value(trimmed(v)) {
            Some(n) => if 1 <= n <= 20 {
                n
            } else {
                default
            },
            None => default,
        },
        None => default,
    }
}

fn read_small_count(value: Option<&str>, default: usize) -> (r: usize)
    ensures
        r == small_count(
            match value {
                Some(v) => Some(v@),
                None => None,
            },
            default as int,
        ),
{
    match value {
        Some(v) => match parse_i64(trim(v)) {
            Some(n) => if n >= 1 && n <= 20 {
                n as usize
            } else {
                default
            },
            None => default,
        },
        None => default,
    }
}

/// How many longs the desk holds at most, by the value of `DESK_HEAT_MAX`: 3
/// where it is not set.
pub fn desk_heat_max(value: Option<&str>) -> (r: usize)
    ensures
        r == small_count(
            match value {
                Some(v) => Some(v@),
                None => None,
            },
            3,
        ),
{
    read_small_count(value, 3)
}

/// How many longs of one strategy the desk holds at most, by the value of
/// `DESK_HEAT_MAX_PER_SID`: 2 where it is not set.
pub fn desk_heat_max_per_sid(value: Option<&str>) -> (r: usize)
    ensures
        r == small_count(
            match value {
                Some(v) => Some(v@),
                None => None,
            },
            2,
        ),
{
    read_small_count(value, 2)
}

/// How many longs the desk holds at most, in all and per strategy.
#[derive(Debug, Clone, Copy)]
pub struct HeatLimits {
    pub desk: usize,
    pub per_sid: usize,
}

impl Default for HeatLimits {
    fn default() -> (r: Self)
        ensures
            r == (HeatLimits { desk: 3, per_sid: 2 }),
    {
        HeatLimits { desk: 3, per_sid: 2 }
    }
}

/// Whether the desk runs a strategy.
pub open spec fn on_desk(sid: i32) -> bool {
    sid == 2 || sid == 3 || sid == 4
}

pub fn is_desk_sid(sid: i32) -> (r: bool)
    ensures
        r == on_desk(sid),
{
    sid == 2 || sid == 3 || sid == 4
}

/// The strategy that opened a symbol, as far as it is remembered.
pub open spec fn opener(meta: Map<Seq<char>, MetaView>, symbol: Seq<char>) -> Option<i32> {
    if meta.contains_key(upper(symbol)) {
        Some(meta[upper(symbol)].strategy_id)
    } else {
        None
    }
}

pub fn opening_sid(meta: &OpenMeta, symbol: &str) -> (r: Option<i32>)
    ensures
        r == opener(meta@, symbol@),
{
    match meta.get(symbol) {
        Some(m) => Some(m.strategy_id),
        None => None,
    }
}

/// The strategy that opened a symbol, else the given one.
pub open spec fn opener_or(meta: Map<Seq<char>, MetaView>, symbol: Seq<char>, fallback: i32) -> i32 {
    match opener(meta, symbol) {
        Some(s) => s,
        None => fallback,
    }
}

pub fn opening_sid_or(meta: &OpenMeta, symbol: &str, fallback: i32) -> (r: i32)
    ensures
        r == opener_or(meta@, symbol@, fallback),
{
    match opening_sid(meta, symbol) {
        Some(s) => s,
        None => fallback,
    }
}

/// Whether the desk manages a long: one of its own, or one that is untagged.
pub open spec fn desk_manages(meta: Map<Seq<char>, MetaView>, symbol: Seq<char>) -> bool {
    match opener(meta, symbol) {
        Some(s) => on_desk(s),
        None => true,
    }
}

pub fn manages_long(meta: &OpenMeta, symbol: &str) -> (r: bool)
    ensures
        r == desk_manages(meta@, symbol@),
{
    match opening_sid(meta, symbol) {
        Some(s) => is_desk_sid(s),
        None => true,
    }
}

/// Why the desk does not open a long.
#[derive(Debug)]
pub enum SkipReason {
    DoubleBook(String),
    HeatDesk { open: usize, max: usize },
    HeatSid { sid: i32, open: usize, max: usize },
}

impl SkipReason {
    pub open spec fn text(self) -> Seq<char> {
        match self {
            SkipReason::DoubleBook(sym) => "desk orch: double-book "@ + sym@ + " — fail-closed"@,
            SkipReason::HeatDesk { open, max } => "desk orch: heat "@ + int_text(open as int) + "/"@
                + int_text(max as int) + " — no new opens"@,
            SkipReason::HeatSid { sid, open, max } => "desk orch: S"@ + int_text(sid as int)
                + " heat "@ + int_text(open as int) + "/"@ + int_text(max as int)
                + " — no new opens"@,
        }
    }

    pub fn as_str(&self) -> (r: String)
        ensures
            r@ == self.text(),
    {
        match self {
            SkipReason::DoubleBook(sym) => {
                let mut out = own("desk orch: double-book ");
                out.append(sym.as_str());
                out.append(" — fail-closed");
                out
            },
            SkipReason::HeatDesk { open, max } => {
                let mut out = own("desk orch: heat ");
                out.append(print_u64(*open as u64).as_str());
                out.append("/");
                out.append(print_u64(*max as u64).as_str());
                out.append(" — no new opens");
                out
            },
            SkipReason::HeatSid { sid, open, max } => {
                let mut out = own("desk orch: S");
                out.append(print_i64(*sid as i64).as_str());
                out.append(" heat ");
                out.append(print_u64(*open as u64).as_str());
                out.append("/");
                out.append(print_u64(*max as u64).as_str());
                out.append(" — no new opens");
                out
            },
        }
    }
}

/// Whether a symbol is already open, case aside.
pub open spec fn is_double(symbol: Seq<char>, open_symbols: Seq<Seq<char>>) -> bool {
    crate::continuation::named_in(open_symbols, upper(symbol))
}

/// Fails where a symbol is already open in the desk's book.
pub fn check_double_book(symbol: &str, open_symbols: &[String]) -> (r: Result<(), SkipReason>)
    ensures
        match r {
            Ok(_) => !is_double(symbol@, views(open_symbols@)),
            Err(SkipReason::DoubleBook(s)) => is_double(symbol@, views(open_symbols@)) && s@ == upper(
                symbol@,
            ),
            Err(_) => false,
        },
{
    let want = symbol.to_ascii_uppercase();
    if crate::continuation::is_named_in(open_symbols, want.as_str()) {
        return Err(SkipReason::DoubleBook(want));
    }
    Ok(())
}

/// How many of the first `n` are the given strategy.
pub open spec fn count_sid(sids: Seq<i32>, sid: i32, n: int) -> int
    decreases n,
{
    if n <= 0 {
        0
    } else {
        count_sid(sids, sid, n - 1) + (if sids[n - 1] == sid {
            1int
        } else {
            0
        })
    }
}

fn count_of(sids: &[i32], sid: i32) -> (r: usize)
    ensures
        r == count_sid(sids@, sid, sids@.len() as int),
{
    let mut n: usize = 0;
    let mut i: usize = 0;
    while i < sids.len()
        invariant
            i <= sids@.len(),
            n <= i,
            n == count_sid(sids@, sid, i as int),
        decreases sids@.len() - i,
    {
        if sids[i] == sid {
            n = n + 1;
        }
        i = i + 1;
    }
    n
}

/// Why heat keeps a strategy from opening; nothing where there is room.
pub open spec fn heat_block(entry_sid: i32, sids: Seq<i32>, heat: HeatLimits) -> Option<SkipReason> {
    let mine = count_sid(sids, entry_sid, sids.len() as int);
    if sids.len() >= heat.desk {
        Some(SkipReason::HeatDesk { open: sids.len() as usize, max: heat.desk })
    } else if mine >= heat.per_sid {
        Some(SkipReason::HeatSid { sid: entry_sid, open: mine as usize, max: heat.per_sid })
    } else {
        None
    }
}

/// Fails where the desk, or the strategy, already holds as many longs as it may.
pub fn check_heat(entry_sid: i32, open_sids: &[i32], heat: HeatLimits) -> (r: Result<(), SkipReason>)
    ensures
        match r {
            Ok(_) => heat_block(entry_sid, open_sids@, heat) is None,
            Err(e) => heat_block(entry_sid, open_sids@, heat) == Some(e),
        },
{
    let open: usize = open_sids.len();
    if open >= heat.desk {
        return Err(SkipReason::HeatDesk { open, max: heat.desk });
    }
    let mine: usize = count_of(open_sids, entry_sid);
    if mine >= heat.per_sid {
        return Err(SkipReason::HeatSid { sid: entry_sid, open: mine, max: heat.per_sid });
    }
    Ok(())
}

/// Who owns the hour, and why nothing is opened.
pub open spec fn status_text(now: int, skip: Option<Seq<char>>) -> Seq<char> {
    let head = "desk orch: owner S"@ + int_text(owner(hour_at(now)).number() as int) + " @"@
        + padded2(hour_at(now) as nat) + "h UTC"@;
    match skip {
        Some(why) => if why.len() > 0 {
            head + " — "@ + why
        } else {
            head
        },
        None => head,
    }
}

pub fn status_line(now: i64, skip: Option<&str>) -> (r: String)
    ensures
        r@ == status_text(
            now as int,
            match skip {
                Some(t) => Some(t@),
                None => None,
            },
        ),
{
    let mut out = own("desk orch: owner S");
    out.append(print_i64(desk_owner_at(now).as_i32() as i64).as_str());
    out.append(" @");
    out.append(print_padded2(utc_hour(now) as u64).as_str());
    out.append("h UTC");
    if let Some(why) = skip {
        if !why.is_empty() {
            out.append(" — ");
            out.append(why);
        }
    }
    out
}

/// The open longs that one strategy opened; untagged ones count for the owner.
pub open spec fn opened_by(
    positions: Seq<Position>,
    meta: Map<Seq<char>, MetaView>,
    owner_sid: i32,
    sid: i32,
) -> Seq<Position> {
    positions.filter(
        |p: Position| p.is_open_long() && opener_or(meta, p.symbol@, owner_sid) == sid,
    )
}

fn list_opened_by(positions: &[Position], meta: &OpenMeta, owner_sid: i32, sid: i32) -> (r: Vec<Position>)
    ensures
        r@ == opened_by(positions@, meta@, owner_sid, sid),
{
    let ghost test = |p: Position|
        p.is_open_long() && opener_or(meta@, p.symbol@, owner_sid) == sid;
    let mut out: Vec<Position> = Vec::new();
    let mut i: usize = 0;
    proof {
        reveal(Seq::filter);
        assert(positions@.take(0) =~= Seq::<Position>::empty());
        assert(positions@.take(0).filter(test) =~= Seq::<Position>::empty());
    }
    while i < positions.len()
        invariant
            i <= positions@.len(),
            test == (|p: Position|
                p.is_open_long() && opener_or(meta@, p.symbol@, owner_sid) == sid),
            out@ == positions@.take(i as int).filter(test),
        decreases positions@.len() - i,
    {
        proof {
            reveal(Seq::filter);
            assert(positions@.take(i as int + 1).drop_last() =~= positions@.take(i as int));
        }
        let p: &Position = &positions[i];
        if p.open_long() && opening_sid_or(meta, p.symbol.as_str(), owner_sid) == sid {
            out.push(p.clone());
        }
        i = i + 1;
    }
    proof {
        assert(positions@.take(i as int) =~= positions@);
    }
    out
}

/// The strategies of the open longs that the desk runs, in order.
pub open spec fn open_sids(positions: Seq<Position>, meta: Map<Seq<char>, MetaView>, owner_sid: i32) -> Seq<
    i32,
>
    decreases positions.len(),
{
    if positions.len() == 0 {
        Seq::empty()
    } else {
        let rest = open_sids(positions.drop_last(), meta, owner_sid);
        let p = positions.last();
        let sid = opener_or(meta, p.symbol@, owner_sid);
        if p.is_open_long() && on_desk(sid) {
            rest.push(sid)
        } else {
            rest
        }
    }
}

fn open_sid_list(positions: &[Position], meta: &OpenMeta, owner_sid: i32) -> (r: Vec<i32>)
    ensures
        r@ == open_sids(positions@, meta@, owner_sid),
{
    let mut out: Vec<i32> = Vec::new();
    let mut i: usize = 0;
    while i < positions.len()
        invariant
            i <= positions@.len(),
            out@ == open_sids(positions@.take(i as int), meta@, owner_sid),
        decreases positions@.len() - i,
    {
        proof {
            assert(positions@.take(i as int + 1).drop_last() =~= positions@.take(i as int));
        }
        let p: &Position = &positions[i];
        if p.open_long() {
            let sid: i32 = opening_sid_or(meta, p.symbol.as_str(), owner_sid);
            if is_desk_sid(sid) {
                out.push(sid);
            }
        }
        i = i + 1;
    }
    proof {
        assert(positions@.take(i as int) =~= positions@);
    }
    out
}

/// The upper-case symbols of the open longs, in order.
pub open spec fn open_names(positions: Seq<Position>) -> Seq<Seq<char>>
    decreases positions.len(),
{
    if positions.len() == 0 {
        Seq::empty()
    } else {
        let rest = open_names(positions.drop_last());
        if positions.last().is_open_long() {
            rest.push(upper(positions.last().symbol@))
        } else {
            rest
        }
    }
}

fn open_symbol_list(positions: &[Position]) -> (r: Vec<String>)
    ensures
        views(r@) == open_names(positions@),
{
    let mut out: Vec<String> = Vec::new();
    let mut i: usize = 0;
    proof {
        assert(views(out@) =~= open_names(positions@.take(0)));
    }
    while i < positions.len()
        invariant
            i <= positions@.len(),
            views(out@) == open_names(positions@.take(i as int)),
        decreases positions@.len() - i,
    {
        proof {
            assert(positions@.take(i as int + 1).drop_last() =~= positions@.take(i as int));
        }
        if positions[i].open_long() {
            let key = positions[i].symbol.as_str().to_ascii_uppercase();
            let ghost kv = key@;
            let ghost prior = views(out@);
            out.push(key);
            proof {
                assert(views(out@) =~= prior.push(kv));
            }
        }
        i = i + 1;
    }
    proof {
        assert(positions@.take(i as int) =~= positions@);
    }
    out
}

/// What a single-slot strategy does about the first `n` of its longs, holds
/// left out.
pub open spec fn single_actions(
    scalps: bool,
    s: MarketSnapshot,
    positions: Seq<Position>,
    n: int,
    k: DeskKnobs,
    now: int,
) -> Option<Seq<DecisionView>>
    decreases n,
{
    if n <= 0 {
        Some(Seq::empty())
    } else {
        match single_actions(scalps, s, positions, n - 1, k, now) {
            None => None,
            Some(rest) => {
                let pos = positions[n - 1];
                let bars = s.series(pos.symbol@);
                let d = if scalps {
                    scalp_view(bars, Some(pos), pos.symbol@, scalp_of(k), Some(now))
                } else {
                    trend_view(bars, Some(pos), pos.symbol@, trend_of(k), Some(now))
                };
                match d {
                    None => None,
                    Some(d) => if d is Hold {
                        Some(rest)
                    } else {
                        Some(rest.push(d))
                    },
                }
            },
        }
    }
}

pub open spec fn scalp_of(k: DeskKnobs) -> ScalpView {
    match k.scalp {
        Some(p) => p,
        None => default_scalp(),
    }
}

pub open spec fn trend_of(k: DeskKnobs) -> TrendView {
    match k.trend {
        Some(p) => p,
        None => default_trend(),
    }
}

proof fn lemma_single_none(
    scalps: bool,
    s: MarketSnapshot,
    positions: Seq<Position>,
    n: int,
    m: int,
    k: DeskKnobs,
    now: int,
)
    requires
        0 <= n <= m,
        single_actions(scalps, s, positions, n, k, now) is None,
    ensures
        single_actions(scalps, s, positions, m, k, now) is None,
    decreases m - n,
{
    if n < m {
        lemma_single_none(scalps, s, positions, n, m - 1, k, now);
    }
}

fn manage_single(
    scalps: bool,
    snapshot: &MarketSnapshot,
    positions: &[Position],
    now: i64,
    momentum: Option<&MomentumParams>,
    scalp: Option<&ScalpParams>,
    trend: Option<&TrendParams>,
) -> (r: Option<Vec<Decision>>)
    ensures
        opt_decisions(r) == single_actions(
            scalps,
            *snapshot,
            positions@,
            positions@.len() as int,
            desk_knobs(momentum, scalp, trend),
            now as int,
        ),
{
    let ghost k = desk_knobs(momentum, scalp, trend);
    let mut out: Vec<Decision> = Vec::new();
    let mut i: usize = 0;
    proof {
        assert(decision_views(out@) =~= Seq::<DecisionView>::empty());
    }
    while i < positions.len()
        invariant
            i <= positions@.len(),
            k == desk_knobs(momentum, scalp, trend),
            single_actions(scalps, *snapshot, positions@, i as int, k, now as int) == Some(
                decision_views(out@),
            ),
        decreases positions@.len() - i,
    {
        let pos: &Position = &positions[i];
        let sym: &str = pos.symbol.as_str();
        let bars = snapshot.bars_for(sym);
        let ghost prior = decision_views(out@);
        let found: Option<Decision> = if scalps {
            scalp_decision(bars, Some(pos), sym, scalp, Some(now))
        } else {
            trend_decision(bars, Some(pos), sym, trend, Some(now))
        };
        match found {
            Some(d) => {
                if !d.is_hold() {
                    let ghost dv = d@;
                    out.push(d);
                    proof {
                        assert(decision_views(out@) =~= prior.push(dv));
                    }
                }
            },
            None => {
                proof {
                    lemma_single_none(
                        scalps,
                        *snapshot,
                        positions@,
                        i as int + 1,
                        positions@.len() as int,
                        k,
                        now as int,
                    );
                }
                return None;
            },
        }
        i = i + 1;
    }
    Some(out)
}

/// What is done about the open book, each long by the strategy that opened it.
pub open spec fn desk_actions(
    s: MarketSnapshot,
    st: EngineStateView,
    book: Seq<Position>,
    meta: Map<Seq<char>, MetaView>,
    owner_sid: i32,
    k: DeskKnobs,
    now: int,
) -> Option<Seq<DecisionView>> {
    let four = opened_by(book, meta, owner_sid, 4);
    let two = opened_by(book, meta, owner_sid, 2);
    let three = opened_by(book, meta, owner_sid, 3);
    match (
        book_actions(
            four,
            four.len() as int,
            BookContext {
                s,
                p: desk_continuation(4, k.momentum),
                now,
                scaled: st.scaled_one_r,
                trailed_bars: st.hour1_trail_bar,
                inherited: st.s4_inherited,
            },
        ),
        single_actions(true, s, two, two.len() as int, k, now),
        single_actions(false, s, three, three.len() as int, k, now),
    ) {
        (Some(a), Some(b), Some(c)) => Some(a + b + c),
        _ => None,
    }
}

/// The decisions that act.
pub open spec fn acts_only(ds: Seq<DecisionView>) -> Seq<DecisionView> {
    ds.filter(|d: DecisionView| !(d is Hold))
}

proof fn lemma_book_actions_act(positions: Seq<Position>, n: int, c: BookContext)
    requires
        n <= positions.len(),
    ensures
        book_actions(positions, n, c) matches Some(ds) ==> acts_only(ds) == ds,
    decreases n,
{
    reveal(Seq::filter);
    if n > 0 {
        lemma_book_actions_act(positions, n - 1, c);
        if let Some(ds) = book_actions(positions, n, c) {
            let rest = book_actions(positions, n - 1, c)->0;
            if ds != rest {
                assert(ds.drop_last() =~= rest);
            }
        }
    } else {
        assert(acts_only(Seq::<DecisionView>::empty()) =~= Seq::<DecisionView>::empty());
    }
}

fn drop_holds(ds: Vec<Decision>) -> (r: Vec<Decision>)
    ensures
        decision_views(r@) == acts_only(decision_views(ds@)),
{
    let ghost all = decision_views(ds@);
    let ghost test = |d: DecisionView| !(d is Hold);
    let mut out: Vec<Decision> = Vec::new();
    let mut i: usize = 0;
    proof {
        reveal(Seq::filter);
        assert(decision_views(out@) =~= all.take(0).filter(test));
    }
    while i < ds.len()
        invariant
            i <= ds@.len(),
            all == decision_views(ds@),
            test == (|d: DecisionView| !(d is Hold)),
            decision_views(out@) == all.take(i as int).filter(test),
        decreases ds@.len() - i,
    {
        proof {
            reveal(Seq::filter);
            assert(all.take(i as int + 1).drop_last() =~= all.take(i as int));
        }
        if !ds[i].is_hold() {
            let ghost prior = decision_views(out@);
            out.push(ds[i].clone());
            proof {
                assert(decision_views(out@) =~= prior.push(all[i as int]));
            }
        }
        i = i + 1;
    }
    proof {
        assert(all.take(i as int) =~= all);
    }
    out
}

fn manage_four(
    snapshot: &MarketSnapshot,
    four: &[Position],
    now: i64,
    momentum: Option<&MomentumParams>,
    state: &EngineState,
) -> (r: Option<Vec<Decision>>)
    ensures
        opt_decisions(r) == book_actions(
            four@,
            four@.len() as int,
            BookContext {
                s: *snapshot,
                p: desk_continuation(4, opt_momentum(momentum)),
                now: now as int,
                scaled: state@.scaled_one_r,
                trailed_bars: state@.hour1_trail_bar,
                inherited: state@.s4_inherited,
            },
        ),
{
    let params: ContinuationParams = continuation_params_for(4, momentum);
    let none: Vec<String> = Vec::new();
    let cooldowns: SymMap<i64> = SymMap::new();
    let mut unused = SkipTally::new();
    let (ds, _, _) = continuation_decisions(
        snapshot,
        four,
        now,
        0,
        none.as_slice(),
        &cooldowns,
        Some(&params),
        none.as_slice(),
        false,
        none.as_slice(),
        0,
        &state.scaled_one_r,
        &state.hour1_trail_bar,
        &state.s4_inherited,
        &mut unused,
    )?;
    let out: Vec<Decision> = drop_holds(ds);
    proof {
        let c = BookContext {
            s: *snapshot,
            p: desk_continuation(4, opt_momentum(momentum)),
            now: now as int,
            scaled: state@.scaled_one_r,
            trailed_bars: state@.hour1_trail_bar,
            inherited: state@.s4_inherited,
        };
        lemma_book_actions_act(four@, four@.len() as int, c);
        let acted = book_actions(four@, four@.len() as int, c)->0;
        if acted.len() == 0 {
            reveal(Seq::filter);
            let one = seq![hold_view("стоп дня. Новых входов нет до 00:00 UTC."@)];
            assert(one.drop_last() =~= Seq::<DecisionView>::empty());
            assert(acts_only(one.drop_last()) =~= Seq::<DecisionView>::empty());
            assert(acts_only(one) =~= acted);
        }
    }
    Some(out)
}

fn extend(a: &mut Vec<Decision>, b: Vec<Decision>)
    ensures
        decision_views(final(a)@) == decision_views(old(a)@) + decision_views(b@),
{
    let ghost start = decision_views(a@);
    let ghost more = decision_views(b@);
    let mut i: usize = 0;
    proof {
        assert(start + more.take(0) =~= start);
    }
    while i < b.len()
        invariant
            i <= b@.len(),
            more == decision_views(b@),
            decision_views(a@) == start + more.take(i as int),
        decreases b@.len() - i,
    {
        let ghost prior = decision_views(a@);
        a.push(b[i].clone());
        proof {
            assert(decision_views(a@) =~= prior.push(more[i as int]));
            assert(start + more.take(i as int + 1) =~= (start + more.take(i as int)).push(
                more[i as int],
            ));
        }
        i = i + 1;
    }
    proof {
        assert(more.take(i as int) =~= more);
    }
}

/// Manages the open book, each long by the strategy that opened it: a change of
/// the hour's owner does not flatten anything.
fn manage_by_opening_sid(
    snapshot: &MarketSnapshot,
    book: &[Position],
    now: i64,
    owner_sid: i32,
    momentum: Option<&MomentumParams>,
    scalp: Option<&ScalpParams>,
    trend: Option<&TrendParams>,
    state: &EngineState,
    meta: &OpenMeta,
) -> (r: Option<Vec<Decision>>)
    ensures
        opt_decisions(r) == desk_actions(
            *snapshot,
            state@,
            book@,
            meta@,
            owner_sid,
            desk_knobs(momentum, scalp, trend),
            now as int,
        ),
{
    let four: Vec<Position> = list_opened_by(book, meta, owner_sid, 4);
    let mut out: Vec<Decision> = manage_four(snapshot, four.as_slice(), now, momentum, state)?;
    let two: Vec<Position> = list_opened_by(book, meta, owner_sid, 2);
    let b: Vec<Decision> = manage_single(
        true,
        snapshot,
        two.as_slice(),
        now,
        momentum,
        scalp,
        trend,
    )?;
    let three: Vec<Position> = list_opened_by(book, meta, owner_sid, 3);
    let c: Vec<Decision> = manage_single(
        false,
        snapshot,
        three.as_slice(),
        now,
        momentum,
        scalp,
        trend,
    )?;
    extend(&mut out, b);
    extend(&mut out, c);
    Some(out)
}

/// What the gates leave of the owner's decisions: at most one entry, and why
/// the last refused one was refused.
pub struct Gated {
    pub kept: Seq<DecisionView>,
    pub skip: Option<Seq<char>>,
    /// Whether an entry was let through, after which nothing more is looked at.
    pub entered: bool,
}

/// Why one entry is refused; nothing where it may be opened.
pub open spec fn entry_refusal(
    symbol: Seq<char>,
    entry_sid: i32,
    names: Seq<Seq<char>>,
    sids: Seq<i32>,
    heat: HeatLimits,
) -> Option<Seq<char>> {
    if is_double(symbol, names) {
        Some("desk orch: double-book "@ + upper(symbol) + " — fail-closed"@)
    } else {
        match heat_block(entry_sid, sids, heat) {
            Some(e) => Some(e.text()),
            None => None,
        }
    }
}

/// What the gates leave of the first `n` decisions.
pub open spec fn gated(
    ds: Seq<DecisionView>,
    n: int,
    entry_sid: i32,
    names: Seq<Seq<char>>,
    sids: Seq<i32>,
    heat: HeatLimits,
) -> Gated
    decreases n,
{
    if n <= 0 {
        Gated { kept: Seq::empty(), skip: None, entered: false }
    } else {
        let g = gated(ds, n - 1, entry_sid, names, sids, heat);
        let d = ds[n - 1];
        if g.entered {
            g
        } else if d is EnterLong {
            match entry_refusal(d.symbol(), entry_sid, names, sids, heat) {
                Some(why) => Gated { skip: Some(why), ..g },
                None => Gated { kept: g.kept.push(d), entered: true, ..g },
            }
        } else if d is Hold {
            g
        } else {
            Gated { kept: g.kept.push(d), ..g }
        }
    }
}

proof fn lemma_gated_stops(
    ds: Seq<DecisionView>,
    n: int,
    m: int,
    entry_sid: i32,
    names: Seq<Seq<char>>,
    sids: Seq<i32>,
    heat: HeatLimits,
)
    requires
        0 <= n <= m,
        gated(ds, n, entry_sid, names, sids, heat).entered,
    ensures
        gated(ds, m, entry_sid, names, sids, heat) == gated(ds, n, entry_sid, names, sids, heat),
    decreases m - n,
{
    if n < m {
        lemma_gated_stops(ds, n, m - 1, entry_sid, names, sids, heat);
    }
}

/// Lets at most one entry through, and only one that is neither a double nor
/// too much heat. Holds are left out.
pub fn filter_enter(
    decisions: Vec<Decision>,
    entry_sid: i32,
    open_syms: &[String],
    open_sids: &[i32],
    heat: HeatLimits,
) -> (r: (Vec<Decision>, Option<String>))
    ensures
        ({
            let g = gated(
                decision_views(decisions@),
                decisions@.len() as int,
                entry_sid,
                views(open_syms@),
                open_sids@,
                heat,
            );
            &&& decision_views(r.0@) == g.kept
            &&& opt_view(r.1) == g.skip
        }),
{
    let ghost all = decision_views(decisions@);
    let mut skip: Option<String> = None;
    let mut out: Vec<Decision> = Vec::new();
    let mut i: usize = 0;
    proof {
        assert(decision_views(out@) =~= Seq::<DecisionView>::empty());
    }
    while i < decisions.len()
        invariant
            i <= decisions@.len(),
            all == decision_views(decisions@),
            gated(all, i as int, entry_sid, views(open_syms@), open_sids@, heat) == (Gated {
                kept: decision_views(out@),
                skip: opt_view(skip),
                entered: false,
            }),
        decreases decisions@.len() - i,
    {
        let d: &Decision = &decisions[i];
        let ghost prior = decision_views(out@);
        proof {
            assert(all[i as int] == d@);
        }
        if d.is_enter_long() {
            match check_double_book(d.symbol(), open_syms) {
                Err(e) => {
                    skip = Some(e.as_str());
                },
                Ok(_) => match check_heat(entry_sid, open_sids, heat) {
                    Err(e) => {
                        skip = Some(e.as_str());
                    },
                    Ok(_) => {
                        out.push(d.clone());
                        proof {
                            assert(decision_views(out@) =~= prior.push(all[i as int]));
                            lemma_gated_stops(
                                all,
                                i as int + 1,
                                all.len() as int,
                                entry_sid,
                                views(open_syms@),
                                open_sids@,
                                heat,
                            );
                        }
                        return (out, skip);
                    },
                },
            }
        } else if !d.is_hold() {
            out.push(d.clone());
            proof {
                assert(decision_views(out@) =~= prior.push(all[i as int]));
            }
        }
        i = i + 1;
    }
    (out, skip)
}

proof fn lemma_gated_entries(
    ds: Seq<DecisionView>,
    n: int,
    entry_sid: i32,
    names: Seq<Seq<char>>,
    sids: Seq<i32>,
    heat: HeatLimits,
)
    requires
        n <= ds.len(),
    ensures
        ({
            let g = gated(ds, n, entry_sid, names, sids, heat);
            forall|i: int|
                0 <= i < g.kept.len() && (#[trigger] g.kept[i]) is EnterLong ==> g.entered && i
                    == g.kept.len() - 1 && entry_refusal(
                    g.kept[i].symbol(),
                    entry_sid,
                    names,
                    sids,
                    heat,
                ) is None
        }),
    decreases n,
{
    if n > 0 {
        lemma_gated_entries(ds, n - 1, entry_sid, names, sids, heat);
    }
}

/// The gates let at most one entry through, and never one whose symbol is
/// already open or for which there is no room.
pub proof fn law_gates_fail_closed(
    ds: Seq<DecisionView>,
    entry_sid: i32,
    names: Seq<Seq<char>>,
    sids: Seq<i32>,
    heat: HeatLimits,
    i: int,
    j: int,
)
    requires
        ({
            let kept = gated(ds, ds.len() as int, entry_sid, names, sids, heat).kept;
            &&& 0 <= i < kept.len() && kept[i] is EnterLong
            &&& 0 <= j < kept.len() && kept[j] is EnterLong
        }),
    ensures
        i == j,
        !is_double(
            gated(ds, ds.len() as int, entry_sid, names, sids, heat).kept[i].symbol(),
            names,
        ),
        sids.len() < heat.desk,
        count_sid(sids, entry_sid, sids.len() as int) < heat.per_sid,
{
    lemma_gated_entries(ds, ds.len() as int, entry_sid, names, sids, heat);
}

/// What the owner of the hour would open: decisions, the time of the last scan,
/// the leaders, and the reasons for which names were skipped.
pub struct OwnerScan {
    pub decisions: Seq<DecisionView>,
    pub scan_ts: int,
    pub leaders: Seq<Seq<char>>,
    pub skips: Seq<Seq<char>>,
}

/// The entries among decisions.
pub open spec fn enters_only(ds: Seq<DecisionView>) -> Seq<DecisionView> {
    ds.filter(|d: DecisionView| d is EnterLong)
}

fn keep_enters(ds: Vec<Decision>) -> (r: Vec<Decision>)
    ensures
        decision_views(r@) == enters_only(decision_views(ds@)),
{
    let ghost all = decision_views(ds@);
    let ghost test = |d: DecisionView| d is EnterLong;
    let mut out: Vec<Decision> = Vec::new();
    let mut i: usize = 0;
    proof {
        reveal(Seq::filter);
        assert(decision_views(out@) =~= all.take(0).filter(test));
    }
    while i < ds.len()
        invariant
            i <= ds@.len(),
            all == decision_views(ds@),
            test == (|d: DecisionView| d is EnterLong),
            decision_views(out@) == all.take(i as int).filter(test),
        decreases ds@.len() - i,
    {
        proof {
            reveal(Seq::filter);
            assert(all.take(i as int + 1).drop_last() =~= all.take(i as int));
        }
        if ds[i].is_enter_long() {
            let ghost prior = decision_views(out@);
            out.push(ds[i].clone());
            proof {
                assert(decision_views(out@) =~= prior.push(all[i as int]));
            }
        }
        i = i + 1;
    }
    proof {
        assert(all.take(i as int) =~= all);
    }
    out
}

/// The positions that count for the owner of the hour.
pub open spec fn owner_rows(book: Seq<Position>, meta: Map<Seq<char>, MetaView>, owner_sid: i32) -> Seq<
    Position,
> {
    book.filter(|p: Position| opener_or(meta, p.symbol@, owner_sid) == owner_sid)
}

fn list_owner_rows(book: &[Position], meta: &OpenMeta, owner_sid: i32) -> (r: Vec<Position>)
    ensures
        r@ == owner_rows(book@, meta@, owner_sid),
{
    let ghost test = |p: Position| opener_or(meta@, p.symbol@, owner_sid) == owner_sid;
    let mut out: Vec<Position> = Vec::new();
    let mut i: usize = 0;
    proof {
        reveal(Seq::filter);
        assert(book@.take(0) =~= Seq::<Position>::empty());
        assert(book@.take(0).filter(test) =~= Seq::<Position>::empty());
    }
    while i < book.len()
        invariant
            i <= book@.len(),
            test == (|p: Position| opener_or(meta@, p.symbol@, owner_sid) == owner_sid),
            out@ == book@.take(i as int).filter(test),
        decreases book@.len() - i,
    {
        proof {
            reveal(Seq::filter);
            assert(book@.take(i as int + 1).drop_last() =~= book@.take(i as int));
        }
        if opening_sid_or(meta, book[i].symbol.as_str(), owner_sid) == owner_sid {
            out.push(book[i].clone());
        }
        i = i + 1;
    }
    proof {
        assert(book@.take(i as int) =~= book@);
    }
    out
}

/// What the owner of the hour would open. Continuation gives its entry alone,
/// the others their decision.
pub open spec fn owner_scan(
    who: DeskSid,
    s: MarketSnapshot,
    st: EngineStateView,
    rows: Seq<Position>,
    inflight: Seq<Seq<char>>,
    k: DeskKnobs,
    now: int,
) -> Option<OwnerScan> {
    if who == DeskSid::Continuation {
        match continuation_result(
            ContinuationInput {
                s,
                positions: rows,
                now,
                last_scan_ts: st.last_scan_ts as int,
                inflight,
                cooldowns: st.cooldowns,
                exclude: st.skip_symbols,
                allow_enter: true,
                recent: st.recent_leaders,
                desk_until: st.cooldown_until as int,
                scaled: st.scaled_one_r,
                trailed_bars: st.hour1_trail_bar,
                inherited: st.s4_inherited,
            },
            desk_continuation(4, k.momentum),
        ) {
            None => None,
            Some(x) => Some(
                OwnerScan {
                    decisions: enters_only(x.decisions),
                    scan_ts: x.scan_ts,
                    leaders: x.leaders,
                    skips: x.skips,
                },
            ),
        }
    } else {
        match flat_desk(
            who.number(),
            s,
            scalp_of(k),
            trend_of(k),
            st.skip_symbols,
            st.cooldowns,
            now,
        ) {
            None => None,
            Some(d) => Some(
                OwnerScan {
                    decisions: seq![d],
                    scan_ts: st.last_scan_ts as int,
                    leaders: st.recent_leaders,
                    skips: Seq::empty(),
                },
            ),
        }
    }
}

fn entry_for_owner(
    who: DeskSid,
    snapshot: &MarketSnapshot,
    state: &EngineState,
    rows: &[Position],
    inflight: &[String],
    now: i64,
    momentum: Option<&MomentumParams>,
    scalp: Option<&ScalpParams>,
    trend: Option<&TrendParams>,
    tally: &mut SkipTally,
) -> (r: Option<(Vec<Decision>, i64, Vec<String>)>)
    ensures
        match (
            r,
            owner_scan(
                who,
                *snapshot,
                state@,
                rows@,
                views(inflight@),
                desk_knobs(momentum, scalp, trend),
                now as int,
            ),
        ) {
            (Some((ds, ts, leaders)), Some(x)) => {
                &&& decision_views(ds@) == x.decisions
                &&& ts == x.scan_ts
                &&& views(leaders@) == x.leaders
                &&& final(tally)@ == noted_all(old(tally)@, x.skips)
            },
            (None, None) => true,
            _ => false,
        },
{
    if who == DeskSid::Continuation {
        let params: ContinuationParams = continuation_params_for(4, momentum);
        let (ds, ts, leaders) = continuation_decisions(
            snapshot,
            rows,
            now,
            state.last_scan_ts,
            inflight,
            &state.cooldowns,
            Some(&params),
            state.skip_symbols.as_slice(),
            true,
            state.recent_leaders.as_slice(),
            state.cooldown_until,
            &state.scaled_one_r,
            &state.hour1_trail_bar,
            &state.s4_inherited,
            tally,
        )?;
        return Some((keep_enters(ds), ts, leaders));
    }
    let found: Result<(Decision, i64), String> = decide_with(
        who.as_i32(),
        snapshot,
        None,
        now,
        state.last_scan_ts,
        momentum,
        scalp,
        trend,
        None,
        state.skip_symbols.as_slice(),
        &state.cooldowns,
        tally,
    )?;
    let leaders: Vec<String> = crate::models::copy_texts(state.recent_leaders.as_slice());
    match found {
        Ok((d, ts)) => {
            let mut out: Vec<Decision> = Vec::new();
            let ghost dv = d@;
            out.push(d);
            proof {
                assert(decision_views(out@) =~= seq![dv]);
            }
            Some((out, ts, leaders))
        },
        Err(_) => {
            proof {
                assert(false);
            }
            None
        },
    }
}

/// What the desk comes to in a tick.
pub struct DeskPick {
    pub decisions: Seq<DecisionView>,
    pub scan_ts: int,
    pub leaders: Seq<Seq<char>>,
    pub skips: Seq<Seq<char>>,
}

/// The hold that names the owner and why nothing is opened.
pub open spec fn owner_hold(now: int, why: Option<Seq<char>>) -> Seq<DecisionView> {
    seq![hold_view(status_text(now, why))]
}

/// What the desk decides: the open book is managed, then the owner of the hour
/// may open one long.
pub open spec fn desk_pick(
    s: MarketSnapshot,
    st: EngineStateView,
    book: Seq<Position>,
    inflight: Seq<Seq<char>>,
    meta: Map<Seq<char>, MetaView>,
    paused: bool,
    heat: HeatLimits,
    k: DeskKnobs,
    now: int,
) -> Option<DeskPick> {
    let who = owner(hour_at(now));
    let sid = who.number();
    let quiet = |ds: Seq<DecisionView>|
        DeskPick {
            decisions: ds,
            scan_ts: st.last_scan_ts as int,
            leaders: st.recent_leaders,
            skips: Seq::empty(),
        };
    let sids = open_sids(book, meta, sid);
    if paused {
        Some(quiet(owner_hold(now, Some("вход на паузе после закрытия всех"@))))
    } else if unknown_inflight(inflight) && book.len() == 0 {
        Some(quiet(owner_hold(now, Some("entry in flight"@))))
    } else {
        match desk_actions(s, st, book, meta, sid, k, now) {
            None => None,
            Some(acted) => {
                let blocked = heat_block(sid, sids, heat);
                let or_status = |ds: Seq<DecisionView>, why: Option<Seq<char>>|
                    if ds.len() == 0 {
                        owner_hold(now, why)
                    } else {
                        ds
                    };
                if st.daily_halt || blocked is Some {
                    Some(
                        quiet(
                            or_status(
                                acted,
                                match blocked {
                                    Some(e) => Some(e.text()),
                                    None => None,
                                },
                            ),
                        ),
                    )
                } else {
                    match owner_scan(
                        who,
                        s,
                        st,
                        owner_rows(book, meta, sid),
                        named_only(inflight),
                        k,
                        now,
                    ) {
                        None => None,
                        Some(x) => {
                            let g = gated(
                                x.decisions,
                                x.decisions.len() as int,
                                sid,
                                open_names(book),
                                sids,
                                heat,
                            );
                            Some(
                                DeskPick {
                                    decisions: or_status(acted + enters_only(g.kept), g.skip),
                                    scan_ts: x.scan_ts,
                                    leaders: x.leaders,
                                    skips: x.skips,
                                },
                            )
                        },
                    }
                }
            },
        }
    }
}

fn pick_for_desk(
    snapshot: &MarketSnapshot,
    state: &EngineState,
    book: &[Position],
    inflight: &[String],
    meta: &OpenMeta,
    paused: bool,
    heat: HeatLimits,
    now: i64,
    momentum: Option<&MomentumParams>,
    scalp: Option<&ScalpParams>,
    trend: Option<&TrendParams>,
    tally: &mut SkipTally,
) -> (r: Option<(Vec<Decision>, i64, Vec<String>)>)
    ensures
        match (
            r,
            desk_pick(
                *snapshot,
                state@,
                book@,
                views(inflight@),
                meta@,
                paused,
                heat,
                desk_knobs(momentum, scalp, trend),
                now as int,
            ),
        ) {
            (Some((ds, ts, leaders)), Some(x)) => {
                &&& decision_views(ds@) == x.decisions
                &&& ts == x.scan_ts
                &&& views(leaders@) == x.leaders
                &&& final(tally)@ == noted_all(old(tally)@, x.skips)
            },
            (None, None) => true,
            _ => false,
        },
{
    let who: DeskSid = desk_owner_at(now);
    let sid: i32 = who.as_i32();
    let same_leaders: Vec<String> = crate::models::copy_texts(state.recent_leaders.as_slice());
    if paused {
        let note = status_line(now, Some("вход на паузе после закрытия всех"));
        return Some((one_hold(note.as_str()), state.last_scan_ts, same_leaders));
    }
    if is_unknown_inflight(inflight) && book.len() == 0 {
        let note = status_line(now, Some("entry in flight"));
        return Some((one_hold(note.as_str()), state.last_scan_ts, same_leaders));
    }
    let mut acted: Vec<Decision> = manage_by_opening_sid(
        snapshot,
        book,
        now,
        sid,
        momentum,
        scalp,
        trend,
        state,
        meta,
    )?;
    proof {
        assert(decision_views(acted@).len() == acted@.len());
    }
    let sids: Vec<i32> = open_sid_list(book, meta, sid);
    let blocked: Option<String> = match check_heat(sid, sids.as_slice(), heat) {
        Ok(_) => None,
        Err(e) => Some(e.as_str()),
    };
    if state.daily_halt || blocked.is_some() {
        if acted.len() == 0 {
            let why: Option<&str> = match &blocked {
                Some(t) => Some(t.as_str()),
                None => None,
            };
            let note = status_line(now, why);
            return Some((one_hold(note.as_str()), state.last_scan_ts, same_leaders));
        }
        return Some((acted, state.last_scan_ts, same_leaders));
    }
    let rows: Vec<Position> = list_owner_rows(book, meta, sid);
    let named: Vec<String> = keep_named(inflight);
    let (found, ts, leaders) = entry_for_owner(
        who,
        snapshot,
        state,
        rows.as_slice(),
        named.as_slice(),
        now,
        momentum,
        scalp,
        trend,
        tally,
    )?;
    let names: Vec<String> = open_symbol_list(book);
    let (kept, skip) = filter_enter(found, sid, names.as_slice(), sids.as_slice(), heat);
    extend(&mut acted, keep_enters(kept));
    proof {
        assert(decision_views(acted@).len() == acted@.len());
    }
    if acted.len() == 0 {
        let why: Option<&str> = match &skip {
            Some(t) => Some(t.as_str()),
            None => None,
        };
        let note = status_line(now, why);
        return Some((one_hold(note.as_str()), ts, leaders));
    }
    Some((acted, ts, leaders))
}

/// The rule under which what vanishes pauses the strategy that opened it.
pub open spec fn desk_rule(owner_sid: i32, pause_ms: i64, k: DeskKnobs) -> PauseRule {
    PauseRule {
        by_opener: true,
        sid: owner_sid,
        pause_ms,
        scalp_ms: match k.scalp {
            Some(p) => p.cooldown_ms,
            None => 1_200_000,
        },
        trend_ms: match k.trend {
            Some(p) => p.cooldown_ms,
            None => 3_600_000,
        },
    }
}

/// The state that the desk decides on: the owner of the hour becomes the running
/// strategy, and what vanished is forgotten. The day's account is not touched.
pub open spec fn desk_state(
    st: EngineStateView,
    s: MarketSnapshot,
    o: Opening,
    cooldowns: Map<Seq<char>, i64>,
    cooldown_until: i64,
    k: DeskKnobs,
    meta: Map<Seq<char>, MetaView>,
    pause_ms: i64,
    windows: Seq<HourWindow>,
    now: int,
) -> Option<EngineStateView> {
    let sid = owner(hour_at(now)).number();
    refreshed(
        EngineStateView { strategy_id: sid, cooldowns, cooldown_until, ..st },
        s,
        o,
        meta,
        desk_rule(sid, pause_ms, k),
        windows,
        now,
    )
}

/// What the desk starts from: what the state remembers, the book, and what is in
/// flight.
pub open spec fn desk_start(st: EngineStateView, book: Seq<Position>, inflight: Seq<Seq<char>>) -> Opening {
    Opening { mem: remembered(st.position, st.positions), book, inflight }
}

/// A tick of the desk: the owner of the hour becomes the running strategy.
#[verifier::opaque]
pub open spec fn desk_tick(
    st: EngineStateView,
    s: MarketSnapshot,
    book: Seq<Position>,
    inflight: Seq<Seq<char>>,
    cooldowns: Map<Seq<char>, i64>,
    cooldown_until: i64,
    k: DeskKnobs,
    meta: Map<Seq<char>, MetaView>,
    paused: bool,
    pause_ms: i64,
    windows: Seq<HourWindow>,
    heat: HeatLimits,
    pending_error: Option<Seq<char>>,
    now: i64,
) -> Option<TickView> {
    let o = desk_start(st, book, inflight);
    match desk_state(st, s, o, cooldowns, cooldown_until, k, meta, pause_ms, windows, now as int) {
        None => None,
        Some(st1) => {
            let flight = refreshed_inflight(o);
            match desk_pick(s, st1, book, flight, meta, paused, heat, k, now as int) {
                None => None,
                Some(x) => {
                    let ds = retrying(
                        halted(
                            x.decisions,
                            st1.daily_halt,
                            status_text(
                                now as int,
                                Some("стоп дня. Новых входов нет до 00:00 UTC."@),
                            ),
                        ),
                        now < st1.retry_until,
                        status_text(now as int, Some("сеть: повтор входа после сбоя"@)),
                    );
                    let end = closed_tick(
                        st1,
                        s,
                        book,
                        flight,
                        ds,
                        meta,
                        x.scan_ts,
                        x.leaders,
                        paused,
                        pending_error,
                        now,
                    );
                    Some(
                        TickView {
                            state: end.state,
                            decisions: ds,
                            meta: end.meta,
                            skips: x.skips,
                            persist: end.touched,
                        },
                    )
                },
            }
        },
    }
}

/// The body of an orchestrated tick. The day's account is that of the state: who
/// calls brings it up to date. Says last whether a decision changed what is
/// remembered of the open trades.
pub fn tick_orchestrated(
    state: &EngineState,
    snapshot: &MarketSnapshot,
    now: i64,
    momentum: Option<&MomentumParams>,
    scalp: Option<&ScalpParams>,
    trend: Option<&TrendParams>,
    merged_list: Vec<Position>,
    inflight: Vec<String>,
    cooldowns: SymMap<i64>,
    cooldown_until: i64,
    entries_paused: bool,
    pause_ms: i64,
    loss_windows: &[HourWindow],
    heat: HeatLimits,
    meta: &mut OpenMeta,
    tally: &mut SkipTally,
    pending_error: Option<String>,
) -> (r: Option<(EngineState, Vec<Decision>, bool)>)
    ensures
        match (
            r,
            desk_tick(
                state@,
                *snapshot,
                merged_list@,
                views(inflight@),
                cooldowns@,
                cooldown_until,
                desk_knobs(momentum, scalp, trend),
                old(meta)@,
                entries_paused,
                pause_ms,
                loss_windows@,
                heat,
                opt_view(pending_error),
                now,
            ),
        ) {
            (Some((st, ds, persist)), Some(t)) => {
                &&& st@ == t.state
                &&& decision_views(ds@) == t.decisions
                &&& persist == t.persist
                &&& final(meta)@ == t.meta
                &&& final(tally)@ == noted_all(old(tally)@, t.skips)
            },
            (None, None) => true,
            _ => false,
        },
{
    proof {
        reveal(desk_tick);
    }
    let mut st: EngineState = state.clone();
    let sid: i32 = desk_owner_at(now).as_i32();
    st.strategy_id = sid;
    st.cooldowns = cooldowns;
    st.cooldown_until = cooldown_until;
    let slot: Option<&Position> = match &state.position {
        Some(p) => Some(p),
        None => None,
    };
    let mem: Vec<Position> = remembered_positions(slot, state.positions.as_slice());
    let mut flight: Vec<String> = inflight;
    let rule = PauseRule {
        by_opener: true,
        sid,
        pause_ms,
        scalp_ms: match scalp {
            Some(p) => p.cooldown_ms,
            None => 1_200_000,
        },
        trend_ms: match trend {
            Some(p) => p.cooldown_ms,
            None => 3_600_000,
        },
    };
    refresh(
        &mut st,
        &mut flight,
        snapshot,
        mem.as_slice(),
        merged_list.as_slice(),
        meta,
        &rule,
        loss_windows,
        now,
    )?;
    let (found, scan_ts, leaders) = pick_for_desk(
        snapshot,
        &st,
        merged_list.as_slice(),
        flight.as_slice(),
        meta,
        entries_paused,
        heat,
        now,
        momentum,
        scalp,
        trend,
        tally,
    )?;
    let halt_note = status_line(now, Some("стоп дня. Новых входов нет до 00:00 UTC."));
    let wait_note = status_line(now, Some("сеть: повтор входа после сбоя"));
    let ds: Vec<Decision> = withhold(
        found,
        st.daily_halt,
        halt_note.as_str(),
        now < st.retry_until,
        wait_note.as_str(),
    );
    let touched: bool = close_tick(
        &mut st,
        snapshot,
        merged_list,
        flight,
        ds.as_slice(),
        meta,
        scan_ts,
        leaders,
        entries_paused,
        pending_error,
        now,
    );
    Some((st, ds, touched))
}

/// The longs that the desk manages.
pub open spec fn desk_rows(book: Seq<Position>, meta: Map<Seq<char>, MetaView>) -> Seq<Position> {
    book.filter(|p: Position| desk_manages(meta, p.symbol@))
}

/// Keeps the longs that the desk manages.
pub fn keep_desk_rows(book: Vec<Position>, meta: &OpenMeta) -> (r: Vec<Position>)
    ensures
        r@ == desk_rows(book@, meta@),
{
    let ghost test = |p: Position| desk_manages(meta@, p.symbol@);
    let mut out: Vec<Position> = Vec::new();
    let mut i: usize = 0;
    proof {
        reveal(Seq::filter);
        assert(book@.take(0) =~= Seq::<Position>::empty());
        assert(book@.take(0).filter(test) =~= Seq::<Position>::empty());
    }
    while i < book.len()
        invariant
            i <= book@.len(),
            test == (|p: Position| desk_manages(meta@, p.symbol@)),
            out@ == book@.take(i as int).filter(test),
        decreases book@.len() - i,
    {
        proof {
            reveal(Seq::filter);
            assert(book@.take(i as int + 1).drop_last() =~= book@.take(i as int));
        }
        if manages_long(meta, book[i].symbol.as_str()) {
            out.push(book[i].clone());
        }
        i = i + 1;
    }
    proof {
        assert(book@.take(i as int) =~= book@);
    }
    out
}

proof fn lemma_opened_by_tag(
    positions: Seq<Position>,
    meta: Map<Seq<char>, MetaView>,
    a: i32,
    b: i32,
    sid: i32,
)
    requires
        forall|i: int| 0 <= i < positions.len() ==> opener(meta, (#[trigger] positions[i]).symbol@) is Some,
    ensures
        opened_by(positions, meta, a, sid) == opened_by(positions, meta, b, sid),
    decreases positions.len(),
{
    reveal(Seq::filter);
    if positions.len() > 0 {
        let head = positions.drop_last();
        assert forall|i: int| 0 <= i < head.len() implies opener(
            meta,
            (#[trigger] head[i]).symbol@,
        ) is Some by {
            assert(head[i] == positions[i]);
        }
        lemma_opened_by_tag(head, meta, a, b, sid);
        assert(opener(meta, positions[positions.len() - 1].symbol@) is Some);
    }
}

/// A change of the hour's owner changes nothing about how the open book is
/// managed, as long as it is remembered who opened each long.
pub proof fn law_hour_switch_keeps_management(
    s: MarketSnapshot,
    st: EngineStateView,
    book: Seq<Position>,
    meta: Map<Seq<char>, MetaView>,
    a: i32,
    b: i32,
    k: DeskKnobs,
    now: int,
)
    requires
        forall|i: int| 0 <= i < book.len() ==> opener(meta, (#[trigger] book[i]).symbol@) is Some,
    ensures
        desk_actions(s, st, book, meta, a, k, now) == desk_actions(s, st, book, meta, b, k, now),
{
    lemma_opened_by_tag(book, meta, a, b, 4);
    lemma_opened_by_tag(book, meta, a, b, 2);
    lemma_opened_by_tag(book, meta, a, b, 3);
}

/// Whether no decision is an entry.
pub open spec fn opens_nothing(ds: Seq<DecisionView>) -> bool {
    forall|i: int| 0 <= i < ds.len() ==> !((#[trigger] ds[i]) is EnterLong)
}

proof fn lemma_book_opens_nothing(positions: Seq<Position>, n: int, c: BookContext)
    requires
        n <= positions.len(),
    ensures
        book_actions(positions, n, c) matches Some(ds) ==> opens_nothing(ds),
    decreases n,
{
    if n > 0 {
        lemma_book_opens_nothing(positions, n - 1, c);
    }
}

proof fn lemma_single_opens_nothing(
    scalps: bool,
    s: MarketSnapshot,
    positions: Seq<Position>,
    n: int,
    k: DeskKnobs,
    now: int,
)
    requires
        n <= positions.len(),
        forall|i: int| 0 <= i < positions.len() ==> (#[trigger] positions[i]).is_open_long(),
    ensures
        single_actions(scalps, s, positions, n, k, now) matches Some(ds) ==> opens_nothing(ds),
    decreases n,
{
    if n > 0 {
        lemma_single_opens_nothing(scalps, s, positions, n - 1, k, now);
        assert(positions[n - 1].is_open_long());
    }
}

proof fn lemma_opened_are_longs(
    positions: Seq<Position>,
    meta: Map<Seq<char>, MetaView>,
    owner_sid: i32,
    sid: i32,
)
    ensures
        forall|i: int|
            0 <= i < opened_by(positions, meta, owner_sid, sid).len() ==> (#[trigger] opened_by(
                positions,
                meta,
                owner_sid,
                sid,
            )[i]).is_open_long(),
    decreases positions.len(),
{
    reveal(Seq::filter);
    if positions.len() > 0 {
        lemma_opened_are_longs(positions.drop_last(), meta, owner_sid, sid);
    }
}

proof fn lemma_enters_of(ds: Seq<DecisionView>)
    ensures
        forall|i: int|
            0 <= i < enters_only(ds).len() ==> (#[trigger] enters_only(ds)[i]) is EnterLong
                && ds.contains(enters_only(ds)[i]),
        (forall|i: int, j: int|
            0 <= i < ds.len() && 0 <= j < ds.len() && (#[trigger] ds[i]) is EnterLong && (
            #[trigger] ds[j]) is EnterLong ==> i == j) ==> enters_only(ds).len() <= 1,
    decreases ds.len(),
{
    reveal(Seq::filter);
    if ds.len() > 0 {
        let head = ds.drop_last();
        lemma_enters_of(head);
        let rest = enters_only(head);
        let all = enters_only(ds);
        assert forall|i: int| 0 <= i < all.len() implies (#[trigger] all[i]) is EnterLong
            && ds.contains(all[i]) by {
            if i < rest.len() {
                assert(all[i] == rest[i]);
                let j = choose|j: int| 0 <= j < head.len() && head[j] == rest[i];
                assert(ds[j] == rest[i]);
            } else {
                assert(ds[ds.len() - 1] == all[i]);
            }
        }
        if forall|i: int, j: int|
            0 <= i < ds.len() && 0 <= j < ds.len() && (#[trigger] ds[i]) is EnterLong && (
            #[trigger] ds[j]) is EnterLong ==> i == j {
            assert forall|i: int, j: int|
                0 <= i < head.len() && 0 <= j < head.len() && (#[trigger] head[i]) is EnterLong && (
                #[trigger] head[j]) is EnterLong implies i == j by {
                assert(head[i] == ds[i] && head[j] == ds[j]);
            }
            if ds.last() is EnterLong && rest.len() > 0 {
                assert(rest[0] is EnterLong);
                let j = choose|j: int| 0 <= j < head.len() && head[j] == rest[0];
                assert(ds[j] is EnterLong && ds[ds.len() - 1] is EnterLong);
            }
        }
    }
}

/// The desk opens at most one long in a tick, never one that is already open,
/// and only where there is room for it.
pub proof fn law_desk_opens_one_fresh_long(
    s: MarketSnapshot,
    st: EngineStateView,
    book: Seq<Position>,
    inflight: Seq<Seq<char>>,
    meta: Map<Seq<char>, MetaView>,
    paused: bool,
    heat: HeatLimits,
    k: DeskKnobs,
    now: int,
    i: int,
    j: int,
)
    ensures
        match desk_pick(s, st, book, inflight, meta, paused, heat, k, now) {
            Some(x) => {
                let sid = owner(hour_at(now)).number();
                let sids = open_sids(book, meta, sid);
                0 <= i < x.decisions.len() && x.decisions[i] is EnterLong ==> {
                    &&& 0 <= j < x.decisions.len() && x.decisions[j] is EnterLong ==> i == j
                    &&& !is_double(x.decisions[i].symbol(), open_names(book))
                    &&& sids.len() < heat.desk
                    &&& count_sid(sids, sid, sids.len() as int) < heat.per_sid
                    &&& !paused
                    &&& !st.daily_halt
                }
            },
            None => true,
        },
{
    let who = owner(hour_at(now));
    let sid = who.number();
    let sids = open_sids(book, meta, sid);
    let names = open_names(book);
    if let Some(x) = desk_pick(s, st, book, inflight, meta, paused, heat, k, now) {
        if !paused && !(unknown_inflight(inflight) && book.len() == 0) {
            let acted = desk_actions(s, st, book, meta, sid, k, now)->0;
            let four = opened_by(book, meta, sid, 4);
            let two = opened_by(book, meta, sid, 2);
            let three = opened_by(book, meta, sid, 3);
            lemma_book_opens_nothing(
                four,
                four.len() as int,
                BookContext {
                    s,
                    p: desk_continuation(4, k.momentum),
                    now,
                    scaled: st.scaled_one_r,
                    trailed_bars: st.hour1_trail_bar,
                    inherited: st.s4_inherited,
                },
            );
            lemma_opened_are_longs(book, meta, sid, 2);
            lemma_opened_are_longs(book, meta, sid, 3);
            lemma_single_opens_nothing(true, s, two, two.len() as int, k, now);
            lemma_single_opens_nothing(false, s, three, three.len() as int, k, now);
            assert(opens_nothing(acted));
            if !st.daily_halt && heat_block(sid, sids, heat) is None {
                let y = owner_scan(
                    who,
                    s,
                    st,
                    owner_rows(book, meta, sid),
                    named_only(inflight),
                    k,
                    now,
                )->0;
                let n = y.decisions.len() as int;
                lemma_gated_entries(y.decisions, n, sid, names, sids, heat);
                let kept = gated(y.decisions, n, sid, names, sids, heat).kept;
                lemma_enters_of(kept);
                let entries = enters_only(kept);
                assert(entries.len() <= 1);
                if 0 <= i < x.decisions.len() && x.decisions[i] is EnterLong {
                    assert(x.decisions == acted + entries);
                    assert(i >= acted.len());
                    assert(x.decisions[i] == entries[i - acted.len()]);
                    let m = choose|m: int| 0 <= m < kept.len() && kept[m] == x.decisions[i];
                    assert(kept[m] is EnterLong);
                }
            }
        }
    }
}

/// What counts as open on the desk: the name of every open long, and of nothing
/// else.
pub proof fn law_open_names_are_the_open_longs(positions: Seq<Position>, key: Seq<char>)
    ensures
        open_names(positions).contains(key) <==> exists|i: int|
            0 <= i < positions.len() && (#[trigger] positions[i]).side == Side::Long
                && positions[i].qty.pos() && upper(positions[i].symbol@) == key,
    decreases positions.len(),
{
    if positions.len() > 0 {
        let d = positions.drop_last();
        let p = positions.last();
        let n = positions.len() - 1;
        law_open_names_are_the_open_longs(d, key);
        let v = open_names(d);
        let w = open_names(positions);
        if w.contains(key) {
            let k = choose|k: int| 0 <= k < w.len() && w[k] == key;
            if k < v.len() {
                assert(v[k] == key);
                let i = choose|i: int|
                    0 <= i < d.len() && (#[trigger] d[i]).side == Side::Long && d[i].qty.pos() && upper(
                        d[i].symbol@,
                    ) == key;
                assert(positions[i] == d[i]);
            } else {
                assert(positions[n] == p);
            }
        }
        if exists|i: int|
            0 <= i < positions.len() && (#[trigger] positions[i]).side == Side::Long
                && positions[i].qty.pos() && upper(positions[i].symbol@) == key {
            let i = choose|i: int|
                0 <= i < positions.len() && (#[trigger] positions[i]).side == Side::Long
                    && positions[i].qty.pos() && upper(positions[i].symbol@) == key;
            if i < n {
                assert(d[i] == positions[i]);
                let k = choose|k: int| 0 <= k < v.len() && v[k] == key;
                assert(w[k] == key);
            } else {
                assert(w[w.len() - 1] == key);
            }
        }
    } else {
        assert(open_names(positions).len() == 0);
    }
}

/// When the desk is too hot for one more long: exactly where it holds as many as it
/// may, or the strategy does.
pub proof fn law_heat(entry_sid: i32, sids: Seq<i32>, heat: HeatLimits)
    ensures
        heat_block(entry_sid, sids, heat) is None <==> sids.len() < heat.desk && count_sid(
            sids,
            entry_sid,
            sids.len() as int,
        ) < heat.per_sid,
{
}

/// How many longs a strategy holds: one more exactly where one of its own is added.
pub proof fn law_longs_are_counted_by_strategy(sids: Seq<i32>, more: i32, sid: i32)
    ensures
        count_sid(sids.push(more), sid, sids.len() as int + 1) == count_sid(
            sids,
            sid,
            sids.len() as int,
        ) + (if more == sid {
            1int
        } else {
            0
        }),
        0 <= count_sid(sids, sid, sids.len() as int) <= sids.len(),
{
    lemma_count_prefix(sids, more, sid, sids.len() as int);
}

proof fn lemma_count_prefix(sids: Seq<i32>, more: i32, sid: i32, n: int)
    requires
        0 <= n <= sids.len(),
    ensures
        count_sid(sids.push(more), sid, n) == count_sid(sids, sid, n),
        0 <= count_sid(sids, sid, n) <= n,
    decreases n,
{
    if n > 0 {
        lemma_count_prefix(sids, more, sid, n - 1);
    }
}

/// Which longs a strategy manages: the open longs that it opened, and those that
/// nobody is remembered for where it owns the hour.
pub proof fn law_strategies_manage_their_own(
    positions: Seq<Position>,
    meta: Map<Seq<char>, MetaView>,
    owner_sid: i32,
    sid: i32,
    p: Position,
)
    ensures
        opened_by(positions, meta, owner_sid, sid).contains(p) ==> positions.contains(p) && p.side
            == Side::Long && p.qty.pos() && (if meta.contains_key(upper(p.symbol@)) {
            meta[upper(p.symbol@)].strategy_id == sid
        } else {
            owner_sid == sid
        }),
{
    let test = |p: Position| p.is_open_long() && opener_or(meta, p.symbol@, owner_sid) == sid;
    if opened_by(positions, meta, owner_sid, sid).contains(p) {
        crate::models::lemma_filter_member(positions, test, p);
    }
}

} // verus!

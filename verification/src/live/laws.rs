//! What holds of everything the desk asks of an exchange.
use super::adopt::{first_row, rows_without, Book};
use super::book::{held_row, one_or_none};
use super::orders::{
    already_protected, book_refusal, buy_run, enter_run, fill_run, fits_run, guard_run,
    is_break_even, may_try, move_stop_run, protect_run, short_run, split_run, undo_run,
};
use super::reconcile::{
    clear_orphans_run, clear_vanished_run, gone_longs, has_row_key, is_live_key, leftover_run,
    orphans_run, probe_run, probe_symbols, rearm_counted, rearm_exhausted, rearm_one, reconcile_run,
    sees_book, vanish_run, vanished_longs, without_live,
};
use super::{decision_run, flatten_all_run};
use crate::config::load::ConfigView;
use crate::continuation::manage::row_of;
use crate::dec::Dec;
use crate::flatten::{close_run, targets_of, TargetView};
use crate::journal::{LedgerView, StampView};
use crate::models::{Decision, EngineStateView, MarketSnapshot, Position, Side};
use crate::text::upper;
use crate::wire::{ask, book, done, filters, Call, Exchange, Reply, Run, World};
use vstd::prelude::*;

verus! {

/// Whether one log continues another.
pub open spec fn continues(after: Seq<Exchange>, before: Seq<Exchange>) -> bool {
    &&& before.len() <= after.len()
    &&& forall|i: int| 0 <= i < before.len() ==> #[trigger] after[i] == before[i]
}

/// Whether nothing was bought past an index of a log.
pub open spec fn buys_nothing_from(log: Seq<Exchange>, from: int) -> bool {
    forall|i: int| from <= i < log.len() ==> !((#[trigger] log[i]).call is MarketBuy)
}

/// Unless the desk is live and has keys, no decision, no flatten and no
/// reconciliation asks anything of the exchange.
pub proof fn law_paper_asks_nothing(
    w: World,
    log: Seq<Exchange>,
    cfg: ConfigView,
    s: MarketSnapshot,
    b: Book,
    d: Decision,
    targets: Option<Seq<Position>>,
    at: StampView,
)
    requires
        !(cfg.live && cfg.credentials is Some),
    ensures
        decision_run(w, log, cfg, s, b, d, at).log == log,
        flatten_all_run(w, log, cfg, b.state, Some(s), targets, at.now).log == log,
        reconcile_run(w, log, cfg, s, b, at).log == log,
{
}

proof fn lemma_close_run(w: World, log: Seq<Exchange>, targets: Seq<TargetView>, n: int)
    ensures
        continues(close_run(w, log, targets, n).log, log),
        buys_nothing_from(close_run(w, log, targets, n).log, log.len() as int),
    decreases n,
{
    if n > 0 {
        lemma_close_run(w, log, targets, n - 1);
    }
}

pub proof fn lemma_short_run(w: World, log: Seq<Exchange>, symbol: Seq<char>)
    ensures
        continues(short_run(w, log, symbol).log, log),
        buys_nothing_from(short_run(w, log, symbol).log, log.len() as int),
{
    if upper(symbol).len() > 0 {
        let a = ask(w, log, Call::PositionRisk);
        match book(a.out) {
            Err(_) => {},
            Ok(rows) => match held_row(rows, upper(symbol)) {
                None => {},
                Some(p) => {
                    let targets = targets_of(seq![p]);
                    lemma_close_run(w, a.log, targets, targets.len() as int);
                },
            },
        }
    }
}

/// Whether an answer settles what becomes of a long that was just bought: it is
/// protected, or it is closed, or the exchange lists a short in its place.
pub open spec fn settles(x: Exchange, symbol: Seq<char>) -> bool {
    match x.call {
        Call::PlaceTpSl { symbol: name, .. } => name == symbol && match done(x.reply) {
            Ok(_) => true,
            Err(e) => already_protected(e),
        },
        Call::MarketClose { symbol: name, side, .. } => name == symbol && side == "LONG"@,
        Call::PositionRisk => match book(x.reply) {
            Ok(rows) => held_row(rows, upper(symbol)) is Some && held_row(rows, upper(symbol))->0.side
                == Side::Short,
            Err(_) => false,
        },
        _ => false,
    }
}

/// Whether some answer past an index settles what becomes of a long.
pub open spec fn settled_from(log: Seq<Exchange>, from: int, symbol: Seq<char>) -> bool {
    exists|j: int| from <= j < log.len() && settles(#[trigger] log[j], symbol)
}

proof fn lemma_guard(
    w: World,
    log: Seq<Exchange>,
    cfg: ConfigView,
    st: Option<EngineStateView>,
    l: LedgerView,
    at: StampView,
    symbol: Seq<char>,
    take_profit: Dec,
    stop_loss: Dec,
    mark: Dec,
    qty: Dec,
)
    ensures
        ({
            let r = guard_run(w, log, cfg, st, l, at, symbol, take_profit, stop_loss, mark, qty);
            &&& continues(r.log, log)
            &&& buys_nothing_from(r.log, log.len() as int)
            &&& settled_from(r.log, log.len() as int, symbol)
        }),
{
    let r = guard_run(w, log, cfg, st, l, at, symbol, take_profit, stop_loss, mark, qty);
    let a = short_run(w, log, symbol);
    lemma_short_run(w, log, symbol);
    match a.out {
        Some(_) => {
            let q = ask(w, log, Call::PositionRisk);
            match book(q.out) {
                Ok(rows) => {
                    let p = held_row(rows, upper(symbol))->0;
                    let targets = targets_of(seq![p]);
                    lemma_close_run(w, q.log, targets, targets.len() as int);
                    assert(r.log[log.len() as int] == q.log[log.len() as int]);
                    assert(settles(r.log[log.len() as int], symbol));
                },
                Err(_) => {},
            }
        },
        None => {
            let b = protect_run(w, a.log, symbol, take_profit, stop_loss, qty);
            let n = a.log.len() as int;
            match b.out {
                None => {
                    match done(w(n)) {
                        Ok(_) => {
                            assert(settles(r.log[n], symbol));
                        },
                        Err(e) => {
                            if already_protected(e) {
                                assert(settles(r.log[n], symbol));
                            } else {
                                assert(settles(r.log[n + 2], symbol));
                            }
                        },
                    }
                },
                Some(_) => {
                    let c = undo_run(w, b.log, symbol, qty);
                    assert(r.log == c.log);
                    assert(settles(r.log[b.log.len() as int + 1], symbol));
                },
            }
        },
    }
}

proof fn lemma_fill(
    w: World,
    log: Seq<Exchange>,
    cfg: ConfigView,
    s: MarketSnapshot,
    st: Option<EngineStateView>,
    l: LedgerView,
    at: StampView,
    symbol: Seq<char>,
    take_profit: Dec,
    stop_loss: Dec,
    k: int,
)
    requires
        ({
            let r = fill_run(w, log, cfg, s, st, l, at, symbol, take_profit, stop_loss);
            log.len() <= k < r.log.len() && r.log[k].call is MarketBuy && done(r.log[k].reply) is Ok
        }),
    ensures
        ({
            let r = fill_run(w, log, cfg, s, st, l, at, symbol, take_profit, stop_loss);
            settled_from(r.log, k + 1, symbol)
        }),
{
    let r = fill_run(w, log, cfg, s, st, l, at, symbol, take_profit, stop_loss);
    let f = filters(w(log.len() as int))->Ok_0;
    let t = row_of(s.tickers@, symbol)->0;
    let a = ask(w, log, Call::FiltersFor { symbol });
    let mark = t.last_price;
    let qty = super::orders::entry_size(cfg, s, st, mark, stop_loss, f)->Qty_0;
    let order = crate::dec::n_mul(Some(qty), Some(mark))->0;
    let b = fits_run(
        w,
        a.log,
        s,
        symbol,
        mark,
        order,
        super::book::leverage_of(cfg, s, symbol),
    );
    let c = match cfg.leverage {
        Some(lev) => ask(w, b.log, Call::SetLeverage { symbol, leverage: lev }),
        None => Run { log: b.log, out: Reply::Done(Ok(())) },
    };
    let d = buy_run(w, c.log, symbol, qty);
    match d.out {
        Ok(got) => {
            lemma_guard(w, d.log, cfg, st, l, at, symbol, take_profit, stop_loss, mark, got);
            let g = guard_run(w, d.log, cfg, st, l, at, symbol, take_profit, stop_loss, mark, got);
            assert(r == g);
            if k < d.log.len() {
                assert(r.log[k] == d.log[k]);
            }
            let j = choose|j: int|
                d.log.len() <= j < r.log.len() && settles(#[trigger] r.log[j], symbol);
            assert(settles(r.log[j], symbol));
        },
        Err(_) => {},
    }
}

/// A purchase that the exchange took is never left alone: what comes after it
/// protects the long, or closes it, or finds a short in its place.
pub proof fn law_fills_are_protected_or_closed(
    w: World,
    log: Seq<Exchange>,
    cfg: ConfigView,
    s: MarketSnapshot,
    st: Option<EngineStateView>,
    l: LedgerView,
    at: StampView,
    symbol: Seq<char>,
    take_profit: Dec,
    stop_loss: Dec,
    k: int,
)
    requires
        ({
            let r = enter_run(w, log, cfg, s, st, l, at, symbol, take_profit, stop_loss);
            log.len() <= k < r.log.len() && r.log[k].call is MarketBuy && done(r.log[k].reply) is Ok
        }),
    ensures
        ({
            let r = enter_run(w, log, cfg, s, st, l, at, symbol, take_profit, stop_loss);
            settled_from(r.log, k + 1, symbol)
        }),
{
    let a = ask(w, log, Call::PositionRisk);
    let r = enter_run(w, log, cfg, s, st, l, at, symbol, take_profit, stop_loss);
    if k == log.len() {
        lemma_fill_continues(w, a.log, cfg, s, st, l, at, symbol, take_profit, stop_loss);
        assert(r.log[k] == a.log[k]);
    } else {
        lemma_fill(w, a.log, cfg, s, st, l, at, symbol, take_profit, stop_loss, k);
    }
}

proof fn lemma_fill_continues(
    w: World,
    log: Seq<Exchange>,
    cfg: ConfigView,
    s: MarketSnapshot,
    st: Option<EngineStateView>,
    l: LedgerView,
    at: StampView,
    symbol: Seq<char>,
    take_profit: Dec,
    stop_loss: Dec,
)
    ensures
        continues(
            fill_run(w, log, cfg, s, st, l, at, symbol, take_profit, stop_loss).log,
            log,
        ),
{
    let f = filters(w(log.len() as int))->Ok_0;
    let t = row_of(s.tickers@, symbol)->0;
    let a = ask(w, log, Call::FiltersFor { symbol });
    let mark = t.last_price;
    let qty = super::orders::entry_size(cfg, s, st, mark, stop_loss, f)->Qty_0;
    let order = crate::dec::n_mul(Some(qty), Some(mark))->0;
    let b = fits_run(
        w,
        a.log,
        s,
        symbol,
        mark,
        order,
        super::book::leverage_of(cfg, s, symbol),
    );
    let c = match cfg.leverage {
        Some(lev) => ask(w, b.log, Call::SetLeverage { symbol, leverage: lev }),
        None => Run { log: b.log, out: Reply::Done(Ok(())) },
    };
    let d = buy_run(w, c.log, symbol, qty);
    if let Ok(got) = d.out {
        lemma_guard(w, d.log, cfg, st, l, at, symbol, take_profit, stop_loss, mark, got);
    }
}

/// Nothing is bought unless the exchange lists its positions, the symbol is not
/// among them, there is room for one more, and the symbol is not skipped on a
/// day that goes on.
pub proof fn law_no_purchase_without_room(
    w: World,
    log: Seq<Exchange>,
    cfg: ConfigView,
    s: MarketSnapshot,
    st: Option<EngineStateView>,
    l: LedgerView,
    at: StampView,
    symbol: Seq<char>,
    take_profit: Dec,
    stop_loss: Dec,
    k: int,
)
    requires
        ({
            let r = enter_run(w, log, cfg, s, st, l, at, symbol, take_profit, stop_loss);
            log.len() <= k < r.log.len() && r.log[k].call is MarketBuy
        }),
    ensures
        may_try(st, symbol),
        book(w(log.len() as int)) is Ok,
        book_refusal(cfg, s, st, book(w(log.len() as int))->Ok_0, symbol) is None,
{
}

/// A long whose break-even stop the exchange refuses is closed.
pub proof fn law_break_even_or_out(
    w: World,
    log: Seq<Exchange>,
    cfg: ConfigView,
    s: MarketSnapshot,
    st: Option<EngineStateView>,
    l: LedgerView,
    at: StampView,
    p: Position,
    stop_loss: Dec,
    take_profit: Dec,
    reason: Seq<char>,
)
    requires
        is_break_even(reason),
        done(w(log.len() as int)) is Err,
    ensures
        ({
            let r = move_stop_run(w, log, cfg, s, st, l, at, p, stop_loss, take_profit, reason);
            r.log.last().call == (Call::MarketClose { symbol: p.symbol@, side: "LONG"@, qty: p.qty })
        }),
{
}

/// Where the rest of a long that was sold in part cannot be protected, the rest
/// is closed too.
pub proof fn law_reduced_rest_is_protected_or_closed(
    w: World,
    log: Seq<Exchange>,
    cfg: ConfigView,
    s: MarketSnapshot,
    st: Option<EngineStateView>,
    l: LedgerView,
    at: StampView,
    p: Position,
    close_qty: Dec,
    rest: Dec,
    stop_loss: Dec,
)
    requires
        done(w(log.len() as int)) is Ok,
        done(w(log.len() as int + 1)) is Err,
        super::orders::rest_take_profit(cfg, p) is Some,
    ensures
        ({
            let r = split_run(w, log, cfg, s, st, l, at, p, close_qty, rest, stop_loss);
            r.log.last().call == (Call::MarketClose { symbol: p.symbol@, side: "LONG"@, qty: rest })
        }),
{
}

/// Whether orders are taken off past an index only for symbols without a long.
pub open spec fn spares_longs_from(log: Seq<Exchange>, from: int, s: MarketSnapshot) -> bool {
    forall|i: int|
        from <= i < log.len() ==> match (#[trigger] log[i]).call {
            Call::CancelProtectives { symbol } => !is_live_key(s, symbol),
            Call::OpenAlgoOrders { .. } => true,
            Call::OpenOrders { .. } => true,
            _ => false,
        }
}

proof fn lemma_probe(w: World, log: Seq<Exchange>, s: MarketSnapshot, names: Seq<Seq<char>>, n: int)
    ensures
        continues(probe_run(w, log, s, names, n).log, log),
        spares_longs_from(probe_run(w, log, s, names, n).log, log.len() as int, s),
    decreases n,
{
    if n > 0 {
        lemma_probe(w, log, s, names, n - 1);
    }
}

proof fn lemma_orphans(
    w: World,
    log: Seq<Exchange>,
    st: EngineStateView,
    names: Seq<Seq<char>>,
    n: int,
    now: i64,
    s: MarketSnapshot,
)
    requires
        0 <= n <= names.len(),
        forall|i: int| 0 <= i < names.len() ==> !is_live_key(s, #[trigger] names[i]),
    ensures
        continues(orphans_run(w, log, st, names, n, now).log, log),
        spares_longs_from(orphans_run(w, log, st, names, n, now).log, log.len() as int, s),
    decreases n,
{
    if n > 0 {
        lemma_orphans(w, log, st, names, n - 1, now, s);
    }
}

/// The sweep of leftover orders only lists orders and takes off those of symbols
/// without a live long: it never strips a long of its protection.
pub proof fn law_orphan_sweep_spares_live_longs(
    w: World,
    log: Seq<Exchange>,
    cfg: ConfigView,
    s: MarketSnapshot,
    st: EngineStateView,
    now: i64,
)
    ensures
        spares_longs_from(
            clear_orphans_run(w, log, cfg, s, st, now).log,
            log.len() as int,
            s,
        ),
{
    if sees_book(cfg, s) {
        let a = leftover_run(w, log, s, st);
        let names = without_live(a.out, s);
        let x = ask(w, log, Call::OpenAlgoOrders { symbol: None });
        let y = ask(w, x.log, Call::OpenOrders { symbol: None });
        let probes = probe_symbols(s, st);
        lemma_probe(w, y.log, s, probes, probes.len() as int);
        assert(continues(a.log, log));
        assert(spares_longs_from(a.log, log.len() as int, s)) by {
            assert forall|i: int| log.len() <= i < a.log.len() implies match (#[trigger] a.log[i]).call {
                Call::CancelProtectives { symbol } => !is_live_key(s, symbol),
                Call::OpenAlgoOrders { .. } => true,
                Call::OpenOrders { .. } => true,
                _ => false,
            } by {
                if i < y.log.len() {
                    assert(a.log[i] == y.log[i]);
                }
            }
        }
        assert forall|i: int| 0 <= i < names.len() implies !is_live_key(s, #[trigger] names[i]) by {
            a.out.lemma_filter_pred(|x: Seq<char>| !is_live_key(s, x), i);
        }
        lemma_orphans(w, a.log, st, names, names.len() as int, now, s);
        let b = orphans_run(w, a.log, st, names, names.len() as int, now);
        assert forall|i: int| log.len() <= i < b.log.len() implies match (#[trigger] b.log[i]).call {
            Call::CancelProtectives { symbol } => !is_live_key(s, symbol),
            Call::OpenAlgoOrders { .. } => true,
            Call::OpenOrders { .. } => true,
            _ => false,
        } by {
            if i < a.log.len() {
                assert(b.log[i] == a.log[i]);
            }
        }
    }
}

/// Protection that failed twice in a row is not waited for after the third time,
/// whenever the three were.
pub proof fn law_protection_fails_at_most_three_times(
    st: EngineStateView,
    key: Seq<char>,
    first: i64,
    second: i64,
    third: i64,
)
    ensures
        rearm_exhausted(
            rearm_counted(rearm_counted(st, key, first), key, second),
            key,
            third as int,
        ),
{
    let a = rearm_counted(st, key, first);
    let b = rearm_counted(a, key, second);
    let c = rearm_counted(b, key, third);
    assert(a.rearm_fail_count[key] >= 1);
    assert(b.rearm_fail_count[key] >= 2);
    assert(c.rearm_fail_count[key] >= 3);
}

/// Every long that is looked at comes out protected, or closed, or counted as
/// failing, or it turned out to be a short and is forgotten.
pub proof fn law_every_long_is_accounted_for(
    w: World,
    log: Seq<Exchange>,
    cfg: ConfigView,
    b: Book,
    p: Position,
    at: StampView,
)
    requires
        rearm_one(w, log, cfg, b, p, at).out is Some,
    ensures
        ({
            let r = rearm_one(w, log, cfg, b, p, at);
            let next = (r.out->0).0.state;
            let key = upper(p.symbol@);
            ||| next.sized_stops.contains(key)
            ||| next.rearm_fail_count.contains_key(key)
            ||| exists|from: Seq<Exchange>| r.log == #[trigger] undo_run(w, from, p.symbol@, p.qty).log
            ||| exists|from: Seq<Exchange>|
                (#[trigger] short_run(w, from, p.symbol@)).out is Some && r.log == short_run(
                    w,
                    from,
                    p.symbol@,
                ).log
        }),
{
    let key = upper(p.symbol@);
    let counted = Book { state: rearm_counted(b.state, key, at.now), ..b };
    match super::reconcile::wanted_prices(cfg, b.state, p) {
        None => {},
        Some(None) => {
            if rearm_exhausted(b.state, key, at.now as int) {
                assert(rearm_one(w, log, cfg, b, p, at).log == undo_run(w, log, p.symbol@, p.qty).log);
            }
        },
        Some(Some((sl, tp))) => {
            let a = ask(w, log, Call::OpenAlgoOrders { symbol: Some(key) });
            let c = ask(
                w,
                a.log,
                Call::ReplaceStop {
                    symbol: p.symbol@,
                    stop_loss: sl,
                    take_profit: Some(tp),
                    qty: Some(p.qty),
                },
            );
            if rearm_one(w, log, cfg, b, p, at).log != a.log {
                match done(c.out) {
                    Err(e) => {
                        if !already_protected(e) && rearm_exhausted(b.state, key, at.now as int) {
                            assert(rearm_one(w, log, cfg, b, p, at).log == undo_run(
                                w,
                                c.log,
                                p.symbol@,
                                p.qty,
                            ).log);
                        }
                    },
                    Ok(_) => {
                        let d = short_run(w, c.log, p.symbol@);
                        if d.out is Some {
                            assert(rearm_one(w, log, cfg, b, p, at).log == d.log);
                        }
                    },
                }
            }
        },
    }
}

proof fn lemma_gone_covers(v: Seq<Position>, n: int, s: MarketSnapshot, k: int)
    requires
        0 <= k < n <= v.len(),
        v[k].is_open_long(),
        !is_live_key(s, upper(v[k].symbol@)),
    ensures
        has_row_key(gone_longs(v, n, s), upper(v[k].symbol@)),
    decreases n,
{
    let key = upper(v[k].symbol@);
    let rest = gone_longs(v, n - 1, s);
    let all = gone_longs(v, n, s);
    if k < n - 1 {
        lemma_gone_covers(v, n - 1, s, k);
    }
    if has_row_key(rest, key) {
        let i = choose|i: int| 0 <= i < rest.len() && upper((#[trigger] rest[i]).symbol@) == key;
        assert(all[i] == rest[i]);
    } else {
        assert(all[rest.len() as int] == v[n - 1]);
    }
}

proof fn lemma_none_gone(v: Seq<Position>, n: int, s: MarketSnapshot)
    requires
        0 <= n <= v.len(),
        forall|i: int|
            0 <= i < v.len() ==> !(#[trigger] v[i]).is_open_long() || is_live_key(s, upper(v[i].symbol@)),
    ensures
        gone_longs(v, n, s).len() == 0,
    decreases n,
{
    if n > 0 {
        lemma_none_gone(v, n - 1, s);
    }
}

/// Whether rows are among others, and none has the key of one of the first `n`
/// of a list.
spec fn thinned(rows: Seq<Position>, from: Seq<Position>, v: Seq<Position>, n: int) -> bool {
    forall|i: int|
        0 <= i < rows.len() ==> from.contains(#[trigger] rows[i]) && forall|j: int|
            0 <= j < n ==> upper((#[trigger] v[j]).symbol@) != upper(rows[i].symbol@)
}

proof fn lemma_vanish_thins(
    w: World,
    log: Seq<Exchange>,
    cfg: ConfigView,
    s: MarketSnapshot,
    b: Book,
    v: Seq<Position>,
    n: int,
    at: StampView,
)
    requires
        0 <= n <= v.len(),
        vanish_run(w, log, cfg, s, b, v, n, at).out is Some,
    ensures
        ({
            let st = vanish_run(w, log, cfg, s, b, v, n, at).out->0.state;
            &&& thinned(st.positions, b.state.positions, v, n)
            &&& n > 0 ==> st.position == first_row(st.positions)
            &&& n == 0 ==> st == b.state
        }),
    decreases n,
{
    if n > 0 {
        lemma_vanish_thins(w, log, cfg, s, b, v, n - 1, at);
        let before = vanish_run(w, log, cfg, s, b, v, n - 1, at).out->0.state;
        let st = vanish_run(w, log, cfg, s, b, v, n, at).out->0.state;
        let key = upper(v[n - 1].symbol@);
        assert(st.positions == rows_without(before.positions, key));
        assert forall|i: int| 0 <= i < st.positions.len() implies b.state.positions.contains(
            #[trigger] st.positions[i],
        ) && forall|j: int|
            0 <= j < n ==> upper((#[trigger] v[j]).symbol@) != upper(st.positions[i].symbol@) by {
            before.positions.lemma_filter_pred(|p: Position| upper(p.symbol@) != key, i);
            before.positions.lemma_filter_contains_rev(
                |p: Position| upper(p.symbol@) != key,
                st.positions[i],
            );
        }
    }
}

/// Once vanished longs are cleared none is left: the next look at the same
/// snapshot finds nothing to clear.
pub proof fn law_vanished_longs_are_forgotten(
    w: World,
    log: Seq<Exchange>,
    cfg: ConfigView,
    s: MarketSnapshot,
    b: Book,
    at: StampView,
)
    requires
        sees_book(cfg, s),
        clear_vanished_run(w, log, cfg, s, b, at).out is Some,
    ensures
        vanished_longs((clear_vanished_run(w, log, cfg, s, b, at).out->0).0.state, s).len() == 0,
{
    let v = vanished_longs(b.state, s);
    let n: int = v.len() as int;
    lemma_vanish_thins(w, log, cfg, s, b, v, n, at);
    let st = vanish_run(w, log, cfg, s, b, v, n, at).out->0.state;
    if n > 0 {
        let known = b.state.positions + one_or_none(b.state.position);
        let left = st.positions + one_or_none(st.position);
        assert forall|i: int| 0 <= i < left.len() implies !(#[trigger] left[i]).is_open_long()
            || is_live_key(s, upper(left[i].symbol@)) by {
            let p = left[i];
            assert(st.positions.contains(p)) by {
                if i < st.positions.len() {
                    assert(st.positions[i] == p);
                } else {
                    assert(st.positions[0] == p);
                }
            }
            let k = choose|k: int| 0 <= k < st.positions.len() && st.positions[k] == p;
            assert(b.state.positions.contains(st.positions[k]));
            let o = choose|o: int| 0 <= o < b.state.positions.len() && b.state.positions[o] == p;
            assert(known[o] == p);
            if p.is_open_long() && !is_live_key(s, upper(p.symbol@)) {
                lemma_gone_covers(known, known.len() as int, s, o);
                let j = choose|j: int|
                    0 <= j < v.len() && upper((#[trigger] v[j]).symbol@) == upper(p.symbol@);
                assert(upper(v[j].symbol@) != upper(st.positions[k].symbol@));
            }
        }
        lemma_none_gone(left, left.len() as int, s);
    }
}

} // verus!

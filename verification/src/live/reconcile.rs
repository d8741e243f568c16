//! What is put right once per tick: longs that vanished, orders without a long,
//! shorts, and longs without protection.
use super::adopt::{
    cool_symbol, desk_pause_after_loss, drop_symbol, dropped, find_known, known_row, loss_paused,
    symbol_cooled, with_action, Book,
};
use super::book::{
    append_rows, append_slot, list_snapshot_rows, mark_or, mark_or_entry, one_or_none, snapshot_rows,
};
use super::orders::{
    already_protected, flatten_live_short, is_already_protected, short_run, undo_long, undo_run,
};
use super::flatten_sound_won;
use super::flatten_won;
use crate::config::load::{Config, ConfigView};
use crate::continuation::{default_continuation, for_interval, ContinuationParams};
use crate::dec::Dec;
use crate::errors::COOLDOWN_MS;
use crate::exchange::{protectives_sized, sell_protectives_are_sized};
use crate::flatten::{
    close_run, close_targets, label_symbol, nothing_closed, symbol_of_label, targets_of, FlattenResult,
    FlattenView,
};
use crate::journal::{
    close_won, keep_later, ledger_closed, ledger_flattened, long_close_was_win, put_later, Ledger,
    LedgerView, Stamp, StampView,
};
use crate::json::Json;
use crate::models::{
    open_long_rows, open_longs, EngineState, EngineStateView, MarketSnapshot, Position, Side,
};
use crate::sessions::{add_ms, clamp_ms};
use crate::signals::{flatten_kind, kind_for_flatten, TradeSignal};
use crate::symbols::SymSet;
use crate::text::{
    insert_in_order, join, joined, listed, own, put_in_order, same, trim, trimmed, upper, views,
};
use crate::trail::{
    candidate_stop, stop_behind, take_profit_net, take_profit_price_net, PriceView, TrailError,
};
use crate::wire::{ask, done, explains, rows, Call, Exchange, LiveClient, Run, Wire, World};
use vstd::prelude::*;
use vstd::string::StringExecFns;

verus! {

/// How long a long may stay without protection.
pub const REARM_FAIL_BUDGET_MS: i64 = 90_000;

/// How often protection may fail in a row.
pub const REARM_FAIL_MAX: u8 = 3;

/// Whether the desk trades and sees the exchange's book.
pub open spec fn sees_book(cfg: ConfigView, s: MarketSnapshot) -> bool {
    cfg.live && cfg.credentials is Some && s.live_book
}

fn on_live_book(cfg: &Config, s: &MarketSnapshot) -> (r: bool)
    ensures
        r == sees_book(cfg@, *s),
{
    cfg.live && cfg.credentials.is_some() && s.live_book
}

/// Whether the snapshot shows an open long under a key.
pub open spec fn is_live_key(s: MarketSnapshot, key: Seq<char>) -> bool {
    exists|i: int|
        0 <= i < snapshot_rows(s).len() && (#[trigger] snapshot_rows(s)[i]).is_open_long() && upper(
            snapshot_rows(s)[i].symbol@,
        ) == key
}

/// The keys of the open longs of a snapshot.
fn live_long_keys(s: &MarketSnapshot) -> (r: SymSet)
    ensures
        forall|key: Seq<char>| #[trigger] r@.contains(key) <==> is_live_key(*s, key),
{
    let rows: Vec<Position> = list_snapshot_rows(s);
    let mut out: SymSet = SymSet::new();
    let mut i: usize = 0;
    while i < rows.len()
        invariant
            i <= rows@.len(),
            rows@ == snapshot_rows(*s),
            forall|key: Seq<char>| #[trigger]
                out@.contains(key) <==> exists|j: int|
                    0 <= j < i && (#[trigger] rows@[j]).is_open_long() && upper(rows@[j].symbol@) == key,
        decreases rows@.len() - i,
    {
        let ghost before = out@;
        if rows[i].open_long() {
            let key = rows[i].symbol.as_str().to_ascii_uppercase();
            out.insert(key.as_str());
        }
        proof {
            assert forall|key: Seq<char>| #[trigger] out@.contains(key) <==> exists|j: int|
                0 <= j < i + 1 && (#[trigger] rows@[j]).is_open_long() && upper(rows@[j].symbol@)
                    == key by {
                if before.contains(key) {
                    let j = choose|j: int|
                        0 <= j < i && (#[trigger] rows@[j]).is_open_long() && upper(rows@[j].symbol@)
                            == key;
                    assert(rows@[j].is_open_long());
                }
                if out@.contains(key) && !before.contains(key) {
                    assert(rows@[i as int].is_open_long());
                }
                if exists|j: int|
                    0 <= j < i + 1 && (#[trigger] rows@[j]).is_open_long() && upper(rows@[j].symbol@)
                        == key {
                    let j = choose|j: int|
                        0 <= j < i + 1 && (#[trigger] rows@[j]).is_open_long() && upper(
                            rows@[j].symbol@,
                        ) == key;
                    if j < i {
                        assert(before.contains(key));
                    }
                }
            }
        }
        i = i + 1;
    }
    out
}

/// Whether some row has a key.
pub open spec fn has_row_key(v: Seq<Position>, key: Seq<char>) -> bool {
    exists|i: int| 0 <= i < v.len() && upper((#[trigger] v[i]).symbol@) == key
}

fn holds_row_key(v: &[Position], key: &str) -> (r: bool)
    ensures
        r == has_row_key(v@, key@),
{
    let mut i: usize = 0;
    while i < v.len()
        invariant
            i <= v@.len(),
            forall|j: int| 0 <= j < i ==> upper((#[trigger] v@[j]).symbol@) != key@,
        decreases v@.len() - i,
    {
        let up = v[i].symbol.as_str().to_ascii_uppercase();
        if same(up.as_str(), key) {
            return true;
        }
        i = i + 1;
    }
    false
}

/// The first `n` remembered longs that the snapshot no longer shows, each key
/// once.
pub open spec fn gone_longs(v: Seq<Position>, n: int, s: MarketSnapshot) -> Seq<Position>
    decreases n,
{
    if n <= 0 {
        Seq::empty()
    } else {
        let rest = gone_longs(v, n - 1, s);
        let p = v[n - 1];
        if p.is_open_long() && !has_row_key(rest, upper(p.symbol@)) && !is_live_key(
            s,
            upper(p.symbol@),
        ) {
            rest.push(p)
        } else {
            rest
        }
    }
}

/// The longs that the state remembers and the snapshot no longer shows.
pub open spec fn vanished_longs(st: EngineStateView, s: MarketSnapshot) -> Seq<Position> {
    let known = st.positions + one_or_none(st.position);
    gone_longs(known, known.len() as int, s)
}

fn list_vanished(state: &EngineState, s: &MarketSnapshot) -> (r: Vec<Position>)
    ensures
        r@ == vanished_longs(state@, *s),
{
    let live: SymSet = live_long_keys(s);
    let mut known: Vec<Position> = Vec::new();
    append_rows(&mut known, state.positions.as_slice());
    append_slot(&mut known, &state.position);
    proof {
        assert(known@ =~= state@.positions + one_or_none(state@.position));
    }
    let mut out: Vec<Position> = Vec::new();
    let mut i: usize = 0;
    while i < known.len()
        invariant
            i <= known@.len(),
            forall|key: Seq<char>| #[trigger] live@.contains(key) <==> is_live_key(*s, key),
            out@ == gone_longs(known@, i as int, *s),
        decreases known@.len() - i,
    {
        let p: &Position = &known[i];
        if p.open_long() {
            let key = p.symbol.as_str().to_ascii_uppercase();
            if !holds_row_key(out.as_slice(), key.as_str()) && !live.contains(key.as_str()) {
                out.push(p.clone());
            }
        }
        i = i + 1;
    }
    out
}

/// What one vanished long leaves: its protective orders go, its close is
/// recorded, and it is forgotten.
pub open spec fn vanish_one(
    w: World,
    log: Seq<Exchange>,
    cfg: ConfigView,
    s: MarketSnapshot,
    b: Book,
    p: Position,
    at: StampView,
) -> Run<Option<Book>> {
    let a = ask(w, log, Call::CancelProtectives { symbol: p.symbol@ });
    let px = mark_or(s, p.symbol@, p.entry_price);
    Run {
        log: a.log,
        out: match close_won(p.entry_price, px, p.take_profit) {
            None => None,
            Some(won) => match ledger_closed(
                b.ledger,
                at,
                b.state.strategy_id,
                p.symbol@,
                p.qty,
                p.entry_price,
                px,
                if won {
                    "биржа закрыла лонг по TP"@
                } else {
                    "биржа закрыла лонг"@
                },
                cfg.live,
                p.stop_loss,
                p.take_profit,
                false,
            ) {
                None => None,
                Some(ledger) => {
                    let cooled = symbol_cooled(b.state, p.symbol@, at.now as int, won);
                    let paused = if won {
                        cooled
                    } else {
                        loss_paused(cfg, cooled, at.now as int)
                    };
                    Some(
                        Book {
                            state: dropped(
                                with_action(
                                    paused,
                                    at.now,
                                    "снял TP/SL после закрытия "@ + p.symbol@,
                                ),
                                p.symbol@,
                            ),
                            ledger,
                        },
                    )
                },
            },
        },
    }
}

fn clear_one_vanished<C: LiveClient>(
    cfg: &Config,
    wire: &mut Wire<C>,
    state: &mut EngineState,
    ledger: &mut Ledger,
    snapshot: &MarketSnapshot,
    p: &Position,
    at: &Stamp,
) -> (r: Option<()>)
    ensures
        forall|w: World| #[trigger]
            explains(w, final(wire).log()) ==> explains(w, old(wire).log()) && vanish_one(
                w,
                old(wire).log(),
                cfg@,
                *snapshot,
                Book { state: old(state)@, ledger: old(ledger)@ },
                *p,
                at@,
            ) == (Run {
                log: final(wire).log(),
                out: match r {
                    Some(_) => Some(Book { state: final(state)@, ledger: final(ledger)@ }),
                    None => None,
                },
            }),
{
    let symbol: &str = p.symbol.as_str();
    let _ = wire.cancel_protectives(symbol);
    let px: Dec = mark_or_entry(snapshot, symbol, p.entry_price);
    let won: bool = long_close_was_win(p.entry_price, px, p.take_profit)?;
    ledger.close(
        at,
        state.strategy_id,
        symbol,
        p.qty,
        p.entry_price,
        px,
        if won {
            "биржа закрыла лонг по TP"
        } else {
            "биржа закрыла лонг"
        },
        cfg.live,
        p.stop_loss,
        p.take_profit,
        false,
    )?;
    cool_symbol(state, symbol, at.now, won);
    if !won {
        desk_pause_after_loss(cfg, state, at.now);
    }
    let mut text = own("снял TP/SL после закрытия ");
    text.append(symbol);
    state.push_action(at.now, text);
    drop_symbol(state, symbol);
    Some(())
}

/// The symbols of rows.
pub open spec fn row_symbols(v: Seq<Position>) -> Seq<Seq<char>> {
    Seq::new(v.len(), |i: int| v[i].symbol@)
}

/// What the first `n` vanished longs leave.
pub open spec fn vanish_run(
    w: World,
    log: Seq<Exchange>,
    cfg: ConfigView,
    s: MarketSnapshot,
    b: Book,
    v: Seq<Position>,
    n: int,
    at: StampView,
) -> Run<Option<Book>>
    decreases n,
{
    if n <= 0 {
        Run { log, out: Some(b) }
    } else {
        let a = vanish_run(w, log, cfg, s, b, v, n - 1, at);
        match a.out {
            None => a,
            Some(b1) => vanish_one(w, a.log, cfg, s, b1, v[n - 1], at),
        }
    }
}

proof fn lemma_vanish_none(
    w: World,
    log: Seq<Exchange>,
    cfg: ConfigView,
    s: MarketSnapshot,
    b: Book,
    v: Seq<Position>,
    n: int,
    m: int,
    at: StampView,
)
    requires
        0 <= n <= m,
        vanish_run(w, log, cfg, s, b, v, n, at).out is None,
    ensures
        vanish_run(w, log, cfg, s, b, v, m, at) == vanish_run(w, log, cfg, s, b, v, n, at),
    decreases m - n,
{
    if n < m {
        lemma_vanish_none(w, log, cfg, s, b, v, n, m - 1, at);
    }
}

/// Vanished longs: what is asked, the book after it, and which they were.
pub open spec fn clear_vanished_run(
    w: World,
    log: Seq<Exchange>,
    cfg: ConfigView,
    s: MarketSnapshot,
    b: Book,
    at: StampView,
) -> Run<Option<(Book, Seq<Seq<char>>)>> {
    if !sees_book(cfg, s) {
        Run { log, out: Some((b, Seq::empty())) }
    } else {
        let v = vanished_longs(b.state, s);
        let a = vanish_run(w, log, cfg, s, b, v, v.len() as int, at);
        Run {
            log: a.log,
            out: match a.out {
                Some(next) => Some((next, row_symbols(v))),
                None => None,
            },
        }
    }
}

/// The book and the names of a step that may have failed.
pub open spec fn step_view(
    r: Option<Vec<String>>,
    state: EngineStateView,
    ledger: LedgerView,
) -> Option<(Book, Seq<Seq<char>>)> {
    match r {
        Some(v) => Some((Book { state, ledger }, views(v@))),
        None => None,
    }
}

/// When the exchange closed a long, its leftover orders go before they open a
/// short.
pub fn clear_vanished_longs<C: LiveClient>(
    cfg: &Config,
    wire: &mut Wire<C>,
    state: &mut EngineState,
    ledger: &mut Ledger,
    snapshot: &MarketSnapshot,
    at: &Stamp,
) -> (r: Option<Vec<String>>)
    ensures
        forall|w: World| #[trigger]
            explains(w, final(wire).log()) ==> explains(w, old(wire).log()) && clear_vanished_run(
                w,
                old(wire).log(),
                cfg@,
                *snapshot,
                Book { state: old(state)@, ledger: old(ledger)@ },
                at@,
            ) == (Run {
                log: final(wire).log(),
                out: step_view(r, final(state)@, final(ledger)@),
            }),
{
    let mut cleared: Vec<String> = Vec::new();
    if !on_live_book(cfg, snapshot) {
        proof {
            assert(views(cleared@) =~= Seq::<Seq<char>>::empty());
        }
        return Some(cleared);
    }
    let gone: Vec<Position> = list_vanished(state, snapshot);
    let ghost start = wire.log();
    let ghost b = Book { state: state@, ledger: ledger@ };
    let ghost names = row_symbols(gone@);
    let mut i: usize = 0;
    proof {
        assert(views(cleared@) =~= names.take(0));
    }
    while i < gone.len()
        invariant
            i <= gone@.len(),
            sees_book(cfg@, *snapshot),
            start == old(wire).log(),
            b == (Book { state: old(state)@, ledger: old(ledger)@ }),
            gone@ == vanished_longs(b.state, *snapshot),
            names == row_symbols(gone@),
            views(cleared@) == names.take(i as int),
            forall|w: World| #[trigger]
                explains(w, wire.log()) ==> explains(w, start) && vanish_run(
                    w,
                    start,
                    cfg@,
                    *snapshot,
                    b,
                    gone@,
                    i as int,
                    at@,
                ) == (Run {
                    log: wire.log(),
                    out: Some(Book { state: state@, ledger: ledger@ }),
                }),
        decreases gone@.len() - i,
    {
        let p: &Position = &gone[i];
        let step: Option<()> = clear_one_vanished(cfg, wire, state, ledger, snapshot, p, at);
        if step.is_none() {
            proof {
                assert forall|w: World| #[trigger] explains(w, wire.log()) implies explains(
                    w,
                    start,
                ) && vanish_run(w, start, cfg@, *snapshot, b, gone@, gone@.len() as int, at@) == (Run {
                    log: wire.log(),
                    out: None::<Book>,
                }) by {
                    lemma_vanish_none(
                        w,
                        start,
                        cfg@,
                        *snapshot,
                        b,
                        gone@,
                        i as int + 1,
                        gone@.len() as int,
                        at@,
                    );
                }
            }
            return None;
        }
        let ghost prior = views(cleared@);
        cleared.push(own(p.symbol.as_str()));
        proof {
            assert(views(cleared@) =~= prior.push(p.symbol@));
            assert(names.take(i as int + 1) =~= names.take(i as int).push(names[i as int]));
        }
        i = i + 1;
    }
    proof {
        assert(names.take(i as int) =~= names);
    }
    Some(cleared)
}

/// A text put into an ordered list that holds each once.
pub open spec fn put_once(v: Seq<Seq<char>>, x: Seq<char>) -> Seq<Seq<char>> {
    if v.contains(x) {
        v
    } else {
        put_in_order(v, x)
    }
}

fn insert_once(v: &mut Vec<String>, x: String)
    ensures
        views(final(v)@) == put_once(views(old(v)@), x@),
{
    if !listed(v.as_slice(), x.as_str()) {
        insert_in_order(v, x);
    }
}

/// The symbol of an order row.
pub open spec fn order_symbol(row: Json) -> Option<Seq<char>> {
    match row.text_at("symbol"@) {
        Some(t) => if trimmed(t).len() == 0 {
            None
        } else {
            Some(upper(trimmed(t)))
        },
        None => None,
    }
}

/// The symbols of the first `n` order rows, in order and each once.
pub open spec fn order_symbols(v: Seq<Seq<char>>, orders: Seq<Json>, n: int) -> Seq<Seq<char>>
    decreases n,
{
    if n <= 0 {
        v
    } else {
        let rest = order_symbols(v, orders, n - 1);
        match order_symbol(orders[n - 1]) {
            Some(x) => put_once(rest, x),
            None => rest,
        }
    }
}

fn collect_order_symbols(v: &mut Vec<String>, orders: &[Json])
    ensures
        views(final(v)@) == order_symbols(views(old(v)@), orders@, orders@.len() as int),
{
    let ghost start = views(v@);
    let mut i: usize = 0;
    while i < orders.len()
        invariant
            i <= orders@.len(),
            views(v@) == order_symbols(start, orders@, i as int),
        decreases orders@.len() - i,
    {
        if let Some(t) = orders[i].get_text("symbol") {
            let name: &str = trim(t);
            if !name.is_empty() {
                insert_once(v, name.to_ascii_uppercase());
            }
        }
        i = i + 1;
    }
}

/// The keys of the first `n` rows that name a symbol, in order and each once.
pub open spec fn keys_put(v: Seq<Seq<char>>, known: Seq<Position>, n: int) -> Seq<Seq<char>>
    decreases n,
{
    if n <= 0 {
        v
    } else {
        let rest = keys_put(v, known, n - 1);
        if known[n - 1].symbol@.len() > 0 {
            put_once(rest, upper(known[n - 1].symbol@))
        } else {
            rest
        }
    }
}

fn put_keys(v: &mut Vec<String>, known: &[Position])
    ensures
        views(final(v)@) == keys_put(views(old(v)@), known@, known@.len() as int),
{
    let ghost start = views(v@);
    let mut i: usize = 0;
    while i < known.len()
        invariant
            i <= known@.len(),
            views(v@) == keys_put(start, known@, i as int),
        decreases known@.len() - i,
    {
        if !known[i].symbol.as_str().is_empty() {
            insert_once(v, known[i].symbol.as_str().to_ascii_uppercase());
        }
        i = i + 1;
    }
}

/// The symbols that are looked at one by one where the account cannot be listed.
pub open spec fn probe_symbols(s: MarketSnapshot, st: EngineStateView) -> Seq<Seq<char>> {
    let known = s.open_positions@ + st.positions + one_or_none(s.position) + one_or_none(st.position);
    let a = keys_put(Seq::empty(), known, known.len() as int);
    let b = if s.chart_symbol@.len() > 0 {
        put_once(a, upper(s.chart_symbol@))
    } else {
        a
    };
    put_once(put_once(put_once(b, "BTCUSDT"@), "ETHUSDT"@), "SOLUSDT"@)
}

fn probe_orphan_symbols(s: &MarketSnapshot, state: &EngineState) -> (r: Vec<String>)
    ensures
        views(r@) == probe_symbols(*s, state@),
{
    let mut known: Vec<Position> = Vec::new();
    append_rows(&mut known, s.open_positions.as_slice());
    append_rows(&mut known, state.positions.as_slice());
    append_slot(&mut known, &s.position);
    append_slot(&mut known, &state.position);
    proof {
        assert(known@ =~= s.open_positions@ + state@.positions + one_or_none(s.position)
            + one_or_none(state@.position));
    }
    let mut out: Vec<String> = Vec::new();
    proof {
        assert(views(out@) =~= Seq::<Seq<char>>::empty());
    }
    put_keys(&mut out, known.as_slice());
    if !s.chart_symbol.as_str().is_empty() {
        insert_once(&mut out, s.chart_symbol.as_str().to_ascii_uppercase());
    }
    insert_once(&mut out, own("BTCUSDT"));
    insert_once(&mut out, own("ETHUSDT"));
    insert_once(&mut out, own("SOLUSDT"));
    out
}

/// Looks at the first `n` symbols one by one: those without a live long that
/// have orders.
pub open spec fn probe_run(
    w: World,
    log: Seq<Exchange>,
    s: MarketSnapshot,
    names: Seq<Seq<char>>,
    n: int,
) -> Run<Seq<Seq<char>>>
    decreases n,
{
    if n <= 0 {
        Run { log, out: Seq::empty() }
    } else {
        let a = probe_run(w, log, s, names, n - 1);
        let name = names[n - 1];
        if is_live_key(s, name) {
            a
        } else {
            let b = ask(w, a.log, Call::OpenAlgoOrders { symbol: Some(name) });
            let c = ask(w, b.log, Call::OpenOrders { symbol: Some(name) });
            let some = (rows(b.out) is Ok && rows(b.out)->Ok_0.len() > 0) || (rows(c.out) is Ok && rows(
                c.out,
            )->Ok_0.len() > 0);
            Run {
                log: c.log,
                out: if some {
                    put_once(a.out, name)
                } else {
                    a.out
                },
            }
        }
    }
}

fn probe_all<C: LiveClient>(wire: &mut Wire<C>, s: &MarketSnapshot, live: &SymSet, names: &[String]) -> (r:
    Vec<String>)
    requires
        forall|key: Seq<char>| #[trigger] live@.contains(key) <==> is_live_key(*s, key),
    ensures
        forall|w: World| #[trigger]
            explains(w, final(wire).log()) ==> explains(w, old(wire).log()) && probe_run(
                w,
                old(wire).log(),
                *s,
                views(names@),
                names@.len() as int,
            ) == (Run { log: final(wire).log(), out: views(r@) }),
{
    let ghost start = wire.log();
    let ghost all = views(names@);
    let mut out: Vec<String> = Vec::new();
    let mut i: usize = 0;
    proof {
        assert(views(out@) =~= Seq::<Seq<char>>::empty());
    }
    while i < names.len()
        invariant
            i <= names@.len(),
            all == views(names@),
            forall|key: Seq<char>| #[trigger] live@.contains(key) <==> is_live_key(*s, key),
            forall|w: World| #[trigger]
                explains(w, wire.log()) ==> explains(w, start) && probe_run(
                    w,
                    start,
                    *s,
                    all,
                    i as int,
                ) == (Run { log: wire.log(), out: views(out@) }),
        decreases names@.len() - i,
    {
        let name: &str = names[i].as_str();
        proof {
            assert(all[i as int] == name@);
        }
        if !live.contains(name) {
            let algos: bool = match wire.open_algo_orders(Some(name)) {
                Ok(v) => v.len() > 0,
                Err(_) => false,
            };
            let orders: bool = match wire.open_orders(Some(name)) {
                Ok(v) => v.len() > 0,
                Err(_) => false,
            };
            if algos || orders {
                insert_once(&mut out, own(name));
            }
        }
        i = i + 1;
    }
    out
}

/// The symbols that have orders: by the account's lists, or one by one where
/// neither list can be had.
pub open spec fn leftover_run(w: World, log: Seq<Exchange>, s: MarketSnapshot, st: EngineStateView) -> Run<
    Seq<Seq<char>>,
> {
    let a = ask(w, log, Call::OpenAlgoOrders { symbol: None });
    let b = ask(w, a.log, Call::OpenOrders { symbol: None });
    let first = match rows(a.out) {
        Ok(v) => order_symbols(Seq::empty(), v, v.len() as int),
        Err(_) => Seq::empty(),
    };
    let second = match rows(b.out) {
        Ok(v) => order_symbols(first, v, v.len() as int),
        Err(_) => first,
    };
    if rows(a.out) is Ok || rows(b.out) is Ok {
        Run { log: b.log, out: second }
    } else {
        let names = probe_symbols(s, st);
        probe_run(w, b.log, s, names, names.len() as int)
    }
}

fn find_leftover<C: LiveClient>(
    wire: &mut Wire<C>,
    s: &MarketSnapshot,
    state: &EngineState,
    live: &SymSet,
) -> (r: Vec<String>)
    requires
        forall|key: Seq<char>| #[trigger] live@.contains(key) <==> is_live_key(*s, key),
    ensures
        forall|w: World| #[trigger]
            explains(w, final(wire).log()) ==> explains(w, old(wire).log()) && leftover_run(
                w,
                old(wire).log(),
                *s,
                state@,
            ) == (Run { log: final(wire).log(), out: views(r@) }),
{
    let mut out: Vec<String> = Vec::new();
    let mut listed_ok: bool = false;
    proof {
        assert(views(out@) =~= Seq::<Seq<char>>::empty());
    }
    if let Ok(v) = wire.open_algo_orders(None) {
        collect_order_symbols(&mut out, v.as_slice());
        listed_ok = true;
    }
    if let Ok(v) = wire.open_orders(None) {
        collect_order_symbols(&mut out, v.as_slice());
        listed_ok = true;
    }
    if listed_ok {
        return out;
    }
    let names: Vec<String> = probe_orphan_symbols(s, state);
    proof {
        assert(views(names@).len() == names@.len());
    }
    probe_all(wire, s, live, names.as_slice())
}

/// The names without a live long.
pub open spec fn without_live(v: Seq<Seq<char>>, s: MarketSnapshot) -> Seq<Seq<char>> {
    v.filter(|x: Seq<char>| !is_live_key(s, x))
}

fn drop_live(v: &[String], s: &MarketSnapshot, live: &SymSet) -> (r: Vec<String>)
    requires
        forall|key: Seq<char>| #[trigger] live@.contains(key) <==> is_live_key(*s, key),
    ensures
        views(r@) == without_live(views(v@), *s),
{
    let ghost all = views(v@);
    let ghost test = |x: Seq<char>| !is_live_key(*s, x);
    let mut out: Vec<String> = Vec::new();
    let mut i: usize = 0;
    proof {
        reveal(Seq::filter);
        assert(views(out@) =~= all.take(0).filter(test));
    }
    while i < v.len()
        invariant
            i <= v@.len(),
            all == views(v@),
            test == (|x: Seq<char>| !is_live_key(*s, x)),
            forall|key: Seq<char>| #[trigger] live@.contains(key) <==> is_live_key(*s, key),
            views(out@) == all.take(i as int).filter(test),
        decreases v@.len() - i,
    {
        proof {
            reveal(Seq::filter);
            assert(all.take(i as int + 1).drop_last() =~= all.take(i as int));
        }
        let name: &str = v[i].as_str();
        if !live.contains(name) {
            let ghost prior = views(out@);
            out.push(own(name));
            proof {
                assert(views(out@) =~= prior.push(all[i as int]));
            }
        }
        i = i + 1;
    }
    proof {
        assert(all.take(i as int) =~= all);
    }
    out
}

/// Takes the orders of the first `n` names off.
pub open spec fn orphans_run(
    w: World,
    log: Seq<Exchange>,
    st: EngineStateView,
    names: Seq<Seq<char>>,
    n: int,
    now: i64,
) -> Run<EngineStateView>
    decreases n,
{
    if n <= 0 {
        Run { log, out: st }
    } else {
        let a = orphans_run(w, log, st, names, n - 1, now);
        let b = ask(w, a.log, Call::CancelProtectives { symbol: names[n - 1] });
        Run { log: b.log, out: with_action(a.out, now, "снял сиротский стоп: "@ + names[n - 1]) }
    }
}

/// Orders without a long: what is asked, the state after it, and which they
/// were.
pub open spec fn clear_orphans_run(
    w: World,
    log: Seq<Exchange>,
    cfg: ConfigView,
    s: MarketSnapshot,
    st: EngineStateView,
    now: i64,
) -> Run<(EngineStateView, Seq<Seq<char>>)> {
    if !sees_book(cfg, s) {
        Run { log, out: (st, Seq::empty()) }
    } else {
        let a = leftover_run(w, log, s, st);
        let names = without_live(a.out, s);
        let b = orphans_run(w, a.log, st, names, names.len() as int, now);
        Run { log: b.log, out: (b.out, names) }
    }
}

/// Takes off the protective orders of symbols without a long, also after a
/// restart, when the state no longer remembers the long.
pub fn clear_orphan_protectives<C: LiveClient>(
    cfg: &Config,
    wire: &mut Wire<C>,
    state: &mut EngineState,
    snapshot: &MarketSnapshot,
    now: i64,
) -> (r: Vec<String>)
    ensures
        forall|w: World| #[trigger]
            explains(w, final(wire).log()) ==> explains(w, old(wire).log()) && clear_orphans_run(
                w,
                old(wire).log(),
                cfg@,
                *snapshot,
                old(state)@,
                now,
            ) == (Run { log: final(wire).log(), out: (final(state)@, views(r@)) }),
{
    if !on_live_book(cfg, snapshot) {
        let r: Vec<String> = Vec::new();
        proof {
            assert(views(r@) =~= Seq::<Seq<char>>::empty());
        }
        return r;
    }
    let live: SymSet = live_long_keys(snapshot);
    let found: Vec<String> = find_leftover(wire, snapshot, state, &live);
    let names: Vec<String> = drop_live(found.as_slice(), snapshot, &live);
    let ghost start = wire.log();
    let ghost all = views(names@);
    let ghost st = state@;
    let mut i: usize = 0;
    proof {
        assert(all.len() == names@.len());
    }
    while i < names.len()
        invariant
            i <= names@.len(),
            all == views(names@),
            forall|w: World| #[trigger]
                explains(w, wire.log()) ==> explains(w, start) && orphans_run(
                    w,
                    start,
                    st,
                    all,
                    i as int,
                    now,
                ) == (Run { log: wire.log(), out: state@ }),
        decreases names@.len() - i,
    {
        let name: &str = names[i].as_str();
        proof {
            assert(all[i as int] == name@);
        }
        let _ = wire.cancel_protectives(name);
        let mut text = own("снял сиротский стоп: ");
        text.append(name);
        state.push_action(now, text);
        i = i + 1;
    }
    names
}

/// The open shorts of a snapshot: those of the book, and the slot's where the
/// book has none of its symbol.
pub open spec fn open_shorts(s: MarketSnapshot) -> Seq<Position> {
    let listed = s.open_positions@.filter(|p: Position| p.side == Side::Short && p.qty.pos());
    match s.position {
        Some(p) => if p.side == Side::Short && p.qty.pos() && crate::models::with_symbol(
            listed,
            p.symbol@,
        ) is None {
            listed.push(p)
        } else {
            listed
        },
        None => listed,
    }
}

fn list_shorts(s: &MarketSnapshot) -> (r: Vec<Position>)
    ensures
        r@ == open_shorts(*s),
{
    let ghost test = |p: Position| p.side == Side::Short && p.qty.pos();
    let ghost all = s.open_positions@;
    let mut out: Vec<Position> = Vec::new();
    let mut i: usize = 0;
    proof {
        reveal(Seq::filter);
        assert(all.take(0).filter(test) =~= Seq::<Position>::empty());
    }
    while i < s.open_positions.len()
        invariant
            i <= s.open_positions@.len(),
            all == s.open_positions@,
            test == (|p: Position| p.side == Side::Short && p.qty.pos()),
            out@ == all.take(i as int).filter(test),
        decreases s.open_positions@.len() - i,
    {
        proof {
            reveal(Seq::filter);
            assert(all.take(i as int + 1).drop_last() =~= all.take(i as int));
        }
        let p: &Position = &s.open_positions[i];
        if p.side == Side::Short && p.qty.is_pos() {
            out.push(p.clone());
        }
        i = i + 1;
    }
    proof {
        assert(all.take(i as int) =~= all);
    }
    if let Some(p) = &s.position {
        if p.side == Side::Short && p.qty.is_pos() && crate::models::find_symbol(
            out.as_slice(),
            p.symbol.as_str(),
        ).is_none() {
            out.push(p.clone());
        }
    }
    out
}

/// The state once the first `n` closed shorts are paused and forgotten.
pub open spec fn shorts_dropped(st: EngineStateView, closed: Seq<Seq<char>>, n: int, now: int) -> EngineStateView
    decreases n,
{
    if n <= 0 {
        st
    } else {
        let a = shorts_dropped(st, closed, n - 1, now);
        let symbol = label_symbol(closed[n - 1]);
        dropped(
            EngineStateView {
                cooldowns: put_later(a.cooldowns, upper(symbol), clamp_ms(now + COOLDOWN_MS)),
                ..a
            },
            symbol,
        )
    }
}

fn drop_shorts(state: &mut EngineState, closed: &[String], now: i64)
    ensures
        final(state)@ == shorts_dropped(
            old(state)@,
            views(closed@),
            closed@.len() as int,
            now as int,
        ),
{
    let ghost all = views(closed@);
    let ghost st = state@;
    let mut i: usize = 0;
    while i < closed.len()
        invariant
            i <= closed@.len(),
            all == views(closed@),
            state@ == shorts_dropped(st, all, i as int, now as int),
        decreases closed@.len() - i,
    {
        proof {
            assert(all[i as int] == closed@[i as int]@);
        }
        let symbol = symbol_of_label(closed[i].as_str());
        let key = symbol.as_str().to_ascii_uppercase();
        keep_later(&mut state.cooldowns, key.as_str(), add_ms(now, COOLDOWN_MS));
        drop_symbol(state, symbol.as_str());
        i = i + 1;
    }
}

/// What a sweep of shorts comes to.
pub struct Sweep {
    pub book: Book,
    pub result: FlattenView,
    pub kind: Option<TradeSignal>,
}

/// A sweep of shorts.
pub open spec fn sweep_run(
    w: World,
    log: Seq<Exchange>,
    cfg: ConfigView,
    s: MarketSnapshot,
    b: Book,
    at: StampView,
) -> Run<Option<Sweep>> {
    let shorts = open_shorts(s);
    if !sees_book(cfg, s) || shorts.len() == 0 {
        Run { log, out: Some(Sweep { book: b, result: nothing_closed(), kind: None }) }
    } else {
        let a = close_run(w, log, targets_of(shorts), targets_of(shorts).len() as int);
        let r = a.out;
        let swept = if r.closed.len() == 0 {
            Some(b)
        } else {
            let st1 = with_action(
                shorts_dropped(b.state, r.closed, r.closed.len() as int, at.now as int),
                at.now,
                "закрыл чужой шорт: "@ + joined(r.closed, ", "@),
            );
            match ledger_flattened(
                b.ledger,
                at,
                st1.strategy_id,
                r.closed,
                cfg.live,
                "закрыл чужой шорт"@,
            ) {
                None => None,
                Some(ledger) => Some(
                    Book {
                        state: if r.errors.len() == 0 {
                            EngineStateView { last_error: None, ..st1 }
                        } else {
                            st1
                        },
                        ledger,
                    },
                ),
            }
        };
        Run {
            log: a.log,
            out: match swept {
                None => None,
                Some(next) => Some(
                    Sweep {
                        book: if r.errors.len() > 0 {
                            Book {
                                state: EngineStateView { last_error: r.error(), ..next.state },
                                ..next
                            }
                        } else {
                            next
                        },
                        result: r,
                        kind: flatten_kind(r, flatten_won(r.closed, shorts)),
                    },
                ),
            },
        }
    }
}

/// Closes leftover shorts: the desk is long-only.
pub fn sweep_rogue_shorts<C: LiveClient>(
    cfg: &Config,
    wire: &mut Wire<C>,
    state: &mut EngineState,
    ledger: &mut Ledger,
    snapshot: &MarketSnapshot,
    at: &Stamp,
) -> (r: Option<(FlattenResult, Option<TradeSignal>)>)
    ensures
        forall|w: World| #[trigger]
            explains(w, final(wire).log()) ==> explains(w, old(wire).log()) && sweep_run(
                w,
                old(wire).log(),
                cfg@,
                *snapshot,
                Book { state: old(state)@, ledger: old(ledger)@ },
                at@,
            ) == (Run {
                log: final(wire).log(),
                out: match r {
                    Some((x, kind)) => Some(
                        Sweep {
                            book: Book { state: final(state)@, ledger: final(ledger)@ },
                            result: x@,
                            kind,
                        },
                    ),
                    None => None,
                },
            }),
{
    if !on_live_book(cfg, snapshot) {
        return Some((FlattenResult::default(), None));
    }
    let shorts: Vec<Position> = list_shorts(snapshot);
    if shorts.len() == 0 {
        return Some((FlattenResult::default(), None));
    }
    let result: FlattenResult = close_targets(wire, shorts.as_slice());
    proof {
        assert(result@.closed.len() == result.closed@.len());
        assert(result@.errors.len() == result.errors@.len());
    }
    if result.closed.len() > 0 {
        drop_shorts(state, result.closed.as_slice(), at.now);
        let mut text = own("закрыл чужой шорт: ");
        text.append(join(result.closed.as_slice(), ", ").as_str());
        state.push_action(at.now, text);
        ledger.flatten(
            at,
            state.strategy_id,
            result.closed.as_slice(),
            cfg.live,
            "закрыл чужой шорт",
        );
        if result.errors.len() == 0 {
            state.last_error = None;
        }
    }
    if result.errors.len() > 0 {
        state.last_error = result.error();
    }
    let won: Option<bool> = flatten_sound_won(result.closed.as_slice(), shorts.as_slice());
    let kind: Option<TradeSignal> = kind_for_flatten(&result, won);
    Some((result, kind))
}

/// The state once a failed protection is counted.
pub open spec fn rearm_counted(st: EngineStateView, key: Seq<char>, now: i64) -> EngineStateView {
    let count = if st.rearm_fail_count.contains_key(key) {
        st.rearm_fail_count[key]
    } else {
        0
    };
    EngineStateView {
        rearm_miss_since: if st.rearm_miss_since.contains_key(key) {
            st.rearm_miss_since
        } else {
            st.rearm_miss_since.insert(key, now)
        },
        rearm_fail_count: st.rearm_fail_count.insert(
            key,
            if count == 255 {
                255
            } else {
                (count + 1) as u8
            },
        ),
        ..st
    }
}

/// Whether protection has failed too often or for too long.
pub open spec fn rearm_exhausted(st: EngineStateView, key: Seq<char>, now: int) -> bool {
    let since = if st.rearm_miss_since.contains_key(key) {
        st.rearm_miss_since[key] as int
    } else {
        now
    };
    rearm_counted(st, key, now as i64).rearm_fail_count[key] >= REARM_FAIL_MAX || now - since
        >= REARM_FAIL_BUDGET_MS
}

/// Counts a failed protection. Says whether it failed too often or for too long.
fn note_rearm_failure(state: &mut EngineState, key: &str, now: i64) -> (r: bool)
    ensures
        final(state)@ == rearm_counted(old(state)@, key@, now),
        r == rearm_exhausted(old(state)@, key@, now as int),
{
    let since: i64 = match state.rearm_miss_since.get(key) {
        Some(t) => *t,
        None => {
            state.rearm_miss_since.insert(key, now);
            now
        },
    };
    let count: u8 = match state.rearm_fail_count.get(key) {
        Some(n) => if *n == 255 {
            255
        } else {
            *n + 1
        },
        None => 1,
    };
    state.rearm_fail_count.insert(key, count);
    count >= REARM_FAIL_MAX || (now as i128) - (since as i128) >= (REARM_FAIL_BUDGET_MS as i128)
}

/// The state once a long is protected.
pub open spec fn protected(st: EngineStateView, key: Seq<char>) -> EngineStateView {
    EngineStateView {
        rearm_miss_since: st.rearm_miss_since.remove(key),
        rearm_fail_count: st.rearm_fail_count.remove(key),
        sized_stops: st.sized_stops.insert(key),
        ..st
    }
}

fn mark_protected(state: &mut EngineState, key: &str)
    ensures
        final(state)@ == protected(old(state)@, key@),
{
    state.rearm_miss_since.remove(key);
    state.rearm_fail_count.remove(key);
    state.sized_stops.insert(key);
}

/// A stop and a take-profit from the entry alone.
pub open spec fn prices_from_entry(cfg: ConfigView, p: Position) -> Option<Option<(Dec, Dec)>> {
    if !p.entry_price.pos() {
        Some(None)
    } else {
        match stop_behind(
            p.entry_price,
            "LONG"@,
            for_interval(default_continuation(), cfg.s4_interval).min_stop_pct,
        ) {
            PriceView::Overflow => None,
            PriceView::Price(sl) => match take_profit_net(p.entry_price, "LONG"@, cfg.tp_pct) {
                PriceView::Overflow => None,
                PriceView::Price(tp) => Some(
                    if !sl.pos() || tp.le(sl) {
                        None
                    } else {
                        Some((sl, tp))
                    },
                ),
                _ => Some(None),
            },
            _ => Some(None),
        }
    }
}

fn derive_protectives_from_entry(cfg: &Config, p: &Position) -> (r: Option<Option<(Dec, Dec)>>)
    ensures
        r == prices_from_entry(cfg@, *p),
{
    if !p.entry_price.is_pos() {
        return Some(None);
    }
    let params: ContinuationParams = ContinuationParams::default().with_interval(cfg.s4_interval);
    let sl: Dec = match candidate_stop(p.entry_price, "LONG", params.min_stop_pct) {
        Ok(d) => d,
        Err(TrailError::Overflow) => return None,
        Err(_) => return Some(None),
    };
    let tp: Dec = match take_profit_price_net(p.entry_price, "LONG", cfg.tp_pct) {
        Ok(d) => d,
        Err(TrailError::Overflow) => return None,
        Err(_) => return Some(None),
    };
    if !sl.is_pos() || tp <= sl {
        return Some(None);
    }
    Some(Some((sl, tp)))
}

/// The prices that a long is to be protected at: its own, then what is
/// remembered, then from its entry.
pub open spec fn wanted_prices(cfg: ConfigView, st: EngineStateView, p: Position) -> Option<
    Option<(Dec, Dec)>,
> {
    let known = known_row(st, upper(p.symbol@));
    let sl = match p.stop_loss {
        Some(x) => Some(x),
        None => match known {
            Some(k) => k.stop_loss,
            None => None,
        },
    };
    let tp = match p.take_profit {
        Some(x) => Some(x),
        None => match known {
            Some(k) => k.take_profit,
            None => None,
        },
    };
    match (sl, tp) {
        (Some(a), Some(b)) => Some(Some((a, b))),
        _ => prices_from_entry(cfg, p),
    }
}

fn find_prices(cfg: &Config, state: &EngineState, p: &Position, key: &str) -> (r: Option<
    Option<(Dec, Dec)>,
>)
    requires
        key@ == upper(p.symbol@),
    ensures
        r == wanted_prices(cfg@, state@, *p),
{
    let known: Option<Position> = find_known(state, key);
    let (ksl, ktp): (Option<Dec>, Option<Dec>) = match &known {
        Some(k) => (k.stop_loss, k.take_profit),
        None => (None, None),
    };
    let sl: Option<Dec> = if p.stop_loss.is_some() {
        p.stop_loss
    } else {
        ksl
    };
    let tp: Option<Dec> = if p.take_profit.is_some() {
        p.take_profit
    } else {
        ktp
    };
    match (sl, tp) {
        (Some(a), Some(b)) => Some(Some((a, b))),
        _ => derive_protectives_from_entry(cfg, p),
    }
}

/// Closes a long that cannot be protected.
pub open spec fn unprotected_run(
    w: World,
    log: Seq<Exchange>,
    cfg: ConfigView,
    b: Book,
    p: Position,
    detail: Seq<char>,
    at: StampView,
) -> Run<Option<Book>> {
    let a = undo_run(w, log, p.symbol@, p.qty);
    Run {
        log: a.log,
        out: match ledger_flattened(
            b.ledger,
            at,
            b.state.strategy_id,
            seq![p.symbol@],
            cfg.live,
            "нет protectives — flatten"@,
        ) {
            None => None,
            Some(ledger) => Some(
                Book {
                    state: dropped(
                        EngineStateView {
                            last_error: Some(
                                "rearm budget exhausted (3 fails / 90s): "@ + detail + a.out,
                            ),
                            ..with_action(
                                b.state,
                                at.now,
                                "нет protectives — flatten "@ + p.symbol@ + a.out,
                            )
                        },
                        p.symbol@,
                    ),
                    ledger,
                },
            ),
        },
    }
}

fn flatten_missing_protectives<C: LiveClient>(
    cfg: &Config,
    wire: &mut Wire<C>,
    state: &mut EngineState,
    ledger: &mut Ledger,
    p: &Position,
    detail: &str,
    at: &Stamp,
) -> (r: Option<()>)
    ensures
        forall|w: World| #[trigger]
            explains(w, final(wire).log()) ==> explains(w, old(wire).log()) && unprotected_run(
                w,
                old(wire).log(),
                cfg@,
                Book { state: old(state)@, ledger: old(ledger)@ },
                *p,
                detail@,
                at@,
            ) == (Run {
                log: final(wire).log(),
                out: match r {
                    Some(_) => Some(Book { state: final(state)@, ledger: final(ledger)@ }),
                    None => None,
                },
            }),
{
    let symbol: &str = p.symbol.as_str();
    let note = undo_long(wire, symbol, p.qty);
    let mut one: Vec<String> = Vec::new();
    one.push(own(symbol));
    proof {
        assert(views(one@) =~= seq![symbol@]);
    }
    ledger.flatten(
        at,
        state.strategy_id,
        one.as_slice(),
        cfg.live,
        "нет protectives — flatten",
    );
    let mut text = own("нет protectives — flatten ");
    text.append(symbol);
    text.append(note.as_str());
    state.push_action(at.now, text);
    let mut error = own("rearm budget exhausted (3 fails / 90s): ");
    error.append(detail);
    error.append(note.as_str());
    state.last_error = Some(error);
    drop_symbol(state, symbol);
    Some(())
}

/// What a long that could not be protected comes to: it is counted, and closed
/// once the budget is spent. Says last whether it was closed.
pub open spec fn miss_run(
    w: World,
    log: Seq<Exchange>,
    cfg: ConfigView,
    b: Book,
    p: Position,
    detail: Seq<char>,
    shown: bool,
    at: StampView,
) -> Run<Option<(Book, bool)>> {
    let key = upper(p.symbol@);
    let counted = Book { state: rearm_counted(b.state, key, at.now), ..b };
    if rearm_exhausted(b.state, key, at.now as int) {
        let a = unprotected_run(w, log, cfg, counted, p, detail, at);
        Run {
            log: a.log,
            out: match a.out {
                Some(next) => Some((next, true)),
                None => None,
            },
        }
    } else {
        Run {
            log,
            out: Some(
                (
                    if shown {
                        Book {
                            state: EngineStateView { last_error: Some(detail), ..counted.state },
                            ..counted
                        }
                    } else {
                        counted
                    },
                    false,
                ),
            ),
        }
    }
}

/// The book and whether a long was handled, of a step that may have failed.
pub open spec fn rearm_view(r: Option<bool>, state: EngineStateView, ledger: LedgerView) -> Option<
    (Book, bool),
> {
    match r {
        Some(x) => Some((Book { state, ledger }, x)),
        None => None,
    }
}

fn miss<C: LiveClient>(
    cfg: &Config,
    wire: &mut Wire<C>,
    state: &mut EngineState,
    ledger: &mut Ledger,
    p: &Position,
    detail: &str,
    shown: bool,
    at: &Stamp,
) -> (r: Option<bool>)
    ensures
        forall|w: World| #[trigger]
            explains(w, final(wire).log()) ==> explains(w, old(wire).log()) && miss_run(
                w,
                old(wire).log(),
                cfg@,
                Book { state: old(state)@, ledger: old(ledger)@ },
                *p,
                detail@,
                shown,
                at@,
            ) == (Run {
                log: final(wire).log(),
                out: rearm_view(r, final(state)@, final(ledger)@),
            }),
{
    let key = p.symbol.as_str().to_ascii_uppercase();
    if note_rearm_failure(state, key.as_str(), at.now) {
        flatten_missing_protectives(cfg, wire, state, ledger, p, detail, at)?;
        return Some(true);
    }
    if shown {
        state.last_error = Some(own(detail));
    }
    Some(false)
}

/// Protects one long. Says last whether something was done about it.
pub open spec fn rearm_one(
    w: World,
    log: Seq<Exchange>,
    cfg: ConfigView,
    b: Book,
    p: Position,
    at: StampView,
) -> Run<Option<(Book, bool)>> {
    let key = upper(p.symbol@);
    let safe = Book { state: protected(b.state, key), ..b };
    match wanted_prices(cfg, b.state, p) {
        None => Run { log, out: None },
        Some(None) => miss_run(w, log, cfg, b, p, "нет SL/TP для rearm"@, false, at),
        Some(Some((sl, tp))) => {
            let a = ask(w, log, Call::OpenAlgoOrders { symbol: Some(key) });
            if rows(a.out) is Ok && protectives_sized(rows(a.out)->Ok_0) {
                Run { log: a.log, out: Some((safe, false)) }
            } else {
                let c = ask(
                    w,
                    a.log,
                    Call::ReplaceStop {
                        symbol: p.symbol@,
                        stop_loss: sl,
                        take_profit: Some(tp),
                        qty: Some(p.qty),
                    },
                );
                match done(c.out) {
                    Err(e) => if already_protected(e) {
                        Run { log: c.log, out: Some((safe, false)) }
                    } else {
                        miss_run(w, c.log, cfg, b, p, e, true, at)
                    },
                    Ok(_) => {
                        let d = short_run(w, c.log, p.symbol@);
                        Run {
                            log: d.log,
                            out: match d.out {
                                Some(flipped) => match ledger_flattened(
                                    b.ledger,
                                    at,
                                    b.state.strategy_id,
                                    seq!["SHORT "@ + flipped],
                                    cfg.live,
                                    "закрыл чужой шорт"@,
                                ) {
                                    Some(ledger) => Some(
                                        (Book { state: dropped(b.state, flipped), ledger }, false),
                                    ),
                                    None => None,
                                },
                                None => Some(
                                    (
                                        Book {
                                            state: with_action(
                                                safe.state,
                                                at.now,
                                                "TP/SL на размер лонга "@ + p.symbol@,
                                            ),
                                            ..safe
                                        },
                                        true,
                                    ),
                                ),
                            },
                        }
                    },
                }
            }
        },
    }
}

fn rearm_long<C: LiveClient>(
    cfg: &Config,
    wire: &mut Wire<C>,
    state: &mut EngineState,
    ledger: &mut Ledger,
    p: &Position,
    at: &Stamp,
) -> (r: Option<bool>)
    ensures
        forall|w: World| #[trigger]
            explains(w, final(wire).log()) ==> explains(w, old(wire).log()) && rearm_one(
                w,
                old(wire).log(),
                cfg@,
                Book { state: old(state)@, ledger: old(ledger)@ },
                *p,
                at@,
            ) == (Run {
                log: final(wire).log(),
                out: rearm_view(r, final(state)@, final(ledger)@),
            }),
{
    let symbol: &str = p.symbol.as_str();
    let key = symbol.to_ascii_uppercase();
    let (sl, tp): (Dec, Dec) = match find_prices(cfg, state, p, key.as_str())? {
        Some(pair) => pair,
        None => return miss(cfg, wire, state, ledger, p, "нет SL/TP для rearm", false, at),
    };
    if let Ok(v) = wire.open_algo_orders(Some(key.as_str())) {
        if sell_protectives_are_sized(v.as_slice()) {
            mark_protected(state, key.as_str());
            return Some(false);
        }
    }
    if let Err(e) = wire.replace_stop(symbol, sl, Some(tp), Some(p.qty)) {
        if is_already_protected(e.0.as_str()) {
            mark_protected(state, key.as_str());
            return Some(false);
        }
        return miss(cfg, wire, state, ledger, p, e.0.as_str(), true, at);
    }
    if let Some(flipped) = flatten_live_short(wire, symbol) {
        let mut label = own("SHORT ");
        label.append(flipped.as_str());
        let ghost lv = label@;
        let mut one: Vec<String> = Vec::new();
        one.push(label);
        proof {
            assert(views(one@) =~= seq![lv]);
        }
        ledger.flatten(at, state.strategy_id, one.as_slice(), cfg.live, "закрыл чужой шорт");
        drop_symbol(state, flipped.as_str());
        return Some(false);
    }
    mark_protected(state, key.as_str());
    let mut text = own("TP/SL на размер лонга ");
    text.append(symbol);
    state.push_action(at.now, text);
    Some(true)
}

/// Protects the first `n` longs; gives the symbols of those that something was
/// done about.
pub open spec fn rearm_run(
    w: World,
    log: Seq<Exchange>,
    cfg: ConfigView,
    b: Book,
    longs: Seq<Position>,
    n: int,
    at: StampView,
) -> Run<Option<(Book, Seq<Seq<char>>)>>
    decreases n,
{
    if n <= 0 {
        Run { log, out: Some((b, Seq::empty())) }
    } else {
        let a = rearm_run(w, log, cfg, b, longs, n - 1, at);
        match a.out {
            None => a,
            Some((b1, names)) => {
                let c = rearm_one(w, a.log, cfg, b1, longs[n - 1], at);
                Run {
                    log: c.log,
                    out: match c.out {
                        None => None,
                        Some((b2, hit)) => Some(
                            (
                                b2,
                                if hit {
                                    names.push(longs[n - 1].symbol@)
                                } else {
                                    names
                                },
                            ),
                        ),
                    },
                }
            },
        }
    }
}

proof fn lemma_rearm_none(
    w: World,
    log: Seq<Exchange>,
    cfg: ConfigView,
    b: Book,
    longs: Seq<Position>,
    n: int,
    m: int,
    at: StampView,
)
    requires
        0 <= n <= m,
        rearm_run(w, log, cfg, b, longs, n, at).out is None,
    ensures
        rearm_run(w, log, cfg, b, longs, m, at) == rearm_run(w, log, cfg, b, longs, n, at),
    decreases m - n,
{
    if n < m {
        lemma_rearm_none(w, log, cfg, b, longs, n, m - 1, at);
    }
}

/// Protection of the open longs: what is asked, the book after it, and which
/// longs something was done about.
pub open spec fn rearm_all_run(
    w: World,
    log: Seq<Exchange>,
    cfg: ConfigView,
    s: MarketSnapshot,
    b: Book,
    at: StampView,
) -> Run<Option<(Book, Seq<Seq<char>>)>> {
    if !sees_book(cfg, s) {
        Run { log, out: Some((b, Seq::empty())) }
    } else {
        let longs = open_longs(s.open_positions@);
        rearm_run(w, log, cfg, b, longs, longs.len() as int, at)
    }
}

/// Gives every open long protective orders of its size. A long that cannot be
/// protected in time is closed.
pub fn rearm_live_protectives<C: LiveClient>(
    cfg: &Config,
    wire: &mut Wire<C>,
    state: &mut EngineState,
    ledger: &mut Ledger,
    snapshot: &MarketSnapshot,
    at: &Stamp,
) -> (r: Option<Vec<String>>)
    ensures
        forall|w: World| #[trigger]
            explains(w, final(wire).log()) ==> explains(w, old(wire).log()) && rearm_all_run(
                w,
                old(wire).log(),
                cfg@,
                *snapshot,
                Book { state: old(state)@, ledger: old(ledger)@ },
                at@,
            ) == (Run {
                log: final(wire).log(),
                out: step_view(r, final(state)@, final(ledger)@),
            }),
{
    let mut names: Vec<String> = Vec::new();
    proof {
        assert(views(names@) =~= Seq::<Seq<char>>::empty());
    }
    if !on_live_book(cfg, snapshot) {
        return Some(names);
    }
    let longs: Vec<Position> = open_long_rows(snapshot.open_positions.as_slice());
    let ghost start = wire.log();
    let ghost b = Book { state: state@, ledger: ledger@ };
    let mut i: usize = 0;
    while i < longs.len()
        invariant
            i <= longs@.len(),
            sees_book(cfg@, *snapshot),
            start == old(wire).log(),
            b == (Book { state: old(state)@, ledger: old(ledger)@ }),
            longs@ == open_longs(snapshot.open_positions@),
            forall|w: World| #[trigger]
                explains(w, wire.log()) ==> explains(w, start) && rearm_run(
                    w,
                    start,
                    cfg@,
                    b,
                    longs@,
                    i as int,
                    at@,
                ) == (Run {
                    log: wire.log(),
                    out: Some((Book { state: state@, ledger: ledger@ }, views(names@))),
                }),
        decreases longs@.len() - i,
    {
        let p: &Position = &longs[i];
        match rearm_long(cfg, wire, state, ledger, p, at) {
            None => {
                proof {
                    assert forall|w: World| #[trigger] explains(w, wire.log()) implies explains(
                        w,
                        start,
                    ) && rearm_run(w, start, cfg@, b, longs@, longs@.len() as int, at@) == (Run {
                        log: wire.log(),
                        out: None::<(Book, Seq<Seq<char>>)>,
                    }) by {
                        lemma_rearm_none(
                            w,
                            start,
                            cfg@,
                            b,
                            longs@,
                            i as int + 1,
                            longs@.len() as int,
                            at@,
                        );
                    }
                }
                return None;
            },
            Some(hit) => {
                if hit {
                    let ghost prior = views(names@);
                    names.push(own(p.symbol.as_str()));
                    proof {
                        assert(views(names@) =~= prior.push(p.symbol@));
                    }
                }
            },
        }
        i = i + 1;
    }
    Some(names)
}

/// What putting things right came to.
#[derive(Debug)]
pub struct ReconcileResult {
    pub last_text: String,
}

/// What is shown of putting things right: shorts first, then orders, then
/// protection.
pub open spec fn reconcile_text(
    swept: Seq<Seq<char>>,
    orphans: Seq<Seq<char>>,
    rearmed: Seq<Seq<char>>,
) -> Seq<char> {
    if swept.len() > 0 {
        "закрыл чужой шорт: "@ + joined(swept, ", "@)
    } else if orphans.len() > 0 {
        "снял сиротский стоп: "@ + joined(orphans, ", "@)
    } else if rearmed.len() > 0 {
        "TP/SL на размер лонга: "@ + joined(rearmed, ", "@)
    } else {
        Seq::empty()
    }
}

/// What putting things right comes to.
pub struct Reconciled {
    pub book: Book,
    pub text: Seq<char>,
    pub kind: Option<TradeSignal>,
}

/// Putting things right: vanished longs, orders without a long, shorts, and
/// protection, in this order.
pub open spec fn reconcile_run(
    w: World,
    log: Seq<Exchange>,
    cfg: ConfigView,
    s: MarketSnapshot,
    b: Book,
    at: StampView,
) -> Run<Option<Reconciled>> {
    if !sees_book(cfg, s) {
        Run { log, out: Some(Reconciled { book: b, text: Seq::empty(), kind: None }) }
    } else {
        let v = clear_vanished_run(w, log, cfg, s, b, at);
        match v.out {
            None => Run { log: v.log, out: None },
            Some((b1, _)) => {
                let o = clear_orphans_run(w, v.log, cfg, s, b1.state, at.now);
                let (st2, orphans) = o.out;
                let sw = sweep_run(w, o.log, cfg, s, Book { state: st2, ..b1 }, at);
                match sw.out {
                    None => Run { log: sw.log, out: None },
                    Some(x) => {
                        let r = rearm_all_run(w, sw.log, cfg, s, x.book, at);
                        match r.out {
                            None => Run { log: r.log, out: None },
                            Some((b4, rearmed)) => Run {
                                log: r.log,
                                out: Some(
                                    Reconciled {
                                        book: b4,
                                        text: reconcile_text(x.result.closed, orphans, rearmed),
                                        kind: x.kind,
                                    },
                                ),
                            },
                        }
                    },
                }
            },
        }
    }
}

/// Puts things right: vanished longs, orders without a long, shorts, and
/// protection.
pub fn reconcile_live<C: LiveClient>(
    cfg: &Config,
    wire: &mut Wire<C>,
    state: &mut EngineState,
    ledger: &mut Ledger,
    snapshot: &MarketSnapshot,
    at: &Stamp,
) -> (r: Option<(ReconcileResult, Option<TradeSignal>)>)
    ensures
        forall|w: World| #[trigger]
            explains(w, final(wire).log()) ==> explains(w, old(wire).log()) && reconcile_run(
                w,
                old(wire).log(),
                cfg@,
                *snapshot,
                Book { state: old(state)@, ledger: old(ledger)@ },
                at@,
            ) == (Run {
                log: final(wire).log(),
                out: match r {
                    Some((x, kind)) => Some(
                        Reconciled {
                            book: Book { state: final(state)@, ledger: final(ledger)@ },
                            text: x.last_text@,
                            kind,
                        },
                    ),
                    None => None,
                },
            }),
{
    if !on_live_book(cfg, snapshot) {
        let last_text = String::new();
        proof {
            assert(last_text@ =~= Seq::<char>::empty());
        }
        return Some((ReconcileResult { last_text }, None));
    }
    clear_vanished_longs(cfg, wire, state, ledger, snapshot, at)?;
    let orphans: Vec<String> = clear_orphan_protectives(cfg, wire, state, snapshot, at.now);
    let (swept, kind) = sweep_rogue_shorts(cfg, wire, state, ledger, snapshot, at)?;
    let rearmed: Vec<String> = rearm_live_protectives(cfg, wire, state, ledger, snapshot, at)?;
    proof {
        assert(swept@.closed.len() == swept.closed@.len());
        assert(views(orphans@).len() == orphans@.len());
        assert(views(rearmed@).len() == rearmed@.len());
    }
    let last_text = if swept.closed.len() > 0 {
        let mut t = own("закрыл чужой шорт: ");
        t.append(join(swept.closed.as_slice(), ", ").as_str());
        t
    } else if orphans.len() > 0 {
        let mut t = own("снял сиротский стоп: ");
        t.append(join(orphans.as_slice(), ", ").as_str());
        t
    } else if rearmed.len() > 0 {
        let mut t = own("TP/SL на размер лонга: ");
        t.append(join(rearmed.as_slice(), ", ").as_str());
        t
    } else {
        let t = String::new();
        proof {
            assert(t@ =~= Seq::<char>::empty());
        }
        t
    };
    Some((ReconcileResult { last_text }, kind))
}

} // verus!

//! What each kind of decision asks of the exchange, in which order, and for how
//! much.
use super::adopt::Book;
use super::book::{
    held_names, held_row, hinted_symbol, leverage_of, named_count, names_added, open_worth,
    position_of, snapshot_row, snapshot_rows,
};
use super::decision_run;
use super::laws::{buys_nothing_from, continues, lemma_short_run};
use super::orders::{
    already_protected, amend_run, buy_run, entry_size, fits_run, guard_run, is_break_even,
    protect_run, short_run,
};
use crate::errors::error_code;
use crate::config::load::ConfigView;
use crate::continuation::manage::row_of;
use crate::dec::{
    decimal_difference, decimal_product, decimal_sum, difference_facts, law_short_sums_are_exact,
    n_add, n_mul, n_sub, short, smaller, Dec,
};
use crate::exchange::{market_size, risk_size, RiskSized, Sized};
use crate::flatten::{law_flatten_closes_whole_targets, law_targets_are_open_rows, targets_of};
use crate::journal::{LedgerView, StampView};
use crate::models::{
    open_longs, with_symbol, Decision, DecisionView, EngineStateView, MarketSnapshot, Position,
    Side,
};
use crate::text::{has_key, lower, upper};
use crate::wire::{ask, book, cap, done, filters, Call, Exchange, Reply, Run, World};
use vstd::prelude::*;

verus! {

/// Whether the desk sends what it decides.
pub open spec fn sends(cfg: ConfigView) -> bool {
    cfg.live && cfg.credentials is Some
}

/// A partial sale sells exactly what was decided and nothing else: the first
/// question is the sale, and where the exchange takes it the next one protects,
/// at the decided stop and at the take-profit that the long has, what the sale
/// has left. What is sold and what is protected add up to what was held.
pub proof fn law_partial_sale_and_rest_add_up(
    w: World,
    log: Seq<Exchange>,
    cfg: ConfigView,
    s: MarketSnapshot,
    b: Book,
    d: Decision,
    at: StampView,
    p: Position,
)
    requires
        sends(cfg),
        d@ is ReduceLong,
        position_of(s, Some(b.state), d@->ReduceLong_symbol) == Some(p),
        p.side == Side::Long,
        d@->ReduceLong_qty.pos(),
        d@->ReduceLong_qty.lt(p.qty),
        difference_facts(
            p.qty,
            d@->ReduceLong_qty,
            decimal_difference(p.qty, d@->ReduceLong_qty),
        ),
    ensures
        ({
            let n = log.len() as int;
            let r = decision_run(w, log, cfg, s, b, d, at);
            let sold = d@->ReduceLong_qty;
            &&& continues(r.log, log)
            &&& n < r.log.len()
            &&& r.log[n].call == (Call::MarketClose { symbol: p.symbol@, side: "LONG"@, qty: sold })
            &&& done(w(n)) is Err ==> r.log.len() == n + 1
            &&& done(w(n)) is Ok && p.take_profit is Some ==> {
                &&& n + 1 < r.log.len()
                &&& r.log[n + 1].call matches Call::ReplaceStop {
                    symbol,
                    stop_loss,
                    take_profit,
                    qty: Some(rest),
                } && symbol == p.symbol@ && stop_loss == d@->ReduceLong_stop_loss && take_profit
                    == p.take_profit && rest.pos() && Some(rest) == decimal_difference(p.qty, sold)
                    && (short(p.qty, sold) ==> sold.units() + rest.units() == p.qty.units())
                &&& done(w(n + 1)) is Err ==> {
                    &&& r.log.len() == n + 4
                    &&& r.log[n + 2].call == (Call::CancelProtectives { symbol: p.symbol@ })
                    &&& r.log[n + 3].call == (Call::MarketClose {
                        symbol: p.symbol@,
                        side: "LONG"@,
                        qty: decimal_difference(p.qty, sold)->0,
                    })
                }
            }
        }),
{
    let n = log.len() as int;
    let sold = d@->ReduceLong_qty;
    let r = decision_run(w, log, cfg, s, b, d, at);
    let rest = decimal_difference(p.qty, sold)->0;
    if short(p.qty, sold) {
        law_short_sums_are_exact(p.qty, sold);
    }
    assert(smaller(sold, p.qty) == sold);
    let a = ask(w, log, Call::MarketClose { symbol: p.symbol@, side: "LONG"@, qty: sold });
    let take_profit = super::orders::rest_take_profit(cfg, p);
    if done(a.out) is Ok && take_profit is Some {
        let c = ask(
            w,
            a.log,
            Call::ReplaceStop {
                symbol: p.symbol@,
                stop_loss: d@->ReduceLong_stop_loss,
                take_profit: take_profit->0,
                qty: Some(rest),
            },
        );
        lemma_short_run(w, c.log, p.symbol@);
    }
}

/// The first row of a name in a list has that name and stands in the list; there
/// is one exactly where some row has the name.
proof fn lemma_with_symbol(v: Seq<Position>, symbol: Seq<char>)
    ensures
        with_symbol(v, symbol) matches Some(p) ==> p.symbol@ == symbol && v.contains(p),
        with_symbol(v, symbol) is Some <==> exists|i: int|
            0 <= i < v.len() && (#[trigger] v[i]).symbol@ == symbol,
    decreases v.len(),
{
    if v.len() > 0 {
        let rest = v.drop_first();
        lemma_with_symbol(rest, symbol);
        if v[0].symbol@ == symbol {
            assert(v[0] == v[0]);
        } else {
            if with_symbol(v, symbol) is Some {
                let p = with_symbol(v, symbol)->0;
                let j = choose|j: int| 0 <= j < rest.len() && rest[j] == p;
                assert(v[j + 1] == p);
            }
            if exists|i: int| 0 <= i < v.len() && (#[trigger] v[i]).symbol@ == symbol {
                let i = choose|i: int| 0 <= i < v.len() && (#[trigger] v[i]).symbol@ == symbol;
                assert(rest[i - 1].symbol@ == symbol);
            }
        }
    }
}

/// Which row a decision is about: it has the decided name, and there is one
/// wherever the desk or the snapshot knows a row of that name. What the desk
/// itself holds comes before what the snapshot shows.
pub proof fn law_decisions_are_about_the_named_row(s: MarketSnapshot, b: Book, symbol: Seq<char>)
    requires
        symbol.len() > 0,
    ensures
        ({
            let r = position_of(s, Some(b.state), symbol);
            &&& r matches Some(p) ==> p.symbol@ == symbol
            &&& b.state.position is Some && b.state.position->0.symbol@ == symbol ==> r
                == b.state.position
            &&& (forall|i: int| 0 <= i < b.state.positions.len() ==> (
            #[trigger] b.state.positions[i]).symbol@ != symbol) || (exists|i: int|
                0 <= i < b.state.positions.len() && Some(#[trigger] b.state.positions[i]) == r) || r
                == b.state.position
            &&& r is None <==> {
                &&& b.state.position matches Some(p) ==> p.symbol@ != symbol
                &&& s.position matches Some(p) ==> p.symbol@ != symbol
                &&& forall|i: int|
                    0 <= i < b.state.positions.len() ==> (
                    #[trigger] b.state.positions[i]).symbol@ != symbol
                &&& forall|i: int|
                    0 <= i < s.open_positions@.len() ==> (
                    #[trigger] s.open_positions@[i]).symbol@ != symbol
            }
        }),
{
    lemma_with_symbol(b.state.positions, symbol);
    lemma_with_symbol(s.open_positions@, symbol);
}

/// A moved stop covers the whole long: the first question puts the decided stop,
/// for all that is held, in the place of the old one and keeps the take-profit.
/// A refusal ends it, unless the stop was to take the long to break-even: then
/// all that is held is sold.
pub proof fn law_moved_stop_covers_the_long(
    w: World,
    log: Seq<Exchange>,
    cfg: ConfigView,
    s: MarketSnapshot,
    b: Book,
    d: Decision,
    at: StampView,
    p: Position,
    k: int,
)
    requires
        sends(cfg),
        d@ is AmendStop,
        position_of(s, Some(b.state), d@->AmendStop_symbol) == Some(p),
        p.side == Side::Long,
        p.take_profit is Some,
        s.live_book ==> {
            &&& d@->AmendStop_symbol.len() > 0
            &&& 0 <= k < s.open_positions@.len()
            &&& s.open_positions@[k].symbol@ == upper(d@->AmendStop_symbol)
            &&& s.open_positions@[k].side == Side::Long
            &&& s.open_positions@[k].qty.pos()
        },
    ensures
        ({
            let n = log.len() as int;
            let r = decision_run(w, log, cfg, s, b, d, at);
            &&& continues(r.log, log)
            &&& n < r.log.len()
            &&& r.log[n].call == (Call::ReplaceStop {
                symbol: p.symbol@,
                stop_loss: d@->AmendStop_stop_loss,
                take_profit: p.take_profit,
                qty: Some(p.qty),
            })
            &&& done(w(n)) is Err && !is_break_even(d@.reason()) ==> r.log.len() == n + 1
            &&& done(w(n)) is Err && is_break_even(d@.reason()) ==> {
                &&& r.log.len() == n + 3
                &&& r.log[n + 1].call == (Call::CancelProtectives { symbol: p.symbol@ })
                &&& r.log[n + 2].call == (Call::MarketClose {
                    symbol: p.symbol@,
                    side: "LONG"@,
                    qty: p.qty,
                })
            }
        }),
{
    let n = log.len() as int;
    let symbol = d@->AmendStop_symbol;
    if s.live_book {
        let longs = open_longs(s.open_positions@);
        let row = s.open_positions@[k];
        assert(longs.contains(row));
        let j = choose|j: int| 0 <= j < longs.len() && longs[j] == row;
        assert(longs[j].symbol@ == upper(symbol));
        lemma_with_symbol(longs, upper(symbol));
    }
    let a = ask(
        w,
        log,
        Call::ReplaceStop {
            symbol: p.symbol@,
            stop_loss: d@->AmendStop_stop_loss,
            take_profit: p.take_profit,
            qty: Some(p.qty),
        },
    );
    lemma_short_run(w, a.log, p.symbol@);
}

/// An exit sells all of it: the protective orders go first, then the whole
/// quantity is closed on the side on which it is held, and where that is done
/// the protective orders are cleared once more. What was closed is reported in
/// full and forgotten.
pub proof fn law_exit_closes_the_whole_position(
    w: World,
    log: Seq<Exchange>,
    cfg: ConfigView,
    s: MarketSnapshot,
    b: Book,
    d: Decision,
    at: StampView,
    p: Position,
)
    requires
        sends(cfg),
        d@ is ExitPosition,
        !s.live_book,
        position_of(s, Some(b.state), d@->ExitPosition_symbol) == Some(p),
    ensures
        ({
            let n = log.len() as int;
            let r = decision_run(w, log, cfg, s, b, d, at);
            &&& continues(r.log, log)
            &&& r.log.len() == n + if done(w(n + 1)) is Ok {
                3int
            } else {
                2
            }
            &&& r.log[n].call == (Call::CancelProtectives { symbol: p.symbol@ })
            &&& r.log[n + 1].call == (Call::MarketClose {
                symbol: p.symbol@,
                side: if p.side == Side::Long {
                    "LONG"@
                } else {
                    "SHORT"@
                },
                qty: p.qty,
            })
            &&& done(w(n + 1)) is Ok ==> r.log[n + 2].call == (Call::CancelProtectives {
                symbol: p.symbol@,
            })
            &&& r.out is Some && done(w(n + 1)) is Ok ==> (r.out->0).1.filled && (r.out->0).1.qty
                == Some(p.qty) && (r.out->0).1.error is None && (r.out->0).1.forget_symbol
                == p.symbol@
            &&& r.out is Some && done(w(n + 1)) is Err ==> !(r.out->0).1.filled && (r.out->0).1.error
                == Some(done(w(n + 1))->Err_0)
        }),
{
}

/// Whether a row is an open one of a name.
pub open spec fn is_open_row(p: Position, symbol: Seq<char>) -> bool {
    p.symbol@ == symbol && p.qty.pos()
}

/// Where the snapshot is the exchange's own book, an exit closes the first open
/// row of that name that the book has: its whole quantity on its side.
pub proof fn law_exit_follows_the_live_book(
    w: World,
    log: Seq<Exchange>,
    cfg: ConfigView,
    s: MarketSnapshot,
    b: Book,
    d: Decision,
    at: StampView,
    k: int,
)
    requires
        sends(cfg),
        d@ is ExitPosition,
        s.live_book,
        d@->ExitPosition_symbol.len() > 0,
        upper(d@->ExitPosition_symbol) == d@->ExitPosition_symbol,
        0 <= k < s.open_positions@.len(),
        is_open_row(s.open_positions@[k], d@->ExitPosition_symbol),
        forall|i: int|
            0 <= i < k ==> !is_open_row(#[trigger] s.open_positions@[i], d@->ExitPosition_symbol),
    ensures
        ({
            let n = log.len() as int;
            let r = decision_run(w, log, cfg, s, b, d, at);
            let p = s.open_positions@[k];
            &&& r.log.len() >= n + 2
            &&& continues(r.log, log)
            &&& r.log[n + 1].call == (Call::MarketClose {
                symbol: p.symbol@,
                side: if p.side == Side::Long {
                    "LONG"@
                } else {
                    "SHORT"@
                },
                qty: p.qty,
            })
        }),
{
    let symbol = d@->ExitPosition_symbol;
    let rows = snapshot_rows(s);
    lemma_with_symbol(b.state.positions, symbol);
    lemma_with_symbol(s.open_positions@, symbol);
    assert(rows[k] == s.open_positions@[k]);
    assert forall|i: int| 0 <= i < k implies !((#[trigger] rows[i]).symbol@ == symbol
        && rows[i].qty.pos()) by {
        assert(!is_open_row(s.open_positions@[i], symbol));
    }
    lemma_held_row(rows, symbol, k);
    assert(snapshot_row(s, symbol) == Some(rows[k]));
}

/// A position that the exchange's own book does not have is forgotten by an exit,
/// and nothing is asked.
pub proof fn law_exit_forgets_what_the_book_lacks(
    w: World,
    log: Seq<Exchange>,
    cfg: ConfigView,
    s: MarketSnapshot,
    b: Book,
    d: Decision,
    at: StampView,
)
    requires
        sends(cfg),
        d@ is ExitPosition,
        s.live_book,
        d@->ExitPosition_symbol.len() > 0,
        upper(d@->ExitPosition_symbol) == d@->ExitPosition_symbol,
        s.position is None,
        forall|i: int|
            0 <= i < s.open_positions@.len() ==> !is_open_row(
                #[trigger] s.open_positions@[i],
                d@->ExitPosition_symbol,
            ),
    ensures
        ({
            let r = decision_run(w, log, cfg, s, b, d, at);
            &&& r.log == log
            &&& r.out matches Some(x) ==> x.1.forget_symbol == d@->ExitPosition_symbol && !x.1.filled
                && x.1.error is None
        }),
{
    let symbol = d@->ExitPosition_symbol;
    let rows = snapshot_rows(s);
    lemma_with_symbol(b.state.positions, symbol);
    lemma_with_symbol(s.open_positions@, symbol);
    assert(rows =~= s.open_positions@);
    assert forall|i: int| 0 <= i < rows.len() implies !((#[trigger] rows[i]).symbol@ == symbol
        && rows[i].qty.pos()) by {
        assert(!is_open_row(s.open_positions@[i], symbol));
    }
    lemma_held_row(rows, symbol, rows.len() as int);
    assert(snapshot_row(s, symbol) is None);
}

proof fn lemma_held_row(v: Seq<Position>, want: Seq<char>, k: int)
    requires
        0 <= k <= v.len(),
        want.len() > 0,
        forall|i: int| 0 <= i < k ==> !((#[trigger] v[i]).symbol@ == want && v[i].qty.pos()),
        k < v.len() ==> v[k].symbol@ == want && v[k].qty.pos(),
    ensures
        held_row(v, want) == if k < v.len() {
            Some(v[k])
        } else {
            None
        },
    decreases k,
{
    if k > 0 {
        let rest = v.drop_first();
        assert forall|i: int| 0 <= i < k - 1 implies !((#[trigger] rest[i]).symbol@ == want
            && rest[i].qty.pos()) by {
            assert(rest[i] == v[i + 1]);
        }
        lemma_held_row(rest, want, k - 1);
    }
}

/// A decision to hold asks nothing, and a partial sale, a moved stop or an exit
/// never buys.
pub proof fn law_only_entries_buy(
    w: World,
    log: Seq<Exchange>,
    cfg: ConfigView,
    s: MarketSnapshot,
    b: Book,
    d: Decision,
    at: StampView,
)
    requires
        !(d@ is EnterLong),
    ensures
        continues(decision_run(w, log, cfg, s, b, d, at).log, log),
        buys_nothing_from(decision_run(w, log, cfg, s, b, d, at).log, log.len() as int),
        d@ is Hold ==> decision_run(w, log, cfg, s, b, d, at).log == log,
{
    let r = decision_run(w, log, cfg, s, b, d, at);
    let st = Some(b.state);
    if sends(cfg) {
        match d@ {
            DecisionView::AmendStop { stop_loss, reason, symbol } => {
                lemma_amend_buys_nothing(w, log, cfg, s, b, at, stop_loss, symbol, reason);
            },
            DecisionView::ReduceLong { symbol, qty, stop_loss, .. } => {
                if let Some(p) = position_of(s, st, symbol) {
                    lemma_amend_buys_nothing(
                        w,
                        log,
                        cfg,
                        s,
                        b,
                        at,
                        stop_loss,
                        p.symbol@,
                        "безубыток на 1R"@,
                    );
                    let sold = smaller(qty, p.qty);
                    let a = ask(
                        w,
                        log,
                        Call::MarketClose { symbol: p.symbol@, side: "LONG"@, qty: sold },
                    );
                    let take_profit = super::orders::rest_take_profit(cfg, p);
                    if done(a.out) is Ok && take_profit is Some {
                        let c = ask(
                            w,
                            a.log,
                            Call::ReplaceStop {
                                symbol: p.symbol@,
                                stop_loss,
                                take_profit: take_profit->0,
                                qty: n_sub(Some(p.qty), Some(sold)),
                            },
                        );
                        lemma_short_run(w, c.log, p.symbol@);
                    }
                }
            },
            _ => {},
        }
    }
}

proof fn lemma_amend_buys_nothing(
    w: World,
    log: Seq<Exchange>,
    cfg: ConfigView,
    s: MarketSnapshot,
    b: Book,
    at: StampView,
    stop_loss: Dec,
    symbol: Seq<char>,
    reason: Seq<char>,
)
    ensures
        ({
            let r = amend_run(
                w,
                log,
                cfg,
                s,
                Some(b.state),
                b.ledger,
                at,
                stop_loss,
                symbol,
                reason,
            );
            continues(r.log, log) && buys_nothing_from(r.log, log.len() as int)
        }),
{
    let st = Some(b.state);
    lemma_short_run(w, log, symbol);
    lemma_short_run(w, log, hinted_symbol(s, st));
    if let Some(p) = position_of(s, st, symbol) {
        lemma_short_run(w, log, p.symbol@);
        if let Some(Ok(tp)) = super::orders::kept_take_profit(cfg, p) {
            let a = ask(
                w,
                log,
                Call::ReplaceStop {
                    symbol: p.symbol@,
                    stop_loss,
                    take_profit: Some(tp),
                    qty: Some(p.qty),
                },
            );
            lemma_short_run(w, a.log, p.symbol@);
        }
    }
}

/// Whether a question that an entry asks is about that entry: what is bought and
/// what is protected has its name, the protective orders stand at its prices and
/// for the quantity `got`, and a long that is closed again is that quantity.
pub open spec fn is_of_entry(
    x: Exchange,
    symbol: Seq<char>,
    take_profit: Dec,
    stop_loss: Dec,
    got: Dec,
) -> bool {
    match x.call {
        Call::MarketBuy { symbol: name, .. } => name == symbol,
        Call::PlaceTpSl { symbol: name, take_profit: tp, stop_loss: sl, qty } => name == symbol && tp
            == take_profit && sl == stop_loss && qty == Some(got),
        Call::MarketClose { symbol: name, side, qty } => side == "LONG"@ ==> name == symbol && qty
            == got,
        Call::ReplaceStop { .. } => false,
        _ => true,
    }
}

proof fn lemma_protect_calls(
    w: World,
    log: Seq<Exchange>,
    symbol: Seq<char>,
    take_profit: Dec,
    stop_loss: Dec,
    qty: Dec,
)
    ensures
        ({
            let r = protect_run(w, log, symbol, take_profit, stop_loss, qty);
            &&& continues(r.log, log)
            &&& r.log.len() > log.len()
            &&& r.log[log.len() as int].call is PlaceTpSl
            &&& forall|k: int|
                log.len() <= k < r.log.len() ==> is_of_entry(
                    #[trigger] r.log[k],
                    symbol,
                    take_profit,
                    stop_loss,
                    qty,
                ) && !(r.log[k].call is MarketBuy) && !(r.log[k].call is MarketClose)
        }),
{
}

proof fn lemma_short_calls(w: World, log: Seq<Exchange>, symbol: Seq<char>)
    ensures
        ({
            let r = short_run(w, log, symbol);
            &&& continues(r.log, log)
            &&& forall|k: int|
                log.len() <= k < r.log.len() ==> {
                    ||| (#[trigger] r.log[k]).call is PositionRisk
                    ||| r.log[k].call is CancelProtectives
                    ||| r.log[k].call matches Call::MarketClose { side, .. } && side == "SHORT"@
                }
        }),
{
    if upper(symbol).len() > 0 {
        let a = ask(w, log, Call::PositionRisk);
        if let Ok(rows) = book(a.out) {
            if let Some(p) = held_row(rows, upper(symbol)) {
                if p.side == Side::Short {
                    let targets = targets_of(seq![p]);
                    law_flatten_closes_whole_targets(w, a.log, targets, targets.len() as int);
                    assert forall|i: int| 0 <= i < targets.len() implies (
                    #[trigger] targets[i]).side == Side::Short by {
                        law_targets_are_open_rows(seq![p], i);
                    }
                }
            }
        }
    }
}

proof fn lemma_guard_calls(
    w: World,
    log: Seq<Exchange>,
    cfg: ConfigView,
    st: Option<EngineStateView>,
    l: LedgerView,
    at: StampView,
    symbol: Seq<char>,
    take_profit: Dec,
    stop_loss: Dec,
    mark: Dec,
    qty: Dec,
)
    ensures
        ({
            let r = guard_run(w, log, cfg, st, l, at, symbol, take_profit, stop_loss, mark, qty);
            &&& continues(r.log, log)
            &&& forall|k: int|
                log.len() <= k < r.log.len() ==> is_of_entry(
                    #[trigger] r.log[k],
                    symbol,
                    take_profit,
                    stop_loss,
                    qty,
                ) && !(r.log[k].call is MarketBuy)
            &&& r.out matches Some(x) ==> x.1.filled ==> x.1.qty == Some(qty) && x.1.mark == Some(mark)
                && x.1.error is None
        }),
{
    lemma_strings();
    let a = short_run(w, log, symbol);
    lemma_short_calls(w, log, symbol);
    lemma_protect_calls(w, a.log, symbol, take_profit, stop_loss, qty);
    let b = protect_run(w, a.log, symbol, take_profit, stop_loss, qty);
    let r = guard_run(w, log, cfg, st, l, at, symbol, take_profit, stop_loss, mark, qty);
    assert forall|k: int| log.len() <= k < r.log.len() implies is_of_entry(
        #[trigger] r.log[k],
        symbol,
        take_profit,
        stop_loss,
        qty,
    ) && !(r.log[k].call is MarketBuy) by {
        if k < a.log.len() {
            assert(r.log[k] == a.log[k]);
        } else if a.out is None && k < b.log.len() {
            assert(r.log[k] == b.log[k]);
        }
    }
}

proof fn lemma_strings()
    ensures
        "LONG"@ != "SHORT"@,
{
    reveal_strlit("LONG");
    reveal_strlit("SHORT");
    assert("LONG"@.len() != "SHORT"@.len());
}

/// What an entry asks for is what was decided: only the decided name is bought,
/// once at most, and where the exchange takes the purchase every protective order
/// that follows is of that name, at the decided take-profit and stop, for exactly
/// the quantity that was bought; a long that cannot be protected is closed for
/// that quantity too. No other long is sold.
pub proof fn law_entry_protects_what_it_buys(
    w: World,
    log: Seq<Exchange>,
    cfg: ConfigView,
    s: MarketSnapshot,
    b: Book,
    d: Decision,
    at: StampView,
    k: int,
    j: int,
)
    requires
        d@ is EnterLong,
        log.len() <= k < decision_run(w, log, cfg, s, b, d, at).log.len(),
        decision_run(w, log, cfg, s, b, d, at).log[k].call is MarketBuy,
        k != j,
        log.len() <= j < decision_run(w, log, cfg, s, b, d, at).log.len(),
    ensures
        ({
            let r = decision_run(w, log, cfg, s, b, d, at);
            let bought = r.log[k].call->MarketBuy_qty;
            let x = r.log[j];
            &&& r.log[k].call->MarketBuy_symbol == d@->EnterLong_symbol
            &&& !(x.call is MarketBuy) && !(x.call is ReplaceStop)
            &&& done(r.log[k].reply) is Ok ==> match x.call {
                Call::PlaceTpSl { symbol, take_profit, stop_loss, qty } => k < j && symbol
                    == d@->EnterLong_symbol && take_profit == d@->EnterLong_take_profit && stop_loss
                    == d@->EnterLong_stop_loss && qty == Some(bought),
                Call::MarketClose { symbol, side, qty } => k < j && (side == "LONG"@ ==> symbol
                    == d@->EnterLong_symbol && qty == bought),
                _ => true,
            }
            &&& done(r.log[k].reply) is Ok && r.out is Some && (r.out->0).1.filled ==> (
            r.out->0).1.qty == Some(bought) && (r.out->0).1.error is None
        }),
{
    let st = Some(b.state);
    let l = b.ledger;
    let symbol = d@->EnterLong_symbol;
    let take_profit = d@->EnterLong_take_profit;
    let stop_loss = d@->EnterLong_stop_loss;
    let r = decision_run(w, log, cfg, s, b, d, at);
    let z = ask(w, log, Call::PositionRisk);
    let f = filters(w(z.log.len() as int))->Ok_0;
    let t = row_of(s.tickers@, symbol)->0;
    let a = ask(w, z.log, Call::FiltersFor { symbol });
    let mark = t.last_price;
    let qty = entry_size(cfg, s, st, mark, stop_loss, f)->Qty_0;
    let order = n_mul(Some(qty), Some(mark))->0;
    let e = fits_run(w, a.log, s, symbol, mark, order, leverage_of(cfg, s, symbol));
    let c = match cfg.leverage {
        Some(lev) => ask(w, e.log, Call::SetLeverage { symbol, leverage: lev }),
        None => Run { log: e.log, out: Reply::Done(Ok(())) },
    };
    let g = buy_run(w, c.log, symbol, qty);
    let n = c.log.len() as int;
    if let Ok(got) = g.out {
        lemma_guard_calls(w, g.log, cfg, st, l, at, symbol, take_profit, stop_loss, mark, got);
    }
    assert(r.log.len() > n ==> k == n && r.log[n] == g.log[n] && g.log[n].call == (
    Call::MarketBuy { symbol, qty }));
    assert(k == n);
    if j < g.log.len() {
        assert(r.log[j] == g.log[j]);
    }
}

/// Before anything is bought: the desk is live with keys, the day goes on, the name
/// is not skipped, the exchange lists no open long of it, and the desk holds fewer
/// names than it may.
pub proof fn law_purchase_has_room(
    w: World,
    log: Seq<Exchange>,
    cfg: ConfigView,
    s: MarketSnapshot,
    b: Book,
    d: Decision,
    at: StampView,
    k: int,
    i: int,
)
    requires
        d@ is EnterLong,
        log.len() <= k < decision_run(w, log, cfg, s, b, d, at).log.len(),
        decision_run(w, log, cfg, s, b, d, at).log[k].call is MarketBuy,
    ensures
        ({
            let n = log.len() as int;
            let symbol = d@->EnterLong_symbol;
            let rows = book(w(n))->Ok_0;
            let held = held_names(s, Some(b.state), rows);
            &&& sends(cfg)
            &&& !b.state.daily_halt
            &&& 0 <= i < b.state.skip_symbols.len() ==> upper(b.state.skip_symbols[i]) != upper(symbol)
            &&& book(w(n)) is Ok
            &&& 0 <= i < rows.len() && rows[i].qty.pos() && rows[i].side == Side::Long ==> lower(
                rows[i].symbol@,
            ) != lower(upper(symbol))
            &&& named_count(held, held.len() as int) < if b.state.strategy_id == 4 {
                cfg.s4_max_positions
            } else {
                cfg.max_positions
            }
        }),
{
    let n = log.len() as int;
    let symbol = d@->EnterLong_symbol;
    let st = Some(b.state);
    super::laws::law_no_purchase_without_room(
        w,
        log,
        cfg,
        s,
        st,
        b.ledger,
        at,
        symbol,
        d@->EnterLong_take_profit,
        d@->EnterLong_stop_loss,
        k,
    );
    let rows = book(w(n))->Ok_0;
    let known = super::book::known_rows(s, st);
    let first = names_added(Seq::empty(), known, false, known.len() as int);
    let held = held_names(s, st, rows);
    if 0 <= i < rows.len() && rows[i].qty.pos() && rows[i].side == Side::Long {
        lemma_named_row(first, rows, true, rows.len() as int, i);
        let j = choose|j: int| 0 <= j < held.len() && held[j] == rows[i].symbol@;
        assert(lower(held[j]) == lower(rows[i].symbol@));
    }
    if 0 <= i < b.state.skip_symbols.len() {
        assert(!has_key(b.state.skip_symbols, upper(symbol)));
    }
}

proof fn lemma_named_row(v: Seq<Seq<char>>, rows: Seq<Position>, longs_only: bool, n: int, i: int)
    requires
        0 <= i < n <= rows.len(),
        rows[i].qty.pos(),
        !longs_only || rows[i].side == Side::Long,
    ensures
        names_added(v, rows, longs_only, n).contains(rows[i].symbol@),
    decreases n,
{
    let rest = names_added(v, rows, longs_only, n - 1);
    let all = names_added(v, rows, longs_only, n);
    if i < n - 1 {
        lemma_named_row(v, rows, longs_only, n - 1, i);
        let j = choose|j: int| 0 <= j < rest.len() && rest[j] == rows[i].symbol@;
        assert(all[j] == rest[j]);
    } else if !rest.contains(rows[i].symbol@) {
        assert(all[all.len() - 1] == rows[i].symbol@);
    }
}

/// How much is bought: at the price of the first row of the name on the tape, by
/// the risk of the equity for the strategy that sizes by risk, and otherwise for
/// the worth that is set or, where the exchange's own least worth is asked for, for
/// that. The cap that the exchange states holds, with what is open already counted
/// in, and the leverage that is set is set first.
pub proof fn law_purchase_is_sized(
    w: World,
    log: Seq<Exchange>,
    cfg: ConfigView,
    s: MarketSnapshot,
    b: Book,
    d: Decision,
    at: StampView,
    k: int,
)
    requires
        d@ is EnterLong,
        log.len() <= k < decision_run(w, log, cfg, s, b, d, at).log.len(),
        decision_run(w, log, cfg, s, b, d, at).log[k].call is MarketBuy,
    ensures
        ({
            let n = log.len() as int;
            let r = decision_run(w, log, cfg, s, b, d, at);
            let symbol = d@->EnterLong_symbol;
            let qty = r.log[k].call->MarketBuy_qty;
            let f = filters(w(n + 1))->Ok_0;
            let mark = row_of(s.tickers@, symbol)->0.last_price;
            let by_risk = b.state.strategy_id == 4 && cfg.risk_pct.pos();
            let order = decimal_product(qty, mark);
            &&& r.log[n + 1].call == (Call::FiltersFor { symbol })
            &&& filters(w(n + 1)) is Ok
            &&& row_of(s.tickers@, symbol) is Some
            &&& by_risk ==> risk_size(
                decimal_sum(s.account.wallet_balance, s.account.unrealized_pnl),
                cfg.risk_pct,
                mark,
                d@->EnterLong_stop_loss,
                f,
            ) == RiskSized::Qty(qty)
            &&& !by_risk ==> market_size(
                if cfg.notional_from_exchange {
                    f.min_notional
                } else {
                    cfg.order_notional
                },
                mark,
                f,
            ) == Sized::Qty(qty)
            &&& r.log[n + 2].call matches Call::MaxNotional { symbol: name, .. } && name == symbol
            &&& order is Some
            &&& cap(w(n + 2)) matches Ok(Some(c)) ==> (n_add(open_worth(s, symbol, mark), order) matches Some(
                total,
            ) && total.le(c))
            &&& cfg.leverage matches Some(l) ==> k == n + 4 && r.log[n + 3].call == (Call::SetLeverage {
                symbol,
                leverage: l,
            }) && done(w(n + 3)) is Ok
            &&& cfg.leverage is None ==> k == n + 3
        }),
{
    let st = Some(b.state);
    let l = b.ledger;
    let symbol = d@->EnterLong_symbol;
    let take_profit = d@->EnterLong_take_profit;
    let stop_loss = d@->EnterLong_stop_loss;
    let r = decision_run(w, log, cfg, s, b, d, at);
    let z = ask(w, log, Call::PositionRisk);
    let f = filters(w(z.log.len() as int))->Ok_0;
    let t = row_of(s.tickers@, symbol)->0;
    let a = ask(w, z.log, Call::FiltersFor { symbol });
    let mark = t.last_price;
    let qty = entry_size(cfg, s, st, mark, stop_loss, f)->Qty_0;
    let order = n_mul(Some(qty), Some(mark))->0;
    let e = fits_run(w, a.log, s, symbol, mark, order, leverage_of(cfg, s, symbol));
    let c = match cfg.leverage {
        Some(lev) => ask(w, e.log, Call::SetLeverage { symbol, leverage: lev }),
        None => Run { log: e.log, out: Reply::Done(Ok(())) },
    };
    let g = buy_run(w, c.log, symbol, qty);
    let n = c.log.len() as int;
    if let Ok(got) = g.out {
        lemma_guard_calls(w, g.log, cfg, st, l, at, symbol, take_profit, stop_loss, mark, got);
    }
    assert(r.log.len() > n ==> k == n && r.log[n] == g.log[n] && g.log[n].call == (
    Call::MarketBuy { symbol, qty }));
    assert(k == n);
    let m = log.len() as int;
    assert(r.log[m + 1] == g.log[m + 1] && r.log[m + 2] == g.log[m + 2]);
    if cfg.leverage is Some {
        assert(r.log[m + 3] == g.log[m + 3]);
    }
}

/// A sale of all that is held, or of nothing, is no partial sale: nothing is sold,
/// and the stop of the whole long goes to the decided price.
pub proof fn law_lot_that_cannot_be_split_keeps_its_size(
    w: World,
    log: Seq<Exchange>,
    cfg: ConfigView,
    s: MarketSnapshot,
    b: Book,
    d: Decision,
    at: StampView,
    p: Position,
)
    requires
        sends(cfg),
        !s.live_book,
        d@ is ReduceLong,
        b.state.position == Some(p),
        p.symbol@ == d@->ReduceLong_symbol,
        p.symbol@.len() > 0,
        p.side == Side::Long,
        p.qty.pos(),
        p.take_profit is Some,
        p.qty.le(d@->ReduceLong_qty) || !d@->ReduceLong_qty.pos(),
    ensures
        ({
            let n = log.len() as int;
            let r = decision_run(w, log, cfg, s, b, d, at);
            &&& n < r.log.len()
            &&& r.log[n].call == (Call::ReplaceStop {
                symbol: p.symbol@,
                stop_loss: d@->ReduceLong_stop_loss,
                take_profit: p.take_profit,
                qty: Some(p.qty),
            })
        }),
{
    let a = ask(
        w,
        log,
        Call::ReplaceStop {
            symbol: p.symbol@,
            stop_loss: d@->ReduceLong_stop_loss,
            take_profit: p.take_profit,
            qty: Some(p.qty),
        },
    );
    lemma_short_run(w, a.log, p.symbol@);
}

/// At which price an exit is booked: at the first positive price of the name on the
/// tape.
pub proof fn law_exit_is_booked_at_the_tape_price(
    w: World,
    log: Seq<Exchange>,
    cfg: ConfigView,
    s: MarketSnapshot,
    b: Book,
    d: Decision,
    at: StampView,
    p: Position,
    k: int,
)
    requires
        sends(cfg),
        !s.live_book,
        d@ is ExitPosition,
        position_of(s, Some(b.state), d@->ExitPosition_symbol) == Some(p),
        0 <= k < s.tickers@.len(),
        s.tickers@[k].symbol@ == p.symbol@,
        s.tickers@[k].last_price.pos(),
        forall|i: int|
            0 <= i < k ==> (#[trigger] s.tickers@[i]).symbol@ != p.symbol@
                || !s.tickers@[i].last_price.pos(),
        done(w(log.len() as int + 1)) is Ok,
    ensures
        ({
            let r = decision_run(w, log, cfg, s, b, d, at);
            r.out is Some ==> (r.out->0).1.mark == Some(s.tickers@[k].last_price)
        }),
{
    crate::momentum::laws::law_tape_mark_is_the_first_price(p.symbol@, s.tickers@, k);
}

/// At which leverage the cap is asked for: the one that is set, and else twenty
/// where no row of the name states one.
pub proof fn law_leverage(cfg: ConfigView, s: MarketSnapshot, symbol: Seq<char>, l: i32)
    ensures
        cfg.leverage == Some(l) ==> leverage_of(cfg, s, symbol) == l,
        cfg.leverage is None && (forall|i: int|
            0 <= i < snapshot_rows(s).len() ==> (#[trigger] snapshot_rows(s)[i]).symbol@ != symbol
                || snapshot_rows(s)[i].leverage <= 0) ==> leverage_of(cfg, s, symbol) == 20,
{
    if forall|i: int|
        0 <= i < snapshot_rows(s).len() ==> (#[trigger] snapshot_rows(s)[i]).symbol@ != symbol
            || snapshot_rows(s)[i].leverage <= 0 {
        lemma_no_leverage(snapshot_rows(s), symbol);
    }
}

proof fn lemma_no_leverage(v: Seq<Position>, symbol: Seq<char>)
    requires
        forall|i: int| 0 <= i < v.len() ==> (#[trigger] v[i]).symbol@ != symbol || v[i].leverage <= 0,
    ensures
        super::book::row_leverage(v, symbol) is None,
    decreases v.len(),
{
    if v.len() > 0 {
        let rest = v.drop_first();
        assert forall|i: int| 0 <= i < rest.len() implies (#[trigger] rest[i]).symbol@ != symbol
            || rest[i].leverage <= 0 by {
            assert(rest[i] == v[i + 1]);
        }
        assert(v[0].symbol@ != symbol || v[0].leverage <= 0);
        lemma_no_leverage(rest, symbol);
    }
}

/// What is open of a name: one more row of it with a quantity counts its quantity
/// at the price, each side once.
pub proof fn law_open_worth_counts_each_side_once(rows: Seq<Position>, symbol: Seq<char>, mark: Dec, n: int)
    requires
        0 < n <= rows.len(),
        rows[n - 1].symbol@ == symbol,
        rows[n - 1].qty.pos(),
        rows[n - 1].side == Side::Long,
    ensures
        ({
            let before = super::book::worth(rows, symbol, mark, n - 1);
            let after = super::book::worth(rows, symbol, mark, n);
            &&& !before.long ==> after.total == n_add(
                before.total,
                decimal_product(rows[n - 1].qty, mark),
            ) && after.long
            &&& before.long ==> after == before
        }),
{
}

/// How protective orders are placed again: only where the first try was refused
/// because there is nothing to reduce and the exchange lists the long by now, and
/// then the very same orders.
pub proof fn law_protection_is_tried_twice_at_most(
    w: World,
    log: Seq<Exchange>,
    symbol: Seq<char>,
    take_profit: Dec,
    stop_loss: Dec,
    qty: Dec,
)
    ensures
        ({
            let n = log.len() as int;
            let r = protect_run(w, log, symbol, take_profit, stop_loss, qty);
            let first = done(w(n));
            &&& r.log.len() <= n + 3
            &&& first is Ok ==> r.out is None && r.log.len() == n + 1
            &&& first is Err && already_protected(first->Err_0) ==> r.out is None && r.log.len() == n + 1
            &&& first is Err && !already_protected(first->Err_0) && error_code(first->Err_0) != Some(
                -2022int,
            ) ==> r.out == Some(first->Err_0) && r.log.len() == n + 1
            &&& r.log.len() == n + 3 ==> r.log[n + 2].call == r.log[n].call && r.log[n + 1].call
                is PositionRisk
        }),
{
}

} // verus!

//! What reconciliation does about longs, shorts and protective orders.
use super::adopt::{known_row, Book};
use super::book::mark_or;
use super::laws::continues;
use super::orders::already_protected;
use super::reconcile::{
    gone_longs, is_live_key, open_shorts, protected, rearm_counted, rearm_exhausted, rearm_one,
    sweep_run, vanish_one, wanted_prices,
};
use crate::config::load::ConfigView;
use crate::continuation::{default_continuation, for_interval};
use crate::dec::{dec, decimal_difference, decimal_sum, decimal_text, n_mul, Dec};
use crate::exchange::protectives_sized;
use crate::flatten::{law_flatten_closes_whole_targets, law_targets_are_open_rows, targets_of};
use crate::journal::{laws::law_recorded_close, StampView};
use crate::models::{lemma_filter_member, EngineStateView, MarketSnapshot, Position, Side};
use crate::money::{net_long_pnl, round_trip, taker};
use crate::text::upper;
use crate::trail::law_side_words;
use crate::wire::{ask, done, rows, Call, Exchange, World};
use vstd::prelude::*;

verus! {

/// Whether the snapshot has an open long of a key, in its book or its slot.
pub open spec fn shows_open_long(s: MarketSnapshot, key: Seq<char>) -> bool {
    ||| exists|i: int|
        0 <= i < s.open_positions@.len() && (#[trigger] s.open_positions@[i]).side == Side::Long
            && s.open_positions@[i].qty.pos() && upper(s.open_positions@[i].symbol@) == key
    ||| s.position is Some && s.position->0.side == Side::Long && s.position->0.qty.pos() && upper(
        s.position->0.symbol@,
    ) == key
}

proof fn lemma_live_key(s: MarketSnapshot, key: Seq<char>)
    ensures
        is_live_key(s, key) <==> shows_open_long(s, key),
{
    let v = super::book::snapshot_rows(s);
    let n = s.open_positions@.len() as int;
    if is_live_key(s, key) {
        let i = choose|i: int|
            0 <= i < v.len() && (#[trigger] v[i]).is_open_long() && upper(v[i].symbol@) == key;
        if i < n {
            assert(s.open_positions@[i] == v[i]);
        }
    }
    if shows_open_long(s, key) {
        if exists|i: int|
            0 <= i < n && (#[trigger] s.open_positions@[i]).side == Side::Long
                && s.open_positions@[i].qty.pos() && upper(s.open_positions@[i].symbol@) == key {
            let i = choose|i: int|
                0 <= i < n && (#[trigger] s.open_positions@[i]).side == Side::Long
                    && s.open_positions@[i].qty.pos() && upper(s.open_positions@[i].symbol@) == key;
            assert(v[i] == s.open_positions@[i]);
        } else {
            assert(v[n] == s.position->0);
        }
    }
}

/// Which longs have vanished: exactly the open longs that the desk remembers and
/// the snapshot no longer has, each name once.
pub proof fn law_vanished_longs(known: Seq<Position>, n: int, s: MarketSnapshot, p: Position)
    requires
        0 <= n <= known.len(),
    ensures
        gone_longs(known, n, s).contains(p) ==> p.side == Side::Long && p.qty.pos() && known.contains(p)
            && !shows_open_long(s, upper(p.symbol@)),
        known.take(n).contains(p) && p.side == Side::Long && p.qty.pos() && !shows_open_long(
            s,
            upper(p.symbol@),
        ) ==> exists|i: int|
            0 <= i < gone_longs(known, n, s).len() && upper(
                (#[trigger] gone_longs(known, n, s)[i]).symbol@,
            ) == upper(p.symbol@),
    decreases n,
{
    if n > 0 {
        law_vanished_longs(known, n - 1, s, p);
        let q = known[n - 1];
        let key = upper(q.symbol@);
        lemma_live_key(s, key);
        lemma_live_key(s, upper(p.symbol@));
        let rest = gone_longs(known, n - 1, s);
        let all = gone_longs(known, n, s);
        if all.contains(p) {
            let i = choose|i: int| 0 <= i < all.len() && all[i] == p;
            if i < rest.len() {
                assert(rest[i] == p);
            } else {
                assert(known[n - 1] == p);
            }
        }
        if known.take(n).contains(p) && p.side == Side::Long && p.qty.pos() && !shows_open_long(
            s,
            upper(p.symbol@),
        ) {
            let j = choose|j: int| 0 <= j < n && known.take(n)[j] == p;
            if j < n - 1 {
                assert(known.take(n - 1)[j] == p);
                let i = choose|i: int|
                    0 <= i < rest.len() && upper((#[trigger] rest[i]).symbol@) == upper(p.symbol@);
                assert(all[i] == rest[i]);
            } else if super::reconcile::has_row_key(rest, key) {
                let i = choose|i: int| 0 <= i < rest.len() && upper((#[trigger] rest[i]).symbol@) == key;
                assert(all[i] == rest[i]);
            } else {
                assert(all[all.len() - 1] == q);
            }
        }
    } else {
        assert(known.take(0).len() == 0);
    }
}

/// A vanished long is written down for all that was held, at the price its name
/// trades at; its protective orders are cancelled and nothing else is asked; and it
/// is forgotten.
pub proof fn law_vanished_long_is_written_down(
    w: World,
    log: Seq<Exchange>,
    cfg: ConfigView,
    s: MarketSnapshot,
    b: Book,
    p: Position,
    at: StampView,
)
    requires
        vanish_one(w, log, cfg, s, b, p, at).out is Some,
    ensures
        ({
            let r = vanish_one(w, log, cfg, s, b, p, at);
            let next = r.out->0;
            let line = next.ledger.events.last();
            let px = mark_or(s, p.symbol@, p.entry_price);
            &&& r.log.len() == log.len() + 1
            &&& continues(r.log, log)
            &&& r.log.last().call == (Call::CancelProtectives { symbol: p.symbol@ })
            &&& next.ledger.events.len() == b.ledger.events.len() + 1
            &&& next.ledger.events.drop_last() == b.ledger.events
            &&& line.event == "close"@ && line.symbol == p.symbol@
            &&& line.qty == decimal_text(p.qty) && line.price == decimal_text(px)
            &&& net_long_pnl(p.entry_price, px, p.qty, taker()) matches Some(pnl) && line.pnl == Some(
                decimal_text(pnl),
            )
            &&& forall|i: int|
                0 <= i < next.state.positions.len() ==> upper(
                    (#[trigger] next.state.positions[i]).symbol@,
                ) != upper(p.symbol@)
        }),
{
    let r = vanish_one(w, log, cfg, s, b, p, at);
    let next = r.out->0;
    let px = mark_or(s, p.symbol@, p.entry_price);
    let won = crate::journal::close_won(p.entry_price, px, p.take_profit)->0;
    law_recorded_close(
        b.ledger,
        at,
        b.state.strategy_id,
        p.symbol@,
        p.qty,
        p.entry_price,
        px,
        if won {
            "биржа закрыла лонг по TP"@
        } else {
            "биржа закрыла лонг"@
        },
        cfg.live,
        p.stop_loss,
        p.take_profit,
        false,
    );
    let key = upper(p.symbol@);
    assert forall|i: int| 0 <= i < next.state.positions.len() implies upper(
        (#[trigger] next.state.positions[i]).symbol@,
    ) != key by {
        let x = next.state.positions[i];
        assert(next.state.positions.contains(x));
        lemma_filter_member(b.state.positions, |p: Position| upper(p.symbol@) != key, x);
    }
}

/// When protection counts as failed for good: at the third failure in a row, or
/// once ninety seconds have passed since the first.
pub proof fn law_protection_gives_up(st: EngineStateView, key: Seq<char>, now: i64)
    ensures
        rearm_exhausted(st, key, now as int) <==> {
            ||| st.rearm_fail_count.contains_key(key) && st.rearm_fail_count[key] >= 2
            ||| st.rearm_miss_since.contains_key(key) && now - st.rearm_miss_since[key] >= 90 * 1000
        },
        st.rearm_fail_count.contains_key(key) && st.rearm_fail_count[key] < 255 ==> rearm_counted(
            st,
            key,
            now,
        ).rearm_fail_count[key] == st.rearm_fail_count[key] + 1,
        !st.rearm_fail_count.contains_key(key) ==> rearm_counted(st, key, now).rearm_fail_count[key] == 1,
        st.rearm_miss_since.contains_key(key) ==> rearm_counted(st, key, now).rearm_miss_since
            == st.rearm_miss_since,
        !protected(st, key).rearm_fail_count.contains_key(key),
        !protected(st, key).rearm_miss_since.contains_key(key),
        protected(st, key).sized_stops.contains(key),
{
}

/// At which prices a long is protected: at its own where it has both, else at what
/// the desk remembers of it, and else at the smallest stop and the net take-profit
/// from its entry.
pub proof fn law_wanted_prices(cfg: ConfigView, st: EngineStateView, p: Position, sl: Dec, tp: Dec)
    ensures
        p.stop_loss == Some(sl) && p.take_profit == Some(tp) ==> wanted_prices(cfg, st, p) == Some(
            Some((sl, tp)),
        ),
        p.stop_loss is None && p.take_profit == Some(tp) && known_row(st, upper(p.symbol@)) is Some
            && known_row(st, upper(p.symbol@))->0.stop_loss == Some(sl) ==> wanted_prices(cfg, st, p) == Some(Some((sl, tp))),
        p.stop_loss == Some(sl) && p.take_profit is None && known_row(st, upper(p.symbol@)) is Some
            && known_row(st, upper(p.symbol@))->0.take_profit == Some(tp) ==> wanted_prices(cfg, st, p) == Some(Some((sl, tp))),
        p.stop_loss is None && p.take_profit is None && known_row(st, upper(p.symbol@)) is None
            && p.entry_price.pos() && cfg.tp_pct.pos() && wanted_prices(cfg, st, p) == Some(
            Some((sl, tp)),
        ) ==> {
            let least = for_interval(default_continuation(), cfg.s4_interval).min_stop_pct;
            &&& Some(sl) == n_mul(Some(p.entry_price), decimal_difference(dec(1, 0), least))
            &&& decimal_sum(cfg.tp_pct, round_trip()) matches Some(share) && Some(tp) == n_mul(
                Some(p.entry_price),
                decimal_sum(dec(1, 0), share),
            )
            &&& sl.pos() && sl.lt(tp)
        },
{
    law_side_words();
}

/// How a long is protected again: its orders are listed, and unless protective
/// orders of a size stand there the stop and the take-profit that are wanted are
/// placed for all that is held. A refusal that is not about orders that stand there
/// counts as a failure.
pub proof fn law_long_is_protected_again(
    w: World,
    log: Seq<Exchange>,
    cfg: ConfigView,
    b: Book,
    p: Position,
    at: StampView,
    sl: Dec,
    tp: Dec,
)
    requires
        wanted_prices(cfg, b.state, p) == Some(Some((sl, tp))),
        rearm_one(w, log, cfg, b, p, at).out is Some,
    ensures
        ({
            let n = log.len() as int;
            let key = upper(p.symbol@);
            let r = rearm_one(w, log, cfg, b, p, at);
            let sized = rows(w(n)) is Ok && protectives_sized(rows(w(n))->Ok_0);
            &&& continues(r.log, log)
            &&& n < r.log.len()
            &&& r.log[n].call == (Call::OpenAlgoOrders { symbol: Some(key) })
            &&& sized ==> r.log.len() == n + 1 && (r.out->0).0.state.sized_stops.contains(key)
            &&& !sized ==> n + 1 < r.log.len() && r.log[n + 1].call == (Call::ReplaceStop {
                symbol: p.symbol@,
                stop_loss: sl,
                take_profit: Some(tp),
                qty: Some(p.qty),
            })
            &&& !sized && done(w(n + 1)) is Err && already_protected(done(w(n + 1))->Err_0) ==> (
            r.out->0).0.state.sized_stops.contains(key)
            &&& !sized && done(w(n + 1)) is Err && !already_protected(done(w(n + 1))->Err_0)
                && rearm_exhausted(b.state, key, at.now as int) ==> r.log.last().call == (
            Call::MarketClose { symbol: p.symbol@, side: "LONG"@, qty: p.qty })
            &&& !sized && done(w(n + 1)) is Err && !already_protected(done(w(n + 1))->Err_0)
                && !rearm_exhausted(b.state, key, at.now as int) ==> (
            r.out->0).0.state.rearm_fail_count.contains_key(key) && r.log.len() == n + 2
        }),
{
    let n = log.len() as int;
    let a = ask(w, log, Call::OpenAlgoOrders { symbol: Some(upper(p.symbol@)) });
    let c = ask(
        w,
        a.log,
        Call::ReplaceStop {
            symbol: p.symbol@,
            stop_loss: sl,
            take_profit: Some(tp),
            qty: Some(p.qty),
        },
    );
    super::laws::lemma_short_run(w, c.log, p.symbol@);
}

/// A sweep closes shorts only: whatever it closes is an open short of the snapshot,
/// whole; no long is touched and nothing is bought but to buy a short back.
pub proof fn law_sweep_closes_shorts_only(
    w: World,
    log: Seq<Exchange>,
    cfg: ConfigView,
    s: MarketSnapshot,
    b: Book,
    at: StampView,
    k: int,
)
    requires
        log.len() <= k < sweep_run(w, log, cfg, s, b, at).log.len(),
    ensures
        ({
            let x = sweep_run(w, log, cfg, s, b, at).log[k];
            &&& cfg.live && cfg.credentials is Some && s.live_book
            &&& x.call is CancelProtectives || x.call is MarketClose
            &&& x.call matches Call::MarketClose { side, symbol, qty } ==> side == "SHORT"@ && exists|
                i: int,
            |
                0 <= i < open_shorts(s).len() && (#[trigger] open_shorts(s)[i]).side == Side::Short
                    && open_shorts(s)[i].qty == qty && qty.pos() && upper(open_shorts(s)[i].symbol@)
                    == symbol
        }),
{
    let shorts = open_shorts(s);
    let targets = targets_of(shorts);
    law_flatten_closes_whole_targets(w, log, targets, targets.len() as int);
    let x = sweep_run(w, log, cfg, s, b, at).log[k];
    assert(crate::flatten::is_of_flatten(x, targets));
    let i = choose|i: int|
        0 <= i < targets.len() && (x.call == (Call::CancelProtectives {
            symbol: (#[trigger] targets[i]).symbol,
        }) || x.call == (Call::MarketClose {
            symbol: targets[i].symbol,
            side: if targets[i].side == Side::Long {
                "LONG"@
            } else {
                "SHORT"@
            },
            qty: targets[i].qty,
        }));
    law_targets_are_open_rows(shorts, i);
    let j = choose|j: int|
        0 <= j < shorts.len() && upper((#[trigger] shorts[j]).symbol@) == targets[i].symbol
            && shorts[j].side == targets[i].side && shorts[j].qty == targets[i].qty
            && shorts[j].qty.pos();
    lemma_shorts(s, j);
    assert(open_shorts(s)[j].side == Side::Short);
}

proof fn lemma_shorts(s: MarketSnapshot, j: int)
    requires
        0 <= j < open_shorts(s).len(),
    ensures
        open_shorts(s)[j].side == Side::Short,
        open_shorts(s)[j].qty.pos(),
{
    let test = |p: Position| p.side == Side::Short && p.qty.pos();
    let listed = s.open_positions@.filter(test);
    if j < listed.len() {
        assert(listed.contains(listed[j]));
        lemma_filter_member(s.open_positions@, test, listed[j]);
        assert(open_shorts(s)[j] == listed[j]);
    }
}

} // verus!

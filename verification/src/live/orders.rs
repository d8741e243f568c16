//! The order sequences of a decision.
use super::book::{
    count_named, existing_notional, find_held, find_snapshot_row, has_long, held_names, held_row,
    hinted_symbol, leverage_for, leverage_of, list_held, mark_for_symbol, mark_of, mark_or,
    mark_or_entry, named_count, open_worth, position_for, position_of, shows_long, snapshot_row,
    state_view, symbol_hint,
};
use super::{fault, no_apply, ApplyView, LiveApplyResult};
use crate::config::load::{Config, ConfigView};
use crate::continuation::manage::{find_row, row_of};
use crate::continuation::{is_named_in, named_in};
use crate::dec::{minus, n_add, n_mul, n_sub, plus, smaller, times, Dec};
use crate::engine::tick::{find_like, first_like};
use crate::errors::{classify, error_code};
use crate::exchange::{
    market_size, risk_size, size_market_order, size_risk_market_order, sized_view, ExchangeError,
    RiskSized, Sized, SymbolFilters,
};
use crate::flatten::{close_run, close_targets, targets_of};
use crate::journal::{ledger_flattened, Ledger, LedgerView, Stamp, StampView};
use crate::models::{
    open_long_rows, open_longs, opt_deref, opt_view, Decision, DecisionView, EngineState,
    EngineStateView, MarketSnapshot, Position, Side,
};
use crate::ranking::{find_ignoring_case, row_ignoring_case};
use crate::text::{contains, has, has_key, holds_key, own, upper, views};
use crate::trail::{take_profit_net, take_profit_price_net, PriceView};
use crate::wire::{
    ask, book, cap, done, explains, filters, Call, Exchange, LiveClient, Reply, Run, Wire, World,
};
use vstd::prelude::*;
use vstd::string::StringExecFns;

verus! {

/// What an order came to, and the ledger after it; nothing where a number left
/// the decimal range.
pub open spec fn applied(r: Option<LiveApplyResult>, l: LedgerView) -> Option<(LedgerView, ApplyView)> {
    match r {
        Some(x) => Some((l, x@)),
        None => None,
    }
}

fn err(text: &str) -> (r: LiveApplyResult)
    ensures
        r@ == fault(text@),
{
    let mut r: LiveApplyResult = LiveApplyResult::default();
    r.error = Some(own(text));
    r
}

/// Nothing done, why, and which symbol is to be forgotten.
pub open spec fn forgets(why: Seq<char>, symbol: Seq<char>) -> ApplyView {
    ApplyView { error: Some(why), forget_symbol: symbol, ..no_apply() }
}

fn forgetting(text: &str, symbol: &str) -> (r: LiveApplyResult)
    ensures
        r@ == forgets(text@, symbol@),
{
    let mut r: LiveApplyResult = LiveApplyResult::default();
    r.error = Some(own(text));
    r.forget_symbol = own(symbol);
    r
}

/// Whether an error says that the protective order is there already.
pub open spec fn already_protected(e: Seq<char>) -> bool {
    error_code(e) == Some(-4130int)
}

/// Whether an error says that the protective order is there already.
pub fn is_already_protected(e: &str) -> (r: bool)
    ensures
        r == already_protected(e@),
{
    classify(e).code == Some(-4130)
}

/// Looks for a short of a symbol and closes it; says which one was closed.
pub open spec fn short_run(w: World, log: Seq<Exchange>, symbol: Seq<char>) -> Run<
    Option<Seq<char>>,
> {
    let want = upper(symbol);
    if want.len() == 0 {
        Run { log, out: None }
    } else {
        let a = ask(w, log, Call::PositionRisk);
        match book(a.out) {
            Err(_) => Run { log: a.log, out: None },
            Ok(rows) => match held_row(rows, want) {
                None => Run { log: a.log, out: None },
                Some(p) => if p.side != Side::Short {
                    Run { log: a.log, out: None }
                } else {
                    let targets = targets_of(seq![p]);
                    let b = close_run(w, a.log, targets, targets.len() as int);
                    Run { log: b.log, out: Some(p.symbol@) }
                },
            },
        }
    }
}

/// Closes a short of a symbol, where the exchange lists one.
pub fn flatten_live_short<C: LiveClient>(wire: &mut Wire<C>, symbol: &str) -> (r: Option<String>)
    ensures
        forall|w: World| #[trigger]
            explains(w, final(wire).log()) ==> explains(w, old(wire).log()) && short_run(
                w,
                old(wire).log(),
                symbol@,
            ) == (Run { log: final(wire).log(), out: opt_view(r) }),
{
    let want = symbol.to_ascii_uppercase();
    if want.as_str().is_empty() {
        return None;
    }
    let rows: Vec<Position> = match wire.fetch_book() {
        Ok(v) => v,
        Err(_) => return None,
    };
    let row: Position = match find_held(rows.as_slice(), want.as_str()) {
        Some(p) => p.clone(),
        None => return None,
    };
    if row.side != Side::Short {
        return None;
    }
    let name = own(row.symbol.as_str());
    let ghost p = row;
    let mut one: Vec<Position> = Vec::new();
    one.push(row);
    proof {
        assert(one@ =~= seq![p]);
    }
    let _ = close_targets(wire, one.as_slice());
    Some(name)
}

/// Places the protective orders of a fill. A refusal because the position is not
/// there yet is tried once more where the exchange lists the long by now.
pub open spec fn protect_run(
    w: World,
    log: Seq<Exchange>,
    symbol: Seq<char>,
    take_profit: Dec,
    stop_loss: Dec,
    qty: Dec,
) -> Run<Option<Seq<char>>> {
    let call = Call::PlaceTpSl { symbol, take_profit, stop_loss, qty: Some(qty) };
    let a = ask(w, log, call);
    match done(a.out) {
        Ok(_) => Run { log: a.log, out: None },
        Err(e) => if already_protected(e) {
            Run { log: a.log, out: None }
        } else if error_code(e) != Some(-2022int) {
            Run { log: a.log, out: Some(e) }
        } else {
            let b = ask(w, a.log, Call::PositionRisk);
            match book(b.out) {
                Err(_) => Run { log: b.log, out: Some(e) },
                Ok(rows) => {
                    let row = with_symbol_held(rows, upper(symbol));
                    if row is None || row->0.side != Side::Long {
                        Run { log: b.log, out: Some(e) }
                    } else {
                        let c = ask(w, b.log, call);
                        match done(c.out) {
                            Ok(_) => Run { log: c.log, out: None },
                            Err(again) => Run {
                                log: c.log,
                                out: if already_protected(again) {
                                    None
                                } else {
                                    Some(again)
                                },
                            },
                        }
                    }
                },
            }
        },
    }
}

/// The first row with a quantity and exactly a symbol.
pub open spec fn with_symbol_held(rows: Seq<Position>, symbol: Seq<char>) -> Option<Position>
    decreases rows.len(),
{
    if rows.len() == 0 {
        None
    } else if rows[0].symbol@ == symbol && rows[0].qty.pos() {
        Some(rows[0])
    } else {
        with_symbol_held(rows.drop_first(), symbol)
    }
}

fn find_symbol_held<'a>(rows: &'a [Position], symbol: &str) -> (r: Option<&'a Position>)
    ensures
        opt_deref(r) == with_symbol_held(rows@, symbol@),
{
    let mut i: usize = 0;
    proof {
        assert(rows@.skip(0) =~= rows@);
    }
    while i < rows.len()
        invariant
            i <= rows@.len(),
            with_symbol_held(rows@, symbol@) == with_symbol_held(rows@.skip(i as int), symbol@),
        decreases rows@.len() - i,
    {
        let ghost rest = rows@.skip(i as int);
        proof {
            assert(rest[0] == rows@[i as int]);
            assert(rest.drop_first() =~= rows@.skip(i as int + 1));
        }
        if crate::text::same(rows[i].symbol.as_str(), symbol) && rows[i].qty.is_pos() {
            return Some(&rows[i]);
        }
        i = i + 1;
    }
    None
}

fn place_fill_protectives<C: LiveClient>(
    wire: &mut Wire<C>,
    symbol: &str,
    take_profit: Dec,
    stop_loss: Dec,
    qty: Dec,
) -> (r: Option<ExchangeError>)
    ensures
        forall|w: World| #[trigger]
            explains(w, final(wire).log()) ==> explains(w, old(wire).log()) && protect_run(
                w,
                old(wire).log(),
                symbol@,
                take_profit,
                stop_loss,
                qty,
            ) == (Run {
                log: final(wire).log(),
                out: match r {
                    Some(e) => Some(e@),
                    None => None,
                },
            }),
{
    let first: ExchangeError = match wire.place_tp_sl(symbol, take_profit, stop_loss, Some(qty)) {
        Ok(_) => return None,
        Err(e) => e,
    };
    if is_already_protected(first.0.as_str()) {
        return None;
    }
    if classify(first.0.as_str()).code != Some(-2022) {
        return Some(first);
    }
    let rows: Vec<Position> = match wire.fetch_book() {
        Ok(v) => v,
        Err(_) => return Some(first),
    };
    let want = symbol.to_ascii_uppercase();
    let long: bool = match find_symbol_held(rows.as_slice(), want.as_str()) {
        Some(p) => p.side == Side::Long,
        None => false,
    };
    if !long {
        return Some(first);
    }
    match wire.place_tp_sl(symbol, take_profit, stop_loss, Some(qty)) {
        Ok(_) => None,
        Err(again) => if is_already_protected(again.0.as_str()) {
            None
        } else {
            Some(again)
        },
    }
}

/// Takes the protective orders off and closes a long; gives the note on a close
/// that failed.
pub open spec fn undo_run(w: World, log: Seq<Exchange>, symbol: Seq<char>, qty: Dec) -> Run<Seq<char>> {
    let a = ask(w, log, Call::CancelProtectives { symbol });
    let b = ask(w, a.log, Call::MarketClose { symbol, side: "LONG"@, qty });
    Run {
        log: b.log,
        out: match done(b.out) {
            Ok(_) => Seq::empty(),
            Err(e) => "; close: "@ + e,
        },
    }
}

/// Takes the protective orders off and closes a long.
pub fn undo_long<C: LiveClient>(wire: &mut Wire<C>, symbol: &str, qty: Dec) -> (r: String)
    ensures
        forall|w: World| #[trigger]
            explains(w, final(wire).log()) ==> explains(w, old(wire).log()) && undo_run(
                w,
                old(wire).log(),
                symbol@,
                qty,
            ) == (Run { log: final(wire).log(), out: r@ }),
{
    let _ = wire.cancel_protectives(symbol);
    match wire.market_close(symbol, "LONG", qty) {
        Ok(_) => {
            let r = String::new();
            proof {
                assert(r@ =~= Seq::<char>::empty());
            }
            r
        },
        Err(e) => {
            let mut note = own("; close: ");
            note.append(e.0.as_str());
            note
        },
    }
}

/// The ledger with the line of a fill that was closed for want of protection.
pub open spec fn noted_naked(
    cfg: ConfigView,
    st: Option<EngineStateView>,
    l: LedgerView,
    at: StampView,
    symbol: Seq<char>,
) -> Option<LedgerView> {
    match st {
        Some(x) => ledger_flattened(
            l,
            at,
            x.strategy_id,
            seq![symbol],
            cfg.live,
            "flattened naked fill"@,
        ),
        None => Some(l),
    }
}

fn note_naked(
    cfg: &Config,
    state: Option<&EngineState>,
    ledger: &mut Ledger,
    at: &Stamp,
    symbol: &str,
)
    ensures
        noted_naked(cfg@, state_view(state), old(ledger)@, at@, symbol@) == Some(final(ledger)@),
{
    match state {
        Some(st) => {
            let mut one: Vec<String> = Vec::new();
            one.push(own(symbol));
            proof {
                assert(views(one@) =~= seq![symbol@]);
            }
            ledger.flatten(at, st.strategy_id, one.as_slice(), cfg.live, "flattened naked fill");
        },
        None => {},
    }
}

/// How many longs the desk may hold.
pub open spec fn slot_limit(cfg: ConfigView, st: Option<EngineStateView>) -> i32 {
    if st is Some && st->0.strategy_id == 4 {
        cfg.s4_max_positions
    } else {
        cfg.max_positions
    }
}

/// How much is bought: by risk for strategy 4 where a risk is set, else by the
/// order's worth.
pub open spec fn entry_size(
    cfg: ConfigView,
    s: MarketSnapshot,
    st: Option<EngineStateView>,
    mark: Dec,
    stop_loss: Dec,
    f: SymbolFilters,
) -> Sized {
    if st is Some && st->0.strategy_id == 4 && cfg.risk_pct.pos() {
        match risk_size(
            n_add(Some(s.account.wallet_balance), Some(s.account.unrealized_pnl)),
            cfg.risk_pct,
            mark,
            stop_loss,
            f,
        ) {
            RiskSized::Qty(q) => Sized::Qty(q),
            RiskSized::TooRisky => Sized::Refused("skip enter: minNotional inflates risk"@),
            RiskSized::Refused(e) => Sized::Refused(e),
            RiskSized::Overflow => Sized::Overflow,
        }
    } else {
        market_size(
            if cfg.notional_from_exchange {
                f.min_notional
            } else {
                cfg.order_notional
            },
            mark,
            f,
        )
    }
}

fn size_entry(
    cfg: &Config,
    s: &MarketSnapshot,
    state: Option<&EngineState>,
    mark: Dec,
    stop_loss: Dec,
    f: &SymbolFilters,
) -> (r: Option<Result<Dec, ExchangeError>>)
    ensures
        sized_view(r) == entry_size(cfg@, *s, state_view(state), mark, stop_loss, *f),
{
    let four: bool = match state {
        Some(st) => st.strategy_id == 4,
        None => false,
    };
    if four && cfg.risk_pct.is_pos() {
        return match size_risk_market_order(s.account.equity(), cfg.risk_pct, mark, stop_loss, f)? {
            Ok(Some(q)) => Some(Ok(q)),
            Ok(None) => Some(Err(ExchangeError(own("skip enter: minNotional inflates risk")))),
            Err(e) => Some(Err(e)),
        };
    }
    let notional: Dec = if cfg.notional_from_exchange {
        f.min_notional
    } else {
        cfg.order_notional
    };
    size_market_order(notional, mark, f)
}

/// Whether an order fits under the exchange's cap. Where none is known it does.
pub open spec fn fits_run(
    w: World,
    log: Seq<Exchange>,
    s: MarketSnapshot,
    symbol: Seq<char>,
    mark: Dec,
    order: Dec,
    leverage: i32,
) -> Run<Option<bool>> {
    let a = ask(w, log, Call::MaxNotional { symbol, leverage });
    Run {
        log: a.log,
        out: match cap(a.out) {
            Ok(Some(c)) => match n_add(open_worth(s, symbol, mark), Some(order)) {
                Some(total) => Some(total.le(c)),
                None => None,
            },
            _ => Some(true),
        },
    }
}

fn notional_fits<C: LiveClient>(
    wire: &mut Wire<C>,
    s: &MarketSnapshot,
    symbol: &str,
    mark: Dec,
    order: Dec,
    leverage: i32,
) -> (r: Option<bool>)
    ensures
        forall|w: World| #[trigger]
            explains(w, final(wire).log()) ==> explains(w, old(wire).log()) && fits_run(
                w,
                old(wire).log(),
                *s,
                symbol@,
                mark,
                order,
                leverage,
            ) == (Run { log: final(wire).log(), out: r }),
{
    match wire.max_notional(symbol, leverage) {
        Ok(Some(c)) => {
            let total: Dec = plus(existing_notional(s, symbol, mark), Some(order))?;
            Some(total <= c)
        },
        _ => Some(true),
    }
}

/// What the purchase came to: the quantity held, or why nothing was bought. An
/// error of the order is believed only where the exchange lists no long.
pub open spec fn buy_run(w: World, log: Seq<Exchange>, symbol: Seq<char>, qty: Dec) -> Run<
    Result<Dec, Seq<char>>,
> {
    let a = ask(w, log, Call::MarketBuy { symbol, qty });
    match done(a.out) {
        Ok(_) => Run { log: a.log, out: Ok(qty) },
        Err(e) => {
            let b = ask(w, a.log, Call::PositionRisk);
            match book(b.out) {
                Err(_) => Run { log: b.log, out: Err(e) },
                Ok(rows) => Run {
                    log: b.log,
                    out: match first_like(open_longs(rows), symbol) {
                        Some(p) => Ok(p.qty),
                        None => Err(e),
                    },
                },
            }
        },
    }
}

fn buy<C: LiveClient>(wire: &mut Wire<C>, symbol: &str, qty: Dec) -> (r: Result<Dec, ExchangeError>)
    ensures
        forall|w: World| #[trigger]
            explains(w, final(wire).log()) ==> explains(w, old(wire).log()) && buy_run(
                w,
                old(wire).log(),
                symbol@,
                qty,
            ) == (Run { log: final(wire).log(), out: crate::wire::plain(r) }),
{
    let e: ExchangeError = match wire.market_buy(symbol, qty) {
        Ok(_) => return Ok(qty),
        Err(e) => e,
    };
    match wire.fetch_book() {
        Err(_) => Err(e),
        Ok(rows) => {
            let longs: Vec<Position> = open_long_rows(rows.as_slice());
            match find_like(longs.as_slice(), symbol) {
                Some(p) => Ok(p.qty),
                None => Err(e),
            }
        },
    }
}

/// Whether nothing stands in the way of an entry before the exchange is asked.
pub open spec fn may_try(st: Option<EngineStateView>, symbol: Seq<char>) -> bool {
    match st {
        Some(x) => !has_key(x.skip_symbols, upper(symbol)) && !x.daily_halt,
        None => true,
    }
}

/// Why the book leaves no room for an entry.
pub open spec fn book_refusal(
    cfg: ConfigView,
    s: MarketSnapshot,
    st: Option<EngineStateView>,
    rows: Seq<Position>,
    symbol: Seq<char>,
) -> Option<Seq<char>> {
    let held = held_names(s, st, rows);
    if named_in(held, upper(symbol)) {
        Some("skip enter: already in position"@)
    } else if named_count(held, held.len() as int) >= slot_limit(cfg, st) {
        Some("skip enter: book full"@)
    } else {
        None
    }
}

/// What comes after a purchase: a long that turned out short is closed, a long
/// without protection is closed, a protected one is kept.
pub open spec fn guard_run(
    w: World,
    log: Seq<Exchange>,
    cfg: ConfigView,
    st: Option<EngineStateView>,
    l: LedgerView,
    at: StampView,
    symbol: Seq<char>,
    take_profit: Dec,
    stop_loss: Dec,
    mark: Dec,
    qty: Dec,
) -> Run<Option<(LedgerView, ApplyView)>> {
    let a = short_run(w, log, symbol);
    match a.out {
        Some(flipped) => Run {
            log: a.log,
            out: Some((l, forgets("вход перевернул в шорт — закрыл "@ + flipped, flipped))),
        },
        None => {
            let b = protect_run(w, a.log, symbol, take_profit, stop_loss, qty);
            match b.out {
                None => Run {
                    log: b.log,
                    out: Some(
                        (
                            l,
                            ApplyView {
                                filled: true,
                                mark: Some(mark),
                                qty: Some(qty),
                                ..no_apply()
                            },
                        ),
                    ),
                },
                Some(e) => {
                    let c = undo_run(w, b.log, symbol, qty);
                    Run {
                        log: c.log,
                        out: match noted_naked(cfg, st, l, at, symbol) {
                            None => None,
                            Some(next) => Some(
                                (
                                    next,
                                    ApplyView {
                                        error: Some("flattened naked fill: "@ + e + c.out),
                                        filled: false,
                                        mark: Some(mark),
                                        qty: Some(qty),
                                        forget_symbol: symbol,
                                    },
                                ),
                            ),
                        },
                    }
                },
            }
        },
    }
}

fn guard_fill<C: LiveClient>(
    cfg: &Config,
    wire: &mut Wire<C>,
    state: Option<&EngineState>,
    ledger: &mut Ledger,
    at: &Stamp,
    symbol: &str,
    take_profit: Dec,
    stop_loss: Dec,
    mark: Dec,
    qty: Dec,
) -> (r: Option<LiveApplyResult>)
    ensures
        forall|w: World| #[trigger]
            explains(w, final(wire).log()) ==> explains(w, old(wire).log()) && guard_run(
                w,
                old(wire).log(),
                cfg@,
                state_view(state),
                old(ledger)@,
                at@,
                symbol@,
                take_profit,
                stop_loss,
                mark,
                qty,
            ) == (Run { log: final(wire).log(), out: applied(r, final(ledger)@) }),
{
    if let Some(flipped) = flatten_live_short(wire, symbol) {
        let mut text = own("вход перевернул в шорт — закрыл ");
        text.append(flipped.as_str());
        return Some(forgetting(text.as_str(), flipped.as_str()));
    }
    match place_fill_protectives(wire, symbol, take_profit, stop_loss, qty) {
        None => {
            let mut r: LiveApplyResult = LiveApplyResult::default();
            r.filled = true;
            r.mark = Some(mark);
            r.qty = Some(qty);
            Some(r)
        },
        Some(e) => {
            let note = undo_long(wire, symbol, qty);
            note_naked(cfg, state, ledger, at, symbol);
            let mut text = own("flattened naked fill: ");
            text.append(e.0.as_str());
            text.append(note.as_str());
            Some(
                LiveApplyResult {
                    error: Some(text),
                    filled: false,
                    mark: Some(mark),
                    qty: Some(qty),
                    forget_symbol: own(symbol),
                },
            )
        },
    }
}

/// What an entry does once the book has room for it.
pub open spec fn fill_run(
    w: World,
    log: Seq<Exchange>,
    cfg: ConfigView,
    s: MarketSnapshot,
    st: Option<EngineStateView>,
    l: LedgerView,
    at: StampView,
    symbol: Seq<char>,
    take_profit: Dec,
    stop_loss: Dec,
) -> Run<Option<(LedgerView, ApplyView)>> {
    let a = ask(w, log, Call::FiltersFor { symbol });
    let stays = |at_log: Seq<Exchange>, why: Seq<char>| Run { log: at_log, out: Some((l, fault(why))) };
    match filters(a.out) {
        Err(e) => stays(a.log, e),
        Ok(f) => match row_of(s.tickers@, symbol) {
            None => stays(a.log, "skip enter: no mark"@),
            Some(t) => {
                let mark = t.last_price;
                match entry_size(cfg, s, st, mark, stop_loss, f) {
                    Sized::Overflow => Run { log: a.log, out: None },
                    Sized::Refused(e) => stays(a.log, e),
                    Sized::Qty(qty) => match n_mul(Some(qty), Some(mark)) {
                        None => Run { log: a.log, out: None },
                        Some(order) => {
                            let b = fits_run(
                                w,
                                a.log,
                                s,
                                symbol,
                                mark,
                                order,
                                leverage_of(cfg, s, symbol),
                            );
                            match b.out {
                                None => Run { log: b.log, out: None },
                                Some(false) => stays(
                                    b.log,
                                    "leverage cap (-2027): notional exceeds bracket"@,
                                ),
                                Some(true) => {
                                    let c = match cfg.leverage {
                                        Some(lev) => ask(
                                            w,
                                            b.log,
                                            Call::SetLeverage { symbol, leverage: lev },
                                        ),
                                        None => Run { log: b.log, out: Reply::Done(Ok(())) },
                                    };
                                    match done(c.out) {
                                        Err(e) => stays(c.log, e),
                                        Ok(_) => {
                                            let d = buy_run(w, c.log, symbol, qty);
                                            match d.out {
                                                Err(e) => stays(d.log, e),
                                                Ok(got) => guard_run(
                                                    w,
                                                    d.log,
                                                    cfg,
                                                    st,
                                                    l,
                                                    at,
                                                    symbol,
                                                    take_profit,
                                                    stop_loss,
                                                    mark,
                                                    got,
                                                ),
                                            }
                                        },
                                    }
                                },
                            }
                        },
                    },
                }
            },
        },
    }
}

fn fill<C: LiveClient>(
    cfg: &Config,
    wire: &mut Wire<C>,
    s: &MarketSnapshot,
    state: Option<&EngineState>,
    ledger: &mut Ledger,
    at: &Stamp,
    symbol: &str,
    take_profit: Dec,
    stop_loss: Dec,
) -> (r: Option<LiveApplyResult>)
    ensures
        forall|w: World| #[trigger]
            explains(w, final(wire).log()) ==> explains(w, old(wire).log()) && fill_run(
                w,
                old(wire).log(),
                cfg@,
                *s,
                state_view(state),
                old(ledger)@,
                at@,
                symbol@,
                take_profit,
                stop_loss,
            ) == (Run { log: final(wire).log(), out: applied(r, final(ledger)@) }),
{
    let f: SymbolFilters = match wire.filters_for(symbol) {
        Ok(f) => f,
        Err(e) => return Some(err(e.0.as_str())),
    };
    let mark: Dec = match find_row(s.tickers.as_slice(), symbol) {
        Some(t) => t.last_price,
        None => return Some(err("skip enter: no mark")),
    };
    let qty: Dec = match size_entry(cfg, s, state, mark, stop_loss, &f)? {
        Ok(q) => q,
        Err(e) => return Some(err(e.0.as_str())),
    };
    let order: Dec = times(Some(qty), Some(mark))?;
    let leverage: i32 = leverage_for(cfg, s, symbol);
    if !notional_fits(wire, s, symbol, mark, order, leverage)? {
        return Some(err("leverage cap (-2027): notional exceeds bracket"));
    }
    if let Some(lev) = cfg.leverage {
        if let Err(e) = wire.set_leverage(symbol, lev) {
            return Some(err(e.0.as_str()));
        }
    }
    let got: Dec = match buy(wire, symbol, qty) {
        Ok(q) => q,
        Err(e) => return Some(err(e.0.as_str())),
    };
    guard_fill(cfg, wire, state, ledger, at, symbol, take_profit, stop_loss, mark, got)
}

/// An entry. A book that cannot be read stops it: an outage must not look like a
/// flat book.
pub open spec fn enter_run(
    w: World,
    log: Seq<Exchange>,
    cfg: ConfigView,
    s: MarketSnapshot,
    st: Option<EngineStateView>,
    l: LedgerView,
    at: StampView,
    symbol: Seq<char>,
    take_profit: Dec,
    stop_loss: Dec,
) -> Run<Option<(LedgerView, ApplyView)>> {
    if !may_try(st, symbol) {
        Run { log, out: Some((l, no_apply())) }
    } else {
        let a = ask(w, log, Call::PositionRisk);
        match book(a.out) {
            Err(e) => Run {
                log: a.log,
                out: Some((l, fault("skip enter: нет снимка позиций ("@ + e + ")"@))),
            },
            Ok(rows) => match book_refusal(cfg, s, st, rows, symbol) {
                Some(why) => Run { log: a.log, out: Some((l, fault(why))) },
                None => fill_run(w, a.log, cfg, s, st, l, at, symbol, take_profit, stop_loss),
            },
        }
    }
}

fn enter_live<C: LiveClient>(
    cfg: &Config,
    wire: &mut Wire<C>,
    s: &MarketSnapshot,
    state: Option<&EngineState>,
    ledger: &mut Ledger,
    at: &Stamp,
    symbol: &str,
    take_profit: Dec,
    stop_loss: Dec,
) -> (r: Option<LiveApplyResult>)
    ensures
        forall|w: World| #[trigger]
            explains(w, final(wire).log()) ==> explains(w, old(wire).log()) && enter_run(
                w,
                old(wire).log(),
                cfg@,
                *s,
                state_view(state),
                old(ledger)@,
                at@,
                symbol@,
                take_profit,
                stop_loss,
            ) == (Run { log: final(wire).log(), out: applied(r, final(ledger)@) }),
{
    let want = symbol.to_ascii_uppercase();
    if let Some(st) = state {
        if holds_key(st.skip_symbols.as_slice(), want.as_str()) || st.daily_halt {
            return Some(LiveApplyResult::default());
        }
    }
    let rows: Vec<Position> = match wire.fetch_book() {
        Ok(v) => v,
        Err(e) => {
            let mut text = own("skip enter: нет снимка позиций (");
            text.append(e.0.as_str());
            text.append(")");
            return Some(err(text.as_str()));
        },
    };
    let held: Vec<String> = list_held(s, state, rows.as_slice());
    if is_named_in(held.as_slice(), want.as_str()) {
        return Some(err("skip enter: already in position"));
    }
    let limit: i32 = match state {
        Some(st) => if st.strategy_id == 4 {
            cfg.s4_max_positions
        } else {
            cfg.max_positions
        },
        None => cfg.max_positions,
    };
    proof {
        assert(views(held@).len() == held@.len());
    }
    let count: usize = count_named(held.as_slice());
    if limit < 0 || count >= limit as usize {
        return Some(err("skip enter: book full"));
    }
    fill(cfg, wire, s, state, ledger, at, symbol, take_profit, stop_loss)
}

/// What a trail that finds no long does: a short in its place is closed.
pub open spec fn no_long_run(w: World, log: Seq<Exchange>, l: LedgerView, symbol: Seq<char>) -> Run<
    Option<(LedgerView, ApplyView)>,
> {
    let a = short_run(w, log, symbol);
    Run {
        log: a.log,
        out: Some(
            (
                l,
                match a.out {
                    Some(flipped) => forgets(
                        "трейл перевернул в шорт — закрыл "@ + flipped,
                        flipped,
                    ),
                    None => forgets("skip amend: нет живого лонга"@, symbol),
                },
            ),
        ),
    }
}

fn amend_without_long<C: LiveClient>(wire: &mut Wire<C>, symbol: &str) -> (r: LiveApplyResult)
    ensures
        forall|w: World, l: LedgerView| #![trigger explains(w, final(wire).log()), no_long_run(w, old(wire).log(), l, symbol@)]
            explains(w, final(wire).log()) ==> no_long_run(w, old(wire).log(), l, symbol@) == (Run {
                log: final(wire).log(),
                out: Some((l, r@)),
            }),
        forall|w: World| #[trigger] explains(w, final(wire).log()) ==> explains(w, old(wire).log()),
{
    match flatten_live_short(wire, symbol) {
        Some(flipped) => {
            let mut text = own("трейл перевернул в шорт — закрыл ");
            text.append(flipped.as_str());
            forgetting(text.as_str(), flipped.as_str())
        },
        None => forgetting("skip amend: нет живого лонга", symbol),
    }
}

/// The take-profit that goes with a moved stop, or why there is none.
pub open spec fn kept_take_profit(cfg: ConfigView, p: Position) -> Option<Result<Dec, Seq<char>>> {
    match p.take_profit {
        Some(tp) => Some(Ok(tp)),
        None => if !p.entry_price.pos() {
            Some(Err("skip amend: missing take profit and entry"@))
        } else {
            match take_profit_net(p.entry_price, "LONG"@, cfg.tp_pct) {
                PriceView::Price(d) => Some(Ok(d)),
                PriceView::Overflow => None,
                PriceView::NotPositive(n, d) => Some(
                    Err(n + " must be positive, got "@ + crate::dec::decimal_text(d)),
                ),
                PriceView::UnknownSide(x) => Some(Err("unknown side: "@ + x)),
            }
        },
    }
}

fn keep_take_profit(cfg: &Config, p: &Position) -> (r: Option<Result<Dec, String>>)
    ensures
        match (r, kept_take_profit(cfg@, *p)) {
            (None, None) => true,
            (Some(Ok(a)), Some(Ok(b))) => a == b,
            (Some(Err(a)), Some(Err(b))) => a@ == b,
            _ => false,
        },
{
    if let Some(tp) = p.take_profit {
        return Some(Ok(tp));
    }
    if !p.entry_price.is_pos() {
        return Some(Err(own("skip amend: missing take profit and entry")));
    }
    match take_profit_price_net(p.entry_price, "LONG", cfg.tp_pct) {
        Ok(d) => Some(Ok(d)),
        Err(crate::trail::TrailError::Overflow) => None,
        Err(e) => Some(Err(e.message())),
    }
}

/// Whether a moved stop is the one that takes a half-sold long to break-even.
pub open spec fn is_break_even(reason: Seq<char>) -> bool {
    has(reason, "безубыток на 1R"@)
}

/// Moves the stop of a long that is known. Where break-even cannot be placed the
/// long is closed.
pub open spec fn move_stop_run(
    w: World,
    log: Seq<Exchange>,
    cfg: ConfigView,
    s: MarketSnapshot,
    st: Option<EngineStateView>,
    l: LedgerView,
    at: StampView,
    p: Position,
    stop_loss: Dec,
    take_profit: Dec,
    reason: Seq<char>,
) -> Run<Option<(LedgerView, ApplyView)>> {
    let a = ask(
        w,
        log,
        Call::ReplaceStop {
            symbol: p.symbol@,
            stop_loss,
            take_profit: Some(take_profit),
            qty: Some(p.qty),
        },
    );
    match done(a.out) {
        Err(e) => if !is_break_even(reason) {
            Run { log: a.log, out: Some((l, fault(e))) }
        } else {
            let b = undo_run(w, a.log, p.symbol@, p.qty);
            Run {
                log: b.log,
                out: match noted_naked(cfg, st, l, at, p.symbol@) {
                    None => None,
                    Some(next) => Some(
                        (
                            next,
                            ApplyView {
                                error: Some("flattened naked fill: "@ + e + b.out),
                                filled: false,
                                mark: match row_ignoring_case(s.tickers@, p.symbol@) {
                                    Some(t) => Some(t.last_price),
                                    None => None,
                                },
                                qty: Some(p.qty),
                                forget_symbol: p.symbol@,
                            },
                        ),
                    ),
                },
            }
        },
        Ok(_) => {
            let b = short_run(w, a.log, p.symbol@);
            Run {
                log: b.log,
                out: Some(
                    (
                        l,
                        match b.out {
                            Some(flipped) => forgets(
                                "трейл перевернул в шорт — закрыл "@ + flipped,
                                flipped,
                            ),
                            None => no_apply(),
                        },
                    ),
                ),
            }
        },
    }
}

fn move_stop<C: LiveClient>(
    cfg: &Config,
    wire: &mut Wire<C>,
    s: &MarketSnapshot,
    state: Option<&EngineState>,
    ledger: &mut Ledger,
    at: &Stamp,
    p: &Position,
    stop_loss: Dec,
    take_profit: Dec,
    reason: &str,
) -> (r: Option<LiveApplyResult>)
    ensures
        forall|w: World| #[trigger]
            explains(w, final(wire).log()) ==> explains(w, old(wire).log()) && move_stop_run(
                w,
                old(wire).log(),
                cfg@,
                *s,
                state_view(state),
                old(ledger)@,
                at@,
                *p,
                stop_loss,
                take_profit,
                reason@,
            ) == (Run { log: final(wire).log(), out: applied(r, final(ledger)@) }),
{
    let symbol: &str = p.symbol.as_str();
    if let Err(e) = wire.replace_stop(symbol, stop_loss, Some(take_profit), Some(p.qty)) {
        if !contains(reason, "безубыток на 1R") {
            return Some(err(e.0.as_str()));
        }
        let note = undo_long(wire, symbol, p.qty);
        note_naked(cfg, state, ledger, at, symbol);
        let mark: Option<Dec> = match find_ignoring_case(s.tickers.as_slice(), symbol) {
            Some(t) => Some(t.last_price),
            None => None,
        };
        let mut text = own("flattened naked fill: ");
        text.append(e.0.as_str());
        text.append(note.as_str());
        return Some(
            LiveApplyResult {
                error: Some(text),
                filled: false,
                mark,
                qty: Some(p.qty),
                forget_symbol: own(symbol),
            },
        );
    }
    match flatten_live_short(wire, symbol) {
        Some(flipped) => {
            let mut text = own("трейл перевернул в шорт — закрыл ");
            text.append(flipped.as_str());
            Some(forgetting(text.as_str(), flipped.as_str()))
        },
        None => Some(LiveApplyResult::default()),
    }
}

/// A moved stop.
pub open spec fn amend_run(
    w: World,
    log: Seq<Exchange>,
    cfg: ConfigView,
    s: MarketSnapshot,
    st: Option<EngineStateView>,
    l: LedgerView,
    at: StampView,
    stop_loss: Dec,
    symbol: Seq<char>,
    reason: Seq<char>,
) -> Run<Option<(LedgerView, ApplyView)>> {
    if s.live_book && !shows_long(s, symbol) {
        no_long_run(
            w,
            log,
            l,
            if symbol.len() == 0 {
                hinted_symbol(s, st)
            } else {
                symbol
            },
        )
    } else {
        match position_of(s, st, symbol) {
            None => Run { log, out: Some((l, fault("skip amend: no position"@))) },
            Some(p) => if p.side != Side::Long {
                no_long_run(w, log, l, p.symbol@)
            } else {
                match kept_take_profit(cfg, p) {
                    None => Run { log, out: None },
                    Some(Err(e)) => Run { log, out: Some((l, fault(e))) },
                    Some(Ok(tp)) => move_stop_run(w, log, cfg, s, st, l, at, p, stop_loss, tp, reason),
                }
            },
        }
    }
}

fn amend_live<C: LiveClient>(
    cfg: &Config,
    wire: &mut Wire<C>,
    s: &MarketSnapshot,
    state: Option<&EngineState>,
    ledger: &mut Ledger,
    at: &Stamp,
    stop_loss: Dec,
    symbol: &str,
    reason: &str,
) -> (r: Option<LiveApplyResult>)
    ensures
        forall|w: World| #[trigger]
            explains(w, final(wire).log()) ==> explains(w, old(wire).log()) && amend_run(
                w,
                old(wire).log(),
                cfg@,
                *s,
                state_view(state),
                old(ledger)@,
                at@,
                stop_loss,
                symbol@,
                reason@,
            ) == (Run { log: final(wire).log(), out: applied(r, final(ledger)@) }),
{
    if s.live_book && !has_long(s, symbol) {
        let hint = if symbol.is_empty() {
            symbol_hint(s, state)
        } else {
            own(symbol)
        };
        return Some(amend_without_long(wire, hint.as_str()));
    }
    let p: Position = match position_for(s, state, symbol) {
        Some(p) => p,
        None => return Some(err("skip amend: no position")),
    };
    if p.side != Side::Long {
        return Some(amend_without_long(wire, p.symbol.as_str()));
    }
    let tp: Dec = match keep_take_profit(cfg, &p)? {
        Ok(d) => d,
        Err(e) => return Some(err(e.as_str())),
    };
    move_stop(cfg, wire, s, state, ledger, at, &p, stop_loss, tp, reason)
}

/// The row that an exit closes: the one of a live book where there is one. The
/// inner `None` says that there is nothing to close; the symbol is to be
/// forgotten.
pub open spec fn exit_row(s: MarketSnapshot, st: Option<EngineStateView>, symbol: Seq<char>) -> Result<
    Option<Position>,
    Seq<char>,
> {
    let known = position_of(s, st, symbol);
    if s.live_book {
        let hint = match known {
            Some(p) => p.symbol@,
            None => symbol,
        };
        match snapshot_row(s, hint) {
            Some(p) => Ok(Some(p)),
            None => Err(hint),
        }
    } else {
        Ok(known)
    }
}

/// An exit.
pub open spec fn exit_run(
    w: World,
    log: Seq<Exchange>,
    s: MarketSnapshot,
    st: Option<EngineStateView>,
    symbol: Seq<char>,
) -> Run<ApplyView> {
    match exit_row(s, st, symbol) {
        Err(hint) => Run { log, out: ApplyView { forget_symbol: hint, ..no_apply() } },
        Ok(None) => Run { log, out: no_apply() },
        Ok(Some(p)) => {
            let a = ask(w, log, Call::CancelProtectives { symbol: p.symbol@ });
            let b = ask(
                w,
                a.log,
                Call::MarketClose { symbol: p.symbol@, side: p.side.text(), qty: p.qty },
            );
            match done(b.out) {
                Err(e) => Run { log: b.log, out: fault(e) },
                Ok(_) => Run {
                    log: ask(w, b.log, Call::CancelProtectives { symbol: p.symbol@ }).log,
                    out: ApplyView {
                        error: None,
                        filled: true,
                        mark: Some(mark_or(s, p.symbol@, p.entry_price)),
                        qty: Some(p.qty),
                        forget_symbol: p.symbol@,
                    },
                },
            }
        },
    }
}

fn exit_live<C: LiveClient>(
    wire: &mut Wire<C>,
    s: &MarketSnapshot,
    state: Option<&EngineState>,
    symbol: &str,
) -> (r: LiveApplyResult)
    ensures
        forall|w: World| #[trigger]
            explains(w, final(wire).log()) ==> explains(w, old(wire).log()) && exit_run(
                w,
                old(wire).log(),
                *s,
                state_view(state),
                symbol@,
            ) == (Run { log: final(wire).log(), out: r@ }),
{
    let known: Option<Position> = position_for(s, state, symbol);
    let row: Option<Position> = if s.live_book {
        let hint = match &known {
            Some(p) => own(p.symbol.as_str()),
            None => own(symbol),
        };
        match find_snapshot_row(s, hint.as_str()) {
            Some(p) => Some(p),
            None => {
                let mut r: LiveApplyResult = LiveApplyResult::default();
                r.forget_symbol = hint;
                return r;
            },
        }
    } else {
        known
    };
    let p: Position = match row {
        Some(p) => p,
        None => return LiveApplyResult::default(),
    };
    let _ = wire.cancel_protectives(p.symbol.as_str());
    if let Err(e) = wire.market_close(p.symbol.as_str(), p.side.as_str(), p.qty) {
        return err(e.0.as_str());
    }
    let _ = wire.cancel_protectives(p.symbol.as_str());
    let mark: Dec = mark_or_entry(s, p.symbol.as_str(), p.entry_price);
    LiveApplyResult {
        error: None,
        filled: true,
        mark: Some(mark),
        qty: Some(p.qty),
        forget_symbol: own(p.symbol.as_str()),
    }
}

/// The take-profit of what is left of a half-sold long; nothing where there is
/// none to keep and none can be formed.
pub open spec fn rest_take_profit(cfg: ConfigView, p: Position) -> Option<Option<Dec>> {
    match p.take_profit {
        Some(tp) => Some(Some(tp)),
        None => if !p.entry_price.pos() {
            Some(None)
        } else {
            match take_profit_net(p.entry_price, "LONG"@, cfg.tp_pct) {
                PriceView::Price(d) => Some(Some(d)),
                PriceView::Overflow => None,
                _ => Some(None),
            }
        },
    }
}

fn keep_rest_take_profit(cfg: &Config, p: &Position) -> (r: Option<Option<Dec>>)
    ensures
        r == rest_take_profit(cfg@, *p),
{
    if let Some(tp) = p.take_profit {
        return Some(Some(tp));
    }
    if !p.entry_price.is_pos() {
        return Some(None);
    }
    match take_profit_price_net(p.entry_price, "LONG", cfg.tp_pct) {
        Ok(d) => Some(Some(d)),
        Err(crate::trail::TrailError::Overflow) => None,
        Err(_) => Some(None),
    }
}

/// Sells part of a long and protects the rest. The protective orders stay until
/// then; where the rest cannot be protected it is closed.
pub open spec fn split_run(
    w: World,
    log: Seq<Exchange>,
    cfg: ConfigView,
    s: MarketSnapshot,
    st: Option<EngineStateView>,
    l: LedgerView,
    at: StampView,
    p: Position,
    close_qty: Dec,
    remain: Dec,
    stop_loss: Dec,
) -> Run<Option<(LedgerView, ApplyView)>> {
    let a = ask(w, log, Call::MarketClose { symbol: p.symbol@, side: "LONG"@, qty: close_qty });
    match done(a.out) {
        Err(e) => Run { log: a.log, out: Some((l, fault(e))) },
        Ok(_) => match rest_take_profit(cfg, p) {
            None => Run { log: a.log, out: None },
            Some(take_profit) => {
                let b = ask(
                    w,
                    a.log,
                    Call::ReplaceStop {
                        symbol: p.symbol@,
                        stop_loss,
                        take_profit,
                        qty: Some(remain),
                    },
                );
                let sold = ApplyView {
                    error: None,
                    filled: true,
                    mark: mark_of(s, p.symbol@),
                    qty: Some(close_qty),
                    forget_symbol: Seq::empty(),
                };
                match done(b.out) {
                    Err(e) => {
                        let c = undo_run(w, b.log, p.symbol@, remain);
                        Run {
                            log: c.log,
                            out: match noted_naked(cfg, st, l, at, p.symbol@) {
                                None => None,
                                Some(next) => Some(
                                    (
                                        next,
                                        ApplyView {
                                            error: Some(
                                                "flattened naked fill after reduce: "@ + e + c.out,
                                            ),
                                            forget_symbol: p.symbol@,
                                            ..sold
                                        },
                                    ),
                                ),
                            },
                        }
                    },
                    Ok(_) => {
                        let c = short_run(w, b.log, p.symbol@);
                        Run {
                            log: c.log,
                            out: Some(
                                (
                                    l,
                                    match c.out {
                                        Some(flipped) => ApplyView {
                                            error: Some(
                                                "reduce перевернул в шорт — закрыл "@ + flipped,
                                            ),
                                            forget_symbol: flipped,
                                            ..sold
                                        },
                                        None => sold,
                                    },
                                ),
                            ),
                        }
                    },
                }
            },
        },
    }
}

fn split_long<C: LiveClient>(
    cfg: &Config,
    wire: &mut Wire<C>,
    s: &MarketSnapshot,
    state: Option<&EngineState>,
    ledger: &mut Ledger,
    at: &Stamp,
    p: &Position,
    close_qty: Dec,
    remain: Dec,
    stop_loss: Dec,
) -> (r: Option<LiveApplyResult>)
    ensures
        forall|w: World| #[trigger]
            explains(w, final(wire).log()) ==> explains(w, old(wire).log()) && split_run(
                w,
                old(wire).log(),
                cfg@,
                *s,
                state_view(state),
                old(ledger)@,
                at@,
                *p,
                close_qty,
                remain,
                stop_loss,
            ) == (Run { log: final(wire).log(), out: applied(r, final(ledger)@) }),
{
    let symbol: &str = p.symbol.as_str();
    if let Err(e) = wire.market_close(symbol, "LONG", close_qty) {
        return Some(err(e.0.as_str()));
    }
    let take_profit: Option<Dec> = keep_rest_take_profit(cfg, p)?;
    let mark: Option<Dec> = mark_for_symbol(s, symbol);
    if let Err(e) = wire.replace_stop(symbol, stop_loss, take_profit, Some(remain)) {
        let note = undo_long(wire, symbol, remain);
        note_naked(cfg, state, ledger, at, symbol);
        let mut text = own("flattened naked fill after reduce: ");
        text.append(e.0.as_str());
        text.append(note.as_str());
        return Some(
            LiveApplyResult {
                error: Some(text),
                filled: true,
                mark,
                qty: Some(close_qty),
                forget_symbol: own(symbol),
            },
        );
    }
    if let Some(flipped) = flatten_live_short(wire, symbol) {
        let mut text = own("reduce перевернул в шорт — закрыл ");
        text.append(flipped.as_str());
        return Some(
            LiveApplyResult {
                error: Some(text),
                filled: true,
                mark,
                qty: Some(close_qty),
                forget_symbol: flipped,
            },
        );
    }
    let mut r: LiveApplyResult = LiveApplyResult::default();
    r.filled = true;
    r.mark = mark;
    r.qty = Some(close_qty);
    Some(r)
}

/// A partial sale. A lot that cannot be split is taken to break-even instead.
pub open spec fn reduce_run(
    w: World,
    log: Seq<Exchange>,
    cfg: ConfigView,
    s: MarketSnapshot,
    st: Option<EngineStateView>,
    l: LedgerView,
    at: StampView,
    symbol: Seq<char>,
    reduce_qty: Dec,
    stop_loss: Dec,
) -> Run<Option<(LedgerView, ApplyView)>> {
    match position_of(s, st, symbol) {
        None => Run { log, out: Some((l, fault("skip reduce: no position"@))) },
        Some(p) => if !p.is_open_long() {
            Run { log, out: Some((l, fault("skip reduce: нет живого лонга"@))) }
        } else {
            let close_qty = smaller(reduce_qty, p.qty);
            if !close_qty.pos() || p.qty.le(close_qty) {
                amend_run(w, log, cfg, s, st, l, at, stop_loss, p.symbol@, "безубыток на 1R"@)
            } else {
                match n_sub(Some(p.qty), Some(close_qty)) {
                    None => Run { log, out: None },
                    Some(remain) => split_run(
                        w,
                        log,
                        cfg,
                        s,
                        st,
                        l,
                        at,
                        p,
                        close_qty,
                        remain,
                        stop_loss,
                    ),
                }
            }
        },
    }
}

fn reduce_live<C: LiveClient>(
    cfg: &Config,
    wire: &mut Wire<C>,
    s: &MarketSnapshot,
    state: Option<&EngineState>,
    ledger: &mut Ledger,
    at: &Stamp,
    symbol: &str,
    reduce_qty: Dec,
    stop_loss: Dec,
) -> (r: Option<LiveApplyResult>)
    ensures
        forall|w: World| #[trigger]
            explains(w, final(wire).log()) ==> explains(w, old(wire).log()) && reduce_run(
                w,
                old(wire).log(),
                cfg@,
                *s,
                state_view(state),
                old(ledger)@,
                at@,
                symbol@,
                reduce_qty,
                stop_loss,
            ) == (Run { log: final(wire).log(), out: applied(r, final(ledger)@) }),
{
    let p: Position = match position_for(s, state, symbol) {
        Some(p) => p,
        None => return Some(err("skip reduce: no position")),
    };
    if !p.open_long() {
        return Some(err("skip reduce: нет живого лонга"));
    }
    let close_qty: Dec = reduce_qty.min(p.qty);
    if !close_qty.is_pos() || close_qty >= p.qty {
        return amend_live(
            cfg,
            wire,
            s,
            state,
            ledger,
            at,
            stop_loss,
            p.symbol.as_str(),
            "безубыток на 1R",
        );
    }
    let remain: Dec = minus(Some(p.qty), Some(close_qty))?;
    split_long(cfg, wire, s, state, ledger, at, &p, close_qty, remain, stop_loss)
}

/// What a decision does at the exchange. Nothing unless the desk is live and has
/// keys.
pub open spec fn apply_run(
    w: World,
    log: Seq<Exchange>,
    cfg: ConfigView,
    s: MarketSnapshot,
    d: DecisionView,
    st: Option<EngineStateView>,
    l: LedgerView,
    at: StampView,
) -> Run<Option<(LedgerView, ApplyView)>> {
    if !cfg.live {
        Run { log, out: Some((l, no_apply())) }
    } else if cfg.credentials is None {
        Run { log, out: Some((l, fault("live refused: no credentials"@))) }
    } else {
        match d {
            DecisionView::EnterLong { symbol, take_profit, stop_loss, .. } => enter_run(
                w,
                log,
                cfg,
                s,
                st,
                l,
                at,
                symbol,
                take_profit,
                stop_loss,
            ),
            DecisionView::AmendStop { stop_loss, reason, symbol } => amend_run(
                w,
                log,
                cfg,
                s,
                st,
                l,
                at,
                stop_loss,
                symbol,
                reason,
            ),
            DecisionView::ExitPosition { symbol, .. } => {
                let a = exit_run(w, log, s, st, symbol);
                Run { log: a.log, out: Some((l, a.out)) }
            },
            DecisionView::ReduceLong { symbol, qty, stop_loss, .. } => reduce_run(
                w,
                log,
                cfg,
                s,
                st,
                l,
                at,
                symbol,
                qty,
                stop_loss,
            ),
            DecisionView::Hold { .. } => Run { log, out: Some((l, no_apply())) },
        }
    }
}

/// Sends a decision to the exchange. Nothing unless the desk is live and has
/// keys.
pub fn apply_live<C: LiveClient>(
    cfg: &Config,
    wire: &mut Wire<C>,
    snapshot: &MarketSnapshot,
    decision: &Decision,
    state: Option<&EngineState>,
    ledger: &mut Ledger,
    at: &Stamp,
) -> (r: Option<LiveApplyResult>)
    ensures
        forall|w: World| #[trigger]
            explains(w, final(wire).log()) ==> explains(w, old(wire).log()) && apply_run(
                w,
                old(wire).log(),
                cfg@,
                *snapshot,
                decision@,
                state_view(state),
                old(ledger)@,
                at@,
            ) == (Run { log: final(wire).log(), out: applied(r, final(ledger)@) }),
{
    if !cfg.live {
        return Some(LiveApplyResult::default());
    }
    if cfg.credentials.is_none() {
        return Some(err("live refused: no credentials"));
    }
    match decision {
        Decision::EnterLong { symbol, take_profit, stop_loss, .. } => enter_live(
            cfg,
            wire,
            snapshot,
            state,
            ledger,
            at,
            symbol.as_str(),
            *take_profit,
            *stop_loss,
        ),
        Decision::AmendStop { stop_loss, reason, symbol } => amend_live(
            cfg,
            wire,
            snapshot,
            state,
            ledger,
            at,
            *stop_loss,
            symbol.as_str(),
            reason.as_str(),
        ),
        Decision::ExitPosition { symbol, .. } => Some(
            exit_live(wire, snapshot, state, symbol.as_str()),
        ),
        Decision::ReduceLong { symbol, qty, stop_loss, .. } => reduce_live(
            cfg,
            wire,
            snapshot,
            state,
            ledger,
            at,
            symbol.as_str(),
            *qty,
            *stop_loss,
        ),
        Decision::Hold { .. } => Some(LiveApplyResult::default()),
    }
}

} // verus!

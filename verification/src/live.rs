//! Live side effects: enter, trail, exit, panic flatten.
//!
//! Each function says what it asks of the exchange and what comes of it, for
//! every way in which the exchange may answer. An inner `None` says that a number
//! left the decimal range.
use crate::config::load::{Config, ConfigView};
use crate::continuation::{is_named_in, named_in};
use crate::dec::Dec;
use crate::engine::tick::{find_like, first_like, held_rows};
use crate::errors::{
    classify, error_code, error_policy, retry_backoff, retry_backoff_ms, ErrorAction,
};
use crate::flatten::{
    close_run, close_targets, flatten_open_book, flatten_run, label_symbol, nothing_closed, refuse,
    refused, symbol_of_label, targets_of, FlattenResult, FlattenView,
};
use crate::journal::{
    close_won, ledger_amended, ledger_closed, ledger_flattened, ledger_opened, long_close_was_win,
    Ledger, Stamp, StampView,
};
use crate::models::{
    opt_view, text_map, Decision, EngineState, EngineStateView, MarketSnapshot, Position, Side,
};
use crate::sessions::{add_ms, clamp_ms};
use crate::signals::{
    decision_kind, flatten_kind, kind_for_decision, kind_for_flatten, reason_suggests_win,
    suggests_win, TradeSignal,
};
use crate::text::{
    contains, has, in_text_order, int_text, own, print_i64, same, sort_texts, upper, views,
};
use crate::wire::{explains, Exchange, LiveClient, Run, Wire, World};
use adopt::{
    adopt_amended_stop, adopt_live_fill, adopt_reduced_long, arm_entry_pause, cool_symbol,
    desk_pause_after_loss, drop_symbol, dropped, fill_adopted, find_take_profit, flatten_recorded,
    known_take_profit, loss_paused, part_sold, pause_armed, record_flatten, stops_moved,
    symbol_cooled, Book,
};
use book::{find_snapshot_row, mark_for_symbol, mark_of, position_for, position_of, snapshot_row};
use orders::{apply_live, apply_run};
use vstd::prelude::*;
use vstd::string::StringExecFns;

pub mod adopt;
pub mod book;
pub mod laws;
pub mod order_laws;
pub mod orders;
pub mod reconcile;
pub mod reconcile_laws;
pub mod record_laws;

verus! {

/// What an order came to.
#[derive(Debug)]
pub struct LiveApplyResult {
    pub error: Option<String>,
    pub filled: bool,
    pub mark: Option<Dec>,
    pub qty: Option<Dec>,
    pub forget_symbol: String,
}

/// What an order came to, texts as characters.
pub struct ApplyView {
    pub error: Option<Seq<char>>,
    pub filled: bool,
    pub mark: Option<Dec>,
    pub qty: Option<Dec>,
    pub forget_symbol: Seq<char>,
}

impl View for LiveApplyResult {
    type V = ApplyView;

    open spec fn view(&self) -> ApplyView {
        ApplyView {
            error: opt_view(self.error),
            filled: self.filled,
            mark: self.mark,
            qty: self.qty,
            forget_symbol: self.forget_symbol@,
        }
    }
}

/// Nothing done, nothing wrong.
pub open spec fn no_apply() -> ApplyView {
    ApplyView { error: None, filled: false, mark: None, qty: None, forget_symbol: Seq::empty() }
}

impl Default for LiveApplyResult {
    fn default() -> (r: Self)
        ensures
            r@ == no_apply(),
    {
        let r = LiveApplyResult {
            error: None,
            filled: false,
            mark: None,
            qty: None,
            forget_symbol: String::new(),
        };
        proof {
            assert(r@.forget_symbol =~= Seq::<char>::empty());
        }
        r
    }
}

/// Nothing done, and why.
pub open spec fn fault(why: Seq<char>) -> ApplyView {
    ApplyView { error: Some(why), ..no_apply() }
}

/// A row added where it has a quantity and none of its symbol and side is there.
pub open spec fn row_added(v: Seq<Position>, p: Position) -> Seq<Position> {
    if p.qty.pos() && !exists|i: int|
        0 <= i < v.len() && (#[trigger] v[i]).symbol@ == p.symbol@ && v[i].side == p.side {
        v.push(p)
    } else {
        v
    }
}

/// The first `n` rows added.
pub open spec fn rows_added(v: Seq<Position>, rows: Seq<Position>, n: int) -> Seq<Position>
    decreases n,
{
    if n <= 0 {
        v
    } else {
        row_added(rows_added(v, rows, n - 1), rows[n - 1])
    }
}

fn add_row(v: &mut Vec<Position>, p: &Position)
    ensures
        final(v)@ == row_added(old(v)@, *p),
{
    if !p.qty.is_pos() {
        return ;
    }
    let mut i: usize = 0;
    while i < v.len()
        invariant
            i <= v@.len(),
            v@ == old(v)@,
            forall|j: int|
                0 <= j < i ==> !((#[trigger] v@[j]).symbol@ == p.symbol@ && v@[j].side == p.side),
        decreases v@.len() - i,
    {
        if same(v[i].symbol.as_str(), p.symbol.as_str()) && v[i].side == p.side {
            return ;
        }
        i = i + 1;
    }
    v.push(p.clone());
}

/// What a flatten closes, as far as the desk knows it.
pub open spec fn flatten_book(s: Option<MarketSnapshot>, st: EngineStateView, targets: Option<Seq<Position>>) -> Seq<
    Position,
> {
    match targets {
        Some(t) => t,
        None => {
            let shown = match s {
                Some(x) => {
                    let rows = held_rows(x.open_positions@);
                    match x.position {
                        Some(p) => row_added(rows, p),
                        None => rows,
                    }
                },
                None => Seq::empty(),
            };
            rows_added(shown, st.positions, st.positions.len() as int)
        },
    }
}

fn positions_for_flatten(
    snapshot: Option<&MarketSnapshot>,
    state: &EngineState,
    targets: Option<&[Position]>,
) -> (r: Vec<Position>)
    ensures
        r@ == flatten_book(opt_snapshot(snapshot), state@, opt_rows(targets)),
{
    if let Some(t) = targets {
        return crate::models::copy_positions(t);
    }
    let mut out: Vec<Position> = Vec::new();
    if let Some(s) = snapshot {
        out = crate::engine::tick::keep_held(
            crate::models::copy_positions(s.open_positions.as_slice()),
        );
        if let Some(p) = &s.position {
            add_row(&mut out, p);
        }
    }
    let ghost shown = out@;
    let mut i: usize = 0;
    while i < state.positions.len()
        invariant
            i <= state.positions@.len(),
            out@ == rows_added(shown, state.positions@, i as int),
        decreases state.positions@.len() - i,
    {
        add_row(&mut out, &state.positions[i]);
        i = i + 1;
    }
    out
}

pub open spec fn opt_snapshot(s: Option<&MarketSnapshot>) -> Option<MarketSnapshot> {
    match s {
        Some(x) => Some(*x),
        None => None,
    }
}

pub open spec fn opt_rows(t: Option<&[Position]>) -> Option<Seq<Position>> {
    match t {
        Some(x) => Some(x@),
        None => None,
    }
}

/// Whether the first `n` closed positions were all in profit; nothing where one
/// of them is not known.
pub open spec fn all_green(closed: Seq<Seq<char>>, positions: Seq<Position>, n: int) -> Option<bool>
    decreases n,
{
    if n <= 0 {
        Some(true)
    } else {
        match (all_green(closed, positions, n - 1), first_like(positions, label_symbol(closed[n - 1]))) {
            (Some(x), Some(p)) => Some(x && p.unrealized_pnl.pos()),
            _ => None,
        }
    }
}

/// Whether a flatten won, as far as that is known.
pub open spec fn flatten_won(closed: Seq<Seq<char>>, positions: Seq<Position>) -> Option<bool> {
    if closed.len() == 0 {
        None
    } else {
        all_green(closed, positions, closed.len() as int)
    }
}

proof fn lemma_green_none(closed: Seq<Seq<char>>, positions: Seq<Position>, n: int, m: int)
    requires
        0 <= n <= m,
        all_green(closed, positions, n) is None,
    ensures
        all_green(closed, positions, m) is None,
    decreases m - n,
{
    if n < m {
        lemma_green_none(closed, positions, n, m - 1);
    }
}

/// Whether a flatten won, as far as that is known.
pub fn flatten_sound_won(closed: &[String], positions: &[Position]) -> (r: Option<bool>)
    ensures
        r == flatten_won(views(closed@), positions@),
{
    let ghost all = views(closed@);
    proof {
        assert(all.len() == closed@.len());
    }
    if closed.len() == 0 {
        return None;
    }
    let mut green: bool = true;
    let mut i: usize = 0;
    while i < closed.len()
        invariant
            i <= closed@.len(),
            all == views(closed@),
            all.len() > 0,
            all_green(all, positions@, i as int) == Some(green),
        decreases closed@.len() - i,
    {
        proof {
            assert(all[i as int] == closed@[i as int]@);
        }
        let symbol = symbol_of_label(closed[i].as_str());
        match find_like(positions, symbol.as_str()) {
            Some(p) => {
                green = green && p.unrealized_pnl.is_pos();
            },
            None => {
                proof {
                    lemma_green_none(all, positions@, i as int + 1, all.len() as int);
                }
                return None;
            },
        }
        i = i + 1;
    }
    Some(green)
}

/// A flatten: what it asks, the state after it, what it closed, and its chime.
pub open spec fn flatten_all_run(
    w: World,
    log: Seq<Exchange>,
    cfg: ConfigView,
    st: EngineStateView,
    s: Option<MarketSnapshot>,
    targets: Option<Seq<Position>>,
    now: i64,
) -> Run<(EngineStateView, FlattenView, Option<TradeSignal>)> {
    let a = if !cfg.live {
        Run { log, out: refused("flatten refused: not live"@) }
    } else if cfg.credentials is None {
        Run { log, out: refused("flatten refused: no credentials"@) }
    } else {
        match targets {
            Some(t) => if t.len() == 0 {
                Run { log, out: nothing_closed() }
            } else {
                close_run(w, log, targets_of(t), targets_of(t).len() as int)
            },
            None => flatten_run(w, log),
        }
    };
    let pause = !(cfg.live && cfg.credentials is Some && targets is Some);
    Run {
        log: a.log,
        out: (
            flatten_recorded(st, a.out, pause, now),
            a.out,
            flatten_kind(a.out, flatten_won(a.out.closed, flatten_book(s, st, targets))),
        ),
    }
}

/// Closes the given positions, or everything, and takes it over into the state.
pub fn apply_flatten<C: LiveClient>(
    cfg: &Config,
    wire: &mut Wire<C>,
    state: &mut EngineState,
    snapshot: Option<&MarketSnapshot>,
    targets: Option<&[Position]>,
    now: i64,
) -> (r: (FlattenResult, Option<TradeSignal>))
    ensures
        forall|w: World| #[trigger]
            explains(w, final(wire).log()) ==> explains(w, old(wire).log()) && flatten_all_run(
                w,
                old(wire).log(),
                cfg@,
                old(state)@,
                opt_snapshot(snapshot),
                opt_rows(targets),
                now,
            ) == (Run { log: final(wire).log(), out: (final(state)@, r.0@, r.1) }),
{
    let book: Vec<Position> = positions_for_flatten(snapshot, state, targets);
    let mut pause: bool = true;
    let result: FlattenResult = if !cfg.live {
        refuse("flatten refused: not live")
    } else if cfg.credentials.is_none() {
        refuse("flatten refused: no credentials")
    } else {
        match targets {
            Some(t) => {
                pause = false;
                if t.len() == 0 {
                    FlattenResult::default()
                } else {
                    close_targets(wire, t)
                }
            },
            None => flatten_open_book(wire),
        }
    };
    let out: FlattenResult = record_flatten(state, result, pause, now);
    let won: Option<bool> = flatten_sound_won(out.closed.as_slice(), book.as_slice());
    let kind: Option<TradeSignal> = kind_for_flatten(&out, won);
    (out, kind)
}

/// The price that a close is recorded at.
pub open spec fn close_price(result: ApplyView, s: MarketSnapshot, p: Position) -> Dec {
    match result.mark {
        Some(m) => m,
        None => match mark_of(s, p.symbol@) {
            Some(m) => m,
            None => p.entry_price,
        },
    }
}

fn price_of_close(result: &LiveApplyResult, s: &MarketSnapshot, p: &Position) -> (r: Dec)
    ensures
        r == close_price(result@, *s, *p),
{
    match result.mark {
        Some(m) => m,
        None => match mark_for_symbol(s, p.symbol.as_str()) {
            Some(m) => m,
            None => p.entry_price,
        },
    }
}

/// Whether an exit sounds like a win.
pub open spec fn exit_won(p: Position, reason: Seq<char>, result: ApplyView, s: MarketSnapshot) -> Option<bool> {
    let px = close_price(result, s, p);
    let row = snapshot_row(s, p.symbol@);
    if suggests_win(reason) || p.unrealized_pnl.pos() || (row is Some && row->0.unrealized_pnl.pos()) || (
    p.side == Side::Long && p.entry_price.lt(px)) {
        Some(true)
    } else {
        close_won(p.entry_price, px, p.take_profit)
    }
}

fn exit_sound_won(p: &Position, reason: &str, result: &LiveApplyResult, s: &MarketSnapshot) -> (r: Option<
    bool,
>)
    ensures
        r == exit_won(*p, reason@, result@, *s),
{
    if reason_suggests_win(reason) || p.unrealized_pnl.is_pos() {
        return Some(true);
    }
    if let Some(row) = find_snapshot_row(s, p.symbol.as_str()) {
        if row.unrealized_pnl.is_pos() {
            return Some(true);
        }
    }
    let px: Dec = price_of_close(result, s, p);
    if p.side == Side::Long && px > p.entry_price {
        return Some(true);
    }
    long_close_was_win(p.entry_price, px, p.take_profit)
}

/// The position that an exit or a partial sale is about.
pub open spec fn subject(s: MarketSnapshot, st: EngineStateView, d: Decision) -> Option<Position> {
    match d {
        Decision::ExitPosition { symbol, .. } => position_of(s, Some(st), symbol@),
        Decision::ReduceLong { symbol, .. } => position_of(s, Some(st), symbol@),
        _ => None,
    }
}

/// The book once a close is recorded: an exit that was filled, or a partial sale
/// that was filled or is on paper.
pub open spec fn close_recorded(
    b: Book,
    cfg: ConfigView,
    s: MarketSnapshot,
    d: Decision,
    p: Option<Position>,
    result: ApplyView,
    at: StampView,
) -> Option<Book> {
    match (p, d) {
        (Some(p), Decision::ExitPosition { reason, .. }) => if result.error is None && result.filled {
            let px = close_price(result, s, p);
            match (
                ledger_closed(
                    b.ledger,
                    at,
                    b.state.strategy_id,
                    p.symbol@,
                    p.qty,
                    p.entry_price,
                    px,
                    reason@,
                    cfg.live,
                    p.stop_loss,
                    p.take_profit,
                    false,
                ),
                close_won(p.entry_price, px, p.take_profit),
            ) {
                (Some(l), Some(won)) => {
                    let st = if won {
                        b.state
                    } else {
                        loss_paused(cfg, b.state, at.now as int)
                    };
                    Some(
                        Book {
                            state: symbol_cooled(st, p.symbol@, at.now as int, won),
                            ledger: l,
                        },
                    )
                },
                _ => None,
            }
        } else {
            Some(b)
        },
        (Some(p), Decision::ReduceLong { reason, qty, .. }) => if result.error is None && (
        result.filled || !cfg.live) {
            let sold = match result.qty {
                Some(q) => q,
                None => qty,
            };
            match ledger_closed(
                b.ledger,
                at,
                b.state.strategy_id,
                p.symbol@,
                sold,
                p.entry_price,
                close_price(result, s, p),
                reason@,
                cfg.live,
                p.stop_loss,
                p.take_profit,
                sold.lt(p.qty),
            ) {
                Some(l) => Some(Book { ledger: l, ..b }),
                None => None,
            }
        } else {
            Some(b)
        },
        _ => Some(b),
    }
}

fn record_closing(
    cfg: &Config,
    state: &mut EngineState,
    ledger: &mut Ledger,
    snapshot: &MarketSnapshot,
    decision: &Decision,
    subject: &Option<Position>,
    result: &LiveApplyResult,
    at: &Stamp,
) -> (r: Option<()>)
    ensures
        match close_recorded(
            Book { state: old(state)@, ledger: old(ledger)@ },
            cfg@,
            *snapshot,
            *decision,
            *subject,
            result@,
            at@,
        ) {
            Some(next) => {
                &&& r is Some
                &&& final(state)@ == next.state
                &&& final(ledger)@ == next.ledger
            },
            None => r is None,
        },
{
    let p: &Position = match subject {
        Some(p) => p,
        None => return Some(()),
    };
    match decision {
        Decision::ExitPosition { reason, .. } => {
            if result.error.is_none() && result.filled {
                let px: Dec = price_of_close(result, snapshot, p);
                ledger.close(
                    at,
                    state.strategy_id,
                    p.symbol.as_str(),
                    p.qty,
                    p.entry_price,
                    px,
                    reason.as_str(),
                    cfg.live,
                    p.stop_loss,
                    p.take_profit,
                    false,
                )?;
                let won: bool = long_close_was_win(p.entry_price, px, p.take_profit)?;
                if !won {
                    desk_pause_after_loss(cfg, state, at.now);
                }
                cool_symbol(state, p.symbol.as_str(), at.now, won);
            }
            Some(())
        },
        Decision::ReduceLong { reason, qty, .. } => {
            if result.error.is_none() && (result.filled || !cfg.live) {
                let sold: Dec = match result.qty {
                    Some(q) => q,
                    None => *qty,
                };
                let px: Dec = price_of_close(result, snapshot, p);
                ledger.close(
                    at,
                    state.strategy_id,
                    p.symbol.as_str(),
                    sold,
                    p.entry_price,
                    px,
                    reason.as_str(),
                    cfg.live,
                    p.stop_loss,
                    p.take_profit,
                    sold < p.qty,
                )?;
            }
            Some(())
        },
        _ => Some(()),
    }
}

/// The book once what is to be forgotten is forgotten.
pub open spec fn forgotten(b: Book, cfg: ConfigView, result: ApplyView, at: StampView) -> Option<Book> {
    if result.forget_symbol.len() == 0 {
        Some(b)
    } else {
        let st = dropped(b.state, result.forget_symbol);
        if result.error is Some && has(result.error->0, "шорт"@) {
            match ledger_flattened(
                b.ledger,
                at,
                st.strategy_id,
                seq!["SHORT "@ + result.forget_symbol],
                cfg.live,
                "закрыл чужой шорт"@,
            ) {
                Some(l) => Some(Book { state: st, ledger: l }),
                None => None,
            }
        } else {
            Some(Book { state: st, ..b })
        }
    }
}

fn forget_symbol(
    cfg: &Config,
    state: &mut EngineState,
    ledger: &mut Ledger,
    result: &LiveApplyResult,
    at: &Stamp,
) -> (r: Option<()>)
    ensures
        match forgotten(
            Book { state: old(state)@, ledger: old(ledger)@ },
            cfg@,
            result@,
            at@,
        ) {
            Some(next) => {
                &&& r is Some
                &&& final(state)@ == next.state
                &&& final(ledger)@ == next.ledger
            },
            None => r is None,
        },
{
    let symbol: &str = result.forget_symbol.as_str();
    if symbol.is_empty() {
        return Some(());
    }
    drop_symbol(state, symbol);
    let short: bool = match &result.error {
        Some(e) => contains(e.as_str(), "шорт"),
        None => false,
    };
    if short {
        let mut label = own("SHORT ");
        label.append(symbol);
        let mut one: Vec<String> = Vec::new();
        let ghost lv = label@;
        one.push(label);
        proof {
            assert(views(one@) =~= seq![lv]);
        }
        ledger.flatten(at, state.strategy_id, one.as_slice(), cfg.live, "закрыл чужой шорт");
    }
    Some(())
}

/// The state that skips a symbol, and why.
pub open spec fn symbol_skipped(st: EngineStateView, symbol: Seq<char>, why: Seq<char>) -> EngineStateView {
    let up = upper(symbol);
    EngineStateView {
        skip_symbols: if named_in(st.skip_symbols, up) {
            st.skip_symbols
        } else {
            in_text_order(st.skip_symbols.push(up))
        },
        skip_reasons: st.skip_reasons.insert(up, why),
        ..st
    }
}

fn skip_symbol(state: &mut EngineState, symbol: &str, why: String)
    ensures
        final(state)@ == symbol_skipped(old(state)@, symbol@, why@),
{
    let up = symbol.to_ascii_uppercase();
    if !is_named_in(state.skip_symbols.as_slice(), up.as_str()) {
        let ghost before = views(state.skip_symbols@);
        state.skip_symbols.push(own(up.as_str()));
        proof {
            assert(views(state.skip_symbols@) =~= before.push(up@));
        }
        state.skip_symbols = sort_texts(state.skip_symbols.as_slice());
    }
    let ghost old_reasons = state.skip_reasons@;
    let ghost wv = why@;
    state.skip_reasons.insert(up.as_str(), why);
    proof {
        assert(text_map(state.skip_reasons@) =~= text_map(old_reasons).insert(up@, wv));
    }
}

/// The state that waits before it tries again.
pub open spec fn retry_noted(st: EngineStateView, now: int) -> EngineStateView {
    let strikes = if st.retry_strikes >= 3 {
        3int
    } else {
        st.retry_strikes + 1
    };
    let until = clamp_ms(now + retry_backoff(strikes));
    EngineStateView {
        retry_strikes: strikes as u8,
        retry_until: if until > st.retry_until {
            until as i64
        } else {
            st.retry_until
        },
        ..st
    }
}

fn note_retry(state: &mut EngineState, now: i64)
    ensures
        final(state)@ == retry_noted(old(state)@, now as int),
{
    let strikes: u8 = if state.retry_strikes >= 3 {
        3
    } else {
        state.retry_strikes + 1
    };
    state.retry_strikes = strikes;
    let until: i64 = add_ms(now, retry_backoff_ms(strikes));
    if until > state.retry_until {
        state.retry_until = until;
    }
}

/// The state after the error of a decision, by what the error asks for.
pub open spec fn error_noted(st: EngineStateView, d: Decision, error: Option<Seq<char>>, now: int) -> EngineStateView {
    match error {
        None => if d is Hold {
            st
        } else {
            EngineStateView { last_error: None, retry_strikes: 0, ..st }
        },
        Some(e) => {
            let (action, message) = error_policy(e);
            if action == ErrorAction::Ignore {
                EngineStateView { last_error: None, ..st }
            } else {
                let st1 = match d {
                    Decision::AmendStop { symbol, .. } => EngineStateView {
                        sized_stops: st.sized_stops.remove(upper(symbol@)),
                        ..st
                    },
                    _ => st,
                };
                let st2 = EngineStateView { last_error: Some(e), ..st1 };
                let st3 = if action == ErrorAction::Retry {
                    retry_noted(st2, now)
                } else {
                    st2
                };
                if action == ErrorAction::Operator {
                    pause_armed(st3, now)
                } else {
                    match d {
                        Decision::EnterLong { symbol, .. } => if action == ErrorAction::Skip || action
                            == ErrorAction::Cooldown {
                            symbol_skipped(
                                st3,
                                symbol@,
                                match error_code(e) {
                                    Some(c) => int_text(c),
                                    None => message,
                                },
                            )
                        } else {
                            st3
                        },
                        _ => st3,
                    }
                }
            }
        },
    }
}

fn note_error(state: &mut EngineState, decision: &Decision, error: &Option<String>, now: i64)
    ensures
        final(state)@ == error_noted(old(state)@, *decision, opt_view(*error), now as int),
{
    let e: &str = match error {
        Some(e) => e.as_str(),
        None => {
            if !decision.is_hold() {
                state.last_error = None;
                state.retry_strikes = 0;
            }
            return ;
        },
    };
    let info = classify(e);
    if info.action == ErrorAction::Ignore {
        state.last_error = None;
        return ;
    }
    if let Decision::AmendStop { symbol, .. } = decision {
        let up = symbol.as_str().to_ascii_uppercase();
        state.sized_stops.remove(up.as_str());
    }
    state.last_error = Some(own(e));
    if info.action == ErrorAction::Retry {
        note_retry(state, now);
    }
    if info.action == ErrorAction::Operator {
        arm_entry_pause(state, now);
    } else if let Decision::EnterLong { symbol, .. } = decision {
        if info.action == ErrorAction::Skip || info.action == ErrorAction::Cooldown {
            let why: String = match info.code {
                Some(c) => print_i64(c as i64),
                None => info.message,
            };
            skip_symbol(state, symbol.as_str(), why);
        }
    }
}

/// The book once a moved stop or a partial sale is taken over.
pub open spec fn moves_adopted(
    b: Book,
    cfg: ConfigView,
    d: Decision,
    known: bool,
    result: ApplyView,
    at: StampView,
) -> Option<Book> {
    let sid = b.state.strategy_id;
    if result.error is Some {
        Some(b)
    } else {
        match d {
            Decision::AmendStop { stop_loss, symbol, reason } => {
                let st = stops_moved(b.state, symbol@, stop_loss);
                Some(
                    Book {
                        state: st,
                        ledger: ledger_amended(
                            b.ledger,
                            at,
                            sid,
                            symbol@,
                            stop_loss,
                            known_take_profit(st, symbol@),
                            cfg.live,
                            reason@,
                        ),
                    },
                )
            },
            Decision::ReduceLong { stop_loss, symbol, qty, .. } => {
                let next = if result.filled || (!cfg.live && known) {
                    part_sold(
                        b.state,
                        symbol@,
                        match result.qty {
                            Some(q) => q,
                            None => qty,
                        },
                        stop_loss,
                    )
                } else if cfg.live && known {
                    let st = stops_moved(b.state, symbol@, stop_loss);
                    Some(
                        EngineStateView {
                            scaled_one_r: st.scaled_one_r.insert(upper(symbol@)),
                            sized_stops: st.sized_stops.insert(upper(symbol@)),
                            ..st
                        },
                    )
                } else {
                    Some(b.state)
                };
                match next {
                    None => None,
                    Some(st) => if result.filled || known {
                        Some(
                            Book {
                                state: st,
                                ledger: ledger_amended(
                                    b.ledger,
                                    at,
                                    sid,
                                    symbol@,
                                    stop_loss,
                                    known_take_profit(st, symbol@),
                                    cfg.live,
                                    "безубыток на 1R"@,
                                ),
                            },
                        )
                    } else {
                        Some(b)
                    },
                }
            },
            _ => Some(b),
        }
    }
}

fn adopt_moves(
    cfg: &Config,
    state: &mut EngineState,
    ledger: &mut Ledger,
    decision: &Decision,
    known: bool,
    result: &LiveApplyResult,
    at: &Stamp,
) -> (r: Option<()>)
    ensures
        match moves_adopted(
            Book { state: old(state)@, ledger: old(ledger)@ },
            cfg@,
            *decision,
            known,
            result@,
            at@,
        ) {
            Some(next) => {
                &&& r is Some
                &&& final(state)@ == next.state
                &&& final(ledger)@ == next.ledger
            },
            None => r is None,
        },
{
    if result.error.is_some() {
        return Some(());
    }
    let sid: i32 = state.strategy_id;
    match decision {
        Decision::AmendStop { stop_loss, symbol, reason } => {
            adopt_amended_stop(state, symbol.as_str(), *stop_loss);
            let tp: Option<Dec> = find_take_profit(state, symbol.as_str());
            ledger.amend(at, sid, symbol.as_str(), *stop_loss, tp, cfg.live, reason.as_str());
            Some(())
        },
        Decision::ReduceLong { stop_loss, symbol, qty, .. } => {
            if !result.filled && !known {
                return Some(());
            }
            if result.filled || !cfg.live {
                let sold: Dec = match result.qty {
                    Some(q) => q,
                    None => *qty,
                };
                adopt_reduced_long(state, symbol.as_str(), sold, *stop_loss)?;
            } else {
                adopt_amended_stop(state, symbol.as_str(), *stop_loss);
                let key = symbol.as_str().to_ascii_uppercase();
                state.scaled_one_r.insert(key.as_str());
                state.sized_stops.insert(key.as_str());
            }
            let tp: Option<Dec> = find_take_profit(state, symbol.as_str());
            ledger.amend(at, sid, symbol.as_str(), *stop_loss, tp, cfg.live, "безубыток на 1R");
            Some(())
        },
        _ => Some(()),
    }
}

/// The book once a filled entry is taken over.
pub open spec fn entry_adopted(b: Book, cfg: ConfigView, d: Decision, result: ApplyView, at: StampView) -> Option<
    Book,
> {
    match d {
        Decision::EnterLong { symbol, reason, take_profit, stop_loss } => if !result.filled {
            Some(b)
        } else {
            match (result.mark, result.qty) {
                (Some(mark), Some(qty)) => {
                    let st = fill_adopted(b.state, d, mark, qty, at.now);
                    if result.error is Some {
                        Some(Book { state: st, ..b })
                    } else {
                        match ledger_opened(
                            b.ledger,
                            at,
                            st.strategy_id,
                            symbol@,
                            qty,
                            mark,
                            reason@,
                            cfg.live,
                            Some(stop_loss),
                            Some(take_profit),
                        ) {
                            Some(l) => Some(
                                Book {
                                    state: EngineStateView {
                                        sized_stops: st.sized_stops.insert(upper(symbol@)),
                                        ..st
                                    },
                                    ledger: l,
                                },
                            ),
                            None => None,
                        }
                    }
                },
                _ => Some(
                    Book { state: EngineStateView { entry_inflight: true, ..b.state }, ..b },
                ),
            }
        },
        _ => Some(b),
    }
}

fn adopt_entry(
    cfg: &Config,
    state: &mut EngineState,
    ledger: &mut Ledger,
    decision: &Decision,
    result: &LiveApplyResult,
    at: &Stamp,
) -> (r: Option<()>)
    ensures
        match entry_adopted(
            Book { state: old(state)@, ledger: old(ledger)@ },
            cfg@,
            *decision,
            result@,
            at@,
        ) {
            Some(next) => {
                &&& r is Some
                &&& final(state)@ == next.state
                &&& final(ledger)@ == next.ledger
            },
            None => r is None,
        },
{
    if let Decision::EnterLong { symbol, reason, take_profit, stop_loss } = decision {
        if !result.filled {
            return Some(());
        }
        match (result.mark, result.qty) {
            (Some(mark), Some(qty)) => {
                adopt_live_fill(state, decision, mark, qty, at.now);
                if result.error.is_none() {
                    let key = symbol.as_str().to_ascii_uppercase();
                    state.sized_stops.insert(key.as_str());
                    ledger.open(
                        at,
                        state.strategy_id,
                        symbol.as_str(),
                        qty,
                        mark,
                        reason.as_str(),
                        cfg.live,
                        Some(*stop_loss),
                        Some(*take_profit),
                    )?;
                }
            },
            _ => {
                state.entry_inflight = true;
            },
        }
    }
    Some(())
}

/// Whether the snapshot shows a position at all.
pub open spec fn shows_position(s: MarketSnapshot) -> bool {
    s.position is Some || exists|i: int|
        0 <= i < s.open_positions@.len() && (#[trigger] s.open_positions@[i]).qty.pos()
}

fn has_any_position(s: &MarketSnapshot) -> (r: bool)
    ensures
        r == shows_position(*s),
{
    if s.position.is_some() {
        return true;
    }
    let mut i: usize = 0;
    while i < s.open_positions.len()
        invariant
            i <= s.open_positions@.len(),
            s.position is None,
            forall|j: int| 0 <= j < i ==> !(#[trigger] s.open_positions@[j]).qty.pos(),
        decreases s.open_positions@.len() - i,
    {
        if s.open_positions[i].qty.is_pos() {
            return true;
        }
        i = i + 1;
    }
    false
}

/// The chime of a decision; the outer `None` says that a number left the decimal
/// range.
pub open spec fn chime(
    cfg: ConfigView,
    s: MarketSnapshot,
    d: Decision,
    p: Option<Position>,
    result: ApplyView,
) -> Option<Option<TradeSignal>> {
    match (p, d) {
        (Some(p), Decision::ExitPosition { reason, .. }) => match exit_won(p, reason@, result, s) {
            Some(won) => Some(decision_kind(d@, result, cfg.live, shows_position(s), Some(won))),
            None => None,
        },
        _ => Some(decision_kind(d@, result, cfg.live, shows_position(s), None)),
    }
}

fn pick_chime(
    cfg: &Config,
    snapshot: &MarketSnapshot,
    decision: &Decision,
    subject: &Option<Position>,
    result: &LiveApplyResult,
) -> (r: Option<Option<TradeSignal>>)
    ensures
        r == chime(cfg@, *snapshot, *decision, *subject, result@),
{
    let mut won: Option<bool> = None;
    if let Some(p) = subject {
        if let Decision::ExitPosition { reason, .. } = decision {
            won = Some(exit_sound_won(p, reason.as_str(), result, snapshot)?);
        }
    }
    Some(kind_for_decision(decision, result, cfg.live, has_any_position(snapshot), won))
}

/// What a decision comes to on the desk's own book, once the exchange is done.
pub open spec fn settled(
    b: Book,
    cfg: ConfigView,
    s: MarketSnapshot,
    d: Decision,
    p: Option<Position>,
    result: ApplyView,
    at: StampView,
) -> Option<Book> {
    match close_recorded(b, cfg, s, d, p, result, at) {
        None => None,
        Some(b1) => match forgotten(b1, cfg, result, at) {
            None => None,
            Some(b2) => {
                let b3 = Book { state: error_noted(b2.state, d, result.error, at.now as int), ..b2 };
                match moves_adopted(b3, cfg, d, p is Some, result, at) {
                    None => None,
                    Some(b4) => entry_adopted(b4, cfg, d, result, at),
                }
            },
        },
    }
}

/// A decision: what it asks of the exchange, the book after it, what it came to,
/// and its chime.
pub open spec fn decision_run(
    w: World,
    log: Seq<Exchange>,
    cfg: ConfigView,
    s: MarketSnapshot,
    b: Book,
    d: Decision,
    at: StampView,
) -> Run<Option<(Book, ApplyView, Option<TradeSignal>)>> {
    let p = subject(s, b.state, d);
    let a = apply_run(w, log, cfg, s, d@, Some(b.state), b.ledger, at);
    Run {
        log: a.log,
        out: match a.out {
            None => None,
            Some((l, result)) => match (
                settled(Book { ledger: l, ..b }, cfg, s, d, p, result, at),
                chime(cfg, s, d, p, result),
            ) {
                (Some(next), Some(kind)) => Some((next, result, kind)),
                _ => None,
            },
        },
    }
}

/// Carries one decision out, writes the ledger, and takes it over into the state.
pub fn apply_decision<C: LiveClient>(
    cfg: &Config,
    wire: &mut Wire<C>,
    state: &mut EngineState,
    snapshot: &MarketSnapshot,
    decision: &Decision,
    ledger: &mut Ledger,
    at: &Stamp,
) -> (r: Option<(LiveApplyResult, Option<TradeSignal>)>)
    ensures
        forall|w: World| #[trigger]
            explains(w, final(wire).log()) ==> explains(w, old(wire).log()) && decision_run(
                w,
                old(wire).log(),
                cfg@,
                *snapshot,
                Book { state: old(state)@, ledger: old(ledger)@ },
                *decision,
                at@,
            ) == (Run {
                log: final(wire).log(),
                out: match r {
                    Some((x, kind)) => Some(
                        (
                            Book { state: final(state)@, ledger: final(ledger)@ },
                            x@,
                            kind,
                        ),
                    ),
                    None => None,
                },
            }),
{
    let subject: Option<Position> = match decision {
        Decision::ExitPosition { symbol, .. } => position_for(
            snapshot,
            Some(state),
            symbol.as_str(),
        ),
        Decision::ReduceLong { symbol, .. } => position_for(snapshot, Some(state), symbol.as_str()),
        _ => None,
    };
    let result: LiveApplyResult = apply_live(
        cfg,
        wire,
        snapshot,
        decision,
        Some(state),
        ledger,
        at,
    )?;
    record_closing(cfg, state, ledger, snapshot, decision, &subject, &result, at)?;
    forget_symbol(cfg, state, ledger, &result, at)?;
    note_error(state, decision, &result.error, at.now);
    adopt_moves(cfg, state, ledger, decision, subject.is_some(), &result, at)?;
    adopt_entry(cfg, state, ledger, decision, &result, at)?;
    let kind: Option<TradeSignal> = pick_chime(cfg, snapshot, decision, &subject, &result)?;
    Some((result, kind))
}

} // verus!

//! Builds a snapshot of the market and the account.
//!
//! The exchange is asked through a `Feed`. An outage must never look like a flat
//! book: what was known before is kept then.
pub mod bars;
pub mod laws;

use crate::config::load::{Config, ConfigView};
use crate::continuation::entry::{pick_strategy4_book, strategy4_rows, tape_skips};
use crate::continuation::{
    default_continuation, for_interval, is_named_in, liquid_rows, named_in, noted_all,
    ContinuationParams, ContinuationView, SkipRow, SkipTally,
};
use crate::dec::{dec, Dec};
use crate::errors::{asks_retry, describe_exchange_error, described, is_retry_error};
use crate::exchange::{
    account_error, account_with_position_upnl, balances_account, balances_error, parse_account,
    parse_balances, start_account, with_book_upnl, with_start, ExchangeError,
};
use crate::json::{amount_in, Json};
use crate::models::{
    closed_bar, copy_positions, first_of, last_closed_bar, last_with_symbol, managed_long,
    managed_longs, open_long_rows, open_longs, opt_view, pick_managed_long, pick_managed_longs,
    remembered, remembered_positions, text_map, Account, Bar, EngineState, EngineStateView,
    MarketSnapshot, Position, Side, Ticker,
};
use crate::profit::EquityPin;
use crate::ranking::{
    any_row, chart_row, copy_tickers, eligible_rows, first_ticker, head, iter_liquid_majors,
    liquid_majors, momentum_book, pick_chart_ticker, pick_strategy1_book, rank_most_rising,
    strategy1_rows, top_row, RankBy,
};
use crate::symbols::SymMap;
use crate::text::{in_text_order, own, sort_texts, upper, views};
use crate::wire::{ask, book, document, explains, names, Call, Exchange, Feed, Run, SnapshotClient, World};
use bars::{
    candles_run, chart_count, chart_interval, chart_spec, closed_klines, copy_bars, extend_bars,
    extend_series, first_error, gather, gather_candles, gather_higher, gather_majors, gather_run,
    higher_run, insert_series, klines_run, last_candles, list_last_candles, majors_run, note_error,
    series_map, Gathered,
};
use vstd::prelude::*;

verus! {

/// A snapshot with its texts, lists and maps as such.
pub struct SnapView {
    pub tickers: Seq<Ticker>,
    pub bars: Seq<Bar>,
    pub account: Account,
    pub position: Option<Position>,
    pub chart_symbol: Seq<char>,
    pub fetched: bool,
    pub last_error: Option<Seq<char>>,
    pub live_book: bool,
    pub open_positions: Seq<Position>,
    pub account_ok: bool,
    pub account_fresh: bool,
    pub last_bars: Map<Seq<char>, Bar>,
    pub universe_bars: Map<Seq<char>, Seq<Bar>>,
    pub htf_bars: Map<Seq<char>, Seq<Bar>>,
}

impl View for MarketSnapshot {
    type V = SnapView;

    open spec fn view(&self) -> SnapView {
        SnapView {
            tickers: self.tickers@,
            bars: self.bars@,
            account: self.account,
            position: self.position,
            chart_symbol: self.chart_symbol@,
            fetched: self.fetched,
            last_error: opt_view(self.last_error),
            live_book: self.live_book,
            open_positions: self.open_positions@,
            account_ok: self.account_ok,
            account_fresh: self.account_fresh,
            last_bars: self.last_bars@,
            universe_bars: series_map(self.universe_bars@),
            htf_bars: series_map(self.htf_bars@),
        }
    }
}

pub open spec fn prior_view(p: Option<&MarketSnapshot>) -> Option<SnapView> {
    match p {
        Some(s) => Some(s@),
        None => None,
    }
}

/// An account of which nothing is known but where it started.
pub open spec fn blank_account(start: Dec) -> Account {
    Account {
        wallet_balance: dec(0, 0),
        unrealized_pnl: dec(0, 0),
        available_balance: dec(0, 0),
        starting_equity: start,
    }
}

pub fn empty_account(starting: Option<Dec>) -> (r: Account)
    ensures
        r == blank_account(
            match starting {
                Some(d) => d,
                None => dec(0, 0),
            },
        ),
{
    Account {
        wallet_balance: Dec::zero(),
        unrealized_pnl: Dec::zero(),
        available_balance: Dec::zero(),
        starting_equity: match starting {
            Some(d) => d,
            None => Dec::zero(),
        },
    }
}

/// The stop of a long: its own, else the other.
pub open spec fn long_stop(side: Side, own_stop: Option<Dec>, other: Option<Dec>) -> Option<Dec> {
    if side == Side::Long {
        first_of(own_stop, other)
    } else {
        own_stop
    }
}

pub fn overlay_long_stop(side: Side, own_stop: Option<Dec>, other: Option<Dec>) -> (r: Option<Dec>)
    ensures
        r == long_stop(side, own_stop, other),
{
    if side == Side::Long && own_stop.is_none() {
        other
    } else {
        own_stop
    }
}

/// A row whose missing stop and take-profit come from another.
pub open spec fn filled_row(p: Position, j: Position) -> Position {
    Position {
        stop_loss: long_stop(p.side, p.stop_loss, j.stop_loss),
        take_profit: first_of(p.take_profit, j.take_profit),
        ..p
    }
}

/// Rows, the first of a symbol filled from another row; that row comes last where
/// there is none of its symbol.
pub open spec fn filled_in(v: Seq<Position>, j: Position) -> Seq<Position>
    decreases v.len(),
{
    if v.len() == 0 {
        seq![j]
    } else if crate::text::lower(v[0].symbol@) == crate::text::lower(j.symbol@) {
        v.update(0, filled_row(v[0], j))
    } else {
        seq![v[0]] + filled_in(v.drop_first(), j)
    }
}

/// Rows filled from the first `n` of a journal's open longs.
pub open spec fn with_journal(v: Seq<Position>, journal: Seq<Position>, n: int) -> Seq<Position>
    decreases n,
{
    if n <= 0 {
        v
    } else if journal[n - 1].is_open_long() {
        filled_in(with_journal(v, journal, n - 1), journal[n - 1])
    } else {
        with_journal(v, journal, n - 1)
    }
}

proof fn lemma_filled_at(v: Seq<Position>, j: Position, i: int)
    requires
        0 <= i <= v.len(),
        forall|k: int|
            0 <= k < i ==> crate::text::lower((#[trigger] v[k]).symbol@) != crate::text::lower(
                j.symbol@,
            ),
        i < v.len() ==> crate::text::lower(v[i].symbol@) == crate::text::lower(j.symbol@),
    ensures
        filled_in(v, j) == (if i < v.len() {
            v.update(i, filled_row(v[i], j))
        } else {
            v.push(j)
        }),
    decreases v.len(),
{
    if v.len() == 0 {
        assert(v.push(j) =~= seq![j]);
    } else if i > 0 {
        assert(v[0] == v[0]);
        let d = v.drop_first();
        assert forall|k: int| 0 <= k < i - 1 implies crate::text::lower((#[trigger] d[k]).symbol@)
            != crate::text::lower(j.symbol@) by {
            assert(d[k] == v[k + 1]);
        }
        lemma_filled_at(d, j, i - 1);
        if i < v.len() {
            assert(seq![v[0]] + d.update(i - 1, filled_row(v[i], j)) =~= v.update(
                i,
                filled_row(v[i], j),
            ));
        } else {
            assert(seq![v[0]] + d.push(j) =~= v.push(j));
        }
    }
}

fn fill_in(v: &mut Vec<Position>, j: &Position)
    ensures
        final(v)@ == filled_in(old(v)@, *j),
{
    let ghost start = v@;
    let mut i: usize = 0;
    while i < v.len()
        invariant
            i <= v@.len(),
            v@ == start,
            start == old(v)@,
            forall|k: int|
                0 <= k < i ==> crate::text::lower((#[trigger] v@[k]).symbol@) != crate::text::lower(
                    j.symbol@,
                ),
        decreases v@.len() - i,
    {
        if v[i].symbol.as_str().eq_ignore_ascii_case(j.symbol.as_str()) {
            let mut p: Position = v[i].clone();
            p.stop_loss = overlay_long_stop(p.side, p.stop_loss, j.stop_loss);
            if p.take_profit.is_none() {
                p.take_profit = j.take_profit;
            }
            proof {
                assert(p == filled_row(start[i as int], *j));
                lemma_filled_at(start, *j, i as int);
            }
            v.set(i, p);
            return ;
        }
        i = i + 1;
    }
    proof {
        lemma_filled_at(start, *j, i as int);
    }
    v.push(j.clone());
}

/// Fills missing stops and take-profits from the journal, so that a desk that was
/// restarted still knows its risk.
pub fn merge_overlay_with_journal(overlay: Vec<Position>, journal: &[Position]) -> (r: Vec<Position>)
    ensures
        r@ == with_journal(overlay@, journal@, journal@.len() as int),
{
    let mut out: Vec<Position> = overlay;
    let mut i: usize = 0;
    while i < journal.len()
        invariant
            i <= journal@.len(),
            out@ == with_journal(overlay@, journal@, i as int),
        decreases journal@.len() - i,
    {
        if journal[i].open_long() {
            fill_in(&mut out, &journal[i]);
        }
        i = i + 1;
    }
    out
}

/// The keys of texts, each once, in the order in which they first came.
pub open spec fn distinct_keys(v: Seq<Seq<char>>, n: int) -> Seq<Seq<char>>
    decreases n,
{
    if n <= 0 {
        Seq::empty()
    } else {
        let rest = distinct_keys(v, n - 1);
        if rest.contains(upper(v[n - 1])) {
            rest
        } else {
            rest.push(upper(v[n - 1]))
        }
    }
}

/// The reasons once the first `n` names without one are noted as `TradFi`.
pub open spec fn reasons_noted(m: Map<Seq<char>, Seq<char>>, v: Seq<Seq<char>>, n: int) -> Map<
    Seq<char>,
    Seq<char>,
>
    decreases n,
{
    if n <= 0 {
        m
    } else {
        let rest = reasons_noted(m, v, n - 1);
        let key = upper(v[n - 1]);
        if rest.contains_key(key) {
            rest
        } else {
            rest.insert(key, "TradFi"@)
        }
    }
}

/// The state once names are skipped: the list holds each key once, in order.
pub open spec fn skips_merged(st: EngineStateView, extra: Seq<Seq<char>>) -> EngineStateView {
    let all = st.skip_symbols + extra;
    EngineStateView {
        skip_symbols: in_text_order(distinct_keys(all, all.len() as int)),
        skip_reasons: reasons_noted(st.skip_reasons, extra, extra.len() as int),
        ..st
    }
}

fn put_key(v: &mut Vec<String>, name: &str)
    ensures
        views(final(v)@) == (if views(old(v)@).contains(upper(name@)) {
            views(old(v)@)
        } else {
            views(old(v)@).push(upper(name@))
        }),
{
    let key = name.to_ascii_uppercase();
    if !crate::text::listed(v.as_slice(), key.as_str()) {
        let ghost before = views(v@);
        let ghost k = key@;
        v.push(key);
        proof {
            assert(views(v@) =~= before.push(k));
        }
    }
}

/// Skips names that are no coins.
pub fn apply_tradfi_skip(state: &mut EngineState, extra: &[String])
    ensures
        final(state)@ == skips_merged(old(state)@, views(extra@)),
{
    let ghost st = state@;
    let ghost ev = views(extra@);
    let ghost all = st.skip_symbols + ev;
    let mut keys: Vec<String> = Vec::new();
    let mut i: usize = 0;
    proof {
        assert(views(keys@) =~= Seq::<Seq<char>>::empty());
        assert(st.skip_symbols.len() == state.skip_symbols@.len());
        assert(ev.len() == extra@.len());
    }
    while i < state.skip_symbols.len()
        invariant
            i <= state.skip_symbols@.len(),
            state@ == st,
            all == st.skip_symbols + ev,
            views(keys@) == distinct_keys(all, i as int),
        decreases state.skip_symbols@.len() - i,
    {
        proof {
            assert(all[i as int] == state.skip_symbols@[i as int]@);
        }
        put_key(&mut keys, state.skip_symbols[i].as_str());
        i = i + 1;
    }
    let ghost n = st.skip_symbols.len() as int;
    let mut j: usize = 0;
    while j < extra.len()
        invariant
            j <= extra@.len(),
            n == st.skip_symbols.len(),
            ev == views(extra@),
            all == st.skip_symbols + ev,
            views(keys@) == distinct_keys(all, n + j),
            state@ == (EngineStateView {
                skip_reasons: reasons_noted(st.skip_reasons, ev, j as int),
                ..st
            }),
        decreases extra@.len() - j,
    {
        let name: &str = extra[j].as_str();
        proof {
            assert(all[n + j] == ev[j as int]);
            assert(ev[j as int] == name@);
        }
        put_key(&mut keys, name);
        let key = name.to_ascii_uppercase();
        if !state.skip_reasons.contains_key(key.as_str()) {
            let ghost before = text_map(state.skip_reasons@);
            state.skip_reasons.insert(key.as_str(), own("TradFi"));
            proof {
                assert(text_map(state.skip_reasons@) =~= before.insert(key@, "TradFi"@));
            }
        }
        j = j + 1;
    }
    proof {
        assert(all.len() == n + j);
    }
    state.skip_symbols = sort_texts(keys.as_slice());
}

/// What is known of a book from before.
pub struct Held {
    pub account: Option<Account>,
    pub positions: Option<Seq<Position>>,
    pub position: Option<Position>,
}

/// What is known from before: the prior snapshot's, else the fallback's.
pub open spec fn held_from(
    prior: Option<SnapView>,
    account: Option<Account>,
    positions: Seq<Position>,
    slot: Option<Position>,
) -> Held {
    if prior is Some && prior->0.account_ok {
        Held {
            account: Some(prior->0.account),
            positions: Some(prior->0.open_positions),
            position: prior->0.position,
        }
    } else if account is Some {
        Held {
            account,
            positions: Some(positions),
            position: if positions.len() > 0 {
                Some(positions[0])
            } else {
                slot
            },
        }
    } else {
        Held { account: None, positions: None, position: slot }
    }
}

fn copy_slot(p: &Option<Position>) -> (r: Option<Position>)
    ensures
        r == *p,
{
    match p {
        Some(q) => Some(q.clone()),
        None => None,
    }
}

/// The rows as a sequence.
pub open spec fn opt_rows(v: Option<Vec<Position>>) -> Option<Seq<Position>> {
    match v {
        Some(x) => Some(x@),
        None => None,
    }
}

pub open spec fn opt_account(a: Option<&Account>) -> Option<Account> {
    match a {
        Some(x) => Some(*x),
        None => None,
    }
}

fn held_book(
    prior: Option<&MarketSnapshot>,
    account: Option<&Account>,
    positions: &[Position],
    slot: &Option<Position>,
) -> (r: (Option<Account>, Option<Vec<Position>>, Option<Position>))
    ensures
        held_from(prior_view(prior), opt_account(account), positions@, *slot) == (Held {
            account: r.0,
            positions: opt_rows(r.1),
            position: r.2,
        }),
{
    if let Some(p) = prior {
        if p.account_ok {
            return (
                Some(p.account),
                Some(copy_positions(p.open_positions.as_slice())),
                copy_slot(&p.position),
            );
        }
    }
    match account {
        Some(a) => {
            let first: Option<Position> = if positions.len() > 0 {
                Some(positions[0].clone())
            } else {
                copy_slot(slot)
            };
            (Some(*a), Some(copy_positions(positions)), first)
        },
        None => (None, None, copy_slot(slot)),
    }
}

/// What a snapshot says of the account and the book.
pub struct BookPart {
    pub account: Account,
    pub account_ok: bool,
    pub account_fresh: bool,
    pub live_book: bool,
    pub open_positions: Seq<Position>,
    pub position: Option<Position>,
    pub error: Option<Seq<char>>,
}

/// The executable form of `BookPart`.
struct BookDraft {
    account: Account,
    account_ok: bool,
    account_fresh: bool,
    live_book: bool,
    open_positions: Vec<Position>,
    position: Option<Position>,
    error: Option<String>,
}

impl BookDraft {
    spec fn part(self) -> BookPart {
        BookPart {
            account: self.account,
            account_ok: self.account_ok,
            account_fresh: self.account_fresh,
            live_book: self.live_book,
            open_positions: self.open_positions@,
            position: self.position,
            error: opt_view(self.error),
        }
    }
}

/// What stays of the book when the exchange does not list it: the book from
/// before, and whether it was live.
pub open spec fn restored(b: BookPart, prior: Option<SnapView>, held: Held) -> BookPart {
    let a = if held.positions is Some && b.open_positions.len() == 0 {
        BookPart { open_positions: held.positions->0, position: held.position, ..b }
    } else {
        b
    };
    if prior is Some && prior->0.live_book {
        let c = BookPart { live_book: true, ..a };
        if a.open_positions.len() == 0 {
            BookPart { open_positions: prior->0.open_positions, position: prior->0.position, ..c }
        } else {
            c
        }
    } else {
        a
    }
}

fn restore_prior_book(
    d: &mut BookDraft,
    prior: Option<&MarketSnapshot>,
    held_positions: &Option<Vec<Position>>,
    held_position: &Option<Position>,
    held: Ghost<Held>,
)
    requires
        held@.positions == opt_rows(*held_positions),
        held@.position == *held_position,
    ensures
        final(d).part() == restored(old(d).part(), prior_view(prior), held@),
{
    if let Some(v) = held_positions {
        if d.open_positions.len() == 0 {
            d.open_positions = copy_positions(v.as_slice());
            d.position = copy_slot(held_position);
        }
    }
    if let Some(p) = prior {
        if p.live_book {
            d.live_book = true;
            if d.open_positions.len() == 0 {
                d.open_positions = copy_positions(p.open_positions.as_slice());
                d.position = copy_slot(&p.position);
            }
        }
    }
}

/// The account that a document says.
pub open spec fn account_in(raw: Json, start: Dec) -> Account {
    Account {
        wallet_balance: amount_in(raw.field("totalWalletBalance"@))->0,
        unrealized_pnl: amount_in(raw.field("totalUnrealizedProfit"@))->0,
        available_balance: amount_in(raw.field("availableBalance"@))->0,
        starting_equity: start,
    }
}

/// Loads the account: by its balances, else by its summary. An error that asks
/// for a retry ends it.
pub open spec fn load_run(w: World, log: Seq<Exchange>, starting: Option<Dec>) -> Run<
    Option<Result<Account, Seq<char>>>,
> {
    let start = match starting {
        Some(d) => d,
        None => dec(0, 0),
    };
    let a = ask(w, log, Call::Balances);
    match document(a.out) {
        Ok(raw) => Run {
            log: a.log,
            out: match balances_error(raw) {
                Some(e) => Some(Err(e)),
                None => match with_start(balances_account(raw, start), starting) {
                    Some(x) => Some(Ok(x)),
                    None => None,
                },
            },
        },
        Err(e) => if asks_retry(e) {
            Run { log: a.log, out: Some(Err(e)) }
        } else {
            let b = ask(w, a.log, Call::Account);
            Run {
                log: b.log,
                out: match document(b.out) {
                    Err(again) => Some(Err(again)),
                    Ok(raw) => match account_error(raw) {
                        Some(bad) => Some(Err(bad)),
                        None => match with_start(account_in(raw, start), starting) {
                            Some(x) => Some(Ok(x)),
                            None => None,
                        },
                    },
                },
            }
        },
    }
}

pub open spec fn loaded(r: Option<Result<Account, ExchangeError>>) -> Option<
    Result<Account, Seq<char>>,
> {
    match r {
        Some(Ok(a)) => Some(Ok(a)),
        Some(Err(e)) => Some(Err(e@)),
        None => None,
    }
}

/// Loads the account.
pub fn load_account<C: SnapshotClient>(feed: &mut Feed<C>, starting_equity: Option<Dec>) -> (r: Option<
    Result<Account, ExchangeError>,
>)
    ensures
        forall|w: World| #[trigger]
            explains(w, final(feed).log()) ==> explains(w, old(feed).log()) && load_run(
                w,
                old(feed).log(),
                starting_equity,
            ) == (Run { log: final(feed).log(), out: loaded(r) }),
{
    let start: Dec = match starting_equity {
        Some(d) => d,
        None => Dec::zero(),
    };
    match feed.balances() {
        Ok(raw) => match parse_balances(&raw, start) {
            Ok(a) => {
                let x: Account = start_account(a, starting_equity)?;
                return Some(Ok(x));
            },
            Err(e) => return Some(Err(e)),
        },
        Err(e) => {
            if is_retry_error(Some(e.0.as_str())) {
                return Some(Err(e));
            }
        },
    }
    let raw: Json = match feed.account() {
        Ok(raw) => raw,
        Err(e) => return Some(Err(e)),
    };
    match parse_account(&raw, start) {
        Ok(a) => {
            let x: Account = start_account(a, starting_equity)?;
            Some(Ok(x))
        },
        Err(e) => Some(Err(e)),
    }
}

/// A row of the exchange, in the form in which it is managed.
pub open spec fn shown_row(p: Position, managed: Seq<Position>) -> Position {
    if p.side == Side::Long {
        match last_with_symbol(managed, p.symbol@) {
            Some(m) => m,
            None => p,
        }
    } else {
        p
    }
}

/// The rows of the exchange, longs in the form in which they are managed.
pub open spec fn shown_rows(rows: Seq<Position>, managed: Seq<Position>) -> Seq<Position> {
    Seq::new(rows.len(), |i: int| shown_row(rows[i], managed))
}

fn show_rows(rows: &[Position], managed: &[Position]) -> (r: Vec<Position>)
    ensures
        r@ == shown_rows(rows@, managed@),
{
    let mut out: Vec<Position> = Vec::new();
    let mut i: usize = 0;
    while i < rows.len()
        invariant
            i <= rows@.len(),
            out@.len() == i,
            forall|j: int| 0 <= j < i ==> #[trigger] out@[j] == shown_row(rows@[j], managed@),
        decreases rows@.len() - i,
    {
        let p: &Position = &rows[i];
        if p.side == Side::Long {
            match crate::models::find_last_symbol(managed, p.symbol.as_str()) {
                Some(m) => out.push(m.clone()),
                None => out.push(p.clone()),
            }
        } else {
            out.push(p.clone());
        }
        i = i + 1;
    }
    proof {
        assert(out@ =~= shown_rows(rows@, managed@));
    }
    out
}

/// The part with the exchange's rows in it.
pub open spec fn with_rows(
    b: BookPart,
    rows: Seq<Position>,
    known: Seq<Position>,
    slot: Option<Position>,
) -> Option<BookPart> {
    let managed = managed_longs(rows, known);
    let shown = shown_rows(rows, managed);
    match with_book_upnl(b.account, shown) {
        None => None,
        Some(account) => Some(
            BookPart {
                account,
                live_book: true,
                open_positions: shown,
                position: if managed.len() > 0 {
                    Some(managed[0])
                } else {
                    managed_long(rows, slot)
                },
                ..b
            },
        ),
    }
}

/// The account and the book, as far as the exchange shows them.
pub open spec fn book_run(
    w: World,
    log: Seq<Exchange>,
    st: EngineStateView,
    prior: Option<SnapView>,
    held: Held,
    known: Seq<Position>,
    journal: Seq<Position>,
    baseline: Option<Dec>,
) -> Run<Option<BookPart>> {
    let blank = BookPart {
        account: match held.account {
            Some(a) => a,
            None => blank_account(dec(0, 0)),
        },
        account_ok: held.account is Some,
        account_fresh: false,
        live_book: false,
        open_positions: Seq::empty(),
        position: st.position,
        error: None,
    };
    let a = load_run(w, log, baseline);
    match a.out {
        None => Run { log: a.log, out: None },
        Some(r) => {
            let b0 = match r {
                Ok(acc) => BookPart {
                    account: acc,
                    account_ok: true,
                    account_fresh: true,
                    ..blank
                },
                Err(e) => BookPart { error: Some(described(e)), ..blank },
            };
            let b = ask(w, a.log, Call::PositionRisk);
            Run {
                log: b.log,
                out: match book(b.out) {
                    Ok(rows) => with_rows(
                        b0,
                        rows,
                        with_journal(known, journal, journal.len() as int),
                        st.position,
                    ),
                    Err(e) => Some(
                        restored(
                            BookPart { error: first_error(b0.error, e), ..b0 },
                            prior,
                            held,
                        ),
                    ),
                },
            }
        },
    }
}

spec fn drafted(r: Option<BookDraft>) -> Option<BookPart> {
    match r {
        Some(d) => Some(d.part()),
        None => None,
    }
}

fn fetch_part<C: SnapshotClient>(
    feed: &mut Feed<C>,
    state: &EngineState,
    prior: Option<&MarketSnapshot>,
    held_account: Option<Account>,
    held_positions: &Option<Vec<Position>>,
    held_position: &Option<Position>,
    held: Ghost<Held>,
    known: &[Position],
    journal: &[Position],
    baseline: Option<Dec>,
) -> (r: Option<BookDraft>)
    requires
        held@.account == held_account,
        held@.positions == opt_rows(*held_positions),
        held@.position == *held_position,
    ensures
        forall|w: World| #[trigger]
            explains(w, final(feed).log()) ==> explains(w, old(feed).log()) && book_run(
                w,
                old(feed).log(),
                state@,
                prior_view(prior),
                held@,
                known@,
                journal@,
                baseline,
            ) == (Run { log: final(feed).log(), out: drafted(r) }),
{
    let mut d = BookDraft {
        account: match held_account {
            Some(a) => a,
            None => empty_account(None),
        },
        account_ok: held_account.is_some(),
        account_fresh: false,
        live_book: false,
        open_positions: Vec::new(),
        position: copy_slot(&state.position),
        error: None,
    };
    proof {
        assert(d.open_positions@ =~= Seq::<Position>::empty());
    }
    match load_account(feed, baseline)? {
        Ok(a) => {
            d.account = a;
            d.account_ok = true;
            d.account_fresh = true;
        },
        Err(e) => {
            d.error = Some(describe_exchange_error(e.0.as_str()));
        },
    }
    match feed.fetch_book() {
        Ok(rows) => {
            let full: Vec<Position> = merge_overlay_with_journal(copy_positions(known), journal);
            let managed: Vec<Position> = pick_managed_longs(rows.as_slice(), full.as_slice());
            let shown: Vec<Position> = show_rows(rows.as_slice(), managed.as_slice());
            d.account = account_with_position_upnl(d.account, shown.as_slice())?;
            d.live_book = true;
            d.open_positions = shown;
            d.position = if managed.len() > 0 {
                Some(managed[0].clone())
            } else {
                pick_managed_long(rows.as_slice(), state.position.as_ref())
            };
        },
        Err(e) => {
            note_error(&mut d.error, &e);
            restore_prior_book(&mut d, prior, held_positions, held_position, held);
        },
    }
    Some(d)
}

/// A book of the fourth strategy, and the tally after it was picked.
pub open spec fn fourth_book(
    tickers: Seq<Ticker>,
    skip: Seq<Seq<char>>,
    p: ContinuationView,
    tally: Seq<SkipRow>,
) -> Option<(Seq<Ticker>, Seq<SkipRow>)> {
    match liquid_rows(tickers, skip, p) {
        Some(rows) => Some(
            (
                strategy4_rows(
                    rows,
                    if p.liquid_n < 1 {
                        1
                    } else {
                        p.liquid_n as int
                    },
                    p,
                ),
                noted_all(tally, tape_skips(rows, p)),
            ),
        ),
        None => None,
    }
}

fn pick_fourth(tickers: &[Ticker], skip: &[String], p: &ContinuationParams, tally: &mut SkipTally) -> (r:
    Option<Vec<Ticker>>)
    ensures
        match (r, fourth_book(tickers@, views(skip@), p@, old(tally)@)) {
            (Some(v), Some((rows, t))) => v@ == rows && final(tally)@ == t,
            (None, None) => true,
            _ => false,
        },
{
    let n: usize = if p.liquid_n < 1 {
        1
    } else {
        p.liquid_n
    };
    pick_strategy4_book(tickers, n, skip, Some(p), tally)
}

/// The fourth strategy's knobs with a cap on positions.
pub open spec fn fourth_knobs(cfg: ConfigView, cap: i32) -> ContinuationView {
    ContinuationView {
        max_positions: cap,
        ..for_interval(default_continuation(), cfg.s4_interval)
    }
}

fn fourth_params(cfg: &Config, cap: i32) -> (r: ContinuationParams)
    ensures
        r@ == fourth_knobs(cfg@, cap),
{
    let mut p: ContinuationParams = ContinuationParams::default().with_interval(cfg.s4_interval);
    p.max_positions = cap;
    p
}

pub open spec fn at_least_one(n: i32) -> i32 {
    if n < 1 {
        1
    } else {
        n
    }
}

/// The row that is charted where nothing is held, and the tally after it was
/// picked.
pub open spec fn charted_row(cfg: ConfigView, st: EngineStateView, tickers: Seq<Ticker>, tally: Seq<
    SkipRow,
>) -> Option<(Option<Ticker>, Seq<SkipRow>)> {
    let skip = st.skip_symbols;
    let rising = eligible_rows(tickers, any_row(), skip);
    let best = top_row(RankBy::Rise, rising, rising.len() as int);
    let picked = if st.strategy_id == 1 {
        match momentum_book(
            tickers,
            at_least_one(cfg.max_positions) as int,
            strategy1_rows(),
            skip,
            true,
        ) {
            Some(v) => Some((head(v), tally)),
            None => None,
        }
    } else if st.strategy_id == 4 {
        match fourth_book(tickers, skip, fourth_knobs(cfg, cfg.s4_max_positions), tally) {
            Some((v, t)) => Some((head(v), t)),
            None => None,
        }
    } else {
        match chart_row(tickers, st.strategy_id, skip) {
            Some(r) => Some((r, tally)),
            None => None,
        }
    };
    match picked {
        Some((Some(t), tl)) => Some((Some(t), tl)),
        Some((None, tl)) => Some((best, tl)),
        None => None,
    }
}

/// The symbol that is charted, and the tally after it was picked.
pub open spec fn charted(
    cfg: ConfigView,
    st: EngineStateView,
    tickers: Seq<Ticker>,
    known: Seq<Position>,
    tally: Seq<SkipRow>,
) -> Option<(Seq<char>, Seq<SkipRow>)> {
    if known.len() > 0 {
        Some((known[0].symbol@, tally))
    } else {
        match charted_row(cfg, st, tickers, tally) {
            Some((Some(t), tl)) => Some((t.symbol@, tl)),
            Some((None, tl)) => Some(("BTCUSDT"@, tl)),
            None => None,
        }
    }
}

fn pick_chart(
    cfg: &Config,
    state: &EngineState,
    tickers: &[Ticker],
    known: &[Position],
    tally: &mut SkipTally,
) -> (r: Option<String>)
    ensures
        match (r, charted(cfg@, state@, tickers@, known@, old(tally)@)) {
            (Some(s), Some((name, t))) => s@ == name && final(tally)@ == t,
            (None, None) => true,
            _ => false,
        },
{
    if known.len() > 0 {
        return Some(own(known[0].symbol.as_str()));
    }
    let skip: &[String] = state.skip_symbols.as_slice();
    let picked: Option<Ticker> = if state.strategy_id == 1 {
        let n: usize = if cfg.max_positions < 1 {
            1
        } else {
            cfg.max_positions as usize
        };
        let v: Vec<Ticker> = pick_strategy1_book(tickers, n, skip)?;
        first_ticker(v.as_slice())
    } else if state.strategy_id == 4 {
        let p: ContinuationParams = fourth_params(cfg, cfg.s4_max_positions);
        let v: Vec<Ticker> = pick_fourth(tickers, skip, &p, tally)?;
        first_ticker(v.as_slice())
    } else {
        pick_chart_ticker(tickers, state.strategy_id, skip)?
    };
    let best: Option<Ticker> = match picked {
        Some(t) => Some(t),
        None => rank_most_rising(tickers, skip),
    };
    match best {
        Some(t) => Some(own(t.symbol.as_str())),
        None => Some(own("BTCUSDT")),
    }
}

/// The symbols of rows.
pub open spec fn ticker_names(v: Seq<Ticker>) -> Seq<Seq<char>> {
    Seq::new(v.len(), |i: int| v[i].symbol@)
}

fn list_names(v: &[Ticker]) -> (r: Vec<String>)
    ensures
        views(r@) == ticker_names(v@),
{
    let mut out: Vec<String> = Vec::new();
    let mut i: usize = 0;
    while i < v.len()
        invariant
            i <= v@.len(),
            out@.len() == i,
            forall|j: int| 0 <= j < i ==> (#[trigger] out@[j])@ == v@[j].symbol@,
        decreases v@.len() - i,
    {
        out.push(own(v[i].symbol.as_str()));
        i = i + 1;
    }
    proof {
        assert(views(out@) =~= ticker_names(v@));
    }
    out
}

/// The names whose candles are kept beside the chart's.
pub open spec fn major_names(tickers: Seq<Ticker>, skip: Seq<Seq<char>>, chart: Seq<char>) -> Seq<
    Seq<char>,
> {
    let v = ticker_names(liquid_majors(tickers, skip));
    if chart.len() > 0 && !v.contains(chart) {
        v.push(chart)
    } else {
        v
    }
}

fn list_majors(tickers: &[Ticker], skip: &[String], chart: &str) -> (r: Vec<String>)
    ensures
        views(r@) == major_names(tickers@, views(skip@), chart@),
{
    let mut out: Vec<String> = list_names(iter_liquid_majors(tickers, skip).as_slice());
    if !chart.is_empty() && !crate::text::listed(out.as_slice(), chart) {
        let ghost before = views(out@);
        out.push(own(chart));
        proof {
            assert(views(out@) =~= before.push(chart@));
        }
    }
    out
}

/// Names, and the symbols of the first `n` held rows that they do not name.
pub open spec fn with_held(v: Seq<Seq<char>>, known: Seq<Position>, n: int) -> Seq<Seq<char>>
    decreases n,
{
    if n <= 0 {
        v
    } else {
        let rest = with_held(v, known, n - 1);
        let p = known[n - 1];
        if p.qty.pos() && !named_in(rest, p.symbol@) {
            rest.push(p.symbol@)
        } else {
            rest
        }
    }
}

fn add_held(v: &mut Vec<String>, known: &[Position])
    ensures
        views(final(v)@) == with_held(views(old(v)@), known@, known@.len() as int),
{
    let ghost start = views(v@);
    let mut i: usize = 0;
    while i < known.len()
        invariant
            i <= known@.len(),
            views(v@) == with_held(start, known@, i as int),
        decreases known@.len() - i,
    {
        let p: &Position = &known[i];
        if p.qty.is_pos() && !is_named_in(v.as_slice(), p.symbol.as_str()) {
            let ghost before = views(v@);
            v.push(own(p.symbol.as_str()));
            proof {
                assert(views(v@) =~= before.push(p.symbol@));
            }
        }
        i = i + 1;
    }
}

/// Names, and one more that they do not name.
pub open spec fn with_name(v: Seq<Seq<char>>, name: Seq<char>) -> Seq<Seq<char>> {
    if name.len() > 0 && !named_in(v, name) {
        v.push(name)
    } else {
        v
    }
}

/// The candles of a snapshot, by symbol.
pub struct Candles {
    pub last: Map<Seq<char>, Bar>,
    pub series: Map<Seq<char>, Seq<Bar>>,
    pub higher: Map<Seq<char>, Seq<Bar>>,
}

/// The executable form of `Candles`.
struct CandleMaps {
    last: SymMap<Bar>,
    series: SymMap<Vec<Bar>>,
    higher: SymMap<Vec<Bar>>,
}

impl CandleMaps {
    spec fn candles(self) -> Candles {
        Candles {
            last: self.last@,
            series: series_map(self.series@),
            higher: series_map(self.higher@),
        }
    }
}

/// What the chart alone gives.
pub open spec fn chart_series(chart: Seq<char>, chart_bars: Seq<Bar>) -> Map<Seq<char>, Seq<Bar>> {
    if chart.len() > 0 && chart_bars.len() > 0 {
        Map::<Seq<char>, Seq<Bar>>::empty().insert(chart, chart_bars)
    } else {
        Map::empty()
    }
}

/// The candles that the fourth strategy needs: of the whole book where a scan is
/// due, else of what is held.
pub open spec fn history_run(
    w: World,
    log: Seq<Exchange>,
    cfg: ConfigView,
    st: EngineStateView,
    tickers: Seq<Ticker>,
    chart: Seq<char>,
    chart_bars: Seq<Bar>,
    known: Seq<Position>,
    scan_due: bool,
    tally: Seq<SkipRow>,
) -> Run<Option<(Candles, Seq<SkipRow>)>> {
    let picked = if scan_due {
        fourth_book(
            tickers,
            st.skip_symbols,
            fourth_knobs(cfg, at_least_one(cfg.s4_max_positions)),
            tally,
        )
    } else {
        Some((Seq::<Ticker>::empty(), tally))
    };
    match picked {
        None => Run { log, out: None },
        Some((rows, t)) => {
            let want = with_held(ticker_names(rows), known, known.len() as int);
            let higher = with_name(want, chart);
            let a = gather_run(
                w,
                log,
                chart_series(chart, chart_bars),
                want,
                want.len() as int,
                cfg.s4_interval.name(),
                known,
                scan_due,
            );
            let b = higher_run(w, a.log, higher, higher.len() as int);
            Run {
                log: b.log,
                out: Some(
                    (
                        Candles { last: last_candles(a.out), series: a.out, higher: b.out },
                        t,
                    ),
                ),
            }
        },
    }
}

spec fn history(r: Option<CandleMaps>, tally: Seq<SkipRow>) -> Option<(Candles, Seq<SkipRow>)> {
    match r {
        Some(c) => Some((c.candles(), tally)),
        None => None,
    }
}

fn collect_s4_history<C: SnapshotClient>(
    cfg: &Config,
    feed: &mut Feed<C>,
    state: &EngineState,
    tickers: &[Ticker],
    chart: &str,
    chart_bars: &[Bar],
    known: &[Position],
    scan_due: bool,
    tally: &mut SkipTally,
) -> (r: Option<CandleMaps>)
    ensures
        forall|w: World| #[trigger]
            explains(w, final(feed).log()) ==> explains(w, old(feed).log()) && history_run(
                w,
                old(feed).log(),
                cfg@,
                state@,
                tickers@,
                chart@,
                chart_bars@,
                known@,
                scan_due,
                old(tally)@,
            ) == (Run { log: final(feed).log(), out: history(r, final(tally)@) }),
{
    let mut series: SymMap<Vec<Bar>> = SymMap::new();
    proof {
        assert(series_map(series@) =~= Map::<Seq<char>, Seq<Bar>>::empty());
    }
    if !chart.is_empty() && chart_bars.len() > 0 {
        insert_series(&mut series, chart, copy_bars(chart_bars));
    }
    let rows: Vec<Ticker> = if scan_due {
        let cap: i32 = if cfg.s4_max_positions < 1 {
            1
        } else {
            cfg.s4_max_positions
        };
        let p: ContinuationParams = fourth_params(cfg, cap);
        pick_fourth(tickers, state.skip_symbols.as_slice(), &p, tally)?
    } else {
        let none: Vec<Ticker> = Vec::new();
        proof {
            assert(none@ =~= Seq::<Ticker>::empty());
        }
        none
    };
    let mut want: Vec<String> = list_names(rows.as_slice());
    add_held(&mut want, known);
    let mut more: Vec<String> = crate::models::copy_texts(want.as_slice());
    if !chart.is_empty() && !is_named_in(more.as_slice(), chart) {
        let ghost before = views(more@);
        more.push(own(chart));
        proof {
            assert(views(more@) =~= before.push(chart@));
        }
    }
    proof {
        assert(views(want@).len() == want@.len());
        assert(views(more@).len() == more@.len());
    }
    gather(feed, &mut series, want.as_slice(), cfg.s4_interval.as_binance(), known, scan_due);
    let higher: SymMap<Vec<Bar>> = gather_higher(feed, more.as_slice());
    let last: SymMap<Bar> = list_last_candles(&series);
    Some(CandleMaps { last, series, higher })
}

/// What is kept of the candles: those of a full scan as they are, else those of
/// before with the new ones on top.
pub open spec fn kept_candles(c: Candles, prior: Option<SnapView>, scan_due: bool) -> Candles {
    if scan_due || prior is None {
        c
    } else {
        Candles {
            last: prior->0.last_bars.union_prefer_right(c.last),
            series: prior->0.universe_bars.union_prefer_right(c.series),
            higher: prior->0.htf_bars.union_prefer_right(c.higher),
        }
    }
}

fn keep_candles(c: CandleMaps, prior: Option<&MarketSnapshot>, scan_due: bool) -> (r: CandleMaps)
    ensures
        r.candles() == kept_candles(c.candles(), prior_view(prior), scan_due),
{
    if scan_due {
        return c;
    }
    match prior {
        None => c,
        Some(p) => {
            let mut out: CandleMaps = copy_maps(p);
            extend_bars(&mut out.last, &c.last);
            extend_series(&mut out.series, &c.series);
            extend_series(&mut out.higher, &c.higher);
            out
        },
    }
}

fn copy_maps(p: &MarketSnapshot) -> (r: CandleMaps)
    ensures
        r.candles() == (Candles {
            last: p@.last_bars,
            series: p@.universe_bars,
            higher: p@.htf_bars,
        }),
{
    let mut last: SymMap<Bar> = SymMap::new();
    let mut series: SymMap<Vec<Bar>> = SymMap::new();
    let mut higher: SymMap<Vec<Bar>> = SymMap::new();
    extend_bars(&mut last, &p.last_bars);
    extend_series(&mut series, &p.universe_bars);
    extend_series(&mut higher, &p.htf_bars);
    let r = CandleMaps { last, series, higher };
    proof {
        assert(r.last@ =~= p@.last_bars);
        assert(series_map(r.series@) =~= p@.universe_bars);
        assert(series_map(r.higher@) =~= p@.htf_bars);
    }
    r
}

/// The last closed candle of the chart.
pub open spec fn chart_candle(chart: Seq<char>, chart_bars: Seq<Bar>) -> Map<Seq<char>, Bar> {
    match closed_bar(chart_bars) {
        Some(c) => if chart.len() > 0 {
            Map::<Seq<char>, Bar>::empty().insert(chart, c)
        } else {
            Map::empty()
        },
        None => Map::empty(),
    }
}

/// The last closed candles of the first strategy's book; of the chart alone for
/// the others.
pub open spec fn last_run(
    w: World,
    log: Seq<Exchange>,
    cfg: ConfigView,
    st: EngineStateView,
    tickers: Seq<Ticker>,
    chart: Seq<char>,
    chart_bars: Seq<Bar>,
) -> Run<Option<Map<Seq<char>, Bar>>> {
    let own_candle = chart_candle(chart, chart_bars);
    if st.strategy_id != 1 {
        Run { log, out: Some(own_candle) }
    } else {
        match momentum_book(
            tickers,
            at_least_one(cfg.max_positions) as int,
            strategy1_rows(),
            st.skip_symbols,
            true,
        ) {
            None => Run { log, out: None },
            Some(rows) => {
                let v = ticker_names(rows);
                let a = candles_run(w, log, own_candle, v, v.len() as int);
                Run { log: a.log, out: Some(a.out) }
            },
        }
    }
}

fn collect_last_bars<C: SnapshotClient>(
    cfg: &Config,
    feed: &mut Feed<C>,
    state: &EngineState,
    tickers: &[Ticker],
    chart: &str,
    chart_bars: &[Bar],
) -> (r: Option<SymMap<Bar>>)
    ensures
        forall|w: World| #[trigger]
            explains(w, final(feed).log()) ==> explains(w, old(feed).log()) && last_run(
                w,
                old(feed).log(),
                cfg@,
                state@,
                tickers@,
                chart@,
                chart_bars@,
            ) == (Run {
                log: final(feed).log(),
                out: match r {
                    Some(m) => Some(m@),
                    None => None,
                },
            }),
{
    let mut out: SymMap<Bar> = SymMap::new();
    if !chart.is_empty() {
        if let Some(c) = last_closed_bar(chart_bars) {
            out.insert(chart, c);
        }
    }
    if state.strategy_id != 1 {
        return Some(out);
    }
    let n: usize = if cfg.max_positions < 1 {
        1
    } else {
        cfg.max_positions as usize
    };
    let rows: Vec<Ticker> = pick_strategy1_book(tickers, n, state.skip_symbols.as_slice())?;
    let names: Vec<String> = list_names(rows.as_slice());
    proof {
        assert(views(names@).len() == names@.len());
    }
    gather_candles(feed, &mut out, names.as_slice());
    Some(out)
}

/// Whether the fourth strategy's book is to be scanned anew.
pub open spec fn is_scan_due(last_scan: int, now: int) -> bool {
    last_scan <= 0 || now - last_scan >= 60_000
}

fn scan_is_due(last_scan: i64, now: i64) -> (r: bool)
    ensures
        r == is_scan_due(last_scan as int, now as int),
{
    last_scan <= 0 || (now as i128) - (last_scan as i128) >= 60_000
}

/// A snapshot of nothing: the desk is offline, or has no client.
pub open spec fn unfetched(
    cfg: ConfigView,
    st: EngineStateView,
    offline: bool,
    starting: Option<Dec>,
) -> SnapView {
    let baseline = first_of(starting, cfg.starting_equity);
    SnapView {
        tickers: Seq::empty(),
        bars: Seq::empty(),
        account: blank_account(
            if offline || baseline is None {
                dec(0, 0)
            } else {
                baseline->0
            },
        ),
        position: st.position,
        chart_symbol: "BTCUSDT"@,
        fetched: false,
        last_error: if offline {
            None
        } else {
            Some("нет сетевого клиента"@)
        },
        live_book: false,
        open_positions: Seq::empty(),
        account_ok: false,
        account_fresh: false,
        last_bars: Map::empty(),
        universe_bars: Map::empty(),
        htf_bars: Map::empty(),
    }
}

/// A snapshot of nothing, where the desk is offline or has no client.
pub fn unfetched_snapshot(
    cfg: &Config,
    state: &EngineState,
    offline: bool,
    starting_equity: Option<Dec>,
) -> (r: MarketSnapshot)
    ensures
        r@ == unfetched(cfg@, state@, offline, starting_equity),
{
    let baseline: Option<Dec> = if starting_equity.is_some() {
        starting_equity
    } else {
        cfg.starting_equity
    };
    let start: Dec = if offline {
        Dec::zero()
    } else {
        match baseline {
            Some(d) => d,
            None => Dec::zero(),
        }
    };
    let mut snap: MarketSnapshot = MarketSnapshot::empty(start);
    snap.position = copy_slot(&state.position);
    if !offline {
        snap.last_error = Some(own("нет сетевого клиента"));
    }
    proof {
        assert(snap.tickers@ =~= Seq::<Ticker>::empty());
        assert(snap.bars@ =~= Seq::<Bar>::empty());
        assert(snap.open_positions@ =~= Seq::<Position>::empty());
        assert(series_map(snap.universe_bars@) =~= Map::<Seq<char>, Seq<Bar>>::empty());
        assert(series_map(snap.htf_bars@) =~= Map::<Seq<char>, Seq<Bar>>::empty());
    }
    snap
}

/// What is shown when the market cannot be read: everything from before.
pub open spec fn outage(
    st: EngineStateView,
    prior: Option<SnapView>,
    held: Held,
    e: Seq<char>,
) -> SnapView {
    let blank = SnapView {
        tickers: Seq::empty(),
        bars: Seq::empty(),
        account: blank_account(dec(0, 0)),
        position: st.position,
        chart_symbol: "BTCUSDT"@,
        fetched: false,
        last_error: Some(described(e)),
        live_book: false,
        open_positions: Seq::empty(),
        account_ok: false,
        account_fresh: false,
        last_bars: Map::empty(),
        universe_bars: Map::empty(),
        htf_bars: Map::empty(),
    };
    let a = match prior {
        Some(p) => SnapView {
            tickers: p.tickers,
            bars: p.bars,
            last_bars: p.last_bars,
            universe_bars: p.universe_bars,
            htf_bars: p.htf_bars,
            chart_symbol: p.chart_symbol,
            ..blank
        },
        None => blank,
    };
    match held.account {
        Some(acc) => SnapView {
            account: acc,
            account_ok: true,
            open_positions: match held.positions {
                Some(v) => v,
                None => Seq::empty(),
            },
            position: held.position,
            ..a
        },
        None => a,
    }
}

fn show_outage(
    cfg: &Config,
    state: &EngineState,
    prior: Option<&MarketSnapshot>,
    held_account: Option<Account>,
    held_positions: Option<Vec<Position>>,
    held_position: Option<Position>,
    held: Ghost<Held>,
    e: &ExchangeError,
) -> (r: MarketSnapshot)
    requires
        held@.account == held_account,
        held@.positions == opt_rows(held_positions),
        held@.position == held_position,
    ensures
        r@ == outage(state@, prior_view(prior), held@, e@),
{
    let mut snap: MarketSnapshot = unfetched_snapshot(cfg, state, true, None);
    snap.last_error = Some(describe_exchange_error(e.0.as_str()));
    if let Some(p) = prior {
        snap.tickers = copy_tickers(p.tickers.as_slice());
        snap.bars = copy_bars(p.bars.as_slice());
        let m: CandleMaps = copy_maps(p);
        snap.last_bars = m.last;
        snap.universe_bars = m.series;
        snap.htf_bars = m.higher;
        snap.chart_symbol = own(p.chart_symbol.as_str());
    }
    if let Some(a) = held_account {
        snap.account = a;
        snap.account_ok = true;
        snap.open_positions = match held_positions {
            Some(v) => v,
            None => Vec::new(),
        };
        snap.position = held_position;
        proof {
            assert(held_positions is None ==> snap.open_positions@ =~= Seq::<Position>::empty());
        }
    }
    snap
}

/// What is fixed before the exchange is asked.
pub struct FetchInput {
    pub cfg: ConfigView,
    pub st: EngineStateView,
    pub prior: Option<SnapView>,
    pub held: Held,
    pub known: Seq<Position>,
    pub journal: Seq<Position>,
    pub baseline: Option<Dec>,
    pub now: int,
}

/// The candles of a snapshot, once the chart's are there.
pub open spec fn candles_of(
    w: World,
    log: Seq<Exchange>,
    i: FetchInput,
    tickers: Seq<Ticker>,
    chart: Seq<char>,
    chart_bars: Seq<Bar>,
    error: Option<Seq<char>>,
    tally: Seq<SkipRow>,
) -> Run<Option<(Candles, Option<Seq<char>>, Seq<SkipRow>)>> {
    if i.st.strategy_id == 4 {
        let due = is_scan_due(i.st.last_scan_ts as int, i.now);
        let a = history_run(w, log, i.cfg, i.st, tickers, chart, chart_bars, i.known, due, tally);
        Run {
            log: a.log,
            out: match a.out {
                Some((c, t)) => Some((kept_candles(c, i.prior, due), error, t)),
                None => None,
            },
        }
    } else {
        let wide = (i.st.strategy_id == 2 || i.st.strategy_id == 3) && i.known.len() == 0;
        let names = major_names(tickers, i.st.skip_symbols, chart);
        let a = if wide {
            majors_run(
                w,
                log,
                error,
                names,
                names.len() as int,
                chart,
                chart_bars,
                chart_interval(i.st.strategy_id, i.cfg.s4_interval),
                chart_count(i.st.strategy_id),
            )
        } else {
            Run { log, out: Gathered { series: Map::empty(), error } }
        };
        let b = last_run(w, a.log, i.cfg, i.st, tickers, chart, chart_bars);
        Run {
            log: b.log,
            out: match b.out {
                Some(last) => Some(
                    (
                        Candles { last, series: a.out.series, higher: Map::empty() },
                        a.out.error,
                        tally,
                    ),
                ),
                None => None,
            },
        }
    }
}

spec fn candles_view(r: Option<CandleMaps>, error: Option<String>, tally: Seq<SkipRow>) -> Option<
    (Candles, Option<Seq<char>>, Seq<SkipRow>),
> {
    match r {
        Some(c) => Some((c.candles(), opt_view(error), tally)),
        None => None,
    }
}

fn fetch_candles<C: SnapshotClient>(
    cfg: &Config,
    feed: &mut Feed<C>,
    state: &EngineState,
    prior: Option<&MarketSnapshot>,
    known: &[Position],
    now: i64,
    tickers: &[Ticker],
    chart: &str,
    chart_bars: &[Bar],
    error: &mut Option<String>,
    tally: &mut SkipTally,
    input: Ghost<FetchInput>,
) -> (r: Option<CandleMaps>)
    requires
        input@.cfg == cfg@,
        input@.st == state@,
        input@.prior == prior_view(prior),
        input@.known == known@,
        input@.now == now,
    ensures
        forall|w: World| #[trigger]
            explains(w, final(feed).log()) ==> explains(w, old(feed).log()) && candles_of(
                w,
                old(feed).log(),
                input@,
                tickers@,
                chart@,
                chart_bars@,
                opt_view(*old(error)),
                old(tally)@,
            ) == (Run {
                log: final(feed).log(),
                out: candles_view(r, *final(error), final(tally)@),
            }),
{
    if state.strategy_id == 4 {
        let due: bool = scan_is_due(state.last_scan_ts, now);
        let c: CandleMaps = collect_s4_history(
            cfg,
            feed,
            state,
            tickers,
            chart,
            chart_bars,
            known,
            due,
            tally,
        )?;
        return Some(keep_candles(c, prior, due));
    }
    let series: SymMap<Vec<Bar>> = if (state.strategy_id == 2 || state.strategy_id == 3)
        && known.len() == 0 {
        let names: Vec<String> = list_majors(tickers, state.skip_symbols.as_slice(), chart);
        let (interval, limit) = chart_spec(state.strategy_id, cfg.s4_interval);
        proof {
            assert(views(names@).len() == names@.len());
        }
        gather_majors(feed, error, names.as_slice(), chart, chart_bars, interval, limit)
    } else {
        let none: SymMap<Vec<Bar>> = SymMap::new();
        proof {
            assert(series_map(none@) =~= Map::<Seq<char>, Seq<Bar>>::empty());
        }
        none
    };
    let last: SymMap<Bar> = collect_last_bars(cfg, feed, state, tickers, chart, chart_bars)?;
    let higher: SymMap<Vec<Bar>> = SymMap::new();
    proof {
        assert(series_map(higher@) =~= Map::<Seq<char>, Seq<Bar>>::empty());
    }
    Some(CandleMaps { last, series, higher })
}

/// The candles of the chart, and what went wrong first.
pub open spec fn chart_run(
    w: World,
    log: Seq<Exchange>,
    cfg: ConfigView,
    st: EngineStateView,
    chart: Seq<char>,
    error: Option<Seq<char>>,
) -> Run<(Seq<Bar>, Option<Seq<char>>)> {
    if chart.len() == 0 {
        Run { log, out: (Seq::empty(), error) }
    } else {
        let a = klines_run(
            w,
            log,
            chart,
            chart_interval(st.strategy_id, cfg.s4_interval),
            chart_count(st.strategy_id),
        );
        Run {
            log: a.log,
            out: match a.out {
                Ok(v) => (v, error),
                Err(e) => (Seq::empty(), first_error(error, e)),
            },
        }
    }
}

fn fetch_chart<C: SnapshotClient>(
    cfg: &Config,
    feed: &mut Feed<C>,
    state: &EngineState,
    chart: &str,
    error: &mut Option<String>,
) -> (r: Vec<Bar>)
    ensures
        forall|w: World| #[trigger]
            explains(w, final(feed).log()) ==> explains(w, old(feed).log()) && chart_run(
                w,
                old(feed).log(),
                cfg@,
                state@,
                chart@,
                opt_view(*old(error)),
            ) == (Run { log: final(feed).log(), out: (r@, opt_view(*final(error))) }),
{
    let none: Vec<Bar> = Vec::new();
    proof {
        assert(none@ =~= Seq::<Bar>::empty());
    }
    if chart.is_empty() {
        return none;
    }
    let (interval, limit) = chart_spec(state.strategy_id, cfg.s4_interval);
    match closed_klines(feed, chart, interval, limit) {
        Ok(v) => v,
        Err(e) => {
            note_error(error, &e);
            none
        },
    }
}

/// A snapshot, once the market has been read.
pub open spec fn filled_run(w: World, log: Seq<Exchange>, i: FetchInput, tickers: Seq<Ticker>, tally: Seq<
    SkipRow,
>) -> Run<Option<(SnapView, Seq<SkipRow>)>> {
    match charted(i.cfg, i.st, tickers, i.known, tally) {
        None => Run { log, out: None },
        Some((chart, t1)) => {
            let a = if i.cfg.credentials is Some {
                book_run(w, log, i.st, i.prior, i.held, i.known, i.journal, i.baseline)
            } else {
                Run {
                    log,
                    out: Some(
                        BookPart {
                            account: blank_account(dec(0, 0)),
                            account_ok: false,
                            account_fresh: false,
                            live_book: false,
                            open_positions: Seq::empty(),
                            position: i.st.position,
                            error: None,
                        },
                    ),
                }
            };
            match a.out {
                None => Run { log: a.log, out: None },
                Some(part) => {
                    let b = chart_run(w, a.log, i.cfg, i.st, chart, part.error);
                    let (chart_bars, error) = b.out;
                    let c = candles_of(w, b.log, i, tickers, chart, chart_bars, error, t1);
                    Run {
                        log: c.log,
                        out: match c.out {
                            None => None,
                            Some((candles, last_error, t2)) => Some(
                                (
                                    SnapView {
                                        tickers,
                                        bars: chart_bars,
                                        account: part.account,
                                        position: part.position,
                                        chart_symbol: chart,
                                        fetched: last_error is None,
                                        last_error,
                                        live_book: part.live_book,
                                        open_positions: part.open_positions,
                                        account_ok: part.account_ok,
                                        account_fresh: part.account_fresh,
                                        last_bars: candles.last,
                                        universe_bars: candles.series,
                                        htf_bars: candles.higher,
                                    },
                                    t2,
                                ),
                            ),
                        },
                    }
                },
            }
        },
    }
}

/// A snapshot: what it asks and what it comes to.
pub open spec fn fetch_run(w: World, log: Seq<Exchange>, i: FetchInput, tally: Seq<SkipRow>) -> Run<
    Option<(SnapView, Seq<SkipRow>)>,
> {
    let a = ask(w, log, Call::Tickers);
    match crate::wire::tickers(a.out) {
        Err(e) => Run { log: a.log, out: Some((outage(i.st, i.prior, i.held, e), tally)) },
        Ok(rows) => filled_run(w, a.log, i, rows, tally),
    }
}

/// What a fetch starts from.
pub open spec fn fetch_input(
    cfg: ConfigView,
    st: EngineStateView,
    starting: Option<Dec>,
    prior: Option<SnapView>,
    fallback_account: Option<Account>,
    fallback_positions: Seq<Position>,
    overlay: Seq<Position>,
    journal: Seq<Position>,
    now: int,
) -> FetchInput {
    FetchInput {
        cfg,
        st,
        prior,
        held: held_from(prior, fallback_account, fallback_positions, st.position),
        known: remembered(st.position, open_longs(overlay) + st.positions),
        journal,
        baseline: first_of(starting, cfg.starting_equity),
        now,
    }
}

/// The snapshot and the tally, of a fetch whose numbers stayed in range.
pub open spec fn fetched_view(r: Option<MarketSnapshot>, tally: Seq<SkipRow>) -> Option<
    (SnapView, Seq<SkipRow>),
> {
    match r {
        Some(s) => Some((s@, tally)),
        None => None,
    }
}

/// Builds a snapshot. Offline, nothing is asked. The journal's open positions and
/// the instant come from the caller.
pub fn fetch_snapshot<C: SnapshotClient>(
    cfg: &Config,
    feed: &mut Feed<C>,
    state: &EngineState,
    offline: bool,
    starting_equity: Option<Dec>,
    prior: Option<&MarketSnapshot>,
    fallback_account: Option<&Account>,
    fallback_positions: &[Position],
    overlay_positions: &[Position],
    journal: &[Position],
    now: i64,
    tally: &mut SkipTally,
) -> (r: Option<MarketSnapshot>)
    ensures
        offline ==> r is Some && r->0@ == unfetched(cfg@, state@, true, starting_equity)
            && final(feed).log() == old(feed).log() && final(tally)@ == old(tally)@,
        !offline ==> forall|w: World| #[trigger]
            explains(w, final(feed).log()) ==> explains(w, old(feed).log()) && fetch_run(
                w,
                old(feed).log(),
                fetch_input(
                    cfg@,
                    state@,
                    starting_equity,
                    prior_view(prior),
                    opt_account(fallback_account),
                    fallback_positions@,
                    overlay_positions@,
                    journal@,
                    now as int,
                ),
                old(tally)@,
            ) == (Run { log: final(feed).log(), out: fetched_view(r, final(tally)@) }),
{
    if offline {
        return Some(unfetched_snapshot(cfg, state, true, starting_equity));
    }
    let baseline: Option<Dec> = if starting_equity.is_some() {
        starting_equity
    } else {
        cfg.starting_equity
    };
    let (held_account, held_positions, held_position) = held_book(
        prior,
        fallback_account,
        fallback_positions,
        &state.position,
    );
    let mut extra: Vec<Position> = open_long_rows(overlay_positions);
    crate::live::book::append_rows(&mut extra, state.positions.as_slice());
    let known: Vec<Position> = remembered_positions(state.position.as_ref(), extra.as_slice());
    let ghost input = fetch_input(
        cfg@,
        state@,
        starting_equity,
        prior_view(prior),
        opt_account(fallback_account),
        fallback_positions@,
        overlay_positions@,
        journal@,
        now as int,
    );
    proof {
        assert(input.known == known@);
    }
    let tickers: Vec<Ticker> = match feed.ticker_24h() {
        Ok(v) => v,
        Err(e) => return Some(
            show_outage(
                cfg,
                state,
                prior,
                held_account,
                held_positions,
                held_position,
                Ghost(input.held),
                &e,
            ),
        ),
    };
    let chart: String = pick_chart(cfg, state, tickers.as_slice(), known.as_slice(), tally)?;
    let part: BookDraft = if cfg.credentials.is_some() {
        fetch_part(
            feed,
            state,
            prior,
            held_account,
            &held_positions,
            &held_position,
            Ghost(input.held),
            known.as_slice(),
            journal,
            baseline,
        )?
    } else {
        let d = BookDraft {
            account: empty_account(None),
            account_ok: false,
            account_fresh: false,
            live_book: false,
            open_positions: Vec::new(),
            position: copy_slot(&state.position),
            error: None,
        };
        proof {
            assert(d.open_positions@ =~= Seq::<Position>::empty());
        }
        d
    };
    let mut error: Option<String> = part.error;
    let bars: Vec<Bar> = fetch_chart(cfg, feed, state, chart.as_str(), &mut error);
    let maps: CandleMaps = fetch_candles(
        cfg,
        feed,
        state,
        prior,
        known.as_slice(),
        now,
        tickers.as_slice(),
        chart.as_str(),
        bars.as_slice(),
        &mut error,
        tally,
        Ghost(input),
    )?;
    Some(
        MarketSnapshot {
            tickers,
            bars,
            account: part.account,
            position: part.position,
            chart_symbol: chart,
            fetched: error.is_none(),
            last_error: error,
            live_book: part.live_book,
            open_positions: part.open_positions,
            account_ok: part.account_ok,
            account_fresh: part.account_fresh,
            last_bars: maps.last,
            universe_bars: maps.series,
            htf_bars: maps.higher,
        },
    )
}

/// The pinned equity after a snapshot: the first fresh one of a live book stays.
pub open spec fn pinned(pin: Option<Dec>, s: SnapView) -> Option<Dec> {
    if s.live_book && s.account_fresh && pin is None {
        Some(s.account.starting_equity)
    } else {
        pin
    }
}

/// What pulling a snapshot comes to.
pub struct Pulled {
    pub snap: SnapView,
    pub state: EngineStateView,
    pub pin: Option<Dec>,
    pub tally: Seq<SkipRow>,
}

/// Pulls a snapshot: the names that are no coins are skipped first, and the
/// equity is pinned last.
pub open spec fn pull_run(
    w: World,
    log: Seq<Exchange>,
    cfg: ConfigView,
    st: EngineStateView,
    pin: Option<Dec>,
    prior: Option<SnapView>,
    journal: Seq<Position>,
    now: int,
    tally: Seq<SkipRow>,
) -> Run<Option<Pulled>> {
    let a = ask(w, log, Call::TradfiSymbols);
    let extra = match names(a.out) {
        Ok(v) => v,
        Err(_) => Seq::empty(),
    };
    let next = skips_merged(st, extra);
    let b = fetch_run(
        w,
        a.log,
        fetch_input(cfg, next, pin, prior, None, Seq::empty(), next.positions, journal, now),
        tally,
    );
    Run {
        log: b.log,
        out: match b.out {
            Some((snap, t)) => Some(
                Pulled { snap, state: next, pin: pinned(pin, snap), tally: t },
            ),
            None => None,
        },
    }
}

pub open spec fn pulled_view(
    r: Option<(MarketSnapshot, bool)>,
    state: EngineStateView,
    pin: Option<Dec>,
    tally: Seq<SkipRow>,
) -> Option<Pulled> {
    match r {
        Some((s, _)) => Some(Pulled { snap: s@, state, pin, tally }),
        None => None,
    }
}

/// Pulls a snapshot and keeps the first equity that the exchange showed. Says
/// last whether that equity is to be stored now.
pub fn pull_snapshot<C: SnapshotClient>(
    cfg: &Config,
    feed: &mut Feed<C>,
    state: &mut EngineState,
    pin: &mut EquityPin,
    offline: bool,
    prior: Option<&MarketSnapshot>,
    journal: &[Position],
    now: i64,
    tally: &mut SkipTally,
) -> (r: Option<(MarketSnapshot, bool)>)
    ensures
        offline ==> {
            &&& r is Some && (r->0).0@ == unfetched(cfg@, old(state)@, true, None) && !(r->0).1
            &&& final(feed).log() == old(feed).log()
            &&& final(state)@ == old(state)@ && *final(pin) == *old(pin) && final(tally)@ == old(
                tally,
            )@
        },
        !offline ==> forall|w: World| #[trigger]
            explains(w, final(feed).log()) ==> explains(w, old(feed).log()) && pull_run(
                w,
                old(feed).log(),
                cfg@,
                old(state)@,
                old(pin).value,
                prior_view(prior),
                journal@,
                now as int,
                old(tally)@,
            ) == (Run {
                log: final(feed).log(),
                out: pulled_view(r, final(state)@, final(pin).value, final(tally)@),
            }),
        r is Some ==> final(pin).persist == old(pin).persist && (r->0).1 == (old(pin).value is None
            && old(pin).persist && final(pin).value is Some),
{
    if offline {
        return Some((unfetched_snapshot(cfg, state, true, None), false));
    }
    let extra: Vec<String> = match feed.tradfi_symbols() {
        Ok(v) => v,
        Err(_) => {
            let none: Vec<String> = Vec::new();
            proof {
                assert(views(none@) =~= Seq::<Seq<char>>::empty());
            }
            none
        },
    };
    apply_tradfi_skip(state, extra.as_slice());
    let overlay: Vec<Position> = copy_positions(state.positions.as_slice());
    let none: Vec<Position> = Vec::new();
    proof {
        assert(none@ =~= Seq::<Position>::empty());
    }
    let snapshot: MarketSnapshot = fetch_snapshot(
        cfg,
        feed,
        state,
        false,
        pin.value,
        prior,
        None,
        none.as_slice(),
        overlay.as_slice(),
        journal,
        now,
        tally,
    )?;
    let mut store: bool = false;
    if snapshot.live_book && snapshot.account_fresh {
        let (_, now_stored) = pin.capture(snapshot.account.starting_equity);
        store = now_stored;
    }
    Some((snapshot, store))
}

} // verus!

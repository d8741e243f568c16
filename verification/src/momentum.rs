//! Strategy 1 (momentum rider): 24h-gain book, take profit and trail. Pure
//! decisions, no HTTP.
//!
//! An outer `None` says that a price left the decimal range.
pub mod laws;

use crate::config::{default_risk_pct, TradeInterval, DEFAULT_S4_MAX_POSITIONS, STRATEGY1_POLL_SECONDS};
use crate::dayrisk::{default_daily_loss_r, default_daily_loss_usdt};
use crate::dec::{dec, decimal_text, Dec};
use crate::models::{
    bar_is_red, decision_views, is_red, near_24h_high, near_high, Bar, Decision, DecisionView, Position,
    Side, Ticker,
};
use crate::ranking::{
    find_priced, momentum_book, momentum_min_change_percent, pick_momentum_book, priced_row, Eligibility,
};
use crate::sessions::{
    default_entry_windows, default_windows, entry_open, in_entry_window, outside_hours_note,
    outside_note, HourWindow,
};
use crate::symbols::{lookup, SymMap};
use crate::text::{has_key, holds_key, int_text, own, print_i64, same, upper, views};
use crate::trail::{
    candidate_stop, long_stop_is_valid, stop_behind, take_profit_net, take_profit_price_net,
    trail_stop_upward, trailed, valid_long_stop, PriceView, TrailError,
};
use vstd::prelude::*;
use vstd::string::StringExecFns;

verus! {

/// Tick knobs. Continuation fields stand here too, so that a tick takes one
/// options object.
#[derive(Debug)]
pub struct MomentumParams {
    pub poll_seconds: i32,
    pub tp_pct: Dec,
    pub trail_pct: Dec,
    pub min_quote_volume: Dec,
    pub entry_windows: Vec<HourWindow>,
    pub always_enter: bool,
    pub s4_entry_windows: Vec<HourWindow>,
    pub s4_always_enter: bool,
    pub s4_interval: TradeInterval,
    pub s4_max_positions: i32,
    pub s5_max_positions: i32,
    pub min_change_percent: Dec,
    pub max_change_percent: Option<Dec>,
    pub min_price: Dec,
    pub cooldown_ms: i64,
    pub max_positions: i32,
    pub daily_loss_usdt: Dec,
    pub daily_loss_r: Dec,
    pub risk_pct: Dec,
}

/// The knobs with their lists as sequences.
pub struct MomentumView {
    pub poll_seconds: i32,
    pub tp_pct: Dec,
    pub trail_pct: Dec,
    pub min_quote_volume: Dec,
    pub entry_windows: Seq<HourWindow>,
    pub always_enter: bool,
    pub s4_entry_windows: Seq<HourWindow>,
    pub s4_always_enter: bool,
    pub s4_interval: TradeInterval,
    pub s4_max_positions: i32,
    pub s5_max_positions: i32,
    pub min_change_percent: Dec,
    pub max_change_percent: Option<Dec>,
    pub min_price: Dec,
    pub cooldown_ms: i64,
    pub max_positions: i32,
    pub daily_loss_usdt: Dec,
    pub daily_loss_r: Dec,
    pub risk_pct: Dec,
}

impl View for MomentumParams {
    type V = MomentumView;

    open spec fn view(&self) -> MomentumView {
        MomentumView {
            poll_seconds: self.poll_seconds,
            tp_pct: self.tp_pct,
            trail_pct: self.trail_pct,
            min_quote_volume: self.min_quote_volume,
            entry_windows: self.entry_windows@,
            always_enter: self.always_enter,
            s4_entry_windows: self.s4_entry_windows@,
            s4_always_enter: self.s4_always_enter,
            s4_interval: self.s4_interval,
            s4_max_positions: self.s4_max_positions,
            s5_max_positions: self.s5_max_positions,
            min_change_percent: self.min_change_percent,
            max_change_percent: self.max_change_percent,
            min_price: self.min_price,
            cooldown_ms: self.cooldown_ms,
            max_positions: self.max_positions,
            daily_loss_usdt: self.daily_loss_usdt,
            daily_loss_r: self.daily_loss_r,
            risk_pct: self.risk_pct,
        }
    }
}

/// The knobs without settings.
pub open spec fn default_momentum() -> MomentumView {
    MomentumView {
        poll_seconds: 60,
        tp_pct: dec(25, 3),
        trail_pct: dec(20, 3),
        min_quote_volume: dec(50_000, 0),
        entry_windows: default_windows(),
        always_enter: false,
        s4_entry_windows: default_windows(),
        s4_always_enter: false,
        s4_interval: TradeInterval::Minute5,
        s4_max_positions: 5,
        s5_max_positions: 5,
        min_change_percent: dec(4, 1),
        max_change_percent: Some(dec(12, 0)),
        min_price: dec(0, 0),
        cooldown_ms: 1_800_000,
        max_positions: 1,
        daily_loss_usdt: dec(20, 0),
        daily_loss_r: dec(3, 0),
        risk_pct: dec(25, 4),
    }
}

impl Default for MomentumParams {
    fn default() -> (r: Self)
        ensures
            r@ == default_momentum(),
    {
        MomentumParams {
            poll_seconds: STRATEGY1_POLL_SECONDS,
            tp_pct: Dec::new(25, 3),
            trail_pct: Dec::new(20, 3),
            min_quote_volume: Dec::from_int(50_000),
            entry_windows: default_entry_windows(),
            always_enter: false,
            s4_entry_windows: default_entry_windows(),
            s4_always_enter: false,
            s4_interval: TradeInterval::Minute5,
            s4_max_positions: DEFAULT_S4_MAX_POSITIONS,
            s5_max_positions: DEFAULT_S4_MAX_POSITIONS,
            min_change_percent: momentum_min_change_percent(),
            max_change_percent: Some(Dec::from_int(12)),
            min_price: Dec::zero(),
            cooldown_ms: 1_800_000,
            max_positions: 1,
            daily_loss_usdt: default_daily_loss_usdt(),
            daily_loss_r: default_daily_loss_r(),
            risk_pct: default_risk_pct(),
        }
    }
}

/// The given knobs, else the defaults.
pub open spec fn knobs(p: Option<&MomentumParams>) -> MomentumView {
    match p {
        Some(m) => m@,
        None => default_momentum(),
    }
}

/// The price a position is marked at: a positive close, else the tape.
pub open spec fn mark_of(
    symbol: Seq<char>,
    tickers: Seq<Ticker>,
    bars_close: Option<Dec>,
) -> Option<Dec> {
    match bars_close {
        Some(c) => if c.pos() {
            Some(c)
        } else {
            tape_mark(symbol, tickers)
        },
        None => tape_mark(symbol, tickers),
    }
}

/// The last positive price of a symbol on the tape.
pub open spec fn tape_mark(symbol: Seq<char>, tickers: Seq<Ticker>) -> Option<Dec> {
    match priced_row(tickers, symbol) {
        Some(t) => Some(t.last_price),
        None => None,
    }
}

pub fn mark_for(symbol: &str, tickers: &[Ticker], bars_close: Option<Dec>) -> (r: Option<Dec>)
    ensures
        r == mark_of(symbol@, tickers@, bars_close),
{
    if let Some(c) = bars_close {
        if c.is_pos() {
            return Some(c);
        }
    }
    match find_priced(tickers, symbol) {
        Some(t) => Some(t.last_price),
        None => None,
    }
}

pub open spec fn hold_view(reason: Seq<char>) -> DecisionView {
    DecisionView::Hold { reason }
}

pub open spec fn exit_view(reason: Seq<char>, symbol: Seq<char>) -> DecisionView {
    DecisionView::ExitPosition { reason, symbol }
}

pub open spec fn amend_view(stop_loss: Dec, reason: Seq<char>, symbol: Seq<char>) -> DecisionView {
    DecisionView::AmendStop { stop_loss, reason, symbol }
}

/// An exit.
pub fn exit(reason: &str, symbol: &str) -> (r: Decision)
    ensures
        r@ == exit_view(reason@, symbol@),
{
    Decision::ExitPosition { reason: own(reason), symbol: own(symbol) }
}

/// A new stop.
pub fn amend(stop_loss: Dec, reason: &str, symbol: &str) -> (r: Decision)
    ensures
        r@ == amend_view(stop_loss, reason@, symbol@),
{
    Decision::AmendStop { stop_loss, reason: own(reason), symbol: own(symbol) }
}

pub open spec fn opt_decision(d: Option<Decision>) -> Option<DecisionView> {
    match d {
        Some(x) => Some(x@),
        None => None,
    }
}

/// Whether a list of rows names a symbol.
pub open spec fn names(v: Seq<Ticker>, symbol: Seq<char>) -> bool {
    exists|i: int| 0 <= i < v.len() && (#[trigger] v[i]).symbol@ == symbol
}

fn row_named(v: &[Ticker], symbol: &str) -> (r: bool)
    ensures
        r == names(v@, symbol@),
{
    let mut i: usize = 0;
    while i < v.len()
        invariant
            i <= v@.len(),
            forall|j: int| 0 <= j < i ==> (#[trigger] v@[j]).symbol@ != symbol@,
        decreases v@.len() - i,
    {
        if same(v[i].symbol.as_str(), symbol) {
            return true;
        }
        i = i + 1;
    }
    false
}

pub open spec fn bar_of(m: Map<Seq<char>, Bar>, symbol: Seq<char>) -> Option<Bar> {
    if m.contains_key(symbol) {
        Some(m[symbol])
    } else {
        None
    }
}

/// The bar of a symbol.
pub fn get_bar(m: &SymMap<Bar>, symbol: &str) -> (r: Option<Bar>)
    ensures
        r == bar_of(m@, symbol@),
{
    match m.get(symbol) {
        Some(b) => Some(*b),
        None => None,
    }
}

/// What momentum does about a held position.
pub open spec fn manage_view(
    pos: Position,
    tickers: Seq<Ticker>,
    last_bars: Map<Seq<char>, Bar>,
    book: Seq<Ticker>,
    p: MomentumView,
) -> Option<DecisionView> {
    let sym = pos.symbol@;
    if pos.side != Side::Long {
        Some(hold_view("momentum is buy-only; short not managed"@))
    } else {
        match tape_mark(sym, tickers) {
            None => Some(hold_view("no mark for open position"@)),
            Some(mark) => if pos.take_profit is Some && pos.take_profit->0.le(mark) {
                Some(exit_view("momentum take profit"@, sym))
            } else if book.len() > 0 && !names(book, sym) {
                Some(exit_view("выпал из топа — закрываю до стопа"@, sym))
            } else if is_red(bar_of(last_bars, sym)) {
                Some(exit_view("5м разворот — закрываю до стопа"@, sym))
            } else {
                match pos.stop_loss {
                    None => match stop_behind(mark, "LONG"@, p.trail_pct) {
                        PriceView::Price(cand) => if !valid_long_stop(cand, mark) {
                            Some(hold_view("cannot attach stop"@))
                        } else {
                            Some(amend_view(cand, "attach stop"@, sym))
                        },
                        PriceView::Overflow => None,
                        _ => Some(hold_view("cannot attach stop"@)),
                    },
                    Some(sl) => if mark.le(sl) {
                        Some(exit_view("momentum stop loss"@, sym))
                    } else {
                        match stop_behind(mark, "LONG"@, p.trail_pct) {
                            PriceView::Price(cand) => match trailed(Some(sl), cand, "LONG"@) {
                                PriceView::Price(new_sl) => if sl.lt(new_sl) && valid_long_stop(
                                    new_sl,
                                    mark,
                                ) {
                                    Some(amend_view(new_sl, "trail stop вверх"@, sym))
                                } else {
                                    Some(hold_view("momentum hold / trail not raised"@))
                                },
                                PriceView::Overflow => None,
                                _ => Some(hold_view("momentum hold / trail not raised"@)),
                            },
                            PriceView::Overflow => None,
                            _ => Some(hold_view("momentum hold / trail not raised"@)),
                        }
                    },
                }
            },
        }
    }
}

fn manage_momentum_long(
    pos: &Position,
    tickers: &[Ticker],
    last_bars: &SymMap<Bar>,
    book: &[Ticker],
    p: &MomentumParams,
) -> (r: Option<Decision>)
    ensures
        opt_decision(r) == manage_view(*pos, tickers@, last_bars@, book@, p@),
{
    let sym: &str = pos.symbol.as_str();
    if pos.side != Side::Long {
        return Some(Decision::hold("momentum is buy-only; short not managed"));
    }
    let mark: Dec = match mark_for(sym, tickers, None) {
        Some(m) => m,
        None => return Some(Decision::hold("no mark for open position")),
    };
    if let Some(tp) = pos.take_profit {
        if mark >= tp {
            return Some(exit("momentum take profit", sym));
        }
    }
    if book.len() > 0 && !row_named(book, sym) {
        return Some(exit("выпал из топа — закрываю до стопа", sym));
    }
    if bar_is_red(get_bar(last_bars, sym)) {
        return Some(exit("5м разворот — закрываю до стопа", sym));
    }
    match pos.stop_loss {
        None => match candidate_stop(mark, "LONG", p.trail_pct) {
            Ok(cand) => if !long_stop_is_valid(cand, mark) {
                Some(Decision::hold("cannot attach stop"))
            } else {
                Some(amend(cand, "attach stop", sym))
            },
            Err(TrailError::Overflow) => None,
            Err(_) => Some(Decision::hold("cannot attach stop")),
        },
        Some(sl) => {
            if mark <= sl {
                return Some(exit("momentum stop loss", sym));
            }
            match candidate_stop(mark, "LONG", p.trail_pct) {
                Ok(cand) => match trail_stop_upward(Some(sl), cand, "LONG") {
                    Ok(new_sl) => if new_sl > sl && long_stop_is_valid(new_sl, mark) {
                        Some(amend(new_sl, "trail stop вверх", sym))
                    } else {
                        Some(Decision::hold("momentum hold / trail not raised"))
                    },
                    Err(TrailError::Overflow) => None,
                    Err(_) => Some(Decision::hold("momentum hold / trail not raised")),
                },
                Err(TrailError::Overflow) => None,
                Err(_) => Some(Decision::hold("momentum hold / trail not raised")),
            }
        },
    }
}

/// A managed momentum stop only rises: an amended stop is above the one before
/// it and below the mark.
pub proof fn law_momentum_stop_only_rises(
    pos: Position,
    tickers: Seq<Ticker>,
    last_bars: Map<Seq<char>, Bar>,
    book: Seq<Ticker>,
    p: MomentumView,
)
    ensures
        manage_view(pos, tickers, last_bars, book, p) matches Some(
            DecisionView::AmendStop { stop_loss, .. },
        ) ==> (pos.stop_loss matches Some(sl) ==> sl.lt(stop_loss)) && (tape_mark(
            pos.symbol@,
            tickers,
        ) matches Some(mark) && stop_loss.lt(mark)),
{
}

/// The note on a row that is bought.
pub open spec fn rank_note(t: Ticker, p: MomentumView) -> Seq<char> {
    if p.max_positions > 1 {
        "top "@ + int_text(p.max_positions as int) + " rising "@ + decimal_text(
            t.price_change_percent,
        ) + "%"@
    } else {
        "most rising "@ + decimal_text(t.price_change_percent) + "%"@
    }
}

/// The entry that a row gives.
pub open spec fn entry_view(t: Ticker, p: MomentumView) -> Option<DecisionView> {
    match take_profit_net(t.last_price, "LONG"@, p.tp_pct) {
        PriceView::Price(tp) => match stop_behind(t.last_price, "LONG"@, p.trail_pct) {
            PriceView::Price(sl) => if !valid_long_stop(sl, t.last_price) {
                Some(hold_view("computed stop invalid"@))
            } else {
                Some(
                    DecisionView::EnterLong {
                        symbol: t.symbol@,
                        reason: rank_note(t, p),
                        take_profit: tp,
                        stop_loss: sl,
                    },
                )
            },
            PriceView::Overflow => None,
            _ => Some(hold_view("computed stop invalid"@)),
        },
        PriceView::Overflow => None,
        _ => Some(hold_view("computed stop invalid"@)),
    }
}

fn enter_from_ticker(t: &Ticker, p: &MomentumParams) -> (r: Option<Decision>)
    ensures
        opt_decision(r) == entry_view(*t, p@),
{
    let tp: Dec = match take_profit_price_net(t.last_price, "LONG", p.tp_pct) {
        Ok(v) => v,
        Err(TrailError::Overflow) => return None,
        Err(_) => return Some(Decision::hold("computed stop invalid")),
    };
    let sl: Dec = match candidate_stop(t.last_price, "LONG", p.trail_pct) {
        Ok(v) => v,
        Err(TrailError::Overflow) => return None,
        Err(_) => return Some(Decision::hold("computed stop invalid")),
    };
    if !long_stop_is_valid(sl, t.last_price) {
        return Some(Decision::hold("computed stop invalid"));
    }
    let mut note = String::new();
    if p.max_positions > 1 {
        note = own("top ");
        note.append(print_i64(p.max_positions as i64).as_str());
        note.append(" rising ");
    } else {
        note = own("most rising ");
    }
    note.append(t.price_change_percent.text().as_str());
    note.append("%");
    Some(
        Decision::EnterLong {
            symbol: own(t.symbol.as_str()),
            reason: note,
            take_profit: tp,
            stop_loss: sl,
        },
    )
}

/// The actions on the first `n` positions, holds left out.
pub open spec fn managed_views(
    positions: Seq<Position>,
    n: int,
    tickers: Seq<Ticker>,
    last_bars: Map<Seq<char>, Bar>,
    book: Seq<Ticker>,
    p: MomentumView,
) -> Option<Seq<DecisionView>>
    decreases n,
{
    if n <= 0 {
        Some(Seq::empty())
    } else {
        match managed_views(positions, n - 1, tickers, last_bars, book, p) {
            None => None,
            Some(rest) => if !positions[n - 1].qty.pos() {
                Some(rest)
            } else {
                match manage_view(positions[n - 1], tickers, last_bars, book, p) {
                    None => None,
                    Some(d) => if d is Hold {
                        Some(rest)
                    } else {
                        Some(rest.push(d))
                    },
                }
            },
        }
    }
}

/// The upper-case symbols of the held rows, each once, in order of appearance.
pub open spec fn held_keys(positions: Seq<Position>) -> Seq<Seq<char>>
    decreases positions.len(),
{
    if positions.len() == 0 {
        Seq::empty()
    } else {
        let rest = held_keys(positions.drop_last());
        let k = upper(positions.last().symbol@);
        if positions.last().qty.pos() && !rest.contains(k) {
            rest.push(k)
        } else {
            rest
        }
    }
}

/// The upper-case symbols of the held rows, each once.
pub fn held_symbols(positions: &[Position]) -> (r: Vec<String>)
    ensures
        views(r@) == held_keys(positions@),
{
    let mut out: Vec<String> = Vec::new();
    let mut i: usize = 0;
    while i < positions.len()
        invariant
            i <= positions@.len(),
            views(out@) == held_keys(positions@.take(i as int)),
        decreases positions@.len() - i,
    {
        proof {
            assert(positions@.take(i as int + 1).drop_last() =~= positions@.take(i as int));
        }
        if positions[i].qty.is_pos() {
            let k = positions[i].symbol.as_str().to_ascii_uppercase();
            if !crate::text::listed(out.as_slice(), k.as_str()) {
                let ghost before = views(out@);
                let ghost kv = k@;
                out.push(k);
                proof {
                    assert(views(out@) =~= before.push(kv));
                }
            }
        }
        i = i + 1;
    }
    proof {
        assert(positions@.take(i as int) =~= positions@);
    }
    out
}

/// How many of the first `n` in-flight symbols are not held.
pub open spec fn pending_count(inflight: Seq<Seq<char>>, held: Seq<Seq<char>>, n: int) -> int
    decreases n,
{
    if n <= 0 {
        0
    } else {
        pending_count(inflight, held, n - 1) + (if held.contains(upper(inflight[n - 1])) {
            0int
        } else {
            1
        })
    }
}

/// Counts the in-flight symbols that are not held.
pub fn count_pending(inflight: &[String], held: &[String]) -> (r: usize)
    ensures
        r == pending_count(views(inflight@), views(held@), inflight@.len() as int),
        r <= inflight@.len(),
{
    let mut n: usize = 0;
    let mut i: usize = 0;
    while i < inflight.len()
        invariant
            i <= inflight@.len(),
            n <= i,
            n == pending_count(views(inflight@), views(held@), i as int),
        decreases inflight@.len() - i,
    {
        let k = inflight[i].as_str().to_ascii_uppercase();
        if !crate::text::listed(held, k.as_str()) {
            n = n + 1;
        }
        i = i + 1;
    }
    n
}

/// Whether some cooldown of a symbol, whatever its case, still runs.
pub open spec fn is_cooling(cooldowns: Map<Seq<char>, i64>, key: Seq<char>, now: int) -> bool {
    exists|k: Seq<char>|
        #[trigger] cooldowns.contains_key(k) && upper(k) == key && now < cooldowns[k]
}

proof fn lemma_key_listed<V>(e: Seq<(String, V)>, k: Seq<char>) -> (i: int)
    requires
        lookup(e, k) is Some,
    ensures
        0 <= i < e.len(),
        e[i].0@ == k,
    decreases e.len(),
{
    if e[0].0@ == k {
        0
    } else {
        let i = lemma_key_listed(e.drop_first(), k);
        i + 1
    }
}

/// Whether a symbol is cooling.
pub fn symbol_cooling(cooldowns: &SymMap<i64>, key: &str, now: i64) -> (r: bool)
    ensures
        r == is_cooling(cooldowns@, key@, now as int),
{
    let n: usize = cooldowns.len();
    let mut i: usize = 0;
    while i < n
        invariant
            n == cooldowns.list().len(),
            i <= n,
            forall|j: int|
                0 <= j < i ==> {
                    let k = (#[trigger] cooldowns.list()[j]).0@;
                    !(cooldowns@.contains_key(k) && upper(k) == key@ && now < cooldowns@[k])
                },
        decreases n - i,
    {
        let k: &str = cooldowns.key_at(i);
        let up = k.to_ascii_uppercase();
        if same(up.as_str(), key) {
            if let Some(until) = cooldowns.get(k) {
                if now < *until {
                    return true;
                }
            }
        }
        i = i + 1;
    }
    proof {
        assert forall|k: Seq<char>| #[trigger] cooldowns@.contains_key(k) implies !(upper(k) == key@
            && now < cooldowns@[k]) by {
            cooldowns.lemma_view(k);
            let j = lemma_key_listed(cooldowns.list(), k);
            assert(cooldowns.list()[j].0@ == k);
        }
    }
    false
}

/// Why a symbol is not entered: held, in flight, or cooling.
pub open spec fn is_blocked(
    key: Seq<char>,
    held: Seq<Seq<char>>,
    inflight: Seq<Seq<char>>,
    cooldowns: Map<Seq<char>, i64>,
    now: int,
) -> bool {
    ||| held.contains(key)
    ||| has_key(inflight, key)
    ||| is_cooling(cooldowns, key, now)
}

/// Whether a symbol is held, in flight, or cooling.
pub fn symbol_blocked(
    key: &str,
    held: &[String],
    inflight: &[String],
    cooldowns: &SymMap<i64>,
    now: i64,
) -> (r: bool)
    ensures
        r == is_blocked(key@, views(held@), views(inflight@), cooldowns@, now as int),
{
    if crate::text::listed(held, key) {
        return true;
    }
    if holds_key(inflight, key) {
        return true;
    }
    symbol_cooling(cooldowns, key, now)
}

/// What looking at a row of the book comes to.
pub enum RowVerdict {
    Enter(DecisionView),
    Pass,
    NoBar,
    Red,
    Overflow,
}

/// Everything that decides about a row besides the row.
pub struct RowContext {
    pub held: Seq<Seq<char>>,
    pub inflight: Seq<Seq<char>>,
    pub cooldowns: Map<Seq<char>, i64>,
    pub last_bars: Map<Seq<char>, Bar>,
    pub now: int,
    pub p: MomentumView,
}

/// The verdict on a row.
pub open spec fn row_verdict(t: Ticker, c: RowContext) -> RowVerdict {
    if is_blocked(upper(t.symbol@), c.held, c.inflight, c.cooldowns, c.now) {
        RowVerdict::Pass
    } else {
        match near_high(t, dec(2, 2)) {
            None => RowVerdict::Overflow,
            Some(true) => RowVerdict::Pass,
            Some(false) => if c.last_bars.dom().len() > 0 && bar_of(c.last_bars, t.symbol@) is None {
                RowVerdict::NoBar
            } else if is_red(bar_of(c.last_bars, t.symbol@)) {
                RowVerdict::Red
            } else {
                match entry_view(t, c.p) {
                    None => RowVerdict::Overflow,
                    Some(d) => if d is EnterLong {
                        RowVerdict::Enter(d)
                    } else {
                        RowVerdict::Pass
                    },
                }
            },
        }
    }
}

/// What the scan of a book comes to.
pub struct ScanView {
    pub entered: Option<DecisionView>,
    pub red: bool,
    pub no_bar: bool,
}

/// The scan of the rows from `i` on: it stops at the first entry.
pub open spec fn scan_from(book: Seq<Ticker>, i: int, c: RowContext) -> Option<ScanView>
    decreases book.len() - i,
{
    if i < 0 || i >= book.len() {
        Some(ScanView { entered: None, red: false, no_bar: false })
    } else {
        match row_verdict(book[i], c) {
            RowVerdict::Overflow => None,
            RowVerdict::Enter(d) => Some(ScanView { entered: Some(d), red: false, no_bar: false }),
            v => match scan_from(book, i + 1, c) {
                None => None,
                Some(s) => Some(
                    ScanView {
                        entered: s.entered,
                        red: s.red || v is Red,
                        no_bar: s.no_bar || v is NoBar,
                    },
                ),
            },
        }
    }
}

pub open spec fn any_losing(positions: Seq<Position>) -> bool {
    exists|i: int|
        0 <= i < positions.len() && (#[trigger] positions[i]).qty.pos()
            && positions[i].unrealized_pnl.units() < 0
}

/// Whether some held row is in the red.
pub fn has_losing(positions: &[Position]) -> (r: bool)
    ensures
        r == any_losing(positions@),
{
    let mut i: usize = 0;
    while i < positions.len()
        invariant
            i <= positions@.len(),
            forall|j: int|
                0 <= j < i ==> !((#[trigger] positions@[j]).qty.pos()
                    && positions@[j].unrealized_pnl.units() < 0),
        decreases positions@.len() - i,
    {
        if positions[i].qty.is_pos() && positions[i].unrealized_pnl.is_neg() {
            return true;
        }
        i = i + 1;
    }
    false
}

/// What momentum sees.
pub struct MomentumInput {
    pub tickers: Seq<Ticker>,
    pub positions: Seq<Position>,
    pub now: int,
    pub last_scan_ts: int,
    pub inflight: Seq<Seq<char>>,
    pub cooldowns: Map<Seq<char>, i64>,
    pub exclude: Seq<Seq<char>>,
    pub last_bars: Map<Seq<char>, Bar>,
    pub allow_enter: bool,
    pub desk_until: int,
}

pub open spec fn at_least_1(n: int) -> int {
    if n < 1 {
        1
    } else {
        n
    }
}

/// What the book asks of a row.
pub open spec fn book_rules(p: MomentumView) -> Eligibility {
    Eligibility {
        min_quote_volume: p.min_quote_volume,
        min_price: p.min_price,
        min_change_percent: Some(p.min_change_percent),
        max_change_percent: p.max_change_percent,
    }
}

/// Whether a scan is due.
pub open spec fn scan_is_due(now: int, last: int, poll_ms: int) -> bool {
    last <= 0 || now - last >= poll_ms
}

/// The decisions in the phase after the scan.
pub open spec fn after_scan(
    i: MomentumInput,
    p: MomentumView,
    book: Seq<Ticker>,
    acted: Seq<DecisionView>,
) -> Option<(Seq<DecisionView>, int)> {
    let held = held_keys(i.positions);
    let losing = any_losing(i.positions);
    let slots = p.max_positions - held.len() - pending_count(
        i.inflight,
        held,
        i.inflight.len() as int,
    );
    let c = RowContext {
        held,
        inflight: i.inflight,
        cooldowns: i.cooldowns,
        last_bars: i.last_bars,
        now: i.now,
        p,
    };
    let scan = if losing || slots <= 0 {
        Some(ScanView { entered: None, red: false, no_bar: false })
    } else {
        scan_from(book, 0, c)
    };
    match scan {
        None => None,
        Some(s) => {
            let out = match s.entered {
                Some(d) => acted.push(d),
                None => acted,
            };
            if out.len() > 0 {
                Some((out, i.now))
            } else if s.red && held.len() == 0 {
                Some((seq![hold_view("5м красная — не вхожу"@)], i.now))
            } else if s.no_bar && held.len() == 0 {
                Some((seq![hold_view("нет 5м бара — не вхожу"@)], i.now))
            } else if losing {
                Some((seq![hold_view("слот в минусе — новый не открываю"@)], i.now))
            } else if book.len() == 0 {
                Some((seq![hold_view("no eligible rising symbol"@)], i.now))
            } else if held.len() >= p.max_positions {
                Some((seq![hold_view("momentum book full"@)], i.now))
            } else {
                Some((seq![hold_view("top rising already held or cooling"@)], i.now))
            }
        },
    }
}

/// The actions, or one hold where there are none.
pub open spec fn acts_or_hold(acted: Seq<DecisionView>, reason: Seq<char>) -> Seq<DecisionView> {
    if acted.len() > 0 {
        acted
    } else {
        seq![hold_view(reason)]
    }
}

/// The decisions of a tick of momentum, and when it last scanned.
pub open spec fn momentum_result(i: MomentumInput, p: MomentumView) -> Option<
    (Seq<DecisionView>, int),
> {
    let book = momentum_book(
        i.tickers,
        at_least_1(p.max_positions as int),
        book_rules(p),
        i.exclude,
        true,
    );
    if p.poll_seconds != 60 && p.poll_seconds != 120 {
        Some((seq![hold_view("poll_seconds must be 60 or 120"@)], i.now))
    } else if book is None {
        None
    } else {
        match managed_views(
            i.positions,
            i.positions.len() as int,
            i.tickers,
            i.last_bars,
            book->0,
            p,
        ) {
            None => None,
            Some(acted) => if !i.allow_enter {
                Some(
                    (
                        acts_or_hold(acted, "стоп дня. Новых входов нет до 00:00 UTC."@),
                        i.last_scan_ts,
                    ),
                )
            } else if !entry_open(i.now, Some(p.entry_windows), p.always_enter) {
                Some((acts_or_hold(acted, outside_note(i.now, p.entry_windows)), i.last_scan_ts))
            } else if i.now < i.desk_until {
                Some(
                    (acts_or_hold(acted, "пауза после стопа — слот не заполняю"@), i.last_scan_ts),
                )
            } else if !scan_is_due(i.now, i.last_scan_ts, p.poll_seconds * 1000) {
                Some((acts_or_hold(acted, "waiting for next scan"@), i.last_scan_ts))
            } else {
                after_scan(i, p, book->0, acted)
            },
        }
    }
}

/// The actions, or one hold where there are none.
pub fn hold_list(acted: Vec<Decision>, reason: &str) -> (r: Vec<Decision>)
    ensures
        decision_views(r@) == acts_or_hold(decision_views(acted@), reason@),
{
    if acted.len() > 0 {
        acted
    } else {
        one_hold(reason)
    }
}

/// A single hold.
pub fn one_hold(reason: &str) -> (r: Vec<Decision>)
    ensures
        decision_views(r@) == seq![hold_view(reason@)],
{
    let mut out: Vec<Decision> = Vec::new();
    out.push(Decision::hold(reason));
    proof {
        assert(decision_views(out@) =~= seq![hold_view(reason@)]);
    }
    out
}

fn manage_all(
    positions: &[Position],
    tickers: &[Ticker],
    last_bars: &SymMap<Bar>,
    book: &[Ticker],
    p: &MomentumParams,
) -> (r: Option<Vec<Decision>>)
    ensures
        opt_decisions(r) == managed_views(
            positions@,
            positions@.len() as int,
            tickers@,
            last_bars@,
            book@,
            p@,
        ),
{
    let mut out: Vec<Decision> = Vec::new();
    let mut i: usize = 0;
    proof {
        assert(decision_views(out@) =~= Seq::<DecisionView>::empty());
    }
    while i < positions.len()
        invariant
            i <= positions@.len(),
            managed_views(positions@, i as int, tickers@, last_bars@, book@, p@) == Some(
                decision_views(out@),
            ),
        decreases positions@.len() - i,
    {
        let ghost before = decision_views(out@);
        if positions[i].qty.is_pos() {
            match manage_momentum_long(&positions[i], tickers, last_bars, book, p) {
                Some(d) => {
                    if !d.is_hold() {
                        let ghost dv = d@;
                        out.push(d);
                        proof {
                            assert(decision_views(out@) =~= before.push(dv));
                        }
                    }
                },
                None => {
                    proof {
                        lemma_managed_none(
                            positions@,
                            i as int + 1,
                            positions@.len() as int,
                            tickers@,
                            last_bars@,
                            book@,
                            p@,
                        );
                    }
                    return None;
                },
            }
        }
        i = i + 1;
    }
    Some(out)
}

pub open spec fn opt_decisions(r: Option<Vec<Decision>>) -> Option<Seq<DecisionView>> {
    match r {
        Some(v) => Some(decision_views(v@)),
        None => None,
    }
}

proof fn lemma_managed_none(
    positions: Seq<Position>,
    n: int,
    m: int,
    tickers: Seq<Ticker>,
    last_bars: Map<Seq<char>, Bar>,
    book: Seq<Ticker>,
    p: MomentumView,
)
    requires
        0 <= n <= m,
        managed_views(positions, n, tickers, last_bars, book, p) is None,
    ensures
        managed_views(positions, m, tickers, last_bars, book, p) is None,
    decreases m - n,
{
    if n < m {
        lemma_managed_none(positions, n, m - 1, tickers, last_bars, book, p);
    }
}

/// An empty map has no entries and the other way round.
proof fn lemma_map_empty(m: &SymMap<Bar>)
    ensures
        m.list().len() == 0 ==> m@.dom().len() == 0,
        m.list().len() > 0 ==> m@.dom().len() > 0,
{
    if m.list().len() == 0 {
        assert forall|k: Seq<char>| !m@.contains_key(k) by {
            m.lemma_view(k);
        }
        assert(m@.dom() =~= Set::<Seq<char>>::empty());
    } else {
        let k = m.list()[0].0@;
        m.lemma_view(k);
        assert(m@.contains_key(k));
        m.lemma_finite();
        if m@.dom().len() == 0 {
            m@.dom().lemma_len0_is_empty();
        }
    }
}

/// Why momentum would not buy a row now; the inner `None` says that it would.
pub open spec fn row_gate(t: Ticker, last_bars: Map<Seq<char>, Bar>, in_book: bool) -> Option<
    Option<Seq<char>>,
> {
    if !in_book {
        Some(Some("no eligible rising symbol"@))
    } else {
        match near_high(t, dec(2, 2)) {
            None => None,
            Some(true) => Some(Some("у 24h high — не догоняю"@)),
            Some(false) => if last_bars.dom().len() > 0 && bar_of(last_bars, t.symbol@) is None {
                Some(Some("нет 5м бара — не вхожу"@))
            } else if is_red(bar_of(last_bars, t.symbol@)) {
                Some(Some("5м красная — не вхожу"@))
            } else {
                Some(None)
            },
        }
    }
}

/// Why momentum would not buy a row now.
pub fn s1_setup_skip(ticker: &Ticker, last_bars: &SymMap<Bar>, in_book: bool) -> (r: Option<
    Option<&'static str>,
>)
    ensures
        match (r, row_gate(*ticker, last_bars@, in_book)) {
            (Some(Some(t)), Some(Some(u))) => t@ == u,
            (Some(None), Some(None)) => true,
            (None, None) => true,
            _ => false,
        },
{
    proof {
        lemma_map_empty(last_bars);
    }
    if !in_book {
        return Some(Some("no eligible rising symbol"));
    }
    if near_24h_high(ticker, Dec::new(2, 2))? {
        return Some(Some("у 24h high — не догоняю"));
    }
    let bar: Option<Bar> = get_bar(last_bars, ticker.symbol.as_str());
    if last_bars.len() > 0 && bar.is_none() {
        return Some(Some("нет 5м бара — не вхожу"));
    }
    if bar_is_red(bar) {
        return Some(Some("5м красная — не вхожу"));
    }
    Some(None)
}

/// A row that momentum enters is one that nothing keeps out.
pub proof fn law_entered_rows_have_no_gate(t: Ticker, c: RowContext)
    requires
        row_verdict(t, c) is Enter,
    ensures
        row_gate(t, c.last_bars, true) == Some(None::<Seq<char>>),
{
}

fn scan_book(
    book: &[Ticker],
    held: &[String],
    inflight: &[String],
    cooldowns: &SymMap<i64>,
    last_bars: &SymMap<Bar>,
    now: i64,
    p: &MomentumParams,
) -> (r: Option<(Option<Decision>, bool, bool)>)
    ensures
        ({
            let c = RowContext {
                held: views(held@),
                inflight: views(inflight@),
                cooldowns: cooldowns@,
                last_bars: last_bars@,
                now: now as int,
                p: p@,
            };
            match (r, scan_from(book@, 0, c)) {
                (Some((d, red, no_bar)), Some(s)) => {
                    &&& opt_decision(d) == s.entered
                    &&& d is None ==> red == s.red && no_bar == s.no_bar
                },
                (None, None) => true,
                _ => false,
            }
        }),
{
    let ghost c = RowContext {
        held: views(held@),
        inflight: views(inflight@),
        cooldowns: cooldowns@,
        last_bars: last_bars@,
        now: now as int,
        p: p@,
    };
    let mut red: bool = false;
    let mut no_bar: bool = false;
    let mut i: usize = 0;
    let has_bars: bool = last_bars.len() > 0;
    proof {
        lemma_map_empty(last_bars);
    }
    while i < book.len()
        invariant
            i <= book@.len(),
            has_bars == (last_bars@.dom().len() > 0),
            c == (RowContext {
                held: views(held@),
                inflight: views(inflight@),
                cooldowns: cooldowns@,
                last_bars: last_bars@,
                now: now as int,
                p: p@,
            }),
            match (scan_from(book@, 0, c), scan_from(book@, i as int, c)) {
                (Some(all), Some(rest)) => {
                    &&& all.entered == rest.entered
                    &&& all.entered is None ==> all.red == (red || rest.red) && all.no_bar == (
                    no_bar || rest.no_bar)
                },
                (None, None) => true,
                _ => false,
            },
        decreases book@.len() - i,
    {
        let t: &Ticker = &book[i];
        let key = t.symbol.as_str().to_ascii_uppercase();
        if !symbol_blocked(key.as_str(), held, inflight, cooldowns, now) {
            match near_24h_high(t, Dec::new(2, 2)) {
                None => {
                    return None;
                },
                Some(near) => {
                    if !near {
                        let bar: Option<Bar> = get_bar(last_bars, t.symbol.as_str());
                        if has_bars && bar.is_none() {
                            no_bar = true;
                        } else if bar_is_red(bar) {
                            red = true;
                        } else {
                            match enter_from_ticker(t, p) {
                                None => {
                                    return None;
                                },
                                Some(d) => {
                                    if d.is_enter_long() {
                                        return Some((Some(d), red, no_bar));
                                    }
                                },
                            }
                        }
                    }
                },
            }
        }
        i = i + 1;
    }
    Some((None, red, no_bar))
}

/// Whether at least `period_ms` have passed since the last scan.
pub fn scan_ready(now: i64, last: i64, period_ms: i64) -> (r: bool)
    ensures
        r == scan_is_due(now as int, last as int, period_ms as int),
{
    last <= 0 || now as i128 - last as i128 >= period_ms as i128
}

pub fn momentum_decisions(
    tickers: &[Ticker],
    positions: &[Position],
    now: i64,
    last_scan_ts: i64,
    inflight: &[String],
    cooldowns: &SymMap<i64>,
    params: Option<&MomentumParams>,
    exclude: &[String],
    last_bars: &SymMap<Bar>,
    allow_enter: bool,
    desk_until: i64,
) -> (r: Option<(Vec<Decision>, i64)>)
    ensures
        acted_view(r) == momentum_result(
            MomentumInput {
                tickers: tickers@,
                positions: positions@,
                now: now as int,
                last_scan_ts: last_scan_ts as int,
                inflight: views(inflight@),
                cooldowns: cooldowns@,
                exclude: views(exclude@),
                last_bars: last_bars@,
                allow_enter,
                desk_until: desk_until as int,
            },
            knobs(params),
        ),
{
    let owned: MomentumParams = MomentumParams::default();
    let p: &MomentumParams = match params {
        Some(m) => m,
        None => &owned,
    };
    if p.poll_seconds != 60 && p.poll_seconds != 120 {
        return Some((one_hold("poll_seconds must be 60 or 120"), now));
    }
    let rules = Eligibility {
        min_quote_volume: p.min_quote_volume,
        min_price: p.min_price,
        min_change_percent: Some(p.min_change_percent),
        max_change_percent: p.max_change_percent,
    };
    let n: usize = if p.max_positions < 1 {
        1
    } else {
        p.max_positions as usize
    };
    let book: Vec<Ticker> = match pick_momentum_book(tickers, n, &rules, exclude, true) {
        Some(b) => b,
        None => return None,
    };
    let mut acted: Vec<Decision> = match manage_all(
        positions,
        tickers,
        last_bars,
        book.as_slice(),
        p,
    ) {
        Some(a) => a,
        None => return None,
    };
    if !allow_enter {
        return Some(
            (hold_list(acted, "стоп дня. Новых входов нет до 00:00 UTC."), last_scan_ts),
        );
    }
    if !in_entry_window(now, Some(p.entry_windows.as_slice()), p.always_enter) {
        if acted.len() == 0 {
            let reason = outside_hours_note(now, p.entry_windows.as_slice());
            return Some((one_hold(reason.as_str()), last_scan_ts));
        }
        return Some((acted, last_scan_ts));
    }
    if now < desk_until {
        return Some((hold_list(acted, "пауза после стопа — слот не заполняю"), last_scan_ts));
    }
    if !scan_ready(now, last_scan_ts, p.poll_seconds as i64 * 1000) {
        return Some((hold_list(acted, "waiting for next scan"), last_scan_ts));
    }
    let held: Vec<String> = held_symbols(positions);
    let losing: bool = has_losing(positions);
    let pending: usize = count_pending(inflight, held.as_slice());
    let slots: i128 = p.max_positions as i128 - held.len() as i128 - pending as i128;
    let scan: (Option<Decision>, bool, bool) = if losing || slots <= 0 {
        (None, false, false)
    } else {
        match scan_book(
            book.as_slice(),
            held.as_slice(),
            inflight,
            cooldowns,
            last_bars,
            now,
            p,
        ) {
            Some(s) => s,
            None => return None,
        }
    };
    let ghost before = decision_views(acted@);
    if let Some(d) = scan.0 {
        let ghost dv = d@;
        acted.push(d);
        proof {
            assert(decision_views(acted@) =~= before.push(dv));
        }
    }
    if acted.len() > 0 {
        return Some((acted, now));
    }
    if scan.1 && held.len() == 0 {
        return Some((one_hold("5м красная — не вхожу"), now));
    }
    if scan.2 && held.len() == 0 {
        return Some((one_hold("нет 5м бара — не вхожу"), now));
    }
    if losing {
        return Some((one_hold("слот в минусе — новый не открываю"), now));
    }
    if book.len() == 0 {
        return Some((one_hold("no eligible rising symbol"), now));
    }
    if held.len() as i128 >= p.max_positions as i128 {
        return Some((one_hold("momentum book full"), now));
    }
    Some((one_hold("top rising already held or cooling"), now))
}

/// Decisions and scan time as mathematical values.
pub open spec fn acted_view(r: Option<(Vec<Decision>, i64)>) -> Option<(Seq<DecisionView>, int)> {
    match r {
        Some((d, ts)) => Some((decision_views(d@), ts as int)),
        None => None,
    }
}

/// What the rows of the book are held against.
pub open spec fn row_context(i: MomentumInput, p: MomentumView) -> RowContext {
    RowContext {
        held: held_keys(i.positions),
        inflight: i.inflight,
        cooldowns: i.cooldowns,
        last_bars: i.last_bars,
        now: i.now,
        p,
    }
}

proof fn lemma_entered_row(book: Seq<Ticker>, i: int, c: RowContext, d: DecisionView)
    requires
        0 <= i,
        scan_from(book, i, c) is Some,
        scan_from(book, i, c)->0.entered == Some(d),
    ensures
        exists|j: int|
            i <= j < book.len() && #[trigger] row_verdict(book[j], c) == RowVerdict::Enter(d),
    decreases book.len() - i,
{
    if row_verdict(book[i], c) is Enter {
        assert(row_verdict(book[i], c) == RowVerdict::Enter(d));
    } else {
        lemma_entered_row(book, i + 1, c, d);
        let j = choose|j: int|
            i + 1 <= j < book.len() && #[trigger] row_verdict(book[j], c) == RowVerdict::Enter(d);
        assert(row_verdict(book[j], c) == RowVerdict::Enter(d));
    }
}

/// A tick of momentum opens at most one long: within the entry hours, while entries
/// are allowed, past the pause after a stop, once a scan is due, with a slot free and
/// no slot in the red, and of a row of the book that nothing speaks against.
pub proof fn law_momentum_enters_at_most_once(
    i: MomentumInput,
    p: MomentumView,
    a: int,
    b: int,
)
    requires
        momentum_result(i, p) is Some,
        0 <= a < (momentum_result(i, p)->0).0.len(),
        0 <= b < (momentum_result(i, p)->0).0.len(),
        (momentum_result(i, p)->0).0[a] is EnterLong,
        (momentum_result(i, p)->0).0[b] is EnterLong,
    ensures
        a == b,
        i.allow_enter,
        entry_open(i.now, Some(p.entry_windows), p.always_enter),
        i.now >= i.desk_until,
        scan_is_due(i.now, i.last_scan_ts, p.poll_seconds * 1000),
        !any_losing(i.positions),
        held_keys(i.positions).len() + pending_count(
            i.inflight,
            held_keys(i.positions),
            i.inflight.len() as int,
        ) < p.max_positions,
        ({
            let book = momentum_book(
                i.tickers,
                at_least_1(p.max_positions as int),
                book_rules(p),
                i.exclude,
                true,
            )->0;
            exists|j: int|
                0 <= j < book.len() && #[trigger] row_verdict(book[j], row_context(i, p))
                    == RowVerdict::Enter((momentum_result(i, p)->0).0[a])
        }),
{
    if p.poll_seconds == 60 || p.poll_seconds == 120 {
        let book = momentum_book(
            i.tickers,
            at_least_1(p.max_positions as int),
            book_rules(p),
            i.exclude,
            true,
        )->0;
        let n = i.positions.len() as int;
        let acted = managed_views(i.positions, n, i.tickers, i.last_bars, book, p)->0;
        lemma_managed_never_enters(i.positions, n, i.tickers, i.last_bars, book, p);
        assert forall|k: int| 0 <= k < acted.len() implies !((#[trigger] acted[k]) is EnterLong) by {}
        lemma_entered_row(book, 0, row_context(i, p), (momentum_result(i, p)->0).0[a]);
    }
}

proof fn lemma_managed_never_enters(
    positions: Seq<Position>,
    n: int,
    tickers: Seq<Ticker>,
    last_bars: Map<Seq<char>, Bar>,
    book: Seq<Ticker>,
    p: MomentumView,
)
    ensures
        managed_views(positions, n, tickers, last_bars, book, p) matches Some(v) ==> forall|k: int|
            0 <= k < v.len() ==> !((#[trigger] v[k]) is EnterLong),
    decreases n,
{
    if n > 0 {
        lemma_managed_never_enters(positions, n - 1, tickers, last_bars, book, p);
    }
}

/// The held row of a single slot.
pub open spec fn slot_rows(position: Option<&Position>) -> Seq<Position> {
    match position {
        Some(p) => if p.qty.pos() {
            seq![*p]
        } else {
            Seq::empty()
        },
        None => Seq::empty(),
    }
}

/// What momentum sees of a single slot.
pub open spec fn slot_input(
    tickers: Seq<Ticker>,
    rows: Seq<Position>,
    now: int,
    last_scan_ts: int,
) -> MomentumInput {
    MomentumInput {
        tickers,
        positions: rows,
        now,
        last_scan_ts,
        inflight: Seq::empty(),
        cooldowns: Map::empty(),
        exclude: Seq::empty(),
        last_bars: Map::empty(),
        allow_enter: true,
        desk_until: 0,
    }
}

/// Whether a decision is the first of a list.
pub open spec fn is_first_of(
    r: Option<(Decision, i64)>,
    all: Option<(Seq<DecisionView>, int)>,
) -> bool {
    match (all, r) {
        (Some((ds, ts)), Some((d, t))) => ts == t && d@ == (if ds.len() > 0 {
            ds[0]
        } else {
            hold_view("hold"@)
        }),
        (None, None) => true,
        _ => false,
    }
}

/// The first decision of the list for a single slot.
pub fn momentum_decision(
    tickers: &[Ticker],
    position: Option<&Position>,
    now: i64,
    last_scan_ts: i64,
    params: Option<&MomentumParams>,
) -> (r: Option<(Decision, i64)>)
    ensures
        ({
            if position is Some && position->0.qty.pos() && position->0.side != Side::Long {
                r matches Some((d, ts)) && d@ == hold_view(
                    "momentum is buy-only; short not managed"@,
                ) && ts == last_scan_ts
            } else {
                is_first_of(
                    r,
                    momentum_result(
                        slot_input(
                            tickers@,
                            slot_rows(position),
                            now as int,
                            last_scan_ts as int,
                        ),
                        knobs(params),
                    ),
                )
            }
        }),
{
    let mut held: Vec<Position> = Vec::new();
    if let Some(pos) = position {
        if pos.qty.is_pos() {
            if pos.side != Side::Long {
                return Some(
                    (Decision::hold("momentum is buy-only; short not managed"), last_scan_ts),
                );
            }
            held.push(pos.clone());
        }
    }
    let none: Vec<String> = Vec::new();
    let cooldowns: SymMap<i64> = SymMap::new();
    let bars: SymMap<Bar> = SymMap::new();
    proof {
        assert(held@ =~= slot_rows(position));
        assert(views(none@) =~= Seq::<Seq<char>>::empty());
    }
    let all: Option<(Vec<Decision>, i64)> = momentum_decisions(
        tickers,
        held.as_slice(),
        now,
        last_scan_ts,
        none.as_slice(),
        &cooldowns,
        params,
        none.as_slice(),
        &bars,
        true,
        0,
    );
    let ghost shown = acted_view(all);
    let r: Option<(Decision, i64)> = match all {
        Some((ds, ts)) => {
            if ds.len() > 0 {
                Some((ds[0].clone(), ts))
            } else {
                Some((Decision::hold("hold"), ts))
            }
        },
        None => None,
    };
    proof {
        assert(is_first_of(r, shown));
    }
    r
}

} // verus!

//! What is remembered of an open trade beyond the position itself: its first
//! risk, the best and worst it has been, and whether half of it was sold.
//!
//! An outer `None` says that a number left the decimal range. Operations on the
//! store say whether it has to be written back to disk.
use crate::dec::{
    dec as decimal, dec, decimal_difference, decimal_product, decimal_rules, goes_into,
    law_even_quotients_are_exact, law_short_products_are_exact, law_short_sums_are_exact,
    lemma_dec_parts, lemma_units_neg, lemma_units_sign, lemma_wf, magnitude, minus, n_div, n_mul,
    n_sub, negated, over, short, short_product, times, Dec, Num,
};
use crate::indicators::{highest, lowest};
use crate::models::{opt_view, Bar, EngineState, EngineStateView, MarketSnapshot, Position, Ticker};
use crate::money::{amount, fixed_text, fmt_fixed, read_amount};
use crate::ranking::{find_ignoring_case, row_ignoring_case};
use crate::regime::{classify_snapshot, ret_over, return_over, snapshot_regime};
use crate::symbols::{SymMap, SymSet};
use crate::text::{own, upper};
use vstd::prelude::*;

verus! {

pub const DEFAULT_OPEN_META_PATH: &'static str = ".state/open_meta.json";

/// The amount risked from entry to stop; the inner `None` where there is none.
pub open spec fn first_risk(entry: Dec, stop_loss: Dec, qty: Dec) -> Option<Option<Dec>> {
    if !entry.pos() || !qty.pos() {
        Some(None)
    } else {
        match n_sub(Some(entry), Some(stop_loss)) {
            None => None,
            Some(diff) => {
                let dist = magnitude(diff);
                let risk = n_mul(Some(dist), Some(qty));
                if !dist.pos() {
                    Some(None)
                } else if risk is None {
                    None
                } else if risk->0.pos() {
                    Some(risk)
                } else {
                    Some(None)
                }
            },
        }
    }
}

pub fn initial_risk_usdt(entry: Dec, stop_loss: Dec, qty: Dec) -> (r: Option<Option<Dec>>)
    ensures
        r == first_risk(entry, stop_loss, qty),
{
    if !entry.is_pos() || !qty.is_pos() {
        return Some(None);
    }
    let dist: Dec = minus(Some(entry), Some(stop_loss))?.abs();
    if !dist.is_pos() {
        return Some(None);
    }
    let risk: Dec = times(Some(dist), Some(qty))?;
    if risk.is_pos() {
        Some(Some(risk))
    } else {
        Some(None)
    }
}

/// An amount in units of the risk; the inner `None` without risk.
pub open spec fn in_r(usdt: Dec, risk: Dec) -> Option<Option<Dec>> {
    if !risk.pos() {
        Some(None)
    } else {
        match n_div(Some(usdt), Some(risk)) {
            Some(x) => Some(Some(x)),
            None => None,
        }
    }
}

pub fn r_multiple(usdt: Dec, risk: Dec) -> (r: Option<Option<Dec>>)
    ensures
        r == in_r(usdt, risk),
{
    if !risk.is_pos() {
        return Some(None);
    }
    Some(Some(over(Some(usdt), Some(risk))?))
}

/// Profit of a long on the mark, by its first quantity.
pub open spec fn mark_pnl(entry: Dec, mark: Dec, initial_qty: Dec) -> Num {
    n_mul(n_sub(Some(mark), Some(entry)), Some(initial_qty))
}

pub fn mark_pnl_usdt(entry: Dec, mark: Dec, initial_qty: Dec) -> (r: Num)
    ensures
        r == mark_pnl(entry, mark, initial_qty),
{
    times(minus(Some(mark), Some(entry)), Some(initial_qty))
}

/// The best and the worst a trade has been, when it was best, and when it first
/// was one risk ahead.
#[derive(Debug, Clone, Copy)]
pub struct Excursion {
    pub mfe_usdt: Dec,
    /// The worst, as a positive amount.
    pub mae_usdt: Dec,
    pub mfe_peak_ts: Option<i64>,
    pub time_to_1r_ts: Option<i64>,
}

/// The excursion after a profit was seen.
pub open spec fn excursion_at(x: Excursion, pnl: Dec, initial_risk: Dec, now: i64) -> Excursion {
    Excursion {
        mfe_usdt: if x.mfe_usdt.lt(pnl) {
            pnl
        } else {
            x.mfe_usdt
        },
        mae_usdt: if pnl.units() < 0 && x.mae_usdt.lt(negated(pnl)) {
            negated(pnl)
        } else {
            x.mae_usdt
        },
        mfe_peak_ts: if x.mfe_usdt.lt(pnl) {
            Some(now)
        } else {
            x.mfe_peak_ts
        },
        time_to_1r_ts: if x.time_to_1r_ts is None && initial_risk.pos() && initial_risk.le(pnl) {
            Some(now)
        } else {
            x.time_to_1r_ts
        },
    }
}

/// Takes a mark into the excursion of a trade.
pub fn apply_mark_excursion(
    x: Excursion,
    entry: Dec,
    mark: Dec,
    initial_qty: Dec,
    initial_risk: Dec,
    now: i64,
) -> (r: Option<Excursion>)
    ensures
        r == (match mark_pnl(entry, mark, initial_qty) {
            Some(pnl) => Some(excursion_at(x, pnl, initial_risk, now)),
            None => None,
        }),
{
    let pnl: Dec = mark_pnl_usdt(entry, mark, initial_qty)?;
    let mut out: Excursion = x;
    if pnl > x.mfe_usdt {
        out.mfe_usdt = pnl;
        out.mfe_peak_ts = Some(now);
    }
    if pnl.is_neg() {
        let adverse: Dec = pnl.neg();
        if adverse > x.mae_usdt {
            out.mae_usdt = adverse;
        }
    }
    if x.time_to_1r_ts.is_none() && initial_risk.is_pos() && pnl >= initial_risk {
        out.time_to_1r_ts = Some(now);
    }
    Some(out)
}

/// The best and the worst never shrink, and the first time one risk ahead is
/// kept once it is known.
pub proof fn law_excursions_only_grow(x: Excursion, pnl: Dec, initial_risk: Dec, now: i64)
    ensures
        ({
            let y = excursion_at(x, pnl, initial_risk, now);
            &&& x.mfe_usdt.le(y.mfe_usdt) && pnl.le(y.mfe_usdt)
            &&& x.mae_usdt.le(y.mae_usdt)
            &&& pnl.units() < 0 ==> negated(pnl).le(y.mae_usdt)
            &&& x.time_to_1r_ts is Some ==> y.time_to_1r_ts == x.time_to_1r_ts
            &&& excursion_at(y, pnl, initial_risk, now) == y
        }),
{
}

/// What is remembered of an open trade.
#[derive(Debug)]
pub struct OpenTradeMeta {
    pub symbol: String,
    pub strategy_id: i32,
    pub entry: String,
    pub initial_sl: String,
    pub initial_qty: String,
    pub initial_risk_usdt: String,
    pub opened_ts: i64,
    pub mfe_usdt: String,
    pub mae_usdt: String,
    pub mfe_peak_ts: Option<i64>,
    pub time_to_1r_ts: Option<i64>,
    pub scaled_at_1r: bool,
    pub btc_regime: Option<String>,
}

/// The same with its texts as sequences of characters.
pub struct MetaView {
    pub symbol: Seq<char>,
    pub strategy_id: i32,
    pub entry: Seq<char>,
    pub initial_sl: Seq<char>,
    pub initial_qty: Seq<char>,
    pub initial_risk_usdt: Seq<char>,
    pub opened_ts: i64,
    pub mfe_usdt: Seq<char>,
    pub mae_usdt: Seq<char>,
    pub mfe_peak_ts: Option<i64>,
    pub time_to_1r_ts: Option<i64>,
    pub scaled_at_1r: bool,
    pub btc_regime: Option<Seq<char>>,
}

impl View for OpenTradeMeta {
    type V = MetaView;

    open spec fn view(&self) -> MetaView {
        MetaView {
            symbol: self.symbol@,
            strategy_id: self.strategy_id,
            entry: self.entry@,
            initial_sl: self.initial_sl@,
            initial_qty: self.initial_qty@,
            initial_risk_usdt: self.initial_risk_usdt@,
            opened_ts: self.opened_ts,
            mfe_usdt: self.mfe_usdt@,
            mae_usdt: self.mae_usdt@,
            mfe_peak_ts: self.mfe_peak_ts,
            time_to_1r_ts: self.time_to_1r_ts,
            scaled_at_1r: self.scaled_at_1r,
            btc_regime: opt_view(self.btc_regime),
        }
    }
}

/// A copy of an optional text.
pub fn own_opt(t: &Option<String>) -> (r: Option<String>)
    ensures
        opt_view(r) == opt_view(*t),
{
    match t {
        Some(x) => Some(own(x.as_str())),
        None => None,
    }
}

impl Clone for OpenTradeMeta {
    fn clone(&self) -> (r: Self)
        ensures
            r@ == self@,
    {
        OpenTradeMeta {
            symbol: own(self.symbol.as_str()),
            strategy_id: self.strategy_id,
            entry: own(self.entry.as_str()),
            initial_sl: own(self.initial_sl.as_str()),
            initial_qty: own(self.initial_qty.as_str()),
            initial_risk_usdt: own(self.initial_risk_usdt.as_str()),
            opened_ts: self.opened_ts,
            mfe_usdt: own(self.mfe_usdt.as_str()),
            mae_usdt: own(self.mae_usdt.as_str()),
            mfe_peak_ts: self.mfe_peak_ts,
            time_to_1r_ts: self.time_to_1r_ts,
            scaled_at_1r: self.scaled_at_1r,
            btc_regime: own_opt(&self.btc_regime),
        }
    }
}

/// The number that a text stands for, else zero.
pub open spec fn amount_or_zero(text: Seq<char>) -> Dec {
    match amount(text) {
        Some(d) => d,
        None => decimal(0, 0),
    }
}

/// The number that a text stands for, else zero.
pub fn read_amount_or_zero(text: &str) -> (r: Dec)
    ensures
        r == amount_or_zero(text@),
{
    match read_amount(text) {
        Some(d) => d,
        None => Dec::zero(),
    }
}

impl OpenTradeMeta {
    pub fn entry_dec(&self) -> (r: Option<Dec>)
        ensures
            r == amount(self.entry@),
    {
        read_amount(self.entry.as_str())
    }

    pub fn risk_dec(&self) -> (r: Option<Dec>)
        ensures
            r == amount(self.initial_risk_usdt@),
    {
        read_amount(self.initial_risk_usdt.as_str())
    }

    pub fn qty_dec(&self) -> (r: Option<Dec>)
        ensures
            r == amount(self.initial_qty@),
    {
        read_amount(self.initial_qty.as_str())
    }

    pub fn mfe_dec(&self) -> (r: Dec)
        ensures
            r == amount_or_zero(self.mfe_usdt@),
    {
        read_amount_or_zero(self.mfe_usdt.as_str())
    }

    pub fn mae_dec(&self) -> (r: Dec)
        ensures
            r == amount_or_zero(self.mae_usdt@),
    {
        read_amount_or_zero(self.mae_usdt.as_str())
    }
}

/// What a close line of the journal says beyond the fill.
#[derive(Debug)]
pub struct CloseMetrics {
    pub initial_risk_usdt: Option<String>,
    pub initial_r: Option<String>,
    pub final_r: Option<String>,
    pub mfe_r: Option<String>,
    pub mae_r: Option<String>,
    pub mfe_usdt: Option<String>,
    pub mae_usdt: Option<String>,
    pub hold_sec: Option<i64>,
    pub time_to_mfe_sec: Option<i64>,
    pub time_to_1r_sec: Option<i64>,
    pub scaled_at_1r: Option<bool>,
    pub btc_regime: Option<String>,
}

/// The same with its texts as sequences of characters.
pub struct CloseView {
    pub initial_risk_usdt: Option<Seq<char>>,
    pub initial_r: Option<Seq<char>>,
    pub final_r: Option<Seq<char>>,
    pub mfe_r: Option<Seq<char>>,
    pub mae_r: Option<Seq<char>>,
    pub mfe_usdt: Option<Seq<char>>,
    pub mae_usdt: Option<Seq<char>>,
    pub hold_sec: Option<i64>,
    pub time_to_mfe_sec: Option<i64>,
    pub time_to_1r_sec: Option<i64>,
    pub scaled_at_1r: Option<bool>,
    pub btc_regime: Option<Seq<char>>,
}

impl View for CloseMetrics {
    type V = CloseView;

    open spec fn view(&self) -> CloseView {
        CloseView {
            initial_risk_usdt: opt_view(self.initial_risk_usdt),
            initial_r: opt_view(self.initial_r),
            final_r: opt_view(self.final_r),
            mfe_r: opt_view(self.mfe_r),
            mae_r: opt_view(self.mae_r),
            mfe_usdt: opt_view(self.mfe_usdt),
            mae_usdt: opt_view(self.mae_usdt),
            hold_sec: self.hold_sec,
            time_to_mfe_sec: self.time_to_mfe_sec,
            time_to_1r_sec: self.time_to_1r_sec,
            scaled_at_1r: self.scaled_at_1r,
            btc_regime: opt_view(self.btc_regime),
        }
    }
}

/// Nothing known about a close.
pub open spec fn no_metrics() -> CloseView {
    CloseView {
        initial_risk_usdt: None,
        initial_r: None,
        final_r: None,
        mfe_r: None,
        mae_r: None,
        mfe_usdt: None,
        mae_usdt: None,
        hold_sec: None,
        time_to_mfe_sec: None,
        time_to_1r_sec: None,
        scaled_at_1r: None,
        btc_regime: None,
    }
}

impl Default for CloseMetrics {
    fn default() -> (r: Self)
        ensures
            r@ == no_metrics(),
    {
        CloseMetrics {
            initial_risk_usdt: None,
            initial_r: None,
            final_r: None,
            mfe_r: None,
            mae_r: None,
            mfe_usdt: None,
            mae_usdt: None,
            hold_sec: None,
            time_to_mfe_sec: None,
            time_to_1r_sec: None,
            scaled_at_1r: None,
            btc_regime: None,
        }
    }
}

/// The market at an entry. Whatever is missing stays empty.
#[derive(Debug)]
pub struct EntrySnapshot {
    pub ret_24h: Option<String>,
    pub ret_1h: Option<String>,
    pub ret_4h: Option<String>,
    pub quote_volume: Option<String>,
    pub near_high_frac: Option<String>,
    pub pullback_pct: Option<String>,
    pub stop_distance: Option<String>,
    pub risk_pct: Option<String>,
    pub btc_ret_1h: Option<String>,
    pub btc_regime: Option<String>,
}

/// The same with its texts as sequences of characters.
pub struct EntryView {
    pub ret_24h: Option<Seq<char>>,
    pub ret_1h: Option<Seq<char>>,
    pub ret_4h: Option<Seq<char>>,
    pub quote_volume: Option<Seq<char>>,
    pub near_high_frac: Option<Seq<char>>,
    pub pullback_pct: Option<Seq<char>>,
    pub stop_distance: Option<Seq<char>>,
    pub risk_pct: Option<Seq<char>>,
    pub btc_ret_1h: Option<Seq<char>>,
    pub btc_regime: Option<Seq<char>>,
}

impl View for EntrySnapshot {
    type V = EntryView;

    open spec fn view(&self) -> EntryView {
        EntryView {
            ret_24h: opt_view(self.ret_24h),
            ret_1h: opt_view(self.ret_1h),
            ret_4h: opt_view(self.ret_4h),
            quote_volume: opt_view(self.quote_volume),
            near_high_frac: opt_view(self.near_high_frac),
            pullback_pct: opt_view(self.pullback_pct),
            stop_distance: opt_view(self.stop_distance),
            risk_pct: opt_view(self.risk_pct),
            btc_ret_1h: opt_view(self.btc_ret_1h),
            btc_regime: opt_view(self.btc_regime),
        }
    }
}

/// Nothing known about an entry.
pub open spec fn no_entry() -> EntryView {
    EntryView {
        ret_24h: None,
        ret_1h: None,
        ret_4h: None,
        quote_volume: None,
        near_high_frac: None,
        pullback_pct: None,
        stop_distance: None,
        risk_pct: None,
        btc_ret_1h: None,
        btc_regime: None,
    }
}

impl Default for EntrySnapshot {
    fn default() -> (r: Self)
        ensures
            r@ == no_entry(),
    {
        EntrySnapshot {
            ret_24h: None,
            ret_1h: None,
            ret_4h: None,
            quote_volume: None,
            near_high_frac: None,
            pullback_pct: None,
            stop_distance: None,
            risk_pct: None,
            btc_ret_1h: None,
            btc_regime: None,
        }
    }
}

impl Clone for EntrySnapshot {
    fn clone(&self) -> (r: Self)
        ensures
            r@ == self@,
    {
        EntrySnapshot {
            ret_24h: own_opt(&self.ret_24h),
            ret_1h: own_opt(&self.ret_1h),
            ret_4h: own_opt(&self.ret_4h),
            quote_volume: own_opt(&self.quote_volume),
            near_high_frac: own_opt(&self.near_high_frac),
            pullback_pct: own_opt(&self.pullback_pct),
            stop_distance: own_opt(&self.stop_distance),
            risk_pct: own_opt(&self.risk_pct),
            btc_ret_1h: own_opt(&self.btc_ret_1h),
            btc_regime: own_opt(&self.btc_regime),
        }
    }
}

/// The open trades that are remembered, by upper-case symbol.
#[derive(Debug)]
pub struct OpenMeta {
    rows: SymMap<OpenTradeMeta>,
}

/// The remembered trades of a map of rows.
pub open spec fn meta_rows(m: Map<Seq<char>, OpenTradeMeta>) -> Map<Seq<char>, MetaView> {
    Map::new(|k: Seq<char>| m.contains_key(k), |k: Seq<char>| m[k]@)
}

impl View for OpenMeta {
    type V = Map<Seq<char>, MetaView>;

    closed spec fn view(&self) -> Map<Seq<char>, MetaView> {
        meta_rows(self.rows@)
    }
}

/// What is remembered of a trade that just opened.
pub open spec fn opened_meta(
    key: Seq<char>,
    strategy_id: i32,
    entry: Dec,
    stop_loss: Dec,
    qty: Dec,
    risk: Dec,
    opened_ts: i64,
    btc_regime: Option<Seq<char>>,
) -> MetaView {
    MetaView {
        symbol: key,
        strategy_id,
        entry: fixed_text(entry),
        initial_sl: fixed_text(stop_loss),
        initial_qty: fixed_text(qty),
        initial_risk_usdt: fixed_text(risk),
        opened_ts,
        mfe_usdt: "0"@,
        mae_usdt: "0"@,
        mfe_peak_ts: None,
        time_to_1r_ts: None,
        scaled_at_1r: false,
        btc_regime,
    }
}

fn opened_row(
    key: &str,
    strategy_id: i32,
    entry: Dec,
    stop_loss: Dec,
    qty: Dec,
    risk: Dec,
    opened_ts: i64,
    btc_regime: Option<String>,
) -> (r: OpenTradeMeta)
    ensures
        r@ == opened_meta(
            key@,
            strategy_id,
            entry,
            stop_loss,
            qty,
            risk,
            opened_ts,
            opt_view(btc_regime),
        ),
{
    OpenTradeMeta {
        symbol: own(key),
        strategy_id,
        entry: fmt_fixed(entry),
        initial_sl: fmt_fixed(stop_loss),
        initial_qty: fmt_fixed(qty),
        initial_risk_usdt: fmt_fixed(risk),
        opened_ts,
        mfe_usdt: own("0"),
        mae_usdt: own("0"),
        mfe_peak_ts: None,
        time_to_1r_ts: None,
        scaled_at_1r: false,
        btc_regime,
    }
}

/// The excursion that a row holds.
pub open spec fn excursion_of(m: MetaView) -> Excursion {
    Excursion {
        mfe_usdt: amount_or_zero(m.mfe_usdt),
        mae_usdt: amount_or_zero(m.mae_usdt),
        mfe_peak_ts: m.mfe_peak_ts,
        time_to_1r_ts: m.time_to_1r_ts,
    }
}

/// A row after a mark was seen; the inner `None` where it stays as it is.
pub open spec fn marked(m: MetaView, mark: Dec, now: i64) -> Option<Option<MetaView>> {
    match (amount(m.entry), amount(m.initial_qty), amount(m.initial_risk_usdt)) {
        (Some(entry), Some(qty), Some(risk)) => if !mark.pos() {
            Some(None)
        } else {
            match mark_pnl(entry, mark, qty) {
                None => None,
                Some(pnl) => {
                    let y = excursion_at(excursion_of(m), pnl, risk, now);
                    Some(
                        Some(
                            MetaView {
                                mfe_usdt: fixed_text(y.mfe_usdt),
                                mae_usdt: fixed_text(y.mae_usdt),
                                mfe_peak_ts: y.mfe_peak_ts,
                                time_to_1r_ts: y.time_to_1r_ts,
                                ..m
                            },
                        ),
                    )
                },
            }
        },
        _ => Some(None),
    }
}

fn apply_mark_to_meta(m: &OpenTradeMeta, mark: Dec, now: i64) -> (r: Option<Option<OpenTradeMeta>>)
    ensures
        match (r, marked(m@, mark, now)) {
            (Some(Some(a)), Some(Some(b))) => a@ == b,
            (Some(None), Some(None)) => true,
            (None, None) => true,
            _ => false,
        },
{
    if !mark.is_pos() {
        return Some(None);
    }
    let (entry, qty, risk) = match (m.entry_dec(), m.qty_dec(), m.risk_dec()) {
        (Some(a), Some(b), Some(c)) => (a, b, c),
        _ => return Some(None),
    };
    let x = Excursion {
        mfe_usdt: m.mfe_dec(),
        mae_usdt: m.mae_dec(),
        mfe_peak_ts: m.mfe_peak_ts,
        time_to_1r_ts: m.time_to_1r_ts,
    };
    let y: Excursion = apply_mark_excursion(x, entry, mark, qty, risk, now)?;
    let mut out: OpenTradeMeta = m.clone();
    out.mfe_usdt = fmt_fixed(y.mfe_usdt);
    out.mae_usdt = fmt_fixed(y.mae_usdt);
    out.mfe_peak_ts = y.mfe_peak_ts;
    out.time_to_1r_ts = y.time_to_1r_ts;
    Some(Some(out))
}

/// The store after a mark of one symbol was seen, and whether a row took it.
pub open spec fn store_marked(
    store: Map<Seq<char>, MetaView>,
    symbol: Seq<char>,
    mark: Dec,
    now: i64,
) -> Option<(Map<Seq<char>, MetaView>, bool)> {
    let key = upper(symbol);
    if !store.contains_key(key) {
        Some((store, false))
    } else {
        match marked(store[key], mark, now) {
            None => None,
            Some(None) => Some((store, false)),
            Some(Some(m)) => Some((store.insert(key, m), true)),
        }
    }
}

/// The mark of a held symbol: a positive price on the tape, else a positive
/// last close.
pub open spec fn held_mark(s: MarketSnapshot, symbol: Seq<char>) -> Option<Dec> {
    let row = row_ignoring_case(s.tickers@, symbol);
    let bars = s.series(symbol);
    if row is Some && row->0.last_price.pos() {
        Some(row->0.last_price)
    } else if bars.len() > 0 && bars.last().close.pos() {
        Some(bars.last().close)
    } else {
        None
    }
}

fn mark_of_held(snapshot: &MarketSnapshot, symbol: &str) -> (r: Option<Dec>)
    ensures
        r == held_mark(*snapshot, symbol@),
{
    if let Some(t) = find_ignoring_case(snapshot.tickers.as_slice(), symbol) {
        if t.last_price.is_pos() {
            return Some(t.last_price);
        }
    }
    let bars: &[Bar] = snapshot.bars_for(symbol);
    let n: usize = bars.len();
    if n > 0 && bars[n - 1].close.is_pos() {
        return Some(bars[n - 1].close);
    }
    None
}

/// The store after the marks of the first `n` positions, and whether any row
/// took one.
pub open spec fn store_updated(
    store: Map<Seq<char>, MetaView>,
    positions: Seq<Position>,
    n: int,
    s: MarketSnapshot,
    now: i64,
) -> Option<(Map<Seq<char>, MetaView>, bool)>
    decreases n,
{
    if n <= 0 {
        Some((store, false))
    } else {
        match store_updated(store, positions, n - 1, s, now) {
            None => None,
            Some((so_far, dirty)) => {
                let pos = positions[n - 1];
                match held_mark(s, pos.symbol@) {
                    Some(mark) => if !pos.qty.pos() {
                        Some((so_far, dirty))
                    } else {
                        match store_marked(so_far, pos.symbol@, mark, now) {
                            Some((next, took)) => Some((next, dirty || took)),
                            None => None,
                        }
                    },
                    None => Some((so_far, dirty)),
                }
            },
        }
    }
}

proof fn lemma_updated_none(
    store: Map<Seq<char>, MetaView>,
    positions: Seq<Position>,
    n: int,
    m: int,
    s: MarketSnapshot,
    now: i64,
)
    requires
        0 <= n <= m,
        store_updated(store, positions, n, s, now) is None,
    ensures
        store_updated(store, positions, m, s, now) is None,
    decreases m - n,
{
    if n < m {
        lemma_updated_none(store, positions, n, m - 1, s, now);
    }
}

/// Whether a row says that half of this very trade was sold at one risk.
pub open spec fn was_scaled(
    store: Map<Seq<char>, MetaView>,
    symbol: Seq<char>,
    entry: Dec,
    strategy_id: i32,
) -> Option<bool> {
    let key = upper(symbol);
    if !store.contains_key(key) || store[key].strategy_id != strategy_id || !store[key].scaled_at_1r {
        Some(false)
    } else {
        match amount(store[key].entry) {
            None => Some(false),
            Some(e) => match n_sub(Some(e), Some(entry)) {
                None => None,
                Some(diff) => Some(magnitude(diff).le(decimal(1, 8))),
            },
        }
    }
}

/// The store with a symbol marked as half sold.
pub open spec fn store_scaled(store: Map<Seq<char>, MetaView>, symbol: Seq<char>) -> Map<
    Seq<char>,
    MetaView,
> {
    let key = upper(symbol);
    if store.contains_key(key) {
        store.insert(key, MetaView { scaled_at_1r: true, ..store[key] })
    } else {
        store
    }
}

/// Whole seconds between two instants, none where the later is before.
pub open spec fn seconds_between(from: i64, to: i64) -> int {
    if to < from {
        0
    } else {
        (to - from) / 1000
    }
}

fn secs_between(from: i64, to: i64) -> (r: i64)
    ensures
        r == seconds_between(from, to),
{
    if to < from {
        return 0;
    }
    let ms: i128 = to as i128 - from as i128;
    (ms / 1000) as i64
}

/// A printed amount in units of the risk.
pub open spec fn r_text(usdt: Dec, risk: Dec) -> Option<Option<Seq<char>>> {
    match in_r(usdt, risk) {
        None => None,
        Some(None) => Some(None),
        Some(Some(x)) => Some(Some(fixed_text(x))),
    }
}

fn print_r(usdt: Dec, risk: Dec) -> (r: Option<Option<String>>)
    ensures
        crate::continuation::entry::gate_view(r) == r_text(usdt, risk),
{
    match r_multiple(usdt, risk)? {
        Some(x) => Some(Some(fmt_fixed(x))),
        None => Some(None),
    }
}

/// What a close says of a remembered trade.
pub open spec fn close_metrics(m: MetaView, pnl: Option<Dec>, now: i64, partial: bool) -> Option<
    CloseView,
> {
    let risk = amount_or_zero(m.initial_risk_usdt);
    let mfe = amount_or_zero(m.mfe_usdt);
    let mae = amount_or_zero(m.mae_usdt);
    let final_r = match pnl {
        Some(p) => r_text(p, risk),
        None => Some(None),
    };
    match (final_r, r_text(mfe, risk), r_text(mae, risk)) {
        (Some(final_r), Some(mfe_r), Some(mae_r)) => Some(
            CloseView {
                initial_risk_usdt: Some(m.initial_risk_usdt),
                initial_r: if risk.pos() {
                    Some("1"@)
                } else {
                    None
                },
                final_r,
                mfe_r,
                mae_r,
                mfe_usdt: Some(fixed_text(mfe)),
                mae_usdt: Some(fixed_text(mae)),
                hold_sec: if m.opened_ts > 0 && now >= m.opened_ts {
                    Some(seconds_between(m.opened_ts, now) as i64)
                } else {
                    None
                },
                time_to_mfe_sec: match m.mfe_peak_ts {
                    Some(t) => Some(seconds_between(m.opened_ts, t) as i64),
                    None => None,
                },
                time_to_1r_sec: match m.time_to_1r_ts {
                    Some(t) => Some(seconds_between(m.opened_ts, t) as i64),
                    None => None,
                },
                scaled_at_1r: Some(m.scaled_at_1r || partial),
                btc_regime: m.btc_regime,
            },
        ),
        _ => None,
    }
}

fn metrics_of(m: &OpenTradeMeta, pnl: Option<Dec>, now: i64, partial: bool) -> (r: Option<CloseMetrics>)
    ensures
        match (r, close_metrics(m@, pnl, now, partial)) {
            (Some(a), Some(b)) => a@ == b,
            (None, None) => true,
            _ => false,
        },
{
    let risk: Dec = read_amount_or_zero(m.initial_risk_usdt.as_str());
    let mfe: Dec = m.mfe_dec();
    let mae: Dec = m.mae_dec();
    let final_r: Option<String> = match pnl {
        Some(p) => print_r(p, risk)?,
        None => None,
    };
    let mfe_r: Option<String> = print_r(mfe, risk)?;
    let mae_r: Option<String> = print_r(mae, risk)?;
    Some(
        CloseMetrics {
            initial_risk_usdt: Some(own(m.initial_risk_usdt.as_str())),
            initial_r: if risk.is_pos() {
                Some(own("1"))
            } else {
                None
            },
            final_r,
            mfe_r,
            mae_r,
            mfe_usdt: Some(fmt_fixed(mfe)),
            mae_usdt: Some(fmt_fixed(mae)),
            hold_sec: if m.opened_ts > 0 && now >= m.opened_ts {
                Some(secs_between(m.opened_ts, now))
            } else {
                None
            },
            time_to_mfe_sec: match m.mfe_peak_ts {
                Some(t) => Some(secs_between(m.opened_ts, t)),
                None => None,
            },
            time_to_1r_sec: match m.time_to_1r_ts {
                Some(t) => Some(secs_between(m.opened_ts, t)),
                None => None,
            },
            scaled_at_1r: Some(m.scaled_at_1r || partial),
            btc_regime: own_opt(&m.btc_regime),
        },
    )
}

/// Whether continuation manages a long: it is untagged, tagged with the running
/// strategy, or inherited.
pub open spec fn owned_by(
    store: Map<Seq<char>, MetaView>,
    symbol: Seq<char>,
    strategy_id: i32,
    inherited: Set<Seq<char>>,
) -> bool {
    let key = upper(symbol);
    !store.contains_key(key) || store[key].strategy_id == strategy_id || inherited.contains(key)
}

/// What seeding the store from one position comes to: the store, and whether
/// the symbol counts as half sold.
pub open spec fn seeded_one(
    store: Map<Seq<char>, MetaView>,
    scaled: Set<Seq<char>>,
    pos: Position,
    strategy_id: i32,
    now: i64,
) -> Option<(Map<Seq<char>, MetaView>, Set<Seq<char>>)> {
    let key = upper(pos.symbol@);
    if store.contains_key(key) {
        Some(
            (
                store,
                if store[key].scaled_at_1r {
                    scaled.insert(key)
                } else {
                    scaled
                },
            ),
        )
    } else {
        match pos.stop_loss {
            None => Some((store, scaled)),
            Some(sl) => match first_risk(pos.entry_price, sl, pos.qty) {
                None => None,
                Some(None) => Some((store, scaled)),
                Some(Some(risk)) => Some(
                    (
                        store.insert(
                            key,
                            opened_meta(
                                key,
                                strategy_id,
                                pos.entry_price,
                                sl,
                                pos.qty,
                                risk,
                                match pos.opened_bar_time {
                                    Some(t) => t,
                                    None => now,
                                },
                                None,
                            ),
                        ),
                        scaled,
                    ),
                ),
            },
        }
    }
}

/// The store and the half-sold symbols after seeding from the first `n` positions.
pub open spec fn seeded(
    store: Map<Seq<char>, MetaView>,
    scaled: Set<Seq<char>>,
    positions: Seq<Position>,
    n: int,
    strategy_id: i32,
    now: i64,
) -> Option<(Map<Seq<char>, MetaView>, Set<Seq<char>>)>
    decreases n,
{
    if n <= 0 {
        Some((store, scaled))
    } else {
        match seeded(store, scaled, positions, n - 1, strategy_id, now) {
            None => None,
            Some((s, c)) => seeded_one(s, c, positions[n - 1], strategy_id, now),
        }
    }
}

proof fn lemma_seeded_none(
    store: Map<Seq<char>, MetaView>,
    scaled: Set<Seq<char>>,
    positions: Seq<Position>,
    n: int,
    m: int,
    strategy_id: i32,
    now: i64,
)
    requires
        0 <= n <= m,
        seeded(store, scaled, positions, n, strategy_id, now) is None,
    ensures
        seeded(store, scaled, positions, m, strategy_id, now) is None,
    decreases m - n,
{
    if n < m {
        lemma_seeded_none(store, scaled, positions, n, m - 1, strategy_id, now);
    }
}

impl OpenMeta {
    pub fn new() -> (r: Self)
        ensures
            r@ == Map::<Seq<char>, MetaView>::empty(),
    {
        let r = OpenMeta { rows: SymMap::new() };
        proof {
            assert(r@ =~= Map::<Seq<char>, MetaView>::empty());
        }
        r
    }

    /// Puts a row under its key.
    pub fn put(&mut self, key: &str, m: OpenTradeMeta)
        ensures
            final(self)@ == old(self)@.insert(key@, m@),
    {
        self.rows.insert(key, m);
        proof {
            assert(self@ =~= old(self)@.insert(key@, m@));
        }
    }

    /// How many rows there are.
    pub fn len(&self) -> (r: usize)
        ensures
            r == self.listing().len(),
    {
        self.rows.len()
    }

    /// The rows with their keys, in the order in which they came.
    pub closed spec fn listing(&self) -> Seq<(String, OpenTradeMeta)> {
        self.rows.list()
    }

    /// The key and the row at a place of the listing.
    pub fn at(&self, i: usize) -> (r: (&str, &OpenTradeMeta))
        requires
            i < self.listing().len(),
        ensures
            r.0@ == self.listing()[i as int].0@,
            r.1@ == self.listing()[i as int].1@,
    {
        (self.rows.key_at(i), self.rows.value_at(i))
    }

    /// What is remembered of a symbol.
    pub fn get(&self, symbol: &str) -> (r: Option<&OpenTradeMeta>)
        ensures
            match r {
                Some(m) => self@.contains_key(upper(symbol@)) && m@ == self@[upper(symbol@)],
                None => !self@.contains_key(upper(symbol@)),
            },
    {
        let key = symbol.to_ascii_uppercase();
        self.rows.get(key.as_str())
    }

    /// Remembers a trade that opened, if it has a risk.
    pub fn on_open(
        &mut self,
        strategy_id: i32,
        symbol: &str,
        entry: Dec,
        stop_loss: Dec,
        qty: Dec,
        opened_ts: i64,
        btc_regime: Option<String>,
    ) -> (r: Option<bool>)
        ensures
            match first_risk(entry, stop_loss, qty) {
                None => r is None && final(self)@ == old(self)@,
                Some(None) => r == Some(false) && final(self)@ == old(self)@,
                Some(Some(risk)) => r == Some(true) && final(self)@ == old(self)@.insert(
                    upper(symbol@),
                    opened_meta(
                        upper(symbol@),
                        strategy_id,
                        entry,
                        stop_loss,
                        qty,
                        risk,
                        opened_ts,
                        opt_view(btc_regime),
                    ),
                ),
            },
    {
        let risk: Dec = match initial_risk_usdt(entry, stop_loss, qty)? {
            Some(x) => x,
            None => return Some(false),
        };
        let key = symbol.to_ascii_uppercase();
        let m: OpenTradeMeta = opened_row(
            key.as_str(),
            strategy_id,
            entry,
            stop_loss,
            qty,
            risk,
            opened_ts,
            btc_regime,
        );
        self.put(key.as_str(), m);
        Some(true)
    }

    /// Whether half of this very trade was sold at one risk.
    pub fn meta_scaled_for_entry(&self, symbol: &str, entry: Dec, strategy_id: i32) -> (r: Option<bool>)
        ensures
            r == was_scaled(self@, symbol@, entry, strategy_id),
    {
        let m: &OpenTradeMeta = match self.get(symbol) {
            Some(m) => m,
            None => return Some(false),
        };
        if m.strategy_id != strategy_id || !m.scaled_at_1r {
            return Some(false);
        }
        match m.entry_dec() {
            None => Some(false),
            Some(e) => {
                let diff: Dec = minus(Some(e), Some(entry))?.abs();
                Some(diff <= Dec::new(1, 8))
            },
        }
    }

    /// Whether continuation manages a long of this symbol.
    pub fn continuation_owns(&self, symbol: &str, strategy_id: i32, inherited: &SymSet) -> (r: bool)
        ensures
            r == owned_by(self@, symbol@, strategy_id, inherited@),
    {
        match self.get(symbol) {
            None => true,
            Some(m) => {
                let key = symbol.to_ascii_uppercase();
                m.strategy_id == strategy_id || inherited.contains(key.as_str())
            },
        }
    }

    /// Remembers that half of a trade was sold.
    pub fn mark_scaled(&mut self, symbol: &str) -> (r: bool)
        ensures
            final(self)@ == store_scaled(old(self)@, symbol@),
            r == old(self)@.contains_key(upper(symbol@)),
    {
        let key = symbol.to_ascii_uppercase();
        let next: Option<OpenTradeMeta> = match self.get(symbol) {
            Some(m) => {
                let mut out: OpenTradeMeta = m.clone();
                out.scaled_at_1r = true;
                Some(out)
            },
            None => None,
        };
        match next {
            Some(m) => {
                self.put(key.as_str(), m);
                true
            },
            None => false,
        }
    }

    /// Takes a mark into the row of a symbol. Says whether the row took it.
    pub fn update_mark(&mut self, symbol: &str, mark: Dec, now: i64) -> (r: Option<bool>)
        ensures
            match store_marked(old(self)@, symbol@, mark, now) {
                Some((next, took)) => r == Some(took) && final(self)@ == next,
                None => r is None && final(self)@ == old(self)@,
            },
    {
        let key = symbol.to_ascii_uppercase();
        let next: Option<OpenTradeMeta> = match self.get(symbol) {
            Some(m) => apply_mark_to_meta(m, mark, now)?,
            None => None,
        };
        match next {
            Some(m) => {
                self.put(key.as_str(), m);
                Some(true)
            },
            None => Some(false),
        }
    }

    /// Takes the marks of a snapshot into the rows of the held positions.
    pub fn update_from_positions(
        &mut self,
        positions: &[Position],
        snapshot: &MarketSnapshot,
        now: i64,
    ) -> (r: Option<bool>)
        ensures
            match store_updated(old(self)@, positions@, positions@.len() as int, *snapshot, now) {
                Some((next, dirty)) => r == Some(dirty) && final(self)@ == next,
                None => r is None,
            },
    {
        let ghost start = self@;
        let mut dirty: bool = false;
        let mut i: usize = 0;
        while i < positions.len()
            invariant
                i <= positions@.len(),
                start == old(self)@,
                store_updated(start, positions@, i as int, *snapshot, now) == Some((self@, dirty)),
            decreases positions@.len() - i,
        {
            let pos: &Position = &positions[i];
            if pos.qty.is_pos() {
                if let Some(mark) = mark_of_held(snapshot, pos.symbol.as_str()) {
                    match self.update_mark(pos.symbol.as_str(), mark, now) {
                        Some(took) => {
                            dirty = dirty || took;
                        },
                        None => {
                            proof {
                                lemma_updated_none(
                                    start,
                                    positions@,
                                    i as int + 1,
                                    positions@.len() as int,
                                    *snapshot,
                                    now,
                                );
                            }
                            return None;
                        },
                    }
                }
            }
            i = i + 1;
        }
        Some(dirty)
    }

    /// What a close says of a trade. A full close forgets the trade, a partial
    /// one marks it as half sold.
    pub fn metrics_for_close(&mut self, symbol: &str, pnl: Option<Dec>, now: i64, partial: bool) -> (r:
        Option<CloseMetrics>)
        ensures
            ({
                let key = upper(symbol@);
                let before = old(self)@;
                if !before.contains_key(key) {
                    r is Some && r->0@ == no_metrics() && final(self)@ == before
                } else {
                    match (r, close_metrics(before[key], pnl, now, partial)) {
                        (Some(a), Some(b)) => a@ == b && final(self)@ == (if partial {
                            store_scaled(before, symbol@)
                        } else {
                            before.remove(key)
                        }),
                        (None, None) => final(self)@ == before,
                        _ => false,
                    }
                }
            }),
    {
        let out: CloseMetrics = match self.get(symbol) {
            Some(m) => metrics_of(m, pnl, now, partial)?,
            None => return Some(CloseMetrics::default()),
        };
        if partial {
            self.mark_scaled(symbol);
        } else {
            self.remove(symbol);
        }
        Some(out)
    }

    /// Forgets a trade.
    pub fn remove(&mut self, symbol: &str) -> (r: bool)
        ensures
            final(self)@ == old(self)@.remove(upper(symbol@)),
            r == old(self)@.contains_key(upper(symbol@)),
    {
        let key = symbol.to_ascii_uppercase();
        let had: bool = self.rows.contains_key(key.as_str());
        self.rows.remove(key.as_str());
        proof {
            assert(self@ =~= old(self)@.remove(upper(symbol@)));
        }
        had
    }

    fn seed_one(&mut self, scaled: &mut SymSet, pos: &Position, strategy_id: i32, now: i64) -> (r: Option<()>)
        ensures
            match seeded_one(old(self)@, old(scaled)@, *pos, strategy_id, now) {
                Some((s, c)) => r is Some && final(self)@ == s && final(scaled)@ == c,
                None => r is None,
            },
    {
        let key = pos.symbol.as_str().to_ascii_uppercase();
        if let Some(m) = self.get(pos.symbol.as_str()) {
            if m.scaled_at_1r {
                scaled.insert(key.as_str());
            }
            return Some(());
        }
        let sl: Dec = match pos.stop_loss {
            Some(x) => x,
            None => return Some(()),
        };
        let risk: Dec = match initial_risk_usdt(pos.entry_price, sl, pos.qty)? {
            Some(x) => x,
            None => return Some(()),
        };
        let opened: i64 = match pos.opened_bar_time {
            Some(t) => t,
            None => now,
        };
        let m: OpenTradeMeta = opened_row(
            key.as_str(),
            strategy_id,
            pos.entry_price,
            sl,
            pos.qty,
            risk,
            opened,
            None,
        );
        self.put(key.as_str(), m);
        Some(())
    }

    /// Makes sure that the open positions are remembered, and tells the desk
    /// which of them are half sold.
    pub fn seed_from_positions(&mut self, state: &mut EngineState, positions: &[Position], now: i64) -> (r:
        Option<()>)
        ensures
            match seeded(
                old(self)@,
                old(state)@.scaled_one_r,
                positions@,
                positions@.len() as int,
                old(state)@.strategy_id,
                now,
            ) {
                Some((s, c)) => {
                    &&& r is Some
                    &&& final(self)@ == s
                    &&& final(state)@ == (EngineStateView { scaled_one_r: c, ..old(state)@ })
                },
                None => r is None,
            },
    {
        let ghost start = self@;
        let mut scaled: SymSet = state.scaled_one_r.clone();
        let ghost first = scaled@;
        let sid: i32 = state.strategy_id;
        let mut i: usize = 0;
        while i < positions.len()
            invariant
                i <= positions@.len(),
                start == old(self)@,
                state@ == old(state)@,
                first == old(state)@.scaled_one_r,
                sid == old(state)@.strategy_id,
                seeded(start, first, positions@, i as int, sid, now) == Some((self@, scaled@)),
            decreases positions@.len() - i,
        {
            match self.seed_one(&mut scaled, &positions[i], sid, now) {
                Some(_) => {},
                None => {
                    proof {
                        lemma_seeded_none(
                            start,
                            first,
                            positions@,
                            i as int + 1,
                            positions@.len() as int,
                            sid,
                            now,
                        );
                    }
                    return None;
                },
            }
            i = i + 1;
        }
        state.scaled_one_r = scaled;
        Some(())
    }
}

/// How far the last bars fell back from their high, as part of it; the inner
/// `None` where there are too few or no high.
pub open spec fn recent_pullback(bars: Seq<Bar>) -> Option<Option<Dec>> {
    let n = bars.len() as int;
    let from = if n > 12 {
        n - 12
    } else {
        0
    };
    if n < 3 {
        Some(None)
    } else {
        let high = highest(bars, from, n);
        if !high.pos() {
            Some(None)
        } else {
            match n_div(n_sub(Some(high), Some(lowest(bars, from, n))), Some(high)) {
                Some(x) => Some(Some(x)),
                None => None,
            }
        }
    }
}

fn approx_pullback_pct(bars: &[Bar]) -> (r: Option<Option<Dec>>)
    ensures
        r == recent_pullback(bars@),
{
    let n: usize = bars.len();
    if n < 3 {
        return Some(None);
    }
    let from: usize = if n > 12 {
        n - 12
    } else {
        0
    };
    let mut high: Dec = bars[from].high;
    let mut low: Dec = bars[from].low;
    let mut i: usize = from + 1;
    while i < n
        invariant
            from < i <= n,
            n == bars@.len(),
            high == highest(bars@, from as int, i as int),
            low == lowest(bars@, from as int, i as int),
        decreases n - i,
    {
        if high <= bars[i].high {
            high = bars[i].high;
        }
        if bars[i].low < low {
            low = bars[i].low;
        }
        i = i + 1;
    }
    if !high.is_pos() {
        return Some(None);
    }
    Some(Some(over(minus(Some(high), Some(low)), Some(high))?))
}

/// How far the price is below the day's high, as part of it.
pub open spec fn below_high(t: Ticker) -> Option<Option<Dec>> {
    if !t.high_price.pos() || !t.last_price.pos() {
        Some(None)
    } else {
        match n_div(n_sub(Some(t.high_price), Some(t.last_price)), Some(t.high_price)) {
            Some(x) => Some(Some(x)),
            None => None,
        }
    }
}

fn near_high_distance_frac(t: &Ticker) -> (r: Option<Option<Dec>>)
    ensures
        r == below_high(*t),
{
    if !t.high_price.is_pos() || !t.last_price.is_pos() {
        return Some(None);
    }
    Some(
        Some(over(minus(Some(t.high_price), Some(t.last_price)), Some(t.high_price))?),
    )
}

/// An optional number as it is printed.
pub open spec fn opt_fixed(x: Option<Dec>) -> Option<Seq<char>> {
    match x {
        Some(d) => Some(fixed_text(d)),
        None => None,
    }
}

fn print_opt(x: Option<Dec>) -> (r: Option<String>)
    ensures
        opt_view(r) == opt_fixed(x),
{
    match x {
        Some(d) => Some(fmt_fixed(d)),
        None => None,
    }
}

/// The hour's return of the leading coin; the inner `None` without its bars.
pub open spec fn btc_hour(s: MarketSnapshot) -> Option<Option<Dec>> {
    let bars = s.series("BTCUSDT"@);
    if bars.len() == 0 {
        Some(None)
    } else {
        match row_ignoring_case(s.tickers@, "BTCUSDT"@) {
            Some(t) => return_over(bars, t.last_price, 3_600_000),
            None => return_over(bars, bars.last().close, 3_600_000),
        }
    }
}

fn btc_hour_return(snapshot: &MarketSnapshot) -> (r: Option<Option<Dec>>)
    ensures
        r == btc_hour(*snapshot),
{
    let bars: &[Bar] = snapshot.bars_for("BTCUSDT");
    let n: usize = bars.len();
    if n == 0 {
        return Some(None);
    }
    let px: Dec = match find_ignoring_case(snapshot.tickers.as_slice(), "BTCUSDT") {
        Some(t) => t.last_price,
        None => bars[n - 1].close,
    };
    ret_over(bars, px, 3_600_000)
}

/// How far the stop is from the entry, as part of it.
pub open spec fn stop_part(entry: Dec, stop_loss: Dec) -> Option<Option<Dec>> {
    if !entry.pos() {
        Some(None)
    } else {
        match n_sub(Some(entry), Some(stop_loss)) {
            None => None,
            Some(diff) => match n_div(Some(magnitude(diff)), Some(entry)) {
                Some(x) => Some(Some(x)),
                None => None,
            },
        }
    }
}

/// The market at an entry.
pub open spec fn entry_features(
    s: MarketSnapshot,
    symbol: Seq<char>,
    entry: Dec,
    stop_loss: Dec,
    risk_pct: Option<Dec>,
) -> Option<EntryView> {
    let bars = s.series(symbol);
    let row = row_ignoring_case(s.tickers@, symbol);
    let near = match row {
        Some(t) => below_high(t),
        None => Some(None),
    };
    match (
        near,
        return_over(bars, entry, 3_600_000),
        return_over(bars, entry, 14_400_000),
        recent_pullback(bars),
        stop_part(entry, stop_loss),
        btc_hour(s),
        snapshot_regime(s),
    ) {
        (
            Some(near),
            Some(hour),
            Some(four),
            Some(pull),
            Some(stop),
            Some(btc),
            Some(regime),
        ) => Some(
            EntryView {
                ret_24h: match row {
                    Some(t) => Some(fixed_text(t.price_change_percent)),
                    None => None,
                },
                ret_1h: opt_fixed(hour),
                ret_4h: opt_fixed(four),
                quote_volume: match row {
                    Some(t) => if t.quote_volume.pos() {
                        Some(fixed_text(t.quote_volume))
                    } else {
                        None
                    },
                    None => None,
                },
                near_high_frac: opt_fixed(near),
                pullback_pct: opt_fixed(pull),
                stop_distance: opt_fixed(stop),
                risk_pct: match risk_pct {
                    Some(x) => if x.pos() {
                        Some(fixed_text(x))
                    } else {
                        None
                    },
                    None => None,
                },
                btc_ret_1h: opt_fixed(btc),
                btc_regime: Some(regime.tag()),
            },
        ),
        _ => None,
    }
}

/// Describes the market at an entry. The equity does not enter: the risk is a
/// configured part of it.
pub fn build_entry_snapshot(
    snapshot: &MarketSnapshot,
    symbol: &str,
    entry: Dec,
    stop_loss: Dec,
    risk_pct: Option<Dec>,
    _equity: Option<Dec>,
) -> (r: Option<EntrySnapshot>)
    ensures
        match (r, entry_features(*snapshot, symbol@, entry, stop_loss, risk_pct)) {
            (Some(a), Some(b)) => a@ == b,
            (None, None) => true,
            _ => false,
        },
{
    let mut out: EntrySnapshot = EntrySnapshot::default();
    if let Some(t) = find_ignoring_case(snapshot.tickers.as_slice(), symbol) {
        out.ret_24h = Some(fmt_fixed(t.price_change_percent));
        if t.quote_volume.is_pos() {
            out.quote_volume = Some(fmt_fixed(t.quote_volume));
        }
        out.near_high_frac = print_opt(near_high_distance_frac(t)?);
    }
    let bars: &[Bar] = snapshot.bars_for(symbol);
    out.ret_1h = print_opt(ret_over(bars, entry, 3_600_000)?);
    out.ret_4h = print_opt(ret_over(bars, entry, 14_400_000)?);
    out.pullback_pct = print_opt(approx_pullback_pct(bars)?);
    if entry.is_pos() {
        let dist: Dec = minus(Some(entry), Some(stop_loss))?.abs();
        out.stop_distance = Some(fmt_fixed(over(Some(dist), Some(entry))?));
    }
    if let Some(x) = risk_pct {
        if x.is_pos() {
            out.risk_pct = Some(fmt_fixed(x));
        }
    }
    out.btc_ret_1h = print_opt(btc_hour_return(snapshot)?);
    out.btc_regime = Some(own(classify_snapshot(snapshot)?.journal_tag()));
    Some(out)
}

/// A full close forgets the trade, a partial one keeps it and marks it as half
/// sold, and no other trade changes.
pub proof fn law_close_touches_one_trade(
    store: Map<Seq<char>, MetaView>,
    symbol: Seq<char>,
    other: Seq<char>,
)
    requires
        other != upper(symbol),
    ensures
        !store.remove(upper(symbol)).contains_key(upper(symbol)),
        store.remove(upper(symbol)).contains_key(other) == store.contains_key(other),
        store.contains_key(other) ==> store.remove(upper(symbol))[other] == store[other],
        store.contains_key(upper(symbol)) ==> store_scaled(store, symbol).contains_key(upper(symbol))
            && store_scaled(store, symbol)[upper(symbol)].scaled_at_1r,
        store_scaled(store, symbol).contains_key(other) == store.contains_key(other),
        store.contains_key(other) ==> store_scaled(store, symbol)[other] == store[other],
{
}

/// What a trade risks, wherever the decimals hold all digits: the way between the
/// entry and the stop, whichever is higher, for each piece.
pub proof fn law_first_risk(entry: Dec, stop_loss: Dec, qty: Dec)
    requires
        decimal_rules(),
        entry.pos() && qty.pos(),
        short(entry, stop_loss),
        short_product(magnitude(decimal_difference(entry, stop_loss)->0), qty),
        entry.units() != stop_loss.units(),
    ensures
        first_risk(entry, stop_loss, qty) matches Some(Some(r)) && r.pos() && r.units() * dec(
            1,
            0,
        ).units() == (if entry.units() > stop_loss.units() {
            entry.units() - stop_loss.units()
        } else {
            stop_loss.units() - entry.units()
        }) * qty.units(),
{
    let diff = decimal_difference(entry, stop_loss)->0;
    law_short_sums_are_exact(entry, stop_loss);
    lemma_wf(diff);
    lemma_dec_parts(-diff.m(), diff.s());
    lemma_units_neg(negated(diff), diff);
    lemma_units_sign(diff);
    let way = magnitude(diff);
    law_short_products_are_exact(way, qty);
    let r = decimal_product(way, qty)->0;
    lemma_dec_parts(1, 0);
    lemma_units_sign(dec(1, 0));
    let a = r.units();
    let one = dec(1, 0).units();
    let b = way.units();
    let c = qty.units();
    assert(a > 0) by (nonlinear_arith)
        requires
            a * one == b * c,
            b > 0,
            c > 0,
            one > 0,
    ;
}

/// A result in risks: times the risk it is the result, wherever the decimals divide
/// evenly. So it is above one exactly where the trade made more than it risked.
pub proof fn law_result_in_risks(usdt: Dec, risk: Dec)
    requires
        decimal_rules(),
        risk.pos(),
        goes_into(risk, usdt),
    ensures
        in_r(usdt, risk) matches Some(Some(x)) && x.units() * risk.units() == usdt.units() * dec(
            1,
            0,
        ).units() && (dec(1, 0).lt(x) <==> risk.lt(usdt)),
{
    law_even_quotients_are_exact(usdt, risk);
}

/// What a long is ahead on the mark, wherever the decimals hold all digits: the way
/// from the entry up to the mark for each piece.
pub proof fn law_mark_profit(entry: Dec, mark: Dec, qty: Dec)
    requires
        decimal_rules(),
        short(mark, entry),
        short_product(decimal_difference(mark, entry)->0, qty),
    ensures
        mark_pnl(entry, mark, qty) matches Some(x) && x.units() * dec(1, 0).units() == (mark.units()
            - entry.units()) * qty.units(),
{
    law_short_sums_are_exact(mark, entry);
    law_short_products_are_exact(decimal_difference(mark, entry)->0, qty);
}

/// When a trade first was its risk ahead is noted once: at the first result that is
/// at least the risk.
pub proof fn law_one_risk_is_noted_at_the_first_such_result(
    x: Excursion,
    pnl: Dec,
    risk: Dec,
    now: i64,
)
    requires
        x.time_to_1r_ts is None,
        risk.pos(),
    ensures
        excursion_at(x, pnl, risk, now).time_to_1r_ts == if risk.le(pnl) {
            Some(now)
        } else {
            None
        },
        excursion_at(x, pnl, risk, now).mfe_peak_ts == if x.mfe_usdt.lt(pnl) {
            Some(now)
        } else {
            x.mfe_peak_ts
        },
{
}

} // verus!

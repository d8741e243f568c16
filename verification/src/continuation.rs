//! Strategy 4 (Continuation) and Strategy 5 (Verify, locked 1h): a long-only
//! pullback on liquid names that does not chase the day's leaders.
//!
//! An outer `None` says that a number left the decimal range.
use crate::config::TradeInterval;
use crate::dec::{dec, minus, n_div, n_mul, n_sub, over, times, Dec, Num};
use crate::models::{closed_bar, is_red, last_closed_bar, bar_is_red, Bar, MarketSnapshot, Ticker};
use crate::momentum::{bar_of, get_bar, scan_is_due, scan_ready};
use crate::ranking::{
    first_n, is_junk, is_junk_symbol, is_liquid_major, is_major_symbol, largest_volume, ranked,
    sort_ranked, top_volume, RankBy,
};
use crate::sessions::{default_entry_windows, default_windows, HourWindow};
use crate::symbols::SymSet;
use crate::text::{before, has_key, holds_key, lower, own, same, text_lt, upper, views};
use vstd::prelude::*;

pub mod entry;
pub mod laws;
pub mod manage;
pub mod manage_laws;

pub use entry::{
    continuation_decision, continuation_decisions, pick_strategy4_book, s4_setup_skip,
    skip_no_htf_trend, skip_no_uptrend,
};
pub use manage::manage_continuation_long;


verus! {

/// How often the book is scanned for a new entry.
pub const SCAN_MS: i64 = 60_000;

/// Whether a scan is due.
pub fn scan_due(last_scan_ts: i64, now: i64) -> (r: bool)
    ensures
        r == scan_is_due(now as int, last_scan_ts as int, SCAN_MS as int),
{
    scan_ready(now, last_scan_ts, SCAN_MS)
}

/// How often each reason to skip an entry came up, in the order in which the
/// reasons first came.
#[derive(Debug)]
pub struct SkipTally {
    pub rows: Vec<(String, u64)>,
}

/// A reason and how often it came.
pub struct SkipRow {
    pub reason: Seq<char>,
    pub count: u64,
}

impl View for SkipTally {
    type V = Seq<SkipRow>;

    open spec fn view(&self) -> Seq<SkipRow> {
        skip_rows(self.rows@)
    }
}

pub open spec fn skip_rows(v: Seq<(String, u64)>) -> Seq<SkipRow> {
    Seq::new(v.len(), |i: int| SkipRow { reason: v[i].0@, count: v[i].1 })
}

/// One more; a full counter stays full.
pub open spec fn one_more(n: u64) -> u64 {
    if n < u64::MAX {
        (n + 1) as u64
    } else {
        n
    }
}

/// The tally with one more skip. An empty reason is not counted.
pub open spec fn noted(rows: Seq<SkipRow>, reason: Seq<char>) -> Seq<SkipRow>
    decreases rows.len(),
{
    if reason.len() == 0 {
        rows
    } else if rows.len() == 0 {
        seq![SkipRow { reason, count: 1 }]
    } else if rows[0].reason == reason {
        rows.update(0, SkipRow { reason, count: one_more(rows[0].count) })
    } else {
        seq![rows[0]] + noted(rows.drop_first(), reason)
    }
}

/// The tally after several skips, in order.
pub open spec fn noted_all(rows: Seq<SkipRow>, reasons: Seq<Seq<char>>) -> Seq<SkipRow>
    decreases reasons.len(),
{
    if reasons.len() == 0 {
        rows
    } else {
        noted(noted_all(rows, reasons.drop_last()), reasons.last())
    }
}

proof fn lemma_noted_at(rows: Seq<SkipRow>, reason: Seq<char>, i: int)
    requires
        reason.len() > 0,
        0 <= i < rows.len(),
        rows[i].reason == reason,
        forall|j: int| 0 <= j < i ==> (#[trigger] rows[j]).reason != reason,
    ensures
        noted(rows, reason) == rows.update(
            i,
            SkipRow { reason, count: one_more(rows[i].count) },
        ),
    decreases i,
{
    if i > 0 {
        assert(rows[0].reason != reason);
        assert forall|j: int| 0 <= j < i - 1 implies (#[trigger] rows.drop_first()[j]).reason
            != reason by {
            assert(rows.drop_first()[j] == rows[j + 1]);
        }
        lemma_noted_at(rows.drop_first(), reason, i - 1);
        let x = SkipRow { reason, count: one_more(rows[i].count) };
        assert(seq![rows[0]] + rows.drop_first().update(i - 1, x) =~= rows.update(i, x));
    }
}

proof fn lemma_noted_end(rows: Seq<SkipRow>, reason: Seq<char>)
    requires
        reason.len() > 0,
        forall|j: int| 0 <= j < rows.len() ==> (#[trigger] rows[j]).reason != reason,
    ensures
        noted(rows, reason) == rows.push(SkipRow { reason, count: 1 }),
    decreases rows.len(),
{
    let x = SkipRow { reason, count: 1 };
    if rows.len() > 0 {
        assert(rows[0].reason != reason);
        assert forall|j: int| 0 <= j < rows.len() - 1 implies (#[trigger] rows.drop_first()[j]).reason
            != reason by {
            assert(rows.drop_first()[j] == rows[j + 1]);
        }
        lemma_noted_end(rows.drop_first(), reason);
        assert(seq![rows[0]] + rows.drop_first().push(x) =~= rows.push(x));
    } else {
        assert(seq![x] =~= rows.push(x));
    }
}

/// Whether a row of the tally stands before another: the more frequent first,
/// then by text.
pub open spec fn skips_before(a: SkipRow, b: SkipRow) -> bool {
    a.count > b.count || (a.count == b.count && text_lt(a.reason, b.reason))
}

/// A row put into a sorted tally, behind its equals.
pub open spec fn skip_put(v: Seq<SkipRow>, x: SkipRow) -> Seq<SkipRow>
    decreases v.len(),
{
    if v.len() > 0 && skips_before(x, v.last()) {
        skip_put(v.drop_last(), x).push(v.last())
    } else {
        v.push(x)
    }
}

/// The tally from the most frequent reason on.
pub open spec fn skips_sorted(v: Seq<SkipRow>) -> Seq<SkipRow>
    decreases v.len(),
{
    if v.len() == 0 {
        Seq::empty()
    } else {
        skip_put(skips_sorted(v.drop_last()), v.last())
    }
}

proof fn lemma_skip_put_at(v: Seq<SkipRow>, x: SkipRow, p: int)
    requires
        0 <= p <= v.len(),
        forall|i: int| p <= i < v.len() ==> skips_before(x, #[trigger] v[i]),
        p > 0 ==> !skips_before(x, v[p - 1]),
    ensures
        skip_put(v, x) == v.insert(p, x),
    decreases v.len(),
{
    if p == v.len() {
        assert(v.insert(p, x) =~= v.push(x));
    } else {
        assert(skips_before(x, v[v.len() - 1]));
        let d = v.drop_last();
        assert forall|i: int| p <= i < d.len() implies skips_before(x, #[trigger] d[i]) by {
            assert(d[i] == v[i]);
        }
        lemma_skip_put_at(d, x, p);
        assert(d.insert(p, x).push(v.last()) =~= v.insert(p, x));
    }
}

/// Whether each reason has one row.
pub open spec fn reasons_differ(rows: Seq<SkipRow>) -> bool {
    forall|i: int, j: int|
        0 <= i < j < rows.len() ==> (#[trigger] rows[i]).reason != (#[trigger] rows[j]).reason
}

proof fn lemma_noted_differ(rows: Seq<SkipRow>, reason: Seq<char>)
    requires
        reasons_differ(rows),
    ensures
        reasons_differ(noted(rows, reason)),
{
    if reason.len() > 0 {
        if exists|i: int| 0 <= i < rows.len() && (#[trigger] rows[i]).reason == reason {
            let i = choose|i: int| 0 <= i < rows.len() && (#[trigger] rows[i]).reason == reason;
            lemma_noted_at(rows, reason, i);
        } else {
            lemma_noted_end(rows, reason);
        }
    }
}

/// Noting skips keeps one row for each reason.
pub proof fn law_skip_reasons_stay_distinct(rows: Seq<SkipRow>, reasons: Seq<Seq<char>>)
    requires
        reasons_differ(rows),
    ensures
        reasons_differ(noted_all(rows, reasons)),
    decreases reasons.len(),
{
    if reasons.len() > 0 {
        law_skip_reasons_stay_distinct(rows, reasons.drop_last());
        lemma_noted_differ(noted_all(rows, reasons.drop_last()), reasons.last());
    }
}

impl SkipTally {
    pub fn new() -> (r: Self)
        ensures
            r@ == Seq::<SkipRow>::empty(),
    {
        let r = SkipTally { rows: Vec::new() };
        proof {
            assert(r@ =~= Seq::<SkipRow>::empty());
        }
        r
    }

    /// Counts a reason to skip an entry.
    pub fn note_s4_skip(&mut self, reason: &str)
        ensures
            final(self)@ == noted(old(self)@, reason@),
    {
        if reason.is_empty() {
            return ;
        }
        let ghost all = self@;
        let mut i: usize = 0;
        while i < self.rows.len()
            invariant
                i <= self.rows@.len(),
                self@ == all,
                all == old(self)@,
                reason@.len() > 0,
                forall|j: int| 0 <= j < i ==> (#[trigger] all[j]).reason != reason@,
            decreases self.rows@.len() - i,
        {
            if same(self.rows[i].0.as_str(), reason) {
                let n: u64 = self.rows[i].1;
                let m: u64 = if n < u64::MAX {
                    n + 1
                } else {
                    n
                };
                self.rows.set(i, (own(reason), m));
                proof {
                    lemma_noted_at(all, reason@, i as int);
                    assert(self@ =~= noted(all, reason@));
                }
                return ;
            }
            i = i + 1;
        }
        self.rows.push((own(reason), 1));
        proof {
            lemma_noted_end(all, reason@);
            assert(self@ =~= noted(all, reason@));
        }
    }

    /// The `n` most frequent reasons.
    pub fn s4_skip_stats_top(&self, n: usize) -> (r: Vec<(String, u64)>)
        ensures
            skip_rows(r@) == first_n(skips_sorted(self@), n as int),
    {
        let mut out: Vec<(String, u64)> = Vec::new();
        let mut i: usize = 0;
        proof {
            assert(skip_rows(out@) =~= Seq::<SkipRow>::empty());
        }
        while i < self.rows.len()
            invariant
                i <= self.rows@.len(),
                skip_rows(out@) == skips_sorted(self@.take(i as int)),
            decreases self.rows@.len() - i,
        {
            let reason: &str = self.rows[i].0.as_str();
            let count: u64 = self.rows[i].1;
            let ghost x = SkipRow { reason: reason@, count };
            let ghost sorted = skip_rows(out@);
            let mut p: usize = out.len();
            while p > 0 && (count > out[p - 1].1 || (count == out[p - 1].1 && before(
                reason,
                out[p - 1].0.as_str(),
            )))
                invariant
                    p <= out@.len(),
                    sorted == skip_rows(out@),
                    x == (SkipRow { reason: reason@, count }),
                    forall|k: int| p <= k < sorted.len() ==> skips_before(x, #[trigger] sorted[k]),
                decreases p,
            {
                proof {
                    assert(skips_before(x, sorted[p - 1]));
                }
                p = p - 1;
            }
            proof {
                lemma_skip_put_at(sorted, x, p as int);
                assert(self@.take(i as int + 1).drop_last() =~= self@.take(i as int));
            }
            out.insert(p, (own(reason), count));
            proof {
                assert(skip_rows(out@) =~= sorted.insert(p as int, x));
            }
            i = i + 1;
        }
        proof {
            assert(self@.take(i as int) =~= self@);
        }
        let ghost all = skip_rows(out@);
        if out.len() > n {
            out.truncate(n);
            proof {
                assert(skip_rows(out@) =~= all.take(n as int));
            }
        }
        out
    }
}

/// Knobs of the continuation desk.
#[derive(Debug)]
pub struct ContinuationParams {
    pub tp_pct: Dec,
    pub trail_pct: Dec,
    pub min_change_percent: Dec,
    pub min_quote_volume: Dec,
    pub min_price: Dec,
    pub max_change_percent: Option<Dec>,
    pub liquid_frac: Dec,
    pub liquid_n: usize,
    pub week_leader_pct: Dec,
    pub stretch_pct: Dec,
    pub near_high_frac: Dec,
    pub reward_r: Dec,
    /// The multiple of the risk at which a long is flattened.
    pub bank_r: Dec,
    pub min_stop_pct: Dec,
    pub max_stop_pct: Dec,
    pub always_enter: bool,
    pub entry_windows: Vec<HourWindow>,
    pub cooldown_ms: i64,
    pub max_positions: i32,
    /// ATR period of the adaptive stop; 0 switches it off.
    pub atr_period: usize,
    /// How many ATR the stop stands below the mark; the wider of it and the
    /// structural low counts.
    pub atr_k: Dec,
    /// The signal candle's volume must reach this part of the recent mean; 0
    /// switches the test off.
    pub volume_confirm_frac: Dec,
    /// Least depth of the pullback as part of the swing high; 0 switches the
    /// test off.
    pub min_pullback_pct: Dec,
    /// How many bars back the structural low is looked for.
    pub stop_lookback: usize,
    /// Interval of the signal candles.
    pub interval: TradeInterval,
    /// Whether the setup score gates entries.
    pub setup_score: bool,
}

/// The knobs with their windows as a sequence.
pub struct ContinuationView {
    pub tp_pct: Dec,
    pub trail_pct: Dec,
    pub min_change_percent: Dec,
    pub min_quote_volume: Dec,
    pub min_price: Dec,
    pub max_change_percent: Option<Dec>,
    pub liquid_frac: Dec,
    pub liquid_n: usize,
    pub week_leader_pct: Dec,
    pub stretch_pct: Dec,
    pub near_high_frac: Dec,
    pub reward_r: Dec,
    pub bank_r: Dec,
    pub min_stop_pct: Dec,
    pub max_stop_pct: Dec,
    pub always_enter: bool,
    pub entry_windows: Seq<HourWindow>,
    pub cooldown_ms: i64,
    pub max_positions: i32,
    pub atr_period: usize,
    pub atr_k: Dec,
    pub volume_confirm_frac: Dec,
    pub min_pullback_pct: Dec,
    pub stop_lookback: usize,
    pub interval: TradeInterval,
    pub setup_score: bool,
}

impl View for ContinuationParams {
    type V = ContinuationView;

    open spec fn view(&self) -> ContinuationView {
        ContinuationView {
            tp_pct: self.tp_pct,
            trail_pct: self.trail_pct,
            min_change_percent: self.min_change_percent,
            min_quote_volume: self.min_quote_volume,
            min_price: self.min_price,
            max_change_percent: self.max_change_percent,
            liquid_frac: self.liquid_frac,
            liquid_n: self.liquid_n,
            week_leader_pct: self.week_leader_pct,
            stretch_pct: self.stretch_pct,
            near_high_frac: self.near_high_frac,
            reward_r: self.reward_r,
            bank_r: self.bank_r,
            min_stop_pct: self.min_stop_pct,
            max_stop_pct: self.max_stop_pct,
            always_enter: self.always_enter,
            entry_windows: self.entry_windows@,
            cooldown_ms: self.cooldown_ms,
            max_positions: self.max_positions,
            atr_period: self.atr_period,
            atr_k: self.atr_k,
            volume_confirm_frac: self.volume_confirm_frac,
            min_pullback_pct: self.min_pullback_pct,
            stop_lookback: self.stop_lookback,
            interval: self.interval,
            setup_score: self.setup_score,
        }
    }
}

/// The knobs without settings.
pub open spec fn default_continuation() -> ContinuationView {
    ContinuationView {
        tp_pct: dec(25, 3),
        trail_pct: dec(8, 3),
        min_change_percent: dec(5, 1),
        min_quote_volume: dec(50_000, 0),
        min_price: dec(5, 1),
        max_change_percent: Some(dec(35, 0)),
        liquid_frac: dec(5, 3),
        liquid_n: 20,
        week_leader_pct: dec(4, 0),
        stretch_pct: dec(4, 0),
        near_high_frac: dec(5, 2),
        reward_r: dec(2, 0),
        bank_r: dec(15, 1),
        min_stop_pct: TradeInterval::Minute5.min_stop(),
        max_stop_pct: TradeInterval::Minute5.max_stop(),
        always_enter: false,
        entry_windows: default_windows(),
        cooldown_ms: 1_800_000,
        max_positions: 5,
        atr_period: 14,
        atr_k: dec(2, 0),
        volume_confirm_frac: dec(3, 1),
        min_pullback_pct: TradeInterval::Minute5.min_pullback(),
        stop_lookback: 3,
        interval: TradeInterval::Minute5,
        setup_score: true,
    }
}

impl Default for ContinuationParams {
    fn default() -> (r: Self)
        ensures
            r@ == default_continuation(),
    {
        ContinuationParams {
            tp_pct: Dec::new(25, 3),
            trail_pct: Dec::new(8, 3),
            min_change_percent: Dec::new(5, 1),
            min_quote_volume: Dec::from_int(50_000),
            min_price: Dec::new(5, 1),
            max_change_percent: Some(Dec::from_int(35)),
            liquid_frac: Dec::new(5, 3),
            liquid_n: 20,
            week_leader_pct: Dec::from_int(4),
            stretch_pct: Dec::from_int(4),
            near_high_frac: Dec::new(5, 2),
            reward_r: TradeInterval::Minute5.reward_r(),
            bank_r: Dec::new(15, 1),
            min_stop_pct: TradeInterval::Minute5.min_stop_pct(),
            max_stop_pct: TradeInterval::Minute5.max_stop_pct(),
            always_enter: false,
            entry_windows: default_entry_windows(),
            cooldown_ms: 1_800_000,
            max_positions: 5,
            atr_period: 14,
            atr_k: Dec::from_int(2),
            volume_confirm_frac: Dec::new(3, 1),
            min_pullback_pct: TradeInterval::Minute5.min_pullback_pct(),
            stop_lookback: 3,
            interval: TradeInterval::Minute5,
            setup_score: true,
        }
    }
}

/// The knobs with the stop, pullback and reward of an interval.
pub open spec fn for_interval(p: ContinuationView, interval: TradeInterval) -> ContinuationView {
    ContinuationView {
        interval,
        min_stop_pct: interval.min_stop(),
        max_stop_pct: interval.max_stop(),
        min_pullback_pct: interval.min_pullback(),
        reward_r: dec(2, 0),
        ..p
    }
}

impl ContinuationParams {
    pub fn with_interval(self, interval: TradeInterval) -> (r: Self)
        ensures
            r@ == for_interval(self@, interval),
    {
        let mut out: ContinuationParams = self;
        out.interval = interval;
        out.min_stop_pct = interval.min_stop_pct();
        out.max_stop_pct = interval.max_stop_pct();
        out.min_pullback_pct = interval.min_pullback_pct();
        out.reward_r = interval.reward_r();
        out
    }
}

/// The given knobs, else the defaults.
pub open spec fn continuation_knobs(p: Option<&ContinuationParams>) -> ContinuationView {
    match p {
        Some(q) => q@,
        None => default_continuation(),
    }
}

/// The largest quote volume on the tape; zero on an empty one.
pub open spec fn max_volume(tickers: Seq<Ticker>) -> Dec {
    if tickers.len() == 0 {
        dec(0, 0)
    } else {
        top_volume(tickers, tickers.len() as int)
    }
}

pub fn max_quote_volume(tickers: &[Ticker]) -> (r: Dec)
    ensures
        r == max_volume(tickers@),
{
    if tickers.len() == 0 {
        Dec::zero()
    } else {
        largest_volume(tickers)
    }
}

/// The least volume of a liquid name: the larger of the fixed floor and a part
/// of the largest volume.
pub open spec fn floor_volume(tickers: Seq<Ticker>, p: ContinuationView) -> Num {
    match n_mul(Some(max_volume(tickers)), Some(p.liquid_frac)) {
        Some(part) => Some(
            if part.lt(p.min_quote_volume) {
                p.min_quote_volume
            } else {
                part
            },
        ),
        None => None,
    }
}

pub fn volume_floor(tickers: &[Ticker], p: &ContinuationParams) -> (r: Num)
    ensures
        r == floor_volume(tickers@, p@),
{
    match times(Some(max_quote_volume(tickers)), Some(p.liquid_frac)) {
        Some(part) => if p.min_quote_volume > part {
            Some(p.min_quote_volume)
        } else {
            Some(part)
        },
        None => None,
    }
}

/// Whether a row is a liquid name that may be bought.
pub open spec fn is_liquid(t: Ticker, exclude: Seq<Seq<char>>, p: ContinuationView, floor: Dec) -> bool {
    &&& !has_key(exclude, upper(t.symbol@))
    &&& !is_junk(t.symbol@)
    &&& !is_liquid_major(t.symbol@)
    &&& t.last_price.pos()
    &&& p.min_price.le(t.last_price)
    &&& floor.le(t.quote_volume)
}

/// The liquid names from the most traded on.
pub open spec fn liquid_rows(
    tickers: Seq<Ticker>,
    exclude: Seq<Seq<char>>,
    p: ContinuationView,
) -> Option<Seq<Ticker>> {
    match floor_volume(tickers, p) {
        Some(floor) => Some(
            first_n(
                ranked(
                    RankBy::Volume,
                    tickers.filter(|t: Ticker| is_liquid(t, exclude, p, floor)),
                ),
                if p.liquid_n < 1 {
                    1
                } else {
                    p.liquid_n as int
                },
            ),
        ),
        None => None,
    }
}

/// Cuts a list of rows to its first `n`.
fn cut_rows(rows: &mut Vec<Ticker>, n: usize)
    ensures
        final(rows)@ == first_n(old(rows)@, n as int),
{
    if rows.len() > n {
        rows.truncate(n);
        proof {
            assert(rows@ =~= old(rows)@.take(n as int));
        }
    }
}

pub fn liquid_universe(tickers: &[Ticker], exclude: &[String], p: &ContinuationParams) -> (r: Option<
    Vec<Ticker>,
>)
    ensures
        match r {
            Some(v) => liquid_rows(tickers@, views(exclude@), p@) == Some(v@),
            None => liquid_rows(tickers@, views(exclude@), p@) is None,
        },
{
    let floor: Dec = volume_floor(tickers, p)?;
    let ghost test = |t: Ticker| is_liquid(t, views(exclude@), p@, floor);
    let mut rows: Vec<Ticker> = Vec::new();
    let mut i: usize = 0;
    proof {
        reveal(Seq::filter);
        assert(tickers@.take(0) =~= Seq::<Ticker>::empty());
        assert(tickers@.take(0).filter(test) =~= Seq::<Ticker>::empty());
    }
    while i < tickers.len()
        invariant
            i <= tickers@.len(),
            test == (|t: Ticker| is_liquid(t, views(exclude@), p@, floor)),
            rows@ == tickers@.take(i as int).filter(test),
        decreases tickers@.len() - i,
    {
        proof {
            reveal(Seq::filter);
            assert(tickers@.take(i as int + 1).drop_last() =~= tickers@.take(i as int));
        }
        let t: &Ticker = &tickers[i];
        let sym: &str = t.symbol.as_str();
        let key = sym.to_ascii_uppercase();
        if !holds_key(exclude, key.as_str()) && !is_junk_symbol(sym) && !is_major_symbol(sym)
            && t.last_price.is_pos() && t.last_price >= p.min_price && t.quote_volume >= floor {
            rows.push(t.clone());
        }
        i = i + 1;
    }
    proof {
        assert(tickers@.take(i as int) =~= tickers@);
    }
    let mut out: Vec<Ticker> = sort_ranked(RankBy::Volume, rows);
    let n: usize = if p.liquid_n < 1 {
        1
    } else {
        p.liquid_n
    };
    cut_rows(&mut out, n);
    Some(out)
}

/// Whether some row has the given upper-case symbol.
pub open spec fn row_keyed(rows: Seq<Ticker>, key: Seq<char>) -> bool {
    exists|i: int| 0 <= i < rows.len() && upper((#[trigger] rows[i]).symbol@) == key
}

/// The upper-case symbols of the rows.
pub open spec fn row_keys(rows: Seq<Ticker>) -> Set<Seq<char>> {
    Set::new(|k: Seq<char>| row_keyed(rows, k))
}

/// The upper-case symbols of the rows.
pub fn keys_of_rows(rows: &[Ticker]) -> (r: SymSet)
    ensures
        r@ == row_keys(rows@),
{
    let mut out = SymSet::new();
    let mut i: usize = 0;
    while i < rows.len()
        invariant
            i <= rows@.len(),
            forall|k: Seq<char>|
                #[trigger] out@.contains(k) <==> exists|j: int|
                    0 <= j < i && upper((#[trigger] rows@[j]).symbol@) == k,
        decreases rows@.len() - i,
    {
        let key = rows[i].symbol.as_str().to_ascii_uppercase();
        out.insert(key.as_str());
        proof {
            assert forall|k: Seq<char>| #[trigger] out@.contains(k) <==> exists|j: int|
                0 <= j < i + 1 && upper((#[trigger] rows@[j]).symbol@) == k by {
                if k == key@ {
                    assert(upper(rows@[i as int].symbol@) == k);
                }
            }
        }
        i = i + 1;
    }
    proof {
        assert(out@ =~= row_keys(rows@));
    }
    out
}

pub fn liquid_keys(tickers: &[Ticker], exclude: &[String], p: &ContinuationParams) -> (r: Option<
    SymSet,
>)
    ensures
        match r {
            Some(v) => liquid_rows(tickers@, views(exclude@), p@) is Some && v@ == row_keys(
                liquid_rows(tickers@, views(exclude@), p@)->0,
            ),
            None => liquid_rows(tickers@, views(exclude@), p@) is None,
        },
{
    let rows: Vec<Ticker> = liquid_universe(tickers, exclude, p)?;
    Some(keys_of_rows(rows.as_slice()))
}

/// The first index from `i` on whose bar opened at `t` or later.
pub open spec fn first_since(bars: Seq<Bar>, t: int, i: int) -> int
    decreases bars.len() - i,
{
    if i < 0 || i >= bars.len() {
        bars.len() as int
    } else if bars[i].open_time >= t {
        i
    } else {
        first_since(bars, t, i + 1)
    }
}

/// The first index whose bar opened at `t` or later.
pub fn index_since(bars: &[Bar], t: i64) -> (r: usize)
    ensures
        r == first_since(bars@, t as int, 0),
        r <= bars@.len(),
{
    let mut i: usize = 0;
    while i < bars.len()
        invariant
            i <= bars@.len(),
            first_since(bars@, t as int, 0) == first_since(bars@, t as int, i as int),
        decreases bars@.len() - i,
    {
        if bars[i].open_time >= t {
            return i;
        }
        i = i + 1;
    }
    i
}

/// A week.
pub const WEEK_MS: i64 = 604_800_000;

/// The change over a week in percent: the tape's own number, else from the bars.
pub open spec fn weekly_change(t: Ticker, bars: Seq<Bar>) -> Num {
    let n = bars.len() as int;
    if t.week_change_percent.units() != 0 {
        Some(t.week_change_percent)
    } else if n < 2 {
        Some(dec(0, 0))
    } else {
        let last = bars[n - 1];
        let k = first_since(bars, crate::sessions::clamp_ms(last.open_time - WEEK_MS), 0);
        let prev = if k < n {
            bars[k]
        } else {
            bars[0]
        };
        if !prev.close.pos() {
            Some(dec(0, 0))
        } else {
            n_mul(
                n_div(n_sub(Some(last.close), Some(prev.close)), Some(prev.close)),
                Some(dec(100, 0)),
            )
        }
    }
}

pub fn week_change(ticker: &Ticker, bars: &[Bar]) -> (r: Num)
    ensures
        r == weekly_change(*ticker, bars@),
{
    if !ticker.week_change_percent.is_zero() {
        return Some(ticker.week_change_percent);
    }
    let n: usize = bars.len();
    if n < 2 {
        return Some(Dec::zero());
    }
    let last: Bar = bars[n - 1];
    let target: i64 = crate::sessions::add_ms(last.open_time, -WEEK_MS);
    let k: usize = index_since(bars, target);
    let prev: Bar = if k < n {
        bars[k]
    } else {
        bars[0]
    };
    if !prev.close.is_pos() {
        return Some(Dec::zero());
    }
    times(
        over(minus(Some(last.close), Some(prev.close)), Some(prev.close)),
        Some(Dec::from_int(100)),
    )
}

/// Whether a candle is still forming at `now`.
pub open spec fn is_forming(bar: Bar, interval: TradeInterval, now: int) -> bool {
    bar.open_time <= now && now - bar.open_time < interval.minutes() * 60_000
}

fn bar_is_forming(bar: &Bar, interval: TradeInterval, now: i64) -> (r: bool)
    ensures
        r == is_forming(*bar, interval, now as int),
{
    bar.open_time <= now && now as i128 - (bar.open_time as i128) < interval.duration_ms() as i128
}

/// The last of the first `n` bars that no longer forms.
pub open spec fn last_settled(bars: Seq<Bar>, interval: TradeInterval, now: int, n: int) -> Option<
    Bar,
>
    decreases n,
{
    if n <= 0 {
        None
    } else if !is_forming(bars[n - 1], interval, now) {
        Some(bars[n - 1])
    } else {
        last_settled(bars, interval, now, n - 1)
    }
}

fn settled_bar(bars: &[Bar], interval: TradeInterval, now: i64) -> (r: Option<Bar>)
    ensures
        r == last_settled(bars@, interval, now as int, bars@.len() as int),
{
    let mut n: usize = bars.len();
    while n > 0
        invariant
            n <= bars@.len(),
            last_settled(bars@, interval, now as int, bars@.len() as int) == last_settled(
                bars@,
                interval,
                now as int,
                n as int,
            ),
        decreases n,
    {
        if !bar_is_forming(&bars[n - 1], interval, now) {
            return Some(bars[n - 1]);
        }
        n = n - 1;
    }
    None
}

/// The candle that signals. On 1h it is never the forming one.
pub open spec fn signal_of(
    s: MarketSnapshot,
    symbol: Seq<char>,
    interval: TradeInterval,
    now: int,
) -> Option<Bar> {
    let bars = s.series(symbol);
    let last = bar_of(s.last_bars@, symbol);
    if interval == TradeInterval::Hour1 {
        if last is Some && !is_forming(last->0, interval, now) {
            last
        } else {
            last_settled(bars, interval, now, bars.len() as int)
        }
    } else if last is Some {
        last
    } else {
        closed_bar(bars)
    }
}

/// The candle that signals.
pub fn signal_bar(snapshot: &MarketSnapshot, symbol: &str, interval: TradeInterval, now: i64) -> (r:
    Option<Bar>)
    ensures
        r == signal_of(*snapshot, symbol@, interval, now as int),
{
    let bars: &[Bar] = snapshot.bars_for(symbol);
    let last: Option<Bar> = get_bar(&snapshot.last_bars, symbol);
    if interval == TradeInterval::Hour1 {
        if let Some(b) = last {
            if !bar_is_forming(&b, interval, now) {
                return Some(b);
            }
        }
        return settled_bar(bars, interval, now);
    }
    if last.is_some() {
        return last;
    }
    last_closed_bar(bars)
}

proof fn lemma_settled_is_closed(bars: Seq<Bar>, interval: TradeInterval, now: int, n: int)
    ensures
        last_settled(bars, interval, now, n) matches Some(b) ==> !is_forming(b, interval, now),
    decreases n,
{
    if n > 0 {
        lemma_settled_is_closed(bars, interval, now, n - 1);
    }
}

/// On 1h the candle that signals has closed.
pub proof fn law_hourly_signal_has_closed(s: MarketSnapshot, symbol: Seq<char>, now: int)
    ensures
        signal_of(s, symbol, TradeInterval::Hour1, now) matches Some(b) ==> !is_forming(
            b,
            TradeInterval::Hour1,
            now,
        ),
{
    let bars = s.series(symbol);
    lemma_settled_is_closed(bars, TradeInterval::Hour1, now, bars.len() as int);
}

/// Whether a row has enough volume to count as a leader.
pub open spec fn has_tape(t: Ticker, p: ContinuationView) -> bool {
    t.quote_volume.pos() && p.min_quote_volume.le(t.quote_volume)
}

/// Whether a row may be a leader of the day.
pub open spec fn may_lead(t: Ticker, exclude: Seq<Seq<char>>, p: ContinuationView) -> bool {
    !has_key(exclude, upper(t.symbol@)) && t.last_price.pos() && has_tape(t, p)
}

/// The rows that led the day's tape by percent, stretched names included.
pub open spec fn leader_rows(
    tickers: Seq<Ticker>,
    n: int,
    exclude: Seq<Seq<char>>,
    p: ContinuationView,
) -> Seq<Ticker> {
    if n == 0 {
        Seq::empty()
    } else {
        first_n(ranked(RankBy::Rise, tickers.filter(|t: Ticker| may_lead(t, exclude, p))), n)
    }
}

/// The symbols of rows.
pub open spec fn symbols_of(rows: Seq<Ticker>) -> Seq<Seq<char>> {
    Seq::new(rows.len(), |i: int| rows[i].symbol@)
}

fn leaders(tickers: &[Ticker], n: usize, exclude: &[String], p: &ContinuationParams) -> (r: Vec<
    Ticker,
>)
    ensures
        r@ == leader_rows(tickers@, n as int, views(exclude@), p@),
{
    if n == 0 {
        return Vec::new();
    }
    let ghost test = |t: Ticker| may_lead(t, views(exclude@), p@);
    let mut rows: Vec<Ticker> = Vec::new();
    let mut i: usize = 0;
    proof {
        reveal(Seq::filter);
        assert(tickers@.take(0) =~= Seq::<Ticker>::empty());
        assert(tickers@.take(0).filter(test) =~= Seq::<Ticker>::empty());
    }
    while i < tickers.len()
        invariant
            i <= tickers@.len(),
            test == (|t: Ticker| may_lead(t, views(exclude@), p@)),
            rows@ == tickers@.take(i as int).filter(test),
        decreases tickers@.len() - i,
    {
        proof {
            reveal(Seq::filter);
            assert(tickers@.take(i as int + 1).drop_last() =~= tickers@.take(i as int));
        }
        let t: &Ticker = &tickers[i];
        let key = t.symbol.as_str().to_ascii_uppercase();
        if !holds_key(exclude, key.as_str()) && t.last_price.is_pos() && t.quote_volume.is_pos()
            && t.quote_volume >= p.min_quote_volume {
            rows.push(t.clone());
        }
        i = i + 1;
    }
    proof {
        assert(tickers@.take(i as int) =~= tickers@);
    }
    let mut out: Vec<Ticker> = sort_ranked(RankBy::Rise, rows);
    cut_rows(&mut out, n);
    out
}

/// The symbols that led the day's tape.
pub fn pick_recent_leaders(
    tickers: &[Ticker],
    n: usize,
    exclude: &[String],
    p: &ContinuationParams,
) -> (r: Vec<String>)
    ensures
        views(r@) == symbols_of(leader_rows(tickers@, n as int, views(exclude@), p@)),
{
    let rows: Vec<Ticker> = leaders(tickers, n, exclude, p);
    let mut out: Vec<String> = Vec::new();
    let mut i: usize = 0;
    proof {
        assert(views(out@) =~= symbols_of(rows@).take(0));
    }
    while i < rows.len()
        invariant
            i <= rows@.len(),
            views(out@) == symbols_of(rows@).take(i as int),
        decreases rows@.len() - i,
    {
        let s = own(rows[i].symbol.as_str());
        let ghost sv = s@;
        let ghost prior = views(out@);
        out.push(s);
        proof {
            assert(views(out@) =~= prior.push(sv));
            assert(symbols_of(rows@).take(i as int + 1) =~= prior.push(sv));
        }
        i = i + 1;
    }
    proof {
        assert(symbols_of(rows@).take(i as int) =~= symbols_of(rows@));
    }
    out
}

/// How many leaders are remembered.
pub open spec fn leaders_kept(p: ContinuationView) -> int {
    if p.max_positions < 5 {
        5
    } else {
        p.max_positions as int
    }
}

/// How many leaders are remembered.
pub fn leader_count(p: &ContinuationParams) -> (r: usize)
    ensures
        r == leaders_kept(p@),
{
    if p.max_positions < 5 {
        5
    } else {
        p.max_positions as usize
    }
}

/// Whether a list names a symbol, ASCII case aside.
pub open spec fn named_in(v: Seq<Seq<char>>, symbol: Seq<char>) -> bool {
    exists|i: int| 0 <= i < v.len() && lower(#[trigger] v[i]) == lower(symbol)
}

/// Whether a list names a symbol, ASCII case aside.
pub fn is_named_in(v: &[String], symbol: &str) -> (r: bool)
    ensures
        r == named_in(views(v@), symbol@),
{
    let mut i: usize = 0;
    while i < v.len()
        invariant
            i <= v@.len(),
            forall|j: int| 0 <= j < i ==> lower(#[trigger] views(v@)[j]) != lower(symbol@),
        decreases v@.len() - i,
    {
        if v[i].as_str().eq_ignore_ascii_case(symbol) {
            proof {
                assert(lower(views(v@)[i as int]) == lower(symbol@));
            }
            return true;
        }
        i = i + 1;
    }
    false
}

/// Whether a former leader has turned: it left the leaders of the tape, or its
/// signal candle is red.
pub open spec fn reverses(
    s: MarketSnapshot,
    t: Ticker,
    recent: Seq<Seq<char>>,
    p: ContinuationView,
    now: int,
) -> Option<bool> {
    let led: Option<bool> = if named_in(recent, t.symbol@) {
        Some(true)
    } else {
        match weekly_change(t, s.series(t.symbol@)) {
            Some(w) => Some(p.week_leader_pct.le(w)),
            None => None,
        }
    };
    match led {
        None => None,
        Some(false) => Some(false),
        Some(true) => Some(
            !row_keyed(
                leader_rows(s.tickers@, leaders_kept(p), Seq::empty(), p),
                upper(t.symbol@),
            ) || is_red(signal_of(s, t.symbol@, p.interval, now)),
        ),
    }
}

pub fn is_reversing(
    snapshot: &MarketSnapshot,
    ticker: &Ticker,
    recent_leaders: &[String],
    p: &ContinuationParams,
    now: i64,
) -> (r: Option<bool>)
    ensures
        r == reverses(*snapshot, *ticker, views(recent_leaders@), p@, now as int),
{
    let sym: &str = ticker.symbol.as_str();
    let led: bool = if is_named_in(recent_leaders, sym) {
        true
    } else {
        week_change(ticker, snapshot.bars_for(sym))? >= p.week_leader_pct
    };
    if !led {
        return Some(false);
    }
    let none: Vec<String> = Vec::new();
    let top: Vec<Ticker> = leaders(
        snapshot.tickers.as_slice(),
        leader_count(p),
        none.as_slice(),
        p,
    );
    proof {
        assert(views(none@) =~= Seq::<Seq<char>>::empty());
    }
    let keys: SymSet = keys_of_rows(top.as_slice());
    let key = sym.to_ascii_uppercase();
    let red: bool = bar_is_red(signal_bar(snapshot, sym, p.interval, now));
    Some(!keys.contains(key.as_str()) || red)
}

} // verus!

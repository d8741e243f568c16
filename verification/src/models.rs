//! Shared market, account, and decision types.
use crate::dec::{dec, minus, n_add, n_mul, n_sub, plus, times, Dec, Num};
use crate::json::{
    amount_error, amount_in, amount_or_zero, read_or_zero, require_amount, Json,
};
use crate::symbols::{SymMap, SymSet};
use crate::text::{int_value, own, parse_i64, same, trim, trimmed, upper, views};
use vstd::prelude::*;
use vstd::string::StringExecFns;

verus! {

#[derive(Debug, Clone, Copy, PartialEq, Eq, Structural, Hash)]
pub enum Side {
    Long,
    Short,
}

impl Side {
    pub open spec fn text(self) -> Seq<char> {
        match self {
            Side::Long => "LONG"@,
            Side::Short => "SHORT"@,
        }
    }

    pub fn as_str(self) -> (r: &'static str)
        ensures
            r@ == self.text(),
    {
        match self {
            Side::Long => "LONG",
            Side::Short => "SHORT",
        }
    }

    /// The side that a word stands for.
    pub open spec fn of(raw: Seq<char>) -> Option<Side> {
        let t = upper(raw);
        if t == "LONG"@ || t == "BUY"@ {
            Some(Side::Long)
        } else if t == "SHORT"@ || t == "SELL"@ {
            Some(Side::Short)
        } else {
            None
        }
    }

    pub fn parse(raw: &str) -> (r: Option<Side>)
        ensures
            r == Side::of(raw@),
    {
        let t = raw.to_ascii_uppercase();
        let s: &str = t.as_str();
        if same(s, "LONG") || same(s, "BUY") {
            Some(Side::Long)
        } else if same(s, "SHORT") || same(s, "SELL") {
            Some(Side::Short)
        } else {
            None
        }
    }
}

/// A 24h market row.
#[derive(Debug)]
pub struct Ticker {
    pub symbol: String,
    pub last_price: Dec,
    pub price_change_percent: Dec,
    pub quote_volume: Dec,
    pub high_price: Dec,
    pub low_price: Dec,
    pub week_change_percent: Dec,
}

impl Clone for Ticker {
    fn clone(&self) -> (r: Self)
        ensures
            r == *self,
    {
        Ticker {
            symbol: self.symbol.clone(),
            last_price: self.last_price,
            price_change_percent: self.price_change_percent,
            quote_volume: self.quote_volume,
            high_price: self.high_price,
            low_price: self.low_price,
            week_change_percent: self.week_change_percent,
        }
    }
}

impl Ticker {
    pub fn new(symbol: &str, last_price: Dec, price_change_percent: Dec, quote_volume: Dec) -> (r:
        Self)
        ensures
            r.symbol@ == symbol@,
            r.last_price == last_price,
            r.price_change_percent == price_change_percent,
            r.quote_volume == quote_volume,
            r.high_price == dec(0, 0),
            r.low_price == dec(0, 0),
            r.week_change_percent == dec(0, 0),
    {
        Ticker {
            symbol: own(symbol),
            last_price,
            price_change_percent,
            quote_volume,
            high_price: Dec::zero(),
            low_price: Dec::zero(),
            week_change_percent: Dec::zero(),
        }
    }
}

/// One candle.
#[derive(Debug, Clone, Copy)]
pub struct Bar {
    pub open_time: i64,
    pub open: Dec,
    pub high: Dec,
    pub low: Dec,
    pub close: Dec,
    pub volume: Dec,
}

/// The candle before the forming one; the only candle where there is one.
pub open spec fn closed_bar(bars: Seq<Bar>) -> Option<Bar> {
    if bars.len() >= 2 {
        Some(bars[bars.len() - 2])
    } else if bars.len() == 1 {
        Some(bars[0])
    } else {
        None
    }
}

pub fn last_closed_bar(bars: &[Bar]) -> (r: Option<Bar>)
    ensures
        r == closed_bar(bars@),
{
    if bars.len() >= 2 {
        Some(bars[bars.len() - 2])
    } else if bars.len() == 1 {
        Some(bars[0])
    } else {
        None
    }
}

pub open spec fn is_red(bar: Option<Bar>) -> bool {
    bar is Some && bar->0.close.lt(bar->0.open)
}

pub fn bar_is_red(bar: Option<Bar>) -> (r: bool)
    ensures
        r == is_red(bar),
{
    match bar {
        Some(b) => b.close < b.open,
        None => false,
    }
}

/// An open position.
#[derive(Debug)]
pub struct Position {
    pub symbol: String,
    pub side: Side,
    pub qty: Dec,
    pub entry_price: Dec,
    pub stop_loss: Option<Dec>,
    pub take_profit: Option<Dec>,
    pub unrealized_pnl: Dec,
    pub opened_bar_time: Option<i64>,
    pub leverage: i32,
}

impl Clone for Position {
    fn clone(&self) -> (r: Self)
        ensures
            r == *self,
    {
        Position {
            symbol: self.symbol.clone(),
            side: self.side,
            qty: self.qty,
            entry_price: self.entry_price,
            stop_loss: self.stop_loss,
            take_profit: self.take_profit,
            unrealized_pnl: self.unrealized_pnl,
            opened_bar_time: self.opened_bar_time,
            leverage: self.leverage,
        }
    }
}

impl Position {
    /// A long with a positive quantity.
    pub open spec fn is_open_long(self) -> bool {
        self.side == Side::Long && self.qty.pos()
    }

    pub fn open_long(&self) -> (r: bool)
        ensures
            r == self.is_open_long(),
    {
        self.side == Side::Long && self.qty.is_pos()
    }

    pub fn long(
        symbol: &str,
        qty: Dec,
        entry: Dec,
        stop_loss: Option<Dec>,
        take_profit: Option<Dec>,
    ) -> (r: Self)
        ensures
            r.symbol@ == symbol@,
            r == (Position {
                symbol: r.symbol,
                side: Side::Long,
                qty,
                entry_price: entry,
                stop_loss,
                take_profit,
                unrealized_pnl: dec(0, 0),
                opened_bar_time: None,
                leverage: 0,
            }),
    {
        Position {
            symbol: own(symbol),
            side: Side::Long,
            qty,
            entry_price: entry,
            stop_loss,
            take_profit,
            unrealized_pnl: Dec::zero(),
            opened_bar_time: None,
            leverage: 0,
        }
    }
}

#[derive(Debug, Clone, Copy)]
pub struct Account {
    pub wallet_balance: Dec,
    pub unrealized_pnl: Dec,
    pub available_balance: Dec,
    pub starting_equity: Dec,
}

impl Account {
    pub fn equity(&self) -> (r: Num)
        ensures
            r == n_add(Some(self.wallet_balance), Some(self.unrealized_pnl)),
    {
        plus(Some(self.wallet_balance), Some(self.unrealized_pnl))
    }
}

/// What a strategy wants done.
#[derive(Debug)]
pub enum Decision {
    Hold { reason: String },
    EnterLong { symbol: String, reason: String, take_profit: Dec, stop_loss: Dec },
    ExitPosition { reason: String, symbol: String },
    AmendStop { stop_loss: Dec, reason: String, symbol: String },
    ReduceLong { symbol: String, reason: String, qty: Dec, stop_loss: Dec },
}

/// A decision with its texts as sequences of characters.
pub enum DecisionView {
    Hold { reason: Seq<char> },
    EnterLong { symbol: Seq<char>, reason: Seq<char>, take_profit: Dec, stop_loss: Dec },
    ExitPosition { reason: Seq<char>, symbol: Seq<char> },
    AmendStop { stop_loss: Dec, reason: Seq<char>, symbol: Seq<char> },
    ReduceLong { symbol: Seq<char>, reason: Seq<char>, qty: Dec, stop_loss: Dec },
}

impl DecisionView {
    pub open spec fn reason(self) -> Seq<char> {
        match self {
            DecisionView::Hold { reason } => reason,
            DecisionView::EnterLong { reason, .. } => reason,
            DecisionView::ExitPosition { reason, .. } => reason,
            DecisionView::AmendStop { reason, .. } => reason,
            DecisionView::ReduceLong { reason, .. } => reason,
        }
    }

    pub open spec fn symbol(self) -> Seq<char> {
        match self {
            DecisionView::Hold { .. } => ""@,
            DecisionView::EnterLong { symbol, .. } => symbol,
            DecisionView::ExitPosition { symbol, .. } => symbol,
            DecisionView::AmendStop { symbol, .. } => symbol,
            DecisionView::ReduceLong { symbol, .. } => symbol,
        }
    }

    /// How an action is recorded.
    pub open spec fn description(self) -> Seq<char> {
        if self is Hold {
            self.reason()
        } else {
            self.symbol() + ": "@ + self.reason()
        }
    }
}

impl View for Decision {
    type V = DecisionView;

    open spec fn view(&self) -> DecisionView {
        match self {
            Decision::Hold { reason } => DecisionView::Hold { reason: reason@ },
            Decision::EnterLong {
                symbol,
                reason,
                take_profit,
                stop_loss,
            } => DecisionView::EnterLong {
                symbol: symbol@,
                reason: reason@,
                take_profit: *take_profit,
                stop_loss: *stop_loss,
            },
            Decision::ExitPosition { reason, symbol } => DecisionView::ExitPosition {
                reason: reason@,
                symbol: symbol@,
            },
            Decision::AmendStop { stop_loss, reason, symbol } => DecisionView::AmendStop {
                stop_loss: *stop_loss,
                reason: reason@,
                symbol: symbol@,
            },
            Decision::ReduceLong { symbol, reason, qty, stop_loss } => DecisionView::ReduceLong {
                symbol: symbol@,
                reason: reason@,
                qty: *qty,
                stop_loss: *stop_loss,
            },
        }
    }
}

/// The views of a list of decisions.
pub open spec fn decision_views(v: Seq<Decision>) -> Seq<DecisionView> {
    Seq::new(v.len(), |i: int| v[i]@)
}

impl Clone for Decision {
    fn clone(&self) -> (r: Self)
        ensures
            r@ == self@,
    {
        match self {
            Decision::Hold { reason } => Decision::Hold { reason: reason.clone() },
            Decision::EnterLong {
                symbol,
                reason,
                take_profit,
                stop_loss,
            } => Decision::EnterLong {
                symbol: symbol.clone(),
                reason: reason.clone(),
                take_profit: *take_profit,
                stop_loss: *stop_loss,
            },
            Decision::ExitPosition { reason, symbol } => Decision::ExitPosition {
                reason: reason.clone(),
                symbol: symbol.clone(),
            },
            Decision::AmendStop { stop_loss, reason, symbol } => Decision::AmendStop {
                stop_loss: *stop_loss,
                reason: reason.clone(),
                symbol: symbol.clone(),
            },
            Decision::ReduceLong { symbol, reason, qty, stop_loss } => Decision::ReduceLong {
                symbol: symbol.clone(),
                reason: reason.clone(),
                qty: *qty,
                stop_loss: *stop_loss,
            },
        }
    }
}

impl Decision {
    pub fn hold(reason: &str) -> (r: Self)
        ensures
            r@ == (DecisionView::Hold { reason: reason@ }),
    {
        Decision::Hold { reason: own(reason) }
    }

    pub fn reason(&self) -> (r: &str)
        ensures
            r@ == self@.reason(),
    {
        match self {
            Decision::Hold { reason } => reason.as_str(),
            Decision::EnterLong { reason, .. } => reason.as_str(),
            Decision::ExitPosition { reason, .. } => reason.as_str(),
            Decision::AmendStop { reason, .. } => reason.as_str(),
            Decision::ReduceLong { reason, .. } => reason.as_str(),
        }
    }

    pub fn symbol(&self) -> (r: &str)
        ensures
            r@ == self@.symbol(),
    {
        match self {
            Decision::Hold { .. } => "",
            Decision::EnterLong { symbol, .. } => symbol.as_str(),
            Decision::ExitPosition { symbol, .. } => symbol.as_str(),
            Decision::AmendStop { symbol, .. } => symbol.as_str(),
            Decision::ReduceLong { symbol, .. } => symbol.as_str(),
        }
    }

    pub fn is_hold(&self) -> (r: bool)
        ensures
            r == (self@ is Hold),
    {
        matches!(self, Decision::Hold { .. })
    }

    pub fn is_enter_long(&self) -> (r: bool)
        ensures
            r == (self@ is EnterLong),
    {
        matches!(self, Decision::EnterLong { .. })
    }

    /// How an action is recorded.
    pub fn describe(&self) -> (r: String)
        ensures
            r@ == self@.description(),
    {
        if self.is_hold() {
            own(self.reason())
        } else {
            let mut out = own(self.symbol());
            out.append(": ");
            out.append(self.reason());
            out
        }
    }
}

/// One snapshot of the market and the account.
#[derive(Debug)]
pub struct MarketSnapshot {
    pub tickers: Vec<Ticker>,
    pub bars: Vec<Bar>,
    pub account: Account,
    pub position: Option<Position>,
    pub chart_symbol: String,
    pub fetched: bool,
    pub last_error: Option<String>,
    pub live_book: bool,
    pub open_positions: Vec<Position>,
    pub account_ok: bool,
    pub account_fresh: bool,
    pub last_bars: SymMap<Bar>,
    pub universe_bars: SymMap<Vec<Bar>>,
    pub htf_bars: SymMap<Vec<Bar>>,
}

impl MarketSnapshot {
    pub fn empty(starting: Dec) -> (r: Self)
        ensures
            r.tickers@.len() == 0,
            r.bars@.len() == 0,
            r.account == (Account {
                wallet_balance: dec(0, 0),
                unrealized_pnl: dec(0, 0),
                available_balance: dec(0, 0),
                starting_equity: starting,
            }),
            r.position is None,
            r.chart_symbol@ == "BTCUSDT"@,
            !r.fetched && r.last_error is None && !r.live_book,
            r.open_positions@.len() == 0,
            !r.account_ok && !r.account_fresh,
            r.last_bars@ == Map::<Seq<char>, Bar>::empty(),
            r.universe_bars@ == Map::<Seq<char>, Vec<Bar>>::empty(),
            r.htf_bars@ == Map::<Seq<char>, Vec<Bar>>::empty(),
    {
        MarketSnapshot {
            tickers: Vec::new(),
            bars: Vec::new(),
            account: Account {
                wallet_balance: Dec::zero(),
                unrealized_pnl: Dec::zero(),
                available_balance: Dec::zero(),
                starting_equity: starting,
            },
            position: None,
            chart_symbol: own("BTCUSDT"),
            fetched: false,
            last_error: None,
            live_book: false,
            open_positions: Vec::new(),
            account_ok: false,
            account_fresh: false,
            last_bars: SymMap::new(),
            universe_bars: SymMap::new(),
            htf_bars: SymMap::new(),
        }
    }

    /// The signal candles of a symbol: its own series, else the chart's.
    pub open spec fn series(&self, symbol: Seq<char>) -> Seq<Bar> {
        if self.universe_bars@.contains_key(symbol) {
            self.universe_bars@[symbol]@
        } else if self.chart_symbol@ == symbol {
            self.bars@
        } else {
            Seq::empty()
        }
    }

    pub fn bars_for(&self, symbol: &str) -> (r: &[Bar])
        ensures
            r@ == self.series(symbol@),
    {
        match self.universe_bars.get(symbol) {
            Some(v) => v.as_slice(),
            None => if same(self.chart_symbol.as_str(), symbol) {
                self.bars.as_slice()
            } else {
                no_bars()
            },
        }
    }

    /// The higher-timeframe candles of a symbol.
    pub open spec fn htf_series(&self, symbol: Seq<char>) -> Seq<Bar> {
        if self.htf_bars@.contains_key(symbol) {
            self.htf_bars@[symbol]@
        } else {
            Seq::empty()
        }
    }

    pub fn htf_bars_for(&self, symbol: &str) -> (r: &[Bar])
        ensures
            r@ == self.htf_series(symbol@),
    {
        match self.htf_bars.get(symbol) {
            Some(v) => v.as_slice(),
            None => no_bars(),
        }
    }
}

/// No bars at all.
pub fn no_bars() -> (r: &'static [Bar])
    ensures
        r@ == Seq::<Bar>::empty(),
{
    let e: &'static [Bar; 0] = &[];
    proof {
        assert(e@ =~= Seq::<Bar>::empty());
    }
    e
}

/// Something the desk did, and when.
#[derive(Debug)]
pub struct RecentAction {
    pub at: i64,
    pub text: String,
}

/// An action with its text as characters.
pub struct ActionView {
    pub at: i64,
    pub text: Seq<char>,
}

impl View for RecentAction {
    type V = ActionView;

    open spec fn view(&self) -> ActionView {
        ActionView { at: self.at, text: self.text@ }
    }
}

/// The views of a list of actions.
pub open spec fn action_views(v: Seq<RecentAction>) -> Seq<ActionView> {
    Seq::new(v.len(), |i: int| v[i]@)
}

impl Clone for RecentAction {
    fn clone(&self) -> (r: Self)
        ensures
            r == *self,
    {
        RecentAction { at: self.at, text: self.text.clone() }
    }
}

/// How many recent actions are kept.
pub const RECENT_KEPT: usize = 20;

pub open spec fn last_n<A>(s: Seq<A>, n: int) -> Seq<A> {
    if s.len() <= n {
        s
    } else {
        s.skip(s.len() - n)
    }
}

/// Appends an action and drops the oldest ones beyond the kept number.
pub fn push_recent(actions: &mut Vec<RecentAction>, at: i64, text: String)
    ensures
        action_views(final(actions)@) == last_n(
            action_views(old(actions)@).push(ActionView { at, text: text@ }),
            RECENT_KEPT as int,
        ),
{
    actions.push(RecentAction { at, text });
    let ghost all = actions@;
    proof {
        assert(action_views(all) =~= action_views(old(actions)@).push(ActionView { at, text: text@ }));
    }
    let ghost mut k: int = 0;
    proof {
        assert(all.skip(0) =~= all);
    }
    while actions.len() > RECENT_KEPT
        invariant
            0 <= k <= all.len(),
            actions@ == all.skip(k),
            k > 0 ==> actions@.len() >= RECENT_KEPT,
        decreases actions@.len(),
    {
        actions.remove(0);
        proof {
            assert(all.skip(k).remove(0) =~= all.skip(k + 1));
            k = k + 1;
        }
    }
    proof {
        assert(actions@ =~= last_n(all, RECENT_KEPT as int));
        assert(action_views(actions@) =~= last_n(action_views(all), RECENT_KEPT as int));
    }
}

/// What the desk remembers between ticks.
#[derive(Debug)]
pub struct EngineState {
    pub strategy_id: i32,
    pub last_scan_ts: i64,
    pub position: Option<Position>,
    pub last_error: Option<String>,
    pub recent_actions: Vec<RecentAction>,
    pub entry_inflight: bool,
    pub entries_paused: bool,
    pub cooldown_until: i64,
    pub positions: Vec<Position>,
    pub inflight_symbols: Vec<String>,
    pub cooldowns: SymMap<i64>,
    pub skip_symbols: Vec<String>,
    pub skip_reasons: SymMap<String>,
    pub day_utc: String,
    pub day_start_equity: Option<Dec>,
    pub daily_halt: bool,
    pub sized_stops: SymSet,
    pub recent_leaders: Vec<String>,
    pub retry_until: i64,
    pub retry_strikes: u8,
    pub rearm_miss_since: SymMap<i64>,
    pub rearm_fail_count: SymMap<u8>,
    pub scaled_one_r: SymSet,
    pub hour1_trail_bar: SymMap<i64>,
    pub s4_inherited: SymSet,
}

/// The state with its collections and texts as mathematical values.
pub struct EngineStateView {
    pub strategy_id: i32,
    pub last_scan_ts: i64,
    pub position: Option<Position>,
    pub last_error: Option<Seq<char>>,
    pub recent_actions: Seq<ActionView>,
    pub entry_inflight: bool,
    pub entries_paused: bool,
    pub cooldown_until: i64,
    pub positions: Seq<Position>,
    pub inflight_symbols: Seq<Seq<char>>,
    pub cooldowns: Map<Seq<char>, i64>,
    pub skip_symbols: Seq<Seq<char>>,
    pub skip_reasons: Map<Seq<char>, Seq<char>>,
    pub day_utc: Seq<char>,
    pub day_start_equity: Option<Dec>,
    pub daily_halt: bool,
    pub sized_stops: Set<Seq<char>>,
    pub recent_leaders: Seq<Seq<char>>,
    pub retry_until: i64,
    pub retry_strikes: u8,
    pub rearm_miss_since: Map<Seq<char>, i64>,
    pub rearm_fail_count: Map<Seq<char>, u8>,
    pub scaled_one_r: Set<Seq<char>>,
    pub hour1_trail_bar: Map<Seq<char>, i64>,
    pub s4_inherited: Set<Seq<char>>,
}

pub open spec fn opt_view(s: Option<String>) -> Option<Seq<char>> {
    match s {
        Some(t) => Some(t@),
        None => None,
    }
}

/// A map of texts as a map of sequences of characters.
pub open spec fn text_map(m: Map<Seq<char>, String>) -> Map<Seq<char>, Seq<char>> {
    Map::new(|k: Seq<char>| m.contains_key(k), |k: Seq<char>| m[k]@)
}

impl View for EngineState {
    type V = EngineStateView;

    open spec fn view(&self) -> EngineStateView {
        EngineStateView {
            strategy_id: self.strategy_id,
            last_scan_ts: self.last_scan_ts,
            position: self.position,
            last_error: opt_view(self.last_error),
            recent_actions: action_views(self.recent_actions@),
            entry_inflight: self.entry_inflight,
            entries_paused: self.entries_paused,
            cooldown_until: self.cooldown_until,
            positions: self.positions@,
            inflight_symbols: views(self.inflight_symbols@),
            cooldowns: self.cooldowns@,
            skip_symbols: views(self.skip_symbols@),
            skip_reasons: text_map(self.skip_reasons@),
            day_utc: self.day_utc@,
            day_start_equity: self.day_start_equity,
            daily_halt: self.daily_halt,
            sized_stops: self.sized_stops@,
            recent_leaders: views(self.recent_leaders@),
            retry_until: self.retry_until,
            retry_strikes: self.retry_strikes,
            rearm_miss_since: self.rearm_miss_since@,
            rearm_fail_count: self.rearm_fail_count@,
            scaled_one_r: self.scaled_one_r@,
            hour1_trail_bar: self.hour1_trail_bar@,
            s4_inherited: self.s4_inherited@,
        }
    }
}

/// The state a desk starts with.
pub open spec fn fresh_state(strategy_id: i32) -> EngineStateView {
    EngineStateView {
        strategy_id,
        last_scan_ts: 0,
        position: None,
        last_error: None,
        recent_actions: Seq::empty(),
        entry_inflight: false,
        entries_paused: false,
        cooldown_until: 0,
        positions: Seq::empty(),
        inflight_symbols: Seq::empty(),
        cooldowns: Map::empty(),
        skip_symbols: Seq::empty(),
        skip_reasons: Map::empty(),
        day_utc: Seq::empty(),
        day_start_equity: None,
        daily_halt: false,
        sized_stops: Set::empty(),
        recent_leaders: Seq::empty(),
        retry_until: 0,
        retry_strikes: 0,
        rearm_miss_since: Map::empty(),
        rearm_fail_count: Map::empty(),
        scaled_one_r: Set::empty(),
        hour1_trail_bar: Map::empty(),
        s4_inherited: Set::empty(),
    }
}

impl EngineState {
    pub fn new(strategy_id: i32) -> (r: Self)
        ensures
            r@ == fresh_state(strategy_id),
    {
        let r = EngineState {
            strategy_id,
            last_scan_ts: 0,
            position: None,
            last_error: None,
            recent_actions: Vec::new(),
            entry_inflight: false,
            entries_paused: false,
            cooldown_until: 0,
            positions: Vec::new(),
            inflight_symbols: Vec::new(),
            cooldowns: SymMap::new(),
            skip_symbols: Vec::new(),
            skip_reasons: SymMap::new(),
            day_utc: String::new(),
            day_start_equity: None,
            daily_halt: false,
            sized_stops: SymSet::new(),
            recent_leaders: Vec::new(),
            retry_until: 0,
            retry_strikes: 0,
            rearm_miss_since: SymMap::new(),
            rearm_fail_count: SymMap::new(),
            scaled_one_r: SymSet::new(),
            hour1_trail_bar: SymMap::new(),
            s4_inherited: SymSet::new(),
        };
        proof {
            let f = fresh_state(strategy_id);
            assert(r@.recent_actions =~= f.recent_actions);
            assert(r@.positions =~= f.positions);
            assert(r@.inflight_symbols =~= f.inflight_symbols);
            assert(r@.skip_symbols =~= f.skip_symbols);
            assert(r@.recent_leaders =~= f.recent_leaders);
            assert(r@.skip_reasons =~= f.skip_reasons);
        }
        r
    }

    /// Records an action.
    pub fn push_action(&mut self, at: i64, text: String)
        ensures
            final(self)@ == (EngineStateView {
                recent_actions: last_n(
                    old(self)@.recent_actions.push(ActionView { at, text: text@ }),
                    RECENT_KEPT as int,
                ),
                ..old(self)@
            }),
    {
        push_recent(&mut self.recent_actions, at, text);
    }
}

/// A copy of a map of instants.
pub fn copy_instants(m: &SymMap<i64>) -> (r: SymMap<i64>)
    ensures
        r@ == m@,
{
    let r: SymMap<i64> = m.clone();
    proof {
        crate::symbols::lemma_same_lists(r, *m);
    }
    r
}

fn copy_counts(m: &SymMap<u8>) -> (r: SymMap<u8>)
    ensures
        r@ == m@,
{
    let r: SymMap<u8> = m.clone();
    proof {
        crate::symbols::lemma_same_lists(r, *m);
    }
    r
}

fn copy_reasons(m: &SymMap<String>) -> (r: SymMap<String>)
    ensures
        text_map(r@) == text_map(m@),
{
    let r: SymMap<String> = m.clone();
    proof {
        crate::symbols::lemma_same_lists(r, *m);
    }
    r
}

pub fn copy_actions(v: &[RecentAction]) -> (r: Vec<RecentAction>)
    ensures
        action_views(r@) == action_views(v@),
{
    let mut out: Vec<RecentAction> = Vec::new();
    let mut i: usize = 0;
    while i < v.len()
        invariant
            i <= v@.len(),
            out@ == v@.take(i as int),
        decreases v@.len() - i,
    {
        out.push(v[i].clone());
        proof {
            assert(v@.take(i as int + 1) =~= v@.take(i as int).push(v@[i as int]));
        }
        i = i + 1;
    }
    proof {
        assert(v@.take(i as int) =~= v@);
    }
    out
}

impl Clone for EngineState {
    fn clone(&self) -> (r: Self)
        ensures
            r@ == self@,
    {
        EngineState {
            strategy_id: self.strategy_id,
            last_scan_ts: self.last_scan_ts,
            position: match &self.position {
                Some(p) => Some(p.clone()),
                None => None,
            },
            last_error: match &self.last_error {
                Some(t) => Some(own(t.as_str())),
                None => None,
            },
            recent_actions: copy_actions(self.recent_actions.as_slice()),
            entry_inflight: self.entry_inflight,
            entries_paused: self.entries_paused,
            cooldown_until: self.cooldown_until,
            positions: copy_positions(self.positions.as_slice()),
            inflight_symbols: copy_texts(self.inflight_symbols.as_slice()),
            cooldowns: copy_instants(&self.cooldowns),
            skip_symbols: copy_texts(self.skip_symbols.as_slice()),
            skip_reasons: copy_reasons(&self.skip_reasons),
            day_utc: own(self.day_utc.as_str()),
            day_start_equity: self.day_start_equity,
            daily_halt: self.daily_halt,
            sized_stops: self.sized_stops.clone(),
            recent_leaders: copy_texts(self.recent_leaders.as_slice()),
            retry_until: self.retry_until,
            retry_strikes: self.retry_strikes,
            rearm_miss_since: copy_instants(&self.rearm_miss_since),
            rearm_fail_count: copy_counts(&self.rearm_fail_count),
            scaled_one_r: self.scaled_one_r.clone(),
            hour1_trail_bar: copy_instants(&self.hour1_trail_bar),
            s4_inherited: self.s4_inherited.clone(),
        }
    }
}

/// A copy of a list of positions.
pub fn copy_positions(v: &[Position]) -> (r: Vec<Position>)
    ensures
        r@ == v@,
{
    let mut out: Vec<Position> = Vec::new();
    let mut i: usize = 0;
    while i < v.len()
        invariant
            i <= v@.len(),
            out@ == v@.take(i as int),
        decreases v@.len() - i,
    {
        out.push(v[i].clone());
        proof {
            assert(v@.take(i as int + 1) =~= v@.take(i as int).push(v@[i as int]));
        }
        i = i + 1;
    }
    proof {
        assert(v@.take(i as int) =~= v@);
    }
    out
}

/// A copy of a list of texts.
pub fn copy_texts(v: &[String]) -> (r: Vec<String>)
    ensures
        r@ == v@,
{
    let mut out: Vec<String> = Vec::new();
    let mut i: usize = 0;
    while i < v.len()
        invariant
            i <= v@.len(),
            out@ == v@.take(i as int),
        decreases v@.len() - i,
    {
        out.push(v[i].clone());
        proof {
            assert(v@.take(i as int + 1) =~= v@.take(i as int).push(v@[i as int]));
        }
        i = i + 1;
    }
    proof {
        assert(v@.take(i as int) =~= v@);
    }
    out
}

/// The first of two optional values.
pub open spec fn first_of<A>(a: Option<A>, b: Option<A>) -> Option<A> {
    if a is Some {
        a
    } else {
        b
    }
}

/// The live row, completed from what is remembered of the same symbol.
pub open spec fn coalesced(live: Position, remembered: Option<Position>) -> Position {
    match remembered {
        Some(m) => if m.symbol@ != live.symbol@ {
            live
        } else {
            Position {
                qty: if live.qty.pos() {
                    live.qty
                } else {
                    m.qty
                },
                entry_price: if live.entry_price.pos() {
                    live.entry_price
                } else {
                    m.entry_price
                },
                stop_loss: first_of(live.stop_loss, m.stop_loss),
                take_profit: first_of(live.take_profit, m.take_profit),
                opened_bar_time: first_of(live.opened_bar_time, m.opened_bar_time),
                leverage: if live.leverage != 0 {
                    live.leverage
                } else {
                    m.leverage
                },
                ..live
            }
        },
        None => live,
    }
}

pub open spec fn opt_deref(p: Option<&Position>) -> Option<Position> {
    match p {
        Some(q) => Some(*q),
        None => None,
    }
}

fn dec_or(a: Option<Dec>, b: Option<Dec>) -> (r: Option<Dec>)
    ensures
        r == first_of(a, b),
{
    if a.is_some() {
        a
    } else {
        b
    }
}

/// Completes one live row.
pub fn coalesce_live(live: &Position, remembered: Option<&Position>) -> (r: Position)
    ensures
        r == coalesced(*live, opt_deref(remembered)),
{
    match remembered {
        Some(m) => {
            if !same(m.symbol.as_str(), live.symbol.as_str()) {
                return live.clone();
            }
            Position {
                symbol: live.symbol.clone(),
                side: live.side,
                qty: if live.qty.is_pos() {
                    live.qty
                } else {
                    m.qty
                },
                entry_price: if live.entry_price.is_pos() {
                    live.entry_price
                } else {
                    m.entry_price
                },
                stop_loss: dec_or(live.stop_loss, m.stop_loss),
                take_profit: dec_or(live.take_profit, m.take_profit),
                unrealized_pnl: live.unrealized_pnl,
                opened_bar_time: if live.opened_bar_time.is_some() {
                    live.opened_bar_time
                } else {
                    m.opened_bar_time
                },
                leverage: if live.leverage != 0 {
                    live.leverage
                } else {
                    m.leverage
                },
            }
        },
        None => live.clone(),
    }
}

pub fn coalesce_position(live: Option<&Position>, remembered: Option<&Position>) -> (r: Option<
    Position,
>)
    ensures
        r == (match live {
            Some(l) => Some(coalesced(*l, opt_deref(remembered))),
            None => None,
        }),
{
    match live {
        Some(l) => Some(coalesce_live(l, remembered)),
        None => None,
    }
}

/// Completing a row never changes which position it is: symbol, side and live
/// profit stay, and live numbers win over remembered ones.
pub proof fn law_coalesce_keeps_the_live_row(live: Position, remembered: Option<Position>)
    ensures
        ({
            let c = coalesced(live, remembered);
            &&& c.symbol == live.symbol
            &&& c.side == live.side
            &&& c.unrealized_pnl == live.unrealized_pnl
            &&& live.qty.pos() ==> c.qty == live.qty
            &&& live.entry_price.pos() ==> c.entry_price == live.entry_price
            &&& live.stop_loss is Some ==> c.stop_loss == live.stop_loss
            &&& live.take_profit is Some ==> c.take_profit == live.take_profit
        }),
{
}

/// The positions that satisfy a test, in order.
pub open spec fn open_longs(v: Seq<Position>) -> Seq<Position> {
    v.filter(|p: Position| p.is_open_long())
}

/// The first position with a symbol.
pub open spec fn with_symbol(v: Seq<Position>, symbol: Seq<char>) -> Option<Position>
    decreases v.len(),
{
    if v.len() == 0 {
        None
    } else if v[0].symbol@ == symbol {
        Some(v[0])
    } else {
        with_symbol(v.drop_first(), symbol)
    }
}

/// The last position with a symbol.
pub open spec fn last_with_symbol(v: Seq<Position>, symbol: Seq<char>) -> Option<Position>
    decreases v.len(),
{
    if v.len() == 0 {
        None
    } else if v.last().symbol@ == symbol {
        Some(v.last())
    } else {
        last_with_symbol(v.drop_last(), symbol)
    }
}

/// Skipping rows that do not match does not change which is first.
pub proof fn lemma_with_symbol_skip(v: Seq<Position>, symbol: Seq<char>, n: int)
    requires
        0 <= n <= v.len(),
        forall|j: int| 0 <= j < n ==> (#[trigger] v[j]).symbol@ != symbol,
    ensures
        with_symbol(v, symbol) == with_symbol(v.skip(n), symbol),
    decreases n,
{
    if n == 0 {
        assert(v.skip(0) =~= v);
    } else {
        assert(v[0].symbol@ != symbol);
        assert forall|j: int| 0 <= j < n - 1 implies (#[trigger] v.drop_first()[j]).symbol@
            != symbol by {
            assert(v.drop_first()[j] == v[j + 1]);
        }
        lemma_with_symbol_skip(v.drop_first(), symbol, n - 1);
        assert(v.drop_first().skip(n - 1) =~= v.skip(n));
    }
}

/// The first position with a symbol.
pub fn find_symbol<'a>(v: &'a [Position], symbol: &str) -> (r: Option<&'a Position>)
    ensures
        opt_deref(r) == with_symbol(v@, symbol@),
{
    let mut i: usize = 0;
    while i < v.len()
        invariant
            i <= v@.len(),
            forall|j: int| 0 <= j < i ==> (#[trigger] v@[j]).symbol@ != symbol@,
        decreases v@.len() - i,
    {
        if same(v[i].symbol.as_str(), symbol) {
            proof {
                lemma_with_symbol_skip(v@, symbol@, i as int);
                assert(v@.skip(i as int)[0] == v@[i as int]);
            }
            return Some(&v[i]);
        }
        i = i + 1;
    }
    proof {
        lemma_with_symbol_skip(v@, symbol@, v@.len() as int);
        assert(v@.skip(v@.len() as int) =~= Seq::<Position>::empty());
    }
    None
}

/// The last row of a symbol.
pub fn find_last_symbol<'a>(v: &'a [Position], symbol: &str) -> (r: Option<&'a Position>)
    ensures
        opt_deref(r) == last_with_symbol(v@, symbol@),
{
    let mut i: usize = v.len();
    proof {
        assert(v@.take(i as int) =~= v@);
    }
    while i > 0
        invariant
            i <= v@.len(),
            last_with_symbol(v@, symbol@) == last_with_symbol(v@.take(i as int), symbol@),
        decreases i,
    {
        i = i - 1;
        proof {
            assert(v@.take(i as int + 1).drop_last() =~= v@.take(i as int));
            assert(v@.take(i as int + 1).last() == v@[i as int]);
        }
        if same(v[i].symbol.as_str(), symbol) {
            return Some(&v[i]);
        }
    }
    None
}

/// The last position with a symbol among those with a quantity.
fn find_last_held<'a>(v: &'a [Position], symbol: &str) -> (r: Option<&'a Position>)
    ensures
        opt_deref(r) == last_with_symbol(v@.filter(|p: Position| p.qty.pos()), symbol@),
{
    let ghost held = |p: Position| p.qty.pos();
    let mut r: Option<&'a Position> = None;
    let mut i: usize = 0;
    proof {
        reveal(Seq::filter);
        assert(v@.take(0) =~= Seq::<Position>::empty());
        assert(v@.take(0).filter(held) =~= Seq::<Position>::empty());
    }
    while i < v.len()
        invariant
            i <= v@.len(),
            held == (|p: Position| p.qty.pos()),
            opt_deref(r) == last_with_symbol(v@.take(i as int).filter(held), symbol@),
        decreases v@.len() - i,
    {
        proof {
            reveal(Seq::filter);
            let more = v@.take(i as int + 1);
            assert(more.drop_last() =~= v@.take(i as int));
            let f = v@.take(i as int).filter(held);
            if held(v@[i as int]) {
                assert(more.filter(held) == f.push(v@[i as int]));
                assert(f.push(v@[i as int]).drop_last() =~= f);
            }
        }
        if v[i].qty.is_pos() && same(v[i].symbol.as_str(), symbol) {
            r = Some(&v[i]);
        }
        i = i + 1;
    }
    proof {
        assert(v@.take(i as int) =~= v@);
    }
    r
}

/// The open longs of a list.
pub fn open_long_rows(v: &[Position]) -> (r: Vec<Position>)
    ensures
        r@ == open_longs(v@),
{
    let ghost test = |p: Position| p.is_open_long();
    let mut out: Vec<Position> = Vec::new();
    let mut i: usize = 0;
    proof {
        reveal(Seq::filter);
        assert(v@.take(0) =~= Seq::<Position>::empty());
        assert(v@.take(0).filter(test) =~= Seq::<Position>::empty());
    }
    while i < v.len()
        invariant
            i <= v@.len(),
            test == (|p: Position| p.is_open_long()),
            out@ == v@.take(i as int).filter(test),
        decreases v@.len() - i,
    {
        proof {
            reveal(Seq::filter);
            assert(v@.take(i as int + 1).drop_last() =~= v@.take(i as int));
        }
        if v[i].open_long() {
            out.push(v[i].clone());
        }
        i = i + 1;
    }
    proof {
        assert(v@.take(i as int) =~= v@);
    }
    out
}

/// The long that a single-slot desk manages: the remembered one where it is
/// still open, else the first open long.
pub open spec fn managed_long(
    positions: Seq<Position>,
    remembered: Option<Position>,
) -> Option<Position> {
    let longs = open_longs(positions);
    if longs.len() == 0 {
        None
    } else {
        match remembered {
            Some(m) => if m.side == Side::Long && with_symbol(longs, m.symbol@) is Some {
                Some(coalesced(with_symbol(longs, m.symbol@)->0, remembered))
            } else {
                Some(coalesced(longs[0], remembered))
            },
            None => Some(coalesced(longs[0], remembered)),
        }
    }
}

pub fn pick_managed_long(positions: &[Position], remembered: Option<&Position>) -> (r: Option<
    Position,
>)
    ensures
        r == managed_long(positions@, opt_deref(remembered)),
{
    let longs: Vec<Position> = open_long_rows(positions);
    if longs.len() == 0 {
        return None;
    }
    if let Some(m) = remembered {
        if m.side == Side::Long {
            if let Some(live) = find_symbol(longs.as_slice(), m.symbol.as_str()) {
                return Some(coalesce_live(live, remembered));
            }
        }
    }
    Some(coalesce_live(&longs[0], remembered))
}

/// The open longs, each completed from the last remembered row of its symbol.
pub open spec fn managed_longs(positions: Seq<Position>, remembered: Seq<Position>) -> Seq<
    Position,
> {
    let held = remembered.filter(|p: Position| p.qty.pos());
    let longs = open_longs(positions);
    Seq::new(longs.len(), |i: int| coalesced(longs[i], last_with_symbol(held, longs[i].symbol@)))
}

pub fn pick_managed_longs(positions: &[Position], remembered: &[Position]) -> (r: Vec<Position>)
    ensures
        r@ == managed_longs(positions@, remembered@),
{
    let longs: Vec<Position> = open_long_rows(positions);
    let ghost goal = managed_longs(positions@, remembered@);
    let mut out: Vec<Position> = Vec::new();
    let mut i: usize = 0;
    while i < longs.len()
        invariant
            i <= longs@.len(),
            longs@ == open_longs(positions@),
            goal == managed_longs(positions@, remembered@),
            out@ == goal.take(i as int),
        decreases longs@.len() - i,
    {
        let mem = find_last_held(remembered, longs[i].symbol.as_str());
        out.push(coalesce_live(&longs[i], mem));
        proof {
            assert(goal.take(i as int + 1) =~= goal.take(i as int).push(goal[i as int]));
        }
        i = i + 1;
    }
    proof {
        assert(goal.take(i as int) =~= goal);
    }
    out
}

/// Whether a row is on the book but not managed: a short, or a long whose
/// symbol no managed long has.
pub open spec fn is_unmanaged(p: Position, managed: Seq<Position>) -> bool {
    p.qty.pos() && (p.side != Side::Long || with_symbol(open_longs(managed), p.symbol@) is None)
}

pub open spec fn unmanaged(open_book: Seq<Position>, managed: Seq<Position>) -> Seq<Position> {
    open_book.filter(|p: Position| is_unmanaged(p, managed))
}

pub fn unmanaged_positions(open_book: &[Position], managed: &[Position]) -> (r: Vec<Position>)
    ensures
        r@ == unmanaged(open_book@, managed@),
{
    let longs: Vec<Position> = open_long_rows(managed);
    let ghost test = |p: Position| is_unmanaged(p, managed@);
    let mut out: Vec<Position> = Vec::new();
    let mut i: usize = 0;
    proof {
        reveal(Seq::filter);
        assert(open_book@.take(0) =~= Seq::<Position>::empty());
        assert(open_book@.take(0).filter(test) =~= Seq::<Position>::empty());
    }
    while i < open_book.len()
        invariant
            i <= open_book@.len(),
            longs@ == open_longs(managed@),
            test == (|p: Position| is_unmanaged(p, managed@)),
            out@ == open_book@.take(i as int).filter(test),
        decreases open_book@.len() - i,
    {
        proof {
            reveal(Seq::filter);
            assert(open_book@.take(i as int + 1).drop_last() =~= open_book@.take(i as int));
        }
        let p: &Position = &open_book[i];
        if p.qty.is_pos() && (p.side != Side::Long || find_symbol(
            longs.as_slice(),
            p.symbol.as_str(),
        ).is_none()) {
            out.push(p.clone());
        }
        i = i + 1;
    }
    proof {
        assert(open_book@.take(i as int) =~= open_book@);
    }
    out
}

/// Whether the last price is within `frac` of the day's high.
pub open spec fn near_high(ticker: Ticker, frac: Dec) -> Option<bool> {
    if !ticker.high_price.pos() || !ticker.last_price.pos() {
        Some(false)
    } else {
        match n_mul(Some(ticker.high_price), n_sub(Some(dec(1, 0)), Some(frac))) {
            Some(limit) => Some(limit.le(ticker.last_price)),
            None => None,
        }
    }
}

pub fn near_24h_high(ticker: &Ticker, frac: Dec) -> (r: Option<bool>)
    ensures
        r == near_high(*ticker, frac),
{
    if !ticker.high_price.is_pos() || !ticker.last_price.is_pos() {
        return Some(false);
    }
    match times(Some(ticker.high_price), minus(Some(Dec::one()), Some(frac))) {
        Some(limit) => Some(ticker.last_price >= limit),
        None => None,
    }
}

/// Puts a position into a list that holds each symbol once: in the place of the
/// row with its symbol, else at the end.
pub open spec fn put_position(v: Seq<Position>, p: Position) -> Seq<Position>
    decreases v.len(),
{
    if v.len() == 0 {
        seq![p]
    } else if v[0].symbol@ == p.symbol@ {
        v.update(0, p)
    } else {
        seq![v[0]] + put_position(v.drop_first(), p)
    }
}

proof fn lemma_put_at(v: Seq<Position>, p: Position, i: int)
    requires
        0 <= i < v.len(),
        v[i].symbol@ == p.symbol@,
        forall|j: int| 0 <= j < i ==> (#[trigger] v[j]).symbol@ != p.symbol@,
    ensures
        put_position(v, p) == v.update(i, p),
    decreases i,
{
    if i > 0 {
        assert(v[0].symbol@ != p.symbol@);
        assert forall|j: int| 0 <= j < i - 1 implies (#[trigger] v.drop_first()[j]).symbol@
            != p.symbol@ by {
            assert(v.drop_first()[j] == v[j + 1]);
        }
        lemma_put_at(v.drop_first(), p, i - 1);
        assert(seq![v[0]] + v.drop_first().update(i - 1, p) =~= v.update(i, p));
    }
}

proof fn lemma_put_end(v: Seq<Position>, p: Position)
    requires
        forall|j: int| 0 <= j < v.len() ==> (#[trigger] v[j]).symbol@ != p.symbol@,
    ensures
        put_position(v, p) == v.push(p),
    decreases v.len(),
{
    if v.len() > 0 {
        assert(v[0].symbol@ != p.symbol@);
        assert forall|j: int| 0 <= j < v.len() - 1 implies (#[trigger] v.drop_first()[j]).symbol@
            != p.symbol@ by {
            assert(v.drop_first()[j] == v[j + 1]);
        }
        lemma_put_end(v.drop_first(), p);
        assert(seq![v[0]] + v.drop_first().push(p) =~= v.push(p));
    } else {
        assert(seq![p] =~= v.push(p));
    }
}

fn put(v: &mut Vec<Position>, p: Position)
    ensures
        final(v)@ == put_position(old(v)@, p),
{
    let mut i: usize = 0;
    while i < v.len()
        invariant
            i <= v@.len(),
            v@ == old(v)@,
            forall|j: int| 0 <= j < i ==> (#[trigger] v@[j]).symbol@ != p.symbol@,
        decreases v@.len() - i,
    {
        if same(v[i].symbol.as_str(), p.symbol.as_str()) {
            proof {
                lemma_put_at(v@, p, i as int);
            }
            v.set(i, p);
            return ;
        }
        i = i + 1;
    }
    proof {
        lemma_put_end(v@, p);
    }
    v.push(p);
}

/// The held rows of a list, each symbol once, the last row of a symbol counting.
pub open spec fn by_symbol(v: Seq<Position>) -> Seq<Position>
    decreases v.len(),
{
    if v.len() == 0 {
        Seq::empty()
    } else if v.last().qty.pos() {
        put_position(by_symbol(v.drop_last()), v.last())
    } else {
        by_symbol(v.drop_last())
    }
}

/// What is remembered as open: the listed rows and the single slot, which wins.
pub open spec fn remembered(position: Option<Position>, extra: Seq<Position>) -> Seq<Position> {
    match position {
        Some(p) => if p.qty.pos() {
            put_position(by_symbol(extra), p)
        } else {
            by_symbol(extra)
        },
        None => by_symbol(extra),
    }
}

pub fn remembered_positions(position: Option<&Position>, extra: &[Position]) -> (r: Vec<Position>)
    ensures
        r@ == remembered(opt_deref(position), extra@),
{
    let mut out: Vec<Position> = Vec::new();
    let mut i: usize = 0;
    while i < extra.len()
        invariant
            i <= extra@.len(),
            out@ == by_symbol(extra@.take(i as int)),
        decreases extra@.len() - i,
    {
        proof {
            assert(extra@.take(i as int + 1).drop_last() =~= extra@.take(i as int));
        }
        if extra[i].qty.is_pos() {
            put(&mut out, extra[i].clone());
        }
        i = i + 1;
    }
    proof {
        assert(extra@.take(i as int) =~= extra@);
    }
    if let Some(p) = position {
        if p.qty.is_pos() {
            put(&mut out, p.clone());
        }
    }
    out
}

/// Whether every symbol occurs once.
pub open spec fn distinct_symbols(v: Seq<Position>) -> bool {
    forall|i: int, j: int|
        0 <= i < j < v.len() ==> (#[trigger] v[i]).symbol@ != (#[trigger] v[j]).symbol@
}

proof fn lemma_put_distinct(v: Seq<Position>, p: Position)
    requires
        distinct_symbols(v),
    ensures
        distinct_symbols(put_position(v, p)),
        forall|q: Position|
            put_position(v, p).contains(q) ==> q == p || #[trigger] v.contains(q),
{
    if exists|i: int| 0 <= i < v.len() && (#[trigger] v[i]).symbol@ == p.symbol@ {
        let i = choose|i: int| 0 <= i < v.len() && (#[trigger] v[i]).symbol@ == p.symbol@;
        assert forall|j: int| 0 <= j < i implies (#[trigger] v[j]).symbol@ != p.symbol@ by {
            assert(v[j].symbol@ != v[i].symbol@);
        }
        lemma_put_at(v, p, i);
        let w = v.update(i, p);
        assert forall|a: int, b: int| 0 <= a < b < w.len() implies (#[trigger] w[a]).symbol@ != (
        #[trigger] w[b]).symbol@ by {
            assert(v[a].symbol@ != v[b].symbol@);
        }
        assert forall|q: Position| w.contains(q) implies q == p || #[trigger] v.contains(q) by {
            let k = choose|k: int| 0 <= k < w.len() && w[k] == q;
            if k != i {
                assert(v[k] == q);
            }
        }
    } else {
        lemma_put_end(v, p);
        let w = v.push(p);
        assert forall|a: int, b: int| 0 <= a < b < w.len() implies (#[trigger] w[a]).symbol@ != (
        #[trigger] w[b]).symbol@ by {
            assert(v[a].symbol@ != p.symbol@);
        }
        assert forall|q: Position| w.contains(q) implies q == p || #[trigger] v.contains(q) by {
            let k = choose|k: int| 0 <= k < w.len() && w[k] == q;
            if k < v.len() {
                assert(v[k] == q);
            }
        }
    }
}

proof fn lemma_by_symbol_distinct(v: Seq<Position>)
    ensures
        distinct_symbols(by_symbol(v)),
        forall|q: Position| #[trigger] by_symbol(v).contains(q) ==> q.qty.pos(),
    decreases v.len(),
{
    if v.len() > 0 {
        lemma_by_symbol_distinct(v.drop_last());
        if v.last().qty.pos() {
            lemma_put_distinct(by_symbol(v.drop_last()), v.last());
            assert forall|q: Position| #[trigger] by_symbol(v).contains(q) implies q.qty.pos() by {
                if q != v.last() {
                    assert(by_symbol(v.drop_last()).contains(q));
                }
            }
        }
    }
}

/// The remembered book holds each symbol once and only rows with a quantity.
pub proof fn law_remembered_book_is_distinct(position: Option<Position>, extra: Seq<Position>)
    ensures
        distinct_symbols(remembered(position, extra)),
        forall|q: Position|
            #[trigger] remembered(position, extra).contains(q) ==> q.qty.pos(),
{
    lemma_by_symbol_distinct(extra);
    if let Some(p) = position {
        if p.qty.pos() {
            lemma_put_distinct(by_symbol(extra), p);
            assert forall|q: Position| #[trigger] remembered(position, extra).contains(
                q,
            ) implies q.qty.pos() by {
                if q != p {
                    assert(by_symbol(extra).contains(q));
                }
            }
        }
    }
}

/// A managed long is never listed as unmanaged.
pub proof fn law_unmanaged_excludes_managed(
    open_book: Seq<Position>,
    managed: Seq<Position>,
    p: Position,
)
    requires
        open_longs(managed).contains(p),
    ensures
        !unmanaged(open_book, managed).contains(p),
{
    let longs = open_longs(managed);
    let k = choose|k: int| 0 <= k < longs.len() && longs[k] == p;
    lemma_found(longs, p.symbol@, k);
    let test = |q: Position| is_unmanaged(q, managed);
    let mtest = |q: Position| q.is_open_long();
    if unmanaged(open_book, managed).contains(p) {
        lemma_filter_member(open_book, test, p);
        lemma_filter_member(managed, mtest, p);
    }
}

/// A member of a filtered list passes the test.
pub proof fn lemma_filter_member<A>(s: Seq<A>, test: spec_fn(A) -> bool, x: A)
    requires
        s.filter(test).contains(x),
    ensures
        test(x),
        s.contains(x),
    decreases s.len(),
{
    reveal(Seq::filter);
    if s.len() > 0 {
        let rest = s.drop_last().filter(test);
        if rest.contains(x) {
            lemma_filter_member(s.drop_last(), test, x);
            let k = choose|k: int| 0 <= k < s.drop_last().len() && s.drop_last()[k] == x;
            assert(s[k] == x);
        } else {
            assert(test(s.last()));
            let k = choose|k: int| 0 <= k < s.filter(test).len() && s.filter(test)[k] == x;
            if k < rest.len() {
                assert(rest[k] == x);
            }
            assert(s[s.len() - 1] == x);
        }
    }
}

/// A row with a symbol is found.
pub proof fn lemma_found(v: Seq<Position>, symbol: Seq<char>, k: int)
    requires
        0 <= k < v.len(),
        v[k].symbol@ == symbol,
    ensures
        with_symbol(v, symbol) is Some,
    decreases k,
{
    if k > 0 {
        assert(v.drop_first()[k - 1] == v[k]);
        lemma_found(v.drop_first(), symbol, k - 1);
    }
}

/// The symbol that a market row names, in upper case.
pub open spec fn row_symbol(item: Json) -> Seq<char> {
    upper(trimmed(or_empty(item.text_at("symbol"@))))
}

pub open spec fn or_empty(t: Option<Seq<char>>) -> Seq<char> {
    match t {
        Some(s) => s,
        None => ""@,
    }
}

/// The first amount of a market row that cannot be read.
pub open spec fn row_error(item: Json) -> Option<Seq<char>> {
    if !(item is Object) {
        Some("ticker must be an object"@)
    } else if row_symbol(item).len() == 0 {
        Some("ticker missing symbol"@)
    } else if amount_in(item.field("lastPrice"@)) is None {
        Some(amount_error(item.field("lastPrice"@)))
    } else if amount_in(item.field("priceChangePercent"@)) is None {
        Some(amount_error(item.field("priceChangePercent"@)))
    } else if amount_in(item.field("quoteVolume"@)) is None {
        Some(amount_error(item.field("quoteVolume"@)))
    } else {
        None
    }
}

/// Whether a ticker says what a market row says.
pub open spec fn reads_row(t: Ticker, item: Json) -> bool {
    &&& t.symbol@ == row_symbol(item)
    &&& amount_in(item.field("lastPrice"@)) == Some(t.last_price)
    &&& amount_in(item.field("priceChangePercent"@)) == Some(t.price_change_percent)
    &&& amount_in(item.field("quoteVolume"@)) == Some(t.quote_volume)
    &&& t.high_price == amount_or_zero(item.field_or("highPrice"@, "high"@))
    &&& t.low_price == amount_or_zero(item.field_or("lowPrice"@, "low"@))
    &&& t.week_change_percent == dec(0, 0)
}

/// Reads a 24h market row.
pub fn ticker_from_mapping(item: &Json) -> (r: Result<Ticker, String>)
    ensures
        match r {
            Ok(t) => row_error(*item) is None && reads_row(t, *item),
            Err(e) => row_error(*item) == Some(e@),
        },
{
    if !matches!(item, Json::Object(_)) {
        return Err(own("ticker must be an object"));
    }
    let raw: &str = match item.get_text("symbol") {
        Some(t) => t,
        None => "",
    };
    let symbol = trim(raw).to_ascii_uppercase();
    if symbol.as_str().is_empty() {
        return Err(own("ticker missing symbol"));
    }
    let last_price: Dec = match require_amount(item.get("lastPrice")) {
        Ok(d) => d,
        Err(e) => return Err(e),
    };
    let price_change_percent: Dec = match require_amount(item.get("priceChangePercent")) {
        Ok(d) => d,
        Err(e) => return Err(e),
    };
    let quote_volume: Dec = match require_amount(item.get("quoteVolume")) {
        Ok(d) => d,
        Err(e) => return Err(e),
    };
    Ok(
        Ticker {
            symbol,
            last_price,
            price_change_percent,
            quote_volume,
            high_price: read_or_zero(item.get_or("highPrice", "high")),
            low_price: read_or_zero(item.get_or("lowPrice", "low")),
            week_change_percent: Dec::zero(),
        },
    )
}

/// The integer that a value stands for.
pub open spec fn integer_in(v: Json) -> Option<i64> {
    match v {
        Json::Number(n) => n.as_whole(),
        Json::Text(t) => match int_value(t@) {
            Some(n) => if i64::MIN <= n <= i64::MAX {
                Some(n as i64)
            } else {
                None
            },
            None => None,
        },
        _ => None,
    }
}

fn read_integer(v: &Json) -> (r: Option<i64>)
    ensures
        r == integer_in(*v),
{
    match v {
        Json::Number(n) => n.whole(),
        Json::Text(t) => parse_i64(t.as_str()),
        _ => None,
    }
}

/// The amount at a place of a row, or what is wrong with it.
pub open spec fn cell(row: Seq<Json>, i: int) -> Option<Json> {
    Some(row[i])
}

/// What is wrong with a candle's row.
pub open spec fn kline_error(row: Json) -> Option<Seq<char>> {
    match row {
        Json::List(v) => if v@.len() < 6 {
            Some("kline row too short"@)
        } else if integer_in(v@[0]) is None {
            Some("not an int"@)
        } else if amount_in(cell(v@, 1)) is None {
            Some(amount_error(cell(v@, 1)))
        } else if amount_in(cell(v@, 2)) is None {
            Some(amount_error(cell(v@, 2)))
        } else if amount_in(cell(v@, 3)) is None {
            Some(amount_error(cell(v@, 3)))
        } else if amount_in(cell(v@, 4)) is None {
            Some(amount_error(cell(v@, 4)))
        } else if amount_in(cell(v@, 5)) is None {
            Some(amount_error(cell(v@, 5)))
        } else {
            None
        },
        _ => Some("kline row too short"@),
    }
}

/// The candle of a row that has nothing wrong with it.
pub open spec fn kline_bar(row: Json) -> Bar {
    let v = row->List_0@;
    Bar {
        open_time: integer_in(v[0])->0,
        open: amount_in(cell(v, 1))->0,
        high: amount_in(cell(v, 2))->0,
        low: amount_in(cell(v, 3))->0,
        close: amount_in(cell(v, 4))->0,
        volume: amount_in(cell(v, 5))->0,
    }
}

/// Reads a candle's row: time, open, high, low, close, volume.
pub fn bar_from_kline(row: &Json) -> (r: Result<Bar, String>)
    ensures
        match r {
            Ok(b) => kline_error(*row) is None && b == kline_bar(*row),
            Err(e) => kline_error(*row) == Some(e@),
        },
{
    match row {
        Json::List(v) => {
            if v.len() < 6 {
                return Err(own("kline row too short"));
            }
            let open_time: i64 = match read_integer(&v[0]) {
                Some(t) => t,
                None => return Err(own("not an int")),
            };
            let open: Dec = match require_amount(Some(&v[1])) {
                Ok(d) => d,
                Err(e) => return Err(e),
            };
            let high: Dec = match require_amount(Some(&v[2])) {
                Ok(d) => d,
                Err(e) => return Err(e),
            };
            let low: Dec = match require_amount(Some(&v[3])) {
                Ok(d) => d,
                Err(e) => return Err(e),
            };
            let close: Dec = match require_amount(Some(&v[4])) {
                Ok(d) => d,
                Err(e) => return Err(e),
            };
            let volume: Dec = match require_amount(Some(&v[5])) {
                Ok(d) => d,
                Err(e) => return Err(e),
            };
            Ok(Bar { open_time, open, high, low, close, volume })
        },
        _ => Err(own("kline row too short")),
    }
}

/// The candles of a list of rows; rows that cannot be read are left out.
pub open spec fn kline_bars(rows: Seq<Json>) -> Seq<Bar>
    decreases rows.len(),
{
    if rows.len() == 0 {
        Seq::empty()
    } else {
        let rest = kline_bars(rows.drop_last());
        if kline_error(rows.last()) is None {
            rest.push(kline_bar(rows.last()))
        } else {
            rest
        }
    }
}

/// The candles of a document: those of a list, none otherwise.
pub open spec fn document_bars(raw: Json) -> Seq<Bar> {
    match raw {
        Json::List(v) => kline_bars(v@),
        _ => Seq::empty(),
    }
}

/// Reads the candles of a document; rows that cannot be read are left out.
pub fn bars_from_raw(raw: &Json) -> (r: Vec<Bar>)
    ensures
        r@ == document_bars(*raw),
{
    let mut out: Vec<Bar> = Vec::new();
    if let Json::List(v) = raw {
        let mut i: usize = 0;
        while i < v.len()
            invariant
                i <= v@.len(),
                out@ == kline_bars(v@.take(i as int)),
            decreases v@.len() - i,
        {
            proof {
                assert(v@.take(i as int + 1).drop_last() =~= v@.take(i as int));
            }
            if let Ok(b) = bar_from_kline(&v[i]) {
                out.push(b);
            }
            i = i + 1;
        }
        proof {
            assert(v@.take(i as int) =~= v@);
        }
    }
    out
}

/// The candles of a document, where it holds some.
pub open spec fn some_document_bars(raw: Json) -> Option<Seq<Bar>> {
    if document_bars(raw).len() == 0 {
        None
    } else {
        Some(document_bars(raw))
    }
}

/// Reads the candles of a document, where it holds some.
pub fn some_bars(raw: &Json) -> (r: Option<Vec<Bar>>)
    ensures
        opt_bars(r) == some_document_bars(*raw),
{
    let bars: Vec<Bar> = bars_from_raw(raw);
    if bars.len() == 0 {
        None
    } else {
        Some(bars)
    }
}

pub open spec fn opt_bars(r: Option<Vec<Bar>>) -> Option<Seq<Bar>> {
    match r {
        Some(v) => Some(v@),
        None => None,
    }
}

/// When a price is near the day's high: exactly where it is at or above the high
/// less that share of it.
pub proof fn law_near_the_high(t: Ticker, share: Dec, limit: Dec)
    requires
        t.high_price.pos(),
        t.last_price.pos(),
        n_mul(Some(t.high_price), crate::dec::decimal_difference(dec(1, 0), share)) == Some(limit),
    ensures
        near_high(t, share) == Some(limit.le(t.last_price)),
{
}

/// A live row is completed from memory only where it lacks something, and only by a
/// row of its own name.
pub proof fn law_memory_fills_gaps(live: Position, m: Position)
    ensures
        live.symbol@ != m.symbol@ ==> coalesced(live, Some(m)) == live,
        live.symbol@ == m.symbol@ ==> {
            let c = coalesced(live, Some(m));
            &&& live.stop_loss is None ==> c.stop_loss == m.stop_loss
            &&& live.take_profit is None ==> c.take_profit == m.take_profit
            &&& live.opened_bar_time is None ==> c.opened_bar_time == m.opened_bar_time
            &&& live.opened_bar_time is Some ==> c.opened_bar_time == live.opened_bar_time
            &&& !live.qty.pos() ==> c.qty == m.qty
            &&& !live.entry_price.pos() ==> c.entry_price == m.entry_price
        },
        coalesced(live, None) == live,
{
}

/// What a strategy does not manage: the open rows that are no longs, and the longs
/// of a name that it has no open long of.
pub proof fn law_unmanaged_rows(open_book: Seq<Position>, managed: Seq<Position>, p: Position)
    ensures
        unmanaged(open_book, managed).contains(p) ==> open_book.contains(p) && p.qty.pos(),
        open_book.contains(p) && p.qty.pos() && p.side == Side::Short ==> unmanaged(
            open_book,
            managed,
        ).contains(p),
{
    let test = |q: Position| is_unmanaged(q, managed);
    assert(unmanaged(open_book, managed) == open_book.filter(test));
    if unmanaged(open_book, managed).contains(p) {
        lemma_filter_member(open_book, test, p);
    }
}

} // verus!

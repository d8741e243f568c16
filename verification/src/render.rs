//! What the terminal shows: the parts of a frame and how they read.
pub mod frame;
pub mod tone;

use crate::config::{default_risk_pct, TradeInterval};
use crate::dec::{
    dec, decimal_normal, decimal_text, decimal_text_fixed, larger, magnitude, minus, n_add, n_div, n_mul,
    n_sub, over, plus, prints, rounded, times, Dec, Num,
};
use crate::models::{opt_view, Position, RecentAction, Side, Ticker};
use crate::profit::{account_profit, profit_of};
use crate::ranking::{find_ignoring_case, first_n, ranked, row_ignoring_case, sort_ranked, RankBy};
use crate::sessions::{
    clock_text, default_entry_windows, default_windows, session_status, status_at, utc_clock,
    HourWindow, SessionStatus,
};
use crate::symbols::SymMap;
use crate::text::{
    add_text, insert_in_order, int_text, lemma_put_keeps_rising, lemma_rising_unique, listed, own,
    print_u64, split_lines, lines_in, texts_rise, to_chars, from_chars, views,
};
use vstd::prelude::*;
use vstd::string::StringExecFns;

verus! {

/// Everything that a frame is made of.
#[derive(Debug)]
pub struct ViewModel {
    pub strategy_id: i32,
    pub wallet_balance: Dec,
    pub unrealized_pnl: Dec,
    pub starting_equity: Dec,
    pub available_balance: Dec,
    pub positions: Vec<Position>,
    pub recent_actions: Vec<RecentAction>,
    pub tickers: Vec<Ticker>,
    pub chart_symbol: String,
    pub chart_closes: Vec<Dec>,
    pub last_error: Option<String>,
    pub logged_error: Option<String>,
    pub live: bool,
    pub has_credentials: bool,
    pub poll_seconds: i32,
    pub last_decision: String,
    pub mode_note: String,
    pub flatten_armed: bool,
    pub entries_paused: bool,
    pub now_ts: i64,
    pub entry_windows: Vec<HourWindow>,
    pub always_enter: bool,
    pub signals_on: bool,
    pub journal_lines: Vec<String>,
    pub leverage: Option<i32>,
    pub order_notional: Dec,
    /// Share of the equity that the fourth strategy risks; zero where it is off.
    pub risk_pct: Dec,
    pub notional_from_exchange: bool,
    pub max_positions: i32,
    pub basket_symbols: Vec<String>,
    pub cooldown_until: i64,
    pub cooldowns: SymMap<i64>,
    pub error_source: String,
    pub unmanaged_symbols: Vec<String>,
    pub flatten_leftovers: bool,
    pub daily_halt: bool,
    pub daily_loss_usdt: Dec,
    pub daily_loss_r: Dec,
    pub day_pnl: Option<Dec>,
    pub s4_interval: TradeInterval,
}

impl Default for ViewModel {
    fn default() -> (r: Self)
        ensures
            r.strategy_id == 1 && r.poll_seconds == 60 && r.max_positions == 1,
            r.wallet_balance == dec(0, 0) && r.unrealized_pnl == dec(0, 0) && r.starting_equity == dec(
                0,
                0,
            ) && r.available_balance == dec(0, 0),
            r.positions@.len() == 0 && r.recent_actions@.len() == 0 && r.tickers@.len() == 0,
            r.chart_symbol@.len() == 0 && r.chart_closes@.len() == 0,
            r.last_error is None && r.logged_error is None,
            !r.live && !r.has_credentials && !r.flatten_armed && !r.entries_paused,
            r.last_decision@ == "—"@ && r.mode_note@.len() == 0,
            r.now_ts == 0 && r.entry_windows@ == default_windows() && !r.always_enter,
            !r.signals_on && r.journal_lines@.len() == 0 && r.leverage is None,
            r.order_notional == dec(20, 0) && r.risk_pct == dec(25, 4),
            !r.notional_from_exchange && r.basket_symbols@.len() == 0,
            r.cooldown_until == 0 && r.cooldowns@ == Map::<Seq<char>, i64>::empty(),
            r.error_source@.len() == 0 && r.unmanaged_symbols@.len() == 0,
            !r.flatten_leftovers && !r.daily_halt,
            r.daily_loss_usdt == dec(20, 0) && r.daily_loss_r == dec(3, 0) && r.day_pnl is None,
            r.s4_interval == TradeInterval::Minute5,
    {
        ViewModel {
            strategy_id: 1,
            wallet_balance: Dec::zero(),
            unrealized_pnl: Dec::zero(),
            starting_equity: Dec::zero(),
            available_balance: Dec::zero(),
            positions: Vec::new(),
            recent_actions: Vec::new(),
            tickers: Vec::new(),
            chart_symbol: String::new(),
            chart_closes: Vec::new(),
            last_error: None,
            logged_error: None,
            live: false,
            has_credentials: false,
            poll_seconds: 60,
            last_decision: own("—"),
            mode_note: String::new(),
            flatten_armed: false,
            entries_paused: false,
            now_ts: 0,
            entry_windows: default_entry_windows(),
            always_enter: false,
            signals_on: false,
            journal_lines: Vec::new(),
            leverage: None,
            order_notional: Dec::from_int(20),
            risk_pct: default_risk_pct(),
            notional_from_exchange: false,
            max_positions: 1,
            basket_symbols: Vec::new(),
            cooldown_until: 0,
            cooldowns: SymMap::new(),
            error_source: String::new(),
            unmanaged_symbols: Vec::new(),
            flatten_leftovers: false,
            daily_halt: false,
            daily_loss_usdt: Dec::from_int(20),
            daily_loss_r: Dec::from_int(3),
            day_pnl: None,
            s4_interval: TradeInterval::Minute5,
        }
    }
}

/// What the footer is about.
pub open spec fn banner_of(v: ViewModel) -> Seq<char> {
    if v.flatten_armed {
        "confirm"@
    } else if v.entries_paused {
        "paused"@
    } else if v.daily_halt {
        "daily"@
    } else {
        "idle"@
    }
}

impl ViewModel {
    pub fn session(&self) -> (r: SessionStatus)
        ensures
            r@ == status_at(self.now_ts as int, self.entry_windows@, self.always_enter),
    {
        session_status(self.now_ts, Some(self.entry_windows.as_slice()), self.always_enter)
    }

    pub fn banner(&self) -> (r: &'static str)
        ensures
            r@ == banner_of(*self),
    {
        if self.flatten_armed {
            "confirm"
        } else if self.entries_paused {
            "paused"
        } else if self.daily_halt {
            "daily"
        } else {
            "idle"
        }
    }
}

pub fn account_profit_figure(view: &ViewModel) -> (r: Num)
    ensures
        r == profit_of(view.wallet_balance, view.unrealized_pnl, view.starting_equity),
{
    account_profit(view.wallet_balance, view.unrealized_pnl, view.starting_equity)
}

/// An amount with four places.
pub open spec fn money(d: Dec) -> Seq<char> {
    decimal_text_fixed(rounded(d, 4), 4)
}

/// Whether an amount can be shown with four places.
pub open spec fn money_shows(d: Dec) -> bool {
    prints(rounded(d, 4), 4)
}

/// An amount with four places. `None` where it is too large to be shown.
pub fn fmt_money(d: Dec) -> (r: Option<String>)
    ensures
        opt_view(r) == (if money_shows(d) {
            Some(money(d))
        } else {
            None
        }),
{
    d.round_dp(4).text_fixed(4)
}

/// A price: the smaller, the more places.
pub open spec fn price(d: Dec) -> Seq<char> {
    let a = magnitude(d);
    if a.lt(dec(1, 0)) {
        decimal_text_fixed(rounded(d, 6), 6)
    } else if a.lt(dec(100, 0)) {
        decimal_text_fixed(rounded(d, 5), 5)
    } else {
        decimal_text_fixed(rounded(d, 4), 4)
    }
}

/// Whether a price can be shown.
pub open spec fn price_shows(d: Dec) -> bool {
    let a = magnitude(d);
    if a.lt(dec(1, 0)) {
        prints(rounded(d, 6), 6)
    } else if a.lt(dec(100, 0)) {
        prints(rounded(d, 5), 5)
    } else {
        prints(rounded(d, 4), 4)
    }
}

/// A price. `None` where it is too large to be shown.
pub fn fmt_price(d: Dec) -> (r: Option<String>)
    ensures
        opt_view(r) == (if price_shows(d) {
            Some(price(d))
        } else {
            None
        }),
{
    let a: Dec = d.abs();
    if a < Dec::one() {
        d.round_dp(6).text_fixed(6)
    } else if a < Dec::from_int(100) {
        d.round_dp(5).text_fixed(5)
    } else {
        d.round_dp(4).text_fixed(4)
    }
}

/// A price, or a dash.
pub open spec fn price_or_dash(d: Option<Dec>) -> Seq<char> {
    match d {
        Some(x) => price(x),
        None => "—"@,
    }
}

/// Whether a price, where there is one, can be shown.
pub open spec fn dash_shows(d: Option<Dec>) -> bool {
    d is Some ==> price_shows(d->0)
}

pub fn fmt_price_or_dash(d: Option<Dec>) -> (r: Option<String>)
    ensures
        opt_view(r) == (if dash_shows(d) {
            Some(price_or_dash(d))
        } else {
            None
        }),
{
    match d {
        Some(x) => fmt_price(x),
        None => Some(own("—")),
    }
}

/// Whole seconds of a span; none where it is over.
pub open spec fn whole_seconds(ms: int) -> int {
    if ms < 0 {
        0
    } else {
        ms / 1000
    }
}

/// How long something still takes, in minutes and seconds.
pub open spec fn remain_text(ms: int) -> Seq<char> {
    let sec = whole_seconds(ms);
    if sec < 60 {
        int_text(sec) + " с"@
    } else if sec % 60 == 0 {
        int_text(sec / 60) + " мин"@
    } else {
        int_text(sec / 60) + " мин "@ + int_text(sec % 60) + " с"@
    }
}

/// Whole seconds until an instant.
pub fn seconds_until(until: i64, now: i64) -> (r: u64)
    ensures
        r == whole_seconds(until - now),
{
    if until <= now {
        return 0;
    }
    let n: i128 = ((until as i128) - (now as i128)) / 1000;
    n as u64
}

fn fmt_remain(until: i64, now: i64) -> (r: String)
    ensures
        r@ == remain_text(until - now),
{
    let sec: u64 = seconds_until(until, now);
    if sec < 60 {
        let mut t = print_u64(sec);
        t.append(" с");
        return t;
    }
    let mut t = print_u64(sec / 60);
    if sec % 60 == 0 {
        t.append(" мин");
    } else {
        t.append(" мин ");
        t.append(print_u64(sec % 60).as_str());
        t.append(" с");
    }
    t
}

/// Whether keys are those that still pause, in order and each once.
pub open spec fn lists_paused(keys: Seq<Seq<char>>, m: Map<Seq<char>, i64>, now: int) -> bool {
    &&& texts_rise(keys)
    &&& forall|k: Seq<char>| #[trigger] keys.contains(k) <==> m.contains_key(k) && m[k] > now
}

/// The keys that still pause, in order.
pub open spec fn paused_keys(m: Map<Seq<char>, i64>, now: int) -> Seq<Seq<char>> {
    choose|keys: Seq<Seq<char>>| lists_paused(keys, m, now)
}

proof fn lemma_paused_keys(keys: Seq<Seq<char>>, m: Map<Seq<char>, i64>, now: int)
    requires
        lists_paused(keys, m, now),
    ensures
        paused_keys(m, now) == keys,
{
    let other = paused_keys(m, now);
    assert(lists_paused(other, m, now));
    assert forall|x: Seq<char>| other.contains(x) <==> keys.contains(x) by {}
    lemma_rising_unique(other, keys);
}

fn list_paused(m: &SymMap<i64>, now: i64) -> (r: Vec<String>)
    ensures
        views(r@) == paused_keys(m@, now as int),
        lists_paused(views(r@), m@, now as int),
{
    let mut out: Vec<String> = Vec::new();
    let mut i: usize = 0;
    proof {
        assert(views(out@) =~= Seq::<Seq<char>>::empty());
    }
    while i < m.len()
        invariant
            i <= m.list().len(),
            texts_rise(views(out@)),
            forall|k: Seq<char>| #[trigger]
                views(out@).contains(k) ==> m@.contains_key(k) && m@[k] > now,
            forall|j: int|
                0 <= j < i && m@[(#[trigger] m.list()[j]).0@] > now ==> views(out@).contains(
                    m.list()[j].0@,
                ),
        decreases m.list().len() - i,
    {
        let key: &str = m.key_at(i);
        let ghost before = views(out@);
        proof {
            crate::symbols::lemma_listed_key(m.list(), i as int);
            m.lemma_view(key@);
        }
        let until: i64 = match m.get(key) {
            Some(t) => *t,
            None => 0,
        };
        if until > now && !listed(out.as_slice(), key) {
            insert_in_order(&mut out, own(key));
            proof {
                lemma_put_keeps_rising(before, key@);
            }
        }
        proof {
            assert forall|j: int|
                0 <= j < i + 1 && m@[(#[trigger] m.list()[j]).0@] > now implies views(out@).contains(
                m.list()[j].0@,
            ) by {
                if j < i {
                    assert(before.contains(m.list()[j].0@));
                }
            }
        }
        i = i + 1;
    }
    proof {
        assert forall|k: Seq<char>| #[trigger] views(out@).contains(k) <==> m@.contains_key(k) && m@[k]
            > now by {
            if m@.contains_key(k) && m@[k] > now {
                m.lemma_view(k);
                let j = crate::symbols::lemma_key_place(m.list(), k);
                assert(m@[m.list()[j].0@] > now);
            }
        }
        lemma_paused_keys(views(out@), m@, now as int);
    }
    out
}

/// How a pause reads.
pub open spec fn pause_line(name: Seq<char>, until: int, now: int) -> Seq<char> {
    "  • "@ + name + "  ещё "@ + remain_text(until - now) + "  → "@ + clock_text(until) + " UTC"@
}

/// A heading and a row for every symbol that pauses; for the desk where none does.
/// Empty where nothing is paused.
pub open spec fn pause_lines(now: int, desk_until: int, m: Map<Seq<char>, i64>) -> Seq<Seq<char>> {
    let keys = paused_keys(m, now);
    if keys.len() > 0 {
        seq!["Пауза после сделки:"@] + Seq::new(
            keys.len(),
            |i: int| pause_line(keys[i], m[keys[i]] as int, now),
        )
    } else if desk_until > now {
        seq!["Пауза после сделки:"@, pause_line("стол"@, desk_until, now)]
    } else {
        Seq::empty()
    }
}

fn write_pause(name: &str, until: i64, now: i64) -> (r: String)
    ensures
        r@ == pause_line(name@, until as int, now as int),
{
    let mut t = own("  • ");
    t.append(name);
    t.append("  ещё ");
    t.append(fmt_remain(until, now).as_str());
    t.append("  → ");
    t.append(utc_clock(until).as_str());
    t.append(" UTC");
    t
}

/// A heading and a row for every symbol that pauses.
pub fn cooldown_lines(now: i64, cooldown_until: i64, cooldowns: &SymMap<i64>) -> (r: Vec<String>)
    ensures
        views(r@) == pause_lines(now as int, cooldown_until as int, cooldowns@),
{
    let keys: Vec<String> = list_paused(cooldowns, now);
    let ghost kv = views(keys@);
    let mut out: Vec<String> = Vec::new();
    proof {
        assert(views(out@) =~= Seq::<Seq<char>>::empty());
        assert(kv.len() == keys@.len());
    }
    if keys.len() == 0 {
        if cooldown_until > now {
            add_text(&mut out, own("Пауза после сделки:"));
            add_text(&mut out, write_pause("стол", cooldown_until, now));
            proof {
                assert(views(out@) =~= pause_lines(
                    now as int,
                    cooldown_until as int,
                    cooldowns@,
                ));
            }
        }
        return out;
    }
    add_text(&mut out, own("Пауза после сделки:"));
    let ghost body = Seq::new(
        kv.len(),
        |i: int| pause_line(kv[i], cooldowns@[kv[i]] as int, now as int),
    );
    let mut i: usize = 0;
    proof {
        assert(views(out@) =~= seq!["Пауза после сделки:"@] + body.take(0));
    }
    while i < keys.len()
        invariant
            i <= keys@.len(),
            kv == views(keys@),
            lists_paused(kv, cooldowns@, now as int),
            body == Seq::new(
                kv.len(),
                |i: int| pause_line(kv[i], cooldowns@[kv[i]] as int, now as int),
            ),
            views(out@) == seq!["Пауза после сделки:"@] + body.take(i as int),
        decreases keys@.len() - i,
    {
        let key: &str = keys[i].as_str();
        proof {
            assert(kv[i as int] == key@);
            assert(kv.contains(key@));
        }
        let until: i64 = match cooldowns.get(key) {
            Some(t) => *t,
            None => 0,
        };
        let ghost before = views(out@);
        add_text(&mut out, write_pause(key, until, now));
        proof {
            assert(views(out@) =~= seq!["Пауза после сделки:"@] + body.take(i as int + 1));
        }
        i = i + 1;
    }
    proof {
        assert(body.take(i as int) =~= body);
        assert(paused_keys(cooldowns@, now as int) == kv);
    }
    out
}

/// How far a long is from a gain of its risk, as money and as a share of that
/// risk.
#[derive(Debug, Clone, Copy)]
pub enum OneRStatus {
    NoStop,
    Reached,
    Remaining { usdt: Dec, pct: Dec },
}

/// How far a long is from a gain of its risk.
pub open spec fn one_r_of(p: Position, mark: Dec) -> Option<OneRStatus> {
    if p.side != Side::Long || p.stop_loss is None || !p.entry_price.pos() || !mark.pos() {
        Some(OneRStatus::NoStop)
    } else if p.entry_price.le(p.stop_loss->0) {
        Some(OneRStatus::Reached)
    } else {
        match n_sub(Some(p.entry_price), p.stop_loss) {
            None => None,
            Some(risk) => if !risk.pos() {
                Some(OneRStatus::Reached)
            } else {
                match n_sub(n_add(Some(p.entry_price), Some(risk)), Some(mark)) {
                    None => None,
                    Some(rest) => if !rest.pos() {
                        Some(OneRStatus::Reached)
                    } else {
                        let qty = larger(p.qty, dec(0, 0));
                        match (n_mul(Some(qty), Some(risk)), n_mul(Some(qty), Some(rest))) {
                            (Some(one), Some(usdt)) => match n_mul(
                                if one.pos() {
                                    n_div(Some(usdt), Some(one))
                                } else {
                                    n_div(Some(rest), Some(risk))
                                },
                                Some(dec(100, 0)),
                            ) {
                                Some(pct) => Some(OneRStatus::Remaining { usdt, pct }),
                                None => None,
                            },
                            _ => None,
                        }
                    },
                }
            },
        }
    }
}

pub fn one_r_status(p: &Position, mark: Dec) -> (r: Option<OneRStatus>)
    ensures
        r == one_r_of(*p, mark),
{
    if p.side != Side::Long {
        return Some(OneRStatus::NoStop);
    }
    let sl: Dec = match p.stop_loss {
        Some(d) => d,
        None => return Some(OneRStatus::NoStop),
    };
    if !p.entry_price.is_pos() || !mark.is_pos() {
        return Some(OneRStatus::NoStop);
    }
    if p.entry_price <= sl {
        return Some(OneRStatus::Reached);
    }
    let risk: Dec = minus(Some(p.entry_price), Some(sl))?;
    if !risk.is_pos() {
        return Some(OneRStatus::Reached);
    }
    let rest: Dec = minus(plus(Some(p.entry_price), Some(risk)), Some(mark))?;
    if !rest.is_pos() {
        return Some(OneRStatus::Reached);
    }
    let qty: Dec = p.qty.max(Dec::zero());
    let one: Dec = times(Some(qty), Some(risk))?;
    let usdt: Dec = times(Some(qty), Some(rest))?;
    let share: Num = if one.is_pos() {
        over(Some(usdt), Some(one))
    } else {
        over(Some(rest), Some(risk))
    };
    let pct: Dec = times(share, Some(Dec::from_int(100)))?;
    Some(OneRStatus::Remaining { usdt, pct })
}

/// The price that a position stands at: the market's, else what its profit says.
pub open spec fn mark_at(p: Position, tickers: Seq<Ticker>) -> Num {
    let row = row_ignoring_case(tickers, p.symbol@);
    if row is Some && row->0.last_price.pos() {
        Some(row->0.last_price)
    } else if p.qty.pos() && p.entry_price.pos() {
        match p.side {
            Side::Long => n_add(
                Some(p.entry_price),
                n_div(Some(p.unrealized_pnl), Some(p.qty)),
            ),
            Side::Short => n_sub(
                Some(p.entry_price),
                n_div(Some(p.unrealized_pnl), Some(p.qty)),
            ),
        }
    } else {
        Some(p.entry_price)
    }
}

pub fn position_mark(p: &Position, tickers: &[Ticker]) -> (r: Num)
    ensures
        r == mark_at(*p, tickers@),
{
    if let Some(t) = find_ignoring_case(tickers, p.symbol.as_str()) {
        if t.last_price.is_pos() {
            return Some(t.last_price);
        }
    }
    if p.qty.is_pos() && p.entry_price.is_pos() {
        let delta: Num = over(Some(p.unrealized_pnl), Some(p.qty));
        match p.side {
            Side::Long => plus(Some(p.entry_price), delta),
            Side::Short => minus(Some(p.entry_price), delta),
        }
    } else {
        Some(p.entry_price)
    }
}

/// How far a position is from a gain of its risk, in words. The inner `None` says
/// that it is no long.
pub open spec fn one_r_text(p: Position, mark: Dec) -> Option<Option<Seq<char>>> {
    if p.side != Side::Long {
        Some(None)
    } else {
        match one_r_of(p, mark) {
            None => None,
            Some(OneRStatus::NoStop) => Some(Some("  до 1R: нет стопа"@)),
            Some(OneRStatus::Reached) => Some(Some("  до 1R: пройден"@)),
            Some(OneRStatus::Remaining { usdt, pct }) => if money_shows(usdt) {
                Some(
                    Some(
                        "  до 1R: ещё "@ + money(usdt) + " USDT (осталось "@ + decimal_text(
                            decimal_normal(rounded(pct, 1)),
                        ) + "%)"@,
                    ),
                )
            } else {
                None
            },
        }
    }
}

pub open spec fn opt_line(r: Option<Option<String>>) -> Option<Option<Seq<char>>> {
    match r {
        Some(Some(t)) => Some(Some(t@)),
        Some(None) => Some(None),
        None => None,
    }
}

pub fn one_r_line(p: &Position, mark: Dec) -> (r: Option<Option<String>>)
    ensures
        opt_line(r) == one_r_text(*p, mark),
{
    if p.side != Side::Long {
        return Some(None);
    }
    match one_r_status(p, mark)? {
        OneRStatus::NoStop => Some(Some(own("  до 1R: нет стопа"))),
        OneRStatus::Reached => Some(Some(own("  до 1R: пройден"))),
        OneRStatus::Remaining { usdt, pct } => {
            let mut t = own("  до 1R: ещё ");
            t.append(fmt_money(usdt)?.as_str());
            t.append(" USDT (осталось ");
            t.append(pct.round_dp(1).normalize().text().as_str());
            t.append("%)");
            Some(Some(t))
        },
    }
}

/// How many rows of risers and fallers are shown.
pub const TOP_MOVERS_N: usize = 5;

/// The strongest risers and fallers of the day.
pub fn top_movers(tickers: &[Ticker], n: usize) -> (r: (Vec<Ticker>, Vec<Ticker>))
    ensures
        r.0@ == first_n(ranked(RankBy::TopRise, tickers@), n as int),
        r.1@ == first_n(ranked(RankBy::TopFall, tickers@), n as int),
{
    (take_ranked(RankBy::TopRise, tickers, n), take_ranked(RankBy::TopFall, tickers, n))
}

fn take_ranked(by: RankBy, tickers: &[Ticker], n: usize) -> (r: Vec<Ticker>)
    ensures
        r@ == first_n(ranked(by, tickers@), n as int),
{
    let mut v: Vec<Ticker> = sort_ranked(by, crate::ranking::copy_tickers(tickers));
    if v.len() > n {
        v.truncate(n);
        proof {
            assert(v@ =~= ranked(by, tickers@).take(n as int));
        }
    }
    v
}

/// Green for profit, red for loss, yellow for what is on its way.
#[derive(Debug, Clone, Copy, PartialEq, Eq, Structural)]
pub enum LineTone {
    Profit,
    Loss,
    Warn,
}

/// A line cut into pieces of a width.
pub open spec fn pieces(line: Seq<char>, width: int) -> Seq<Seq<char>>
    decreases line.len(),
{
    if width < 1 || line.len() <= width {
        seq![line]
    } else {
        seq![line.take(width)] + pieces(line.skip(width), width)
    }
}

/// The pieces of the first `n` lines.
pub open spec fn packed(lines: Seq<Seq<char>>, width: int, n: int) -> Seq<Seq<char>>
    decreases n,
{
    if n <= 0 {
        Seq::empty()
    } else {
        packed(lines, width, n - 1) + pieces(lines[n - 1], width)
    }
}

/// A frame packed into rows: each line starts on a row of its own, no row is
/// wider than the width, and no more rows are kept than there are.
pub open spec fn fitted(frame: Seq<char>, width: int, rows: int) -> Seq<Seq<char>> {
    let w = if width < 1 {
        1
    } else {
        width
    };
    let lines = lines_in(frame);
    let all = packed(lines, w, lines.len() as int);
    if all.len() <= rows {
        all
    } else {
        all.take(rows)
    }
}

proof fn lemma_packed_grows(lines: Seq<Seq<char>>, width: int, a: int, b: int)
    requires
        0 <= a <= b,
    ensures
        packed(lines, width, a).len() <= packed(lines, width, b).len(),
        packed(lines, width, b).take(packed(lines, width, a).len() as int) == packed(lines, width, a),
    decreases b,
{
    if a < b {
        lemma_packed_grows(lines, width, a, b - 1);
        let x = packed(lines, width, a);
        let y = packed(lines, width, b - 1);
        let z = packed(lines, width, b);
        assert(z.take(x.len() as int) =~= y.take(x.len() as int));
    } else {
        assert(packed(lines, width, b).take(packed(lines, width, a).len() as int) =~= packed(
            lines,
            width,
            a,
        ));
    }
}

fn cut_line(out: &mut Vec<String>, line: &str, width: usize)
    requires
        width >= 1,
    ensures
        views(final(out)@) == views(old(out)@) + pieces(line@, width as int),
{
    let v: Vec<char> = to_chars(line);
    let ghost start = views(out@);
    let mut at: usize = 0;
    proof {
        assert(v@.skip(0) =~= v@);
        assert(start + pieces(v@.skip(0), width as int) =~= start + pieces(line@, width as int));
    }
    while v.len() - at > width
        invariant
            at <= v@.len(),
            v@ == line@,
            width >= 1,
            views(out@) + pieces(v@.skip(at as int), width as int) == start + pieces(
                line@,
                width as int,
            ),
        decreases v@.len() - at,
    {
        let ghost before = views(out@);
        let ghost rest = v@.skip(at as int);
        let piece: String = copy_part(v.as_slice(), at, at + width);
        proof {
            assert(rest.take(width as int) =~= v@.subrange(at as int, at + width));
            assert(rest.skip(width as int) =~= v@.skip(at + width));
        }
        add_text(out, piece);
        proof {
            assert(views(out@) + pieces(v@.skip(at + width), width as int) =~= before + pieces(
                rest,
                width as int,
            ));
        }
        at = at + width;
    }
    let ghost before = views(out@);
    let piece: String = copy_part(v.as_slice(), at, v.len());
    proof {
        assert(v@.skip(at as int) =~= v@.subrange(at as int, v@.len() as int));
    }
    add_text(out, piece);
    proof {
        assert(views(out@) =~= before + seq![v@.skip(at as int)]);
    }
}

fn copy_part(v: &[char], from: usize, to: usize) -> (r: String)
    requires
        from <= to <= v@.len(),
    ensures
        r@ == v@.subrange(from as int, to as int),
{
    let mut part: Vec<char> = Vec::new();
    let mut i: usize = from;
    while i < to
        invariant
            from <= i <= to <= v@.len(),
            part@ == v@.subrange(from as int, i as int),
        decreases to - i,
    {
        part.push(v[i]);
        proof {
            assert(v@.subrange(from as int, i + 1) =~= v@.subrange(from as int, i as int).push(
                v@[i as int],
            ));
        }
        i = i + 1;
    }
    from_chars(part.as_slice())
}

/// Packs a frame into at most `rows` rows of at most `width` characters.
pub fn fit_lines(frame: &str, width: usize, rows: usize) -> (r: Vec<String>)
    ensures
        views(r@) == fitted(frame@, width as int, rows as int),
{
    let w: usize = if width < 1 {
        1
    } else {
        width
    };
    let lines: Vec<String> = split_lines(frame);
    let ghost all = lines_in(frame@);
    let mut out: Vec<String> = Vec::new();
    let mut i: usize = 0;
    proof {
        assert(views(out@) =~= Seq::<Seq<char>>::empty());
        assert(all.len() == lines@.len());
    }
    while i < lines.len() && out.len() < rows
        invariant
            i <= lines@.len(),
            all == views(lines@),
            w >= 1,
            views(out@) == packed(all, w as int, i as int),
        decreases lines@.len() - i,
    {
        proof {
            assert(all[i as int] == lines@[i as int]@);
        }
        cut_line(&mut out, lines[i].as_str(), w);
        i = i + 1;
    }
    proof {
        lemma_packed_grows(all, w as int, i as int, all.len() as int);
        assert(views(out@).len() == out@.len());
    }
    let ghost kept = views(out@);
    if out.len() > rows {
        out.truncate(rows);
        proof {
            assert(views(out@) =~= kept.take(rows as int));
            let whole = packed(all, w as int, all.len() as int);
            assert(whole.take(rows as int) =~= whole.take(kept.len() as int).take(rows as int));
        }
    } else {
        proof {
            let whole = packed(all, w as int, all.len() as int);
            if i < lines@.len() {
                assert(kept.len() == rows);
            }
            assert(whole.take(whole.len() as int) =~= whole);
        }
    }
    out
}

proof fn lemma_pieces_narrow(line: Seq<char>, width: int)
    requires
        width >= 1,
    ensures
        pieces(line, width).len() >= 1,
        forall|i: int| 0 <= i < pieces(line, width).len() ==> (#[trigger] pieces(line, width)[i]).len()
            <= width,
    decreases line.len(),
{
    if line.len() > width {
        lemma_pieces_narrow(line.skip(width), width);
        let rest = pieces(line.skip(width), width);
        assert forall|i: int| 0 <= i < pieces(line, width).len() implies (#[trigger] pieces(
            line,
            width,
        )[i]).len() <= width by {
            if i > 0 {
                assert(pieces(line, width)[i] == rest[i - 1]);
            }
        }
    }
}

proof fn lemma_packed_narrow(lines: Seq<Seq<char>>, width: int, n: int)
    requires
        width >= 1,
    ensures
        forall|i: int| 0 <= i < packed(lines, width, n).len() ==> (#[trigger] packed(
            lines,
            width,
            n,
        )[i]).len() <= width,
    decreases n,
{
    if n > 0 {
        lemma_packed_narrow(lines, width, n - 1);
        lemma_pieces_narrow(lines[n - 1], width);
        let a = packed(lines, width, n - 1);
        let b = pieces(lines[n - 1], width);
        assert forall|i: int| 0 <= i < (a + b).len() implies (#[trigger] (a + b)[i]).len() <= width by {
            if i >= a.len() {
                assert((a + b)[i] == b[i - a.len()]);
            }
        }
    }
}

/// A packed frame fits the terminal: no more rows than it has, and none wider.
pub proof fn law_packed_frames_fit(frame: Seq<char>, width: int, rows: int)
    requires
        width >= 1,
        rows >= 0,
    ensures
        fitted(frame, width, rows).len() <= rows,
        forall|i: int| 0 <= i < fitted(frame, width, rows).len() ==> (#[trigger] fitted(
            frame,
            width,
            rows,
        )[i]).len() <= width,
{
    let lines = lines_in(frame);
    lemma_packed_narrow(lines, width, lines.len() as int);
}

/// A long whose stop is at its entry or above has its risk in hand.
pub proof fn law_break_even_counts_as_reached(p: Position, mark: Dec)
    requires
        p.side == Side::Long,
        p.stop_loss is Some,
        p.entry_price.pos(),
        mark.pos(),
        p.entry_price.le(p.stop_loss->0),
    ensures
        one_r_of(p, mark) == Some(OneRStatus::Reached),
{
}

/// How far a long is from its risk in hand: it is there once the price is as far
/// above the entry as the stop is below it, and from a stop at or above the entry
/// on.
pub proof fn law_way_to_one_risk(p: Position, mark: Dec, risk: Dec, goal: Dec, way: Dec)
    requires
        p.side == Side::Long,
        p.stop_loss is Some && p.stop_loss->0.lt(p.entry_price),
        p.entry_price.pos() && mark.pos(),
        crate::dec::decimal_difference(p.entry_price, p.stop_loss->0) == Some(risk),
        risk.pos(),
        crate::dec::decimal_sum(p.entry_price, risk) == Some(goal),
        crate::dec::decimal_difference(goal, mark) == Some(way),
        one_r_of(p, mark) is Some,
    ensures
        !way.pos() ==> one_r_of(p, mark) == Some(OneRStatus::Reached),
        way.pos() ==> (one_r_of(p, mark)->0 matches OneRStatus::Remaining { usdt, .. } && (p.qty.pos()
            ==> Some(usdt) == crate::dec::decimal_product(p.qty, way))),
{
    crate::dec::lemma_dec_parts(0, 0);
    crate::dec::lemma_units_sign(dec(0, 0));
}

/// What a position is marked at without a price on the tape: its entry and what it
/// is ahead for each piece, the other way round for a short.
pub proof fn law_mark_without_a_price(p: Position, tickers: Seq<Ticker>, each: Dec)
    requires
        row_ignoring_case(tickers, p.symbol@) is None,
        p.qty.pos() && p.entry_price.pos(),
        crate::dec::decimal_quotient(p.unrealized_pnl, p.qty) == Some(each),
    ensures
        p.side == Side::Long ==> mark_at(p, tickers) == crate::dec::decimal_sum(p.entry_price, each),
        p.side == Side::Short ==> mark_at(p, tickers) == crate::dec::decimal_difference(p.entry_price, each),
{
}

/// The banner says the most pressing thing: a flatten that waits to be confirmed,
/// then paused entries, then a halted day.
pub proof fn law_banner(v: ViewModel)
    ensures
        v.flatten_armed ==> banner_of(v) == "confirm"@,
        !v.flatten_armed && v.entries_paused ==> banner_of(v) == "paused"@,
        !v.flatten_armed && !v.entries_paused && v.daily_halt ==> banner_of(v) == "daily"@,
        !v.flatten_armed && !v.entries_paused && !v.daily_halt ==> banner_of(v) == "idle"@,
{
}

} // verus!

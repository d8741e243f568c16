//! The trades that were closed today.
use super::MONITOR_CLOSED_N;
use crate::dayrisk::{day_key, utc_day_key};
use crate::dec::{dec, n_add, plus, Dec};
use crate::journal::{event_unix, journal_symbol, line_symbol, parse_pnl, TradeEvent};
use crate::money::amount;
use crate::sessions::{clock_text_seconds, instant_of, utc_clock_seconds};
use crate::text::{from_chars, own, same, to_chars};
use vstd::prelude::*;

verus! {

/// A trade that was closed.
#[derive(Debug)]
pub struct ClosedRow {
    pub clock: String,
    pub symbol: String,
    pub pnl: Dec,
    pub reason: String,
}

/// A trade that was closed, with texts as characters.
pub struct ClosedView {
    pub clock: Seq<char>,
    pub symbol: Seq<char>,
    pub pnl: Dec,
    pub reason: Seq<char>,
}

impl View for ClosedRow {
    type V = ClosedView;

    open spec fn view(&self) -> ClosedView {
        ClosedView { clock: self.clock@, symbol: self.symbol@, pnl: self.pnl, reason: self.reason@ }
    }
}

pub open spec fn closed_views(v: Seq<ClosedRow>) -> Seq<ClosedView> {
    Seq::new(v.len(), |i: int| v[i]@)
}

/// What closed today: the trades, their sum, how many won and how many lost.
pub struct ClosedSum {
    pub rows: Seq<ClosedView>,
    pub net: Dec,
    pub wins: int,
    pub losses: int,
}

/// The time of day in a line: its own digits, else those of the instant.
pub open spec fn clock_of(ts: Seq<char>, at: int) -> Seq<char> {
    if ts.len() >= 19 {
        ts.subrange(11, 19)
    } else {
        clock_text_seconds(at)
    }
}

fn write_clock(ts: &str, at: i64) -> (r: String)
    ensures
        r@ == clock_of(ts@, at as int),
{
    let v: Vec<char> = to_chars(ts);
    if v.len() < 19 {
        return utc_clock_seconds(at);
    }
    let mut part: Vec<char> = Vec::new();
    let mut i: usize = 11;
    while i < 19
        invariant
            11 <= i <= 19 <= v@.len(),
            part@ == v@.subrange(11, i as int),
        decreases 19 - i,
    {
        part.push(v[i]);
        proof {
            assert(v@.subrange(11, i + 1) =~= v@.subrange(11, i as int).push(v@[i as int]));
        }
        i = i + 1;
    }
    from_chars(part.as_slice())
}

/// What a line gained; nothing where it does not say.
pub open spec fn gain_of(e: TradeEvent) -> Dec {
    match e.pnl {
        Some(t) => match amount(t@) {
            Some(d) => d,
            None => dec(0, 0),
        },
        None => dec(0, 0),
    }
}

/// The sum after a line. `None` where a date or the sum leaves its range.
pub open spec fn closed_step(c: ClosedSum, e: TradeEvent, today: Seq<char>) -> Option<ClosedSum> {
    if e.event@ != "close"@ {
        Some(c)
    } else {
        match instant_of(e.ts@) {
            None => Some(c),
            Some(at) => match day_key(at) {
                None => None,
                Some(day) => if day != today {
                    Some(c)
                } else {
                    match n_add(Some(c.net), Some(gain_of(e))) {
                        None => None,
                        Some(net) => Some(
                            ClosedSum {
                                rows: c.rows.push(
                                    ClosedView {
                                        clock: clock_of(e.ts@, at),
                                        symbol: line_symbol(e.symbol@),
                                        pnl: gain_of(e),
                                        reason: e.reason@,
                                    },
                                ),
                                net,
                                wins: if gain_of(e).pos() {
                                    c.wins + 1
                                } else {
                                    c.wins
                                },
                                losses: if gain_of(e).units() < 0 {
                                    c.losses + 1
                                } else {
                                    c.losses
                                },
                            },
                        ),
                    }
                },
            },
        }
    }
}

/// What the first `n` lines closed on a day.
pub open spec fn closed_sum(events: Seq<TradeEvent>, n: int, today: Seq<char>) -> Option<ClosedSum>
    decreases n,
{
    if n <= 0 {
        Some(ClosedSum { rows: Seq::empty(), net: dec(0, 0), wins: 0, losses: 0 })
    } else {
        match closed_sum(events, n - 1, today) {
            None => None,
            Some(c) => closed_step(c, events[n - 1], today),
        }
    }
}

/// What closed today, with the last rows of it.
pub open spec fn closed_rows(events: Seq<TradeEvent>, now: int) -> Option<ClosedSum> {
    match day_key(now) {
        None => None,
        Some(today) => match closed_sum(events, events.len() as int, today) {
            None => None,
            Some(c) => Some(ClosedSum { rows: last_rows(c.rows, MONITOR_CLOSED_N as int), ..c }),
        },
    }
}

/// The last rows of a list.
pub open spec fn last_rows(v: Seq<ClosedView>, n: int) -> Seq<ClosedView> {
    if v.len() <= n {
        v
    } else {
        v.skip(v.len() - n)
    }
}

proof fn lemma_closed_none(events: Seq<TradeEvent>, n: int, m: int, today: Seq<char>)
    requires
        n <= m,
        closed_sum(events, n, today) is None,
    ensures
        closed_sum(events, m, today) is None,
    decreases m,
{
    if n < m && m > 0 {
        lemma_closed_none(events, n, m - 1, today);
    }
}

fn keep_last(mut v: Vec<ClosedRow>, n: usize) -> (r: Vec<ClosedRow>)
    ensures
        closed_views(r@) == last_rows(closed_views(v@), n as int),
{
    let ghost all = closed_views(v@);
    if v.len() <= n {
        return v;
    }
    let k: usize = v.len() - n;
    let rest: Vec<ClosedRow> = v.split_off(k);
    proof {
        assert(closed_views(rest@) =~= all.skip(k as int));
    }
    rest
}

/// What closed today: the last rows, the sum, how many won and how many lost.
/// `None` where a date or the sum leaves its range.
pub fn closed_today_rows(events: &[TradeEvent], now: i64) -> (r: Option<
    (Vec<ClosedRow>, Dec, usize, usize),
>)
    ensures
        match (r, closed_rows(events@, now as int)) {
            (Some((rows, net, wins, losses)), Some(c)) => {
                &&& closed_views(rows@) == c.rows
                &&& net == c.net
                &&& wins == c.wins
                &&& losses == c.losses
            },
            (None, None) => true,
            _ => false,
        },
{
    let today: String = utc_day_key(now)?;
    let mut rows: Vec<ClosedRow> = Vec::new();
    let mut net: Dec = Dec::zero();
    let mut wins: usize = 0;
    let mut losses: usize = 0;
    let mut i: usize = 0;
    proof {
        assert(closed_views(rows@) =~= Seq::<ClosedView>::empty());
    }
    while i < events.len()
        invariant
            i <= events@.len(),
            day_key(now as int) == Some(today@),
            wins <= i,
            losses <= i,
            closed_sum(events@, i as int, today@) == Some(
                ClosedSum {
                    rows: closed_views(rows@),
                    net,
                    wins: wins as int,
                    losses: losses as int,
                },
            ),
        decreases events@.len() - i,
    {
        let e: &TradeEvent = &events[i];
        proof {
            if closed_sum(events@, i as int + 1, today@) is None {
                lemma_closed_none(events@, i as int + 1, events@.len() as int, today@);
            }
        }
        if same(e.event.as_str(), "close") {
            if let Some(at) = event_unix(e.ts.as_str()) {
                let day: String = utc_day_key(at)?;
                if same(day.as_str(), today.as_str()) {
                    let pnl: Dec = match &e.pnl {
                        Some(t) => match parse_pnl(Some(t.as_str())) {
                            Some(d) => d,
                            None => Dec::zero(),
                        },
                        None => Dec::zero(),
                    };
                    net = plus(Some(net), Some(pnl))?;
                    if pnl.is_pos() {
                        wins = wins + 1;
                    }
                    if pnl.is_neg() {
                        losses = losses + 1;
                    }
                    let row: ClosedRow = ClosedRow {
                        clock: write_clock(e.ts.as_str(), at),
                        symbol: journal_symbol(e.symbol.as_str()),
                        pnl,
                        reason: own(e.reason.as_str()),
                    };
                    let ghost was = closed_views(rows@);
                    let ghost rv = row@;
                    rows.push(row);
                    proof {
                        assert(closed_views(rows@) =~= was.push(rv));
                    }
                }
            }
        }
        i = i + 1;
    }
    Some((keep_last(rows, MONITOR_CLOSED_N), net, wins, losses))
}

/// What a line adds to the day: a close of today adds its row and its result,
/// counted as won above zero and as lost below it; any other line adds nothing.
pub proof fn law_closes_of_today_add_up(c: ClosedSum, e: TradeEvent, today: Seq<char>, at: int, gain: Dec)
    requires
        instant_of(e.ts@) == Some(at),
        e.pnl matches Some(t) && amount(t@) == Some(gain),
        closed_step(c, e, today) is Some,
    ensures
        ({
            let r = closed_step(c, e, today)->0;
            let counts = e.event@ == "close"@ && day_key(at) == Some(today);
            &&& !counts ==> r == c
            &&& counts ==> {
                &&& r.rows.len() == c.rows.len() + 1
                &&& r.rows.last().pnl == gain && r.rows.last().symbol == line_symbol(e.symbol@)
                &&& Some(r.net) == crate::dec::decimal_sum(c.net, gain)
                &&& r.wins == c.wins + (if gain.units() > 0 {
                    1int
                } else {
                    0
                })
                &&& r.losses == c.losses + (if gain.units() < 0 {
                    1int
                } else {
                    0
                })
            }
        }),
{
}

} // verus!

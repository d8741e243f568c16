//! The table of strategies.
use super::{
    count_won, figures, fmt_short, frequency_lines, keep_whole, rate_or, read_figures,
    rule, rule_text, short_or_dash, sum, sum_of, whole, won_in, write_frequency, Field, SOAK_MIN_TRADES,
};
use crate::dec::{dec, decimal_text_signed, n_div, negated, over, prints, quotient_facts, Dec};
use crate::journal::{event_views, EventView, TradeEvent};
use crate::models::opt_view;
use crate::render::frame::opt_views;
use crate::text::{
    add_text, cut_text, extend_texts, int_text, join, joined, left_in, own, pad_left, pad_right, print_i64,
    print_u64, right_in, shortened, views,
};
use vstd::prelude::*;
use vstd::string::StringExecFns;

verus! {

/// How many trades of a strategy were full, and how many of those won.
#[derive(Debug, Clone, Copy, PartialEq, Eq, Structural)]
pub struct WinCount {
    pub strategy_id: i32,
    pub wins: usize,
    pub trades: usize,
}

/// Win rates as texts: of all trades, and by strategy.
#[derive(Debug)]
pub struct WinTexts {
    pub all: String,
    pub by: Vec<(i32, String)>,
}

/// The text of a strategy from an index on; empty where none is given.
pub open spec fn rate_from(by: Seq<(i32, String)>, id: i32, i: int) -> Seq<char>
    decreases by.len() - i,
{
    if i < 0 || i >= by.len() {
        Seq::empty()
    } else if by[i].0 == id {
        by[i].1@
    } else {
        rate_from(by, id, i + 1)
    }
}

fn find_rate(by: &[(i32, String)], id: i32) -> (r: String)
    ensures
        r@ == rate_from(by@, id, 0),
{
    let mut i: usize = 0;
    while i < by.len()
        invariant
            i <= by@.len(),
            rate_from(by@, id, 0) == rate_from(by@, id, i as int),
        decreases by@.len() - i,
    {
        if by[i].0 == id {
            return own(by[i].1.as_str());
        }
        i = i + 1;
    }
    let none = String::new();
    proof {
        assert(none@ =~= Seq::<char>::empty());
    }
    none
}

/// A number put into a rising list, once.
pub open spec fn put_id(v: Seq<i32>, id: i32) -> Seq<i32>
    decreases v.len(),
{
    if v.len() == 0 || v.last() < id {
        v.push(id)
    } else if v.last() == id {
        v
    } else {
        put_id(v.drop_last(), id).push(v.last())
    }
}

/// The strategies of the first `n` lines, rising.
pub open spec fn ids_in(events: Seq<EventView>, n: int) -> Seq<i32>
    decreases n,
{
    if n <= 0 {
        Seq::empty()
    } else {
        put_id(ids_in(events, n - 1), events[n - 1].strategy_id)
    }
}

proof fn lemma_put_id_at(v: Seq<i32>, id: i32, p: int)
    requires
        0 <= p <= v.len(),
        forall|j: int| p <= j < v.len() ==> #[trigger] v[j] > id,
    ensures
        p > 0 && v[p - 1] == id ==> put_id(v, id) == v,
        p == 0 || v[p - 1] < id ==> put_id(v, id) == v.insert(p, id),
    decreases v.len(),
{
    if p < v.len() {
        assert(v[v.len() - 1] > id);
        let w = v.drop_last();
        assert forall|j: int| p <= j < w.len() implies #[trigger] w[j] > id by {
            assert(w[j] == v[j]);
        }
        lemma_put_id_at(w, id, p);
        assert(w.push(v.last()) =~= v);
        assert(w.insert(p, id).push(v.last()) =~= v.insert(p, id));
    } else {
        assert(v.insert(p, id) =~= v.push(id));
    }
}

fn add_id(out: &mut Vec<i32>, id: i32)
    ensures
        final(out)@ == put_id(old(out)@, id),
{
    let ghost was = out@;
    let mut p: usize = out.len();
    while p > 0 && out[p - 1] > id
        invariant
            p <= out@.len(),
            was == out@,
            forall|j: int| p <= j < was.len() ==> #[trigger] was[j] > id,
        decreases p,
    {
        p = p - 1;
    }
    proof {
        lemma_put_id_at(was, id, p as int);
    }
    if p > 0 && out[p - 1] == id {
        return;
    }
    out.insert(p, id);
}

fn list_ids(events: &[TradeEvent]) -> (r: Vec<i32>)
    ensures
        r@ == ids_in(event_views(events@), events@.len() as int),
{
    let ghost all = event_views(events@);
    let mut out: Vec<i32> = Vec::new();
    let mut i: usize = 0;
    while i < events.len()
        invariant
            i <= events@.len(),
            all == event_views(events@),
            out@ == ids_in(all, i as int),
        decreases events@.len() - i,
    {
        proof {
            assert(all[i as int] == events@[i as int]@);
        }
        add_id(&mut out, events[i].strategy_id);
        i = i + 1;
    }
    out
}

/// The full closes of a strategy.
pub open spec fn full_of(closes: Seq<EventView>, id: i32) -> Seq<EventView> {
    whole(closes).filter(|e: EventView| e.strategy_id == id)
}

fn keep_full(closes: &[TradeEvent], id: i32) -> (r: Vec<TradeEvent>)
    ensures
        event_views(r@) == full_of(event_views(closes@), id),
{
    let rows: Vec<TradeEvent> = keep_whole(closes);
    let ghost all = event_views(rows@);
    let ghost test = |e: EventView| e.strategy_id == id;
    let mut out: Vec<TradeEvent> = Vec::new();
    let mut i: usize = 0;
    proof {
        reveal(Seq::filter);
        assert(all.take(0) =~= Seq::<EventView>::empty());
        assert(all.take(0).filter(test) =~= Seq::<EventView>::empty());
        assert(event_views(out@) =~= Seq::<EventView>::empty());
    }
    while i < rows.len()
        invariant
            i <= rows@.len(),
            all == event_views(rows@),
            test == (|e: EventView| e.strategy_id == id),
            event_views(out@) == all.take(i as int).filter(test),
        decreases rows@.len() - i,
    {
        proof {
            reveal(Seq::filter);
            assert(all.take(i as int + 1).drop_last() =~= all.take(i as int));
            assert(all[i as int] == rows@[i as int]@);
        }
        let ghost before = event_views(out@);
        if rows[i].strategy_id == id {
            out.push(rows[i].clone());
            proof {
                assert(event_views(out@) =~= before.push(rows@[i as int]@));
            }
        }
        i = i + 1;
    }
    proof {
        assert(all.take(i as int) =~= all);
    }
    out
}

/// What every line gained; nothing where it does not say.
pub open spec fn gains_of(events: Seq<EventView>) -> Seq<Dec> {
    Seq::new(
        events.len(),
        |i: int|
            match super::figure(events[i].pnl) {
                Some(d) => d,
                None => dec(0, 0),
            },
    )
}

fn list_gains(events: &[TradeEvent]) -> (r: Vec<Dec>)
    ensures
        r@ == gains_of(event_views(events@)),
{
    let ghost all = event_views(events@);
    let mut out: Vec<Dec> = Vec::new();
    let mut i: usize = 0;
    while i < events.len()
        invariant
            i <= events@.len(),
            all == event_views(events@),
            all.len() == events@.len(),
            out@ == gains_of(all).take(i as int),
        decreases events@.len() - i,
    {
        proof {
            assert(all[i as int] == events@[i as int]@);
        }
        let d: Dec = match super::read_figure(&events[i].pnl) {
            Some(d) => d,
            None => Dec::zero(),
        };
        out.push(d);
        proof {
            assert(out@ =~= gains_of(all).take(i as int + 1));
        }
        i = i + 1;
    }
    proof {
        assert(gains_of(all).take(i as int) =~= gains_of(all));
    }
    out
}

/// The positive amounts.
pub open spec fn above(xs: Seq<Dec>) -> Seq<Dec> {
    xs.filter(|d: Dec| d.pos())
}

/// The negative amounts.
pub open spec fn below(xs: Seq<Dec>) -> Seq<Dec> {
    xs.filter(|d: Dec| d.units() < 0)
}

pub(crate) fn keep_above(xs: &[Dec]) -> (r: Vec<Dec>)
    ensures
        r@ == above(xs@),
{
    let ghost test = |d: Dec| d.pos();
    let mut out: Vec<Dec> = Vec::new();
    let mut i: usize = 0;
    proof {
        reveal(Seq::filter);
        assert(xs@.take(0) =~= Seq::<Dec>::empty());
        assert(xs@.take(0).filter(test) =~= Seq::<Dec>::empty());
    }
    while i < xs.len()
        invariant
            i <= xs@.len(),
            test == (|d: Dec| d.pos()),
            out@ == xs@.take(i as int).filter(test),
        decreases xs@.len() - i,
    {
        proof {
            reveal(Seq::filter);
            assert(xs@.take(i as int + 1).drop_last() =~= xs@.take(i as int));
        }
        if xs[i].is_pos() {
            out.push(xs[i]);
        }
        i = i + 1;
    }
    proof {
        assert(xs@.take(i as int) =~= xs@);
    }
    out
}

pub(crate) fn keep_below(xs: &[Dec]) -> (r: Vec<Dec>)
    ensures
        r@ == below(xs@),
{
    let ghost test = |d: Dec| d.units() < 0;
    let mut out: Vec<Dec> = Vec::new();
    let mut i: usize = 0;
    proof {
        reveal(Seq::filter);
        assert(xs@.take(0) =~= Seq::<Dec>::empty());
        assert(xs@.take(0).filter(test) =~= Seq::<Dec>::empty());
    }
    while i < xs.len()
        invariant
            i <= xs@.len(),
            test == (|d: Dec| d.units() < 0),
            out@ == xs@.take(i as int).filter(test),
        decreases xs@.len() - i,
    {
        proof {
            reveal(Seq::filter);
            assert(xs@.take(i as int + 1).drop_last() =~= xs@.take(i as int));
        }
        if xs[i].is_neg() {
            out.push(xs[i]);
        }
        i = i + 1;
    }
    proof {
        assert(xs@.take(i as int) =~= xs@);
    }
    out
}

/// The amounts with their signs turned.
pub open spec fn turned(xs: Seq<Dec>) -> Seq<Dec> {
    Seq::new(xs.len(), |i: int| negated(xs[i]))
}

pub(crate) fn turn(xs: &[Dec]) -> (r: Vec<Dec>)
    ensures
        r@ == turned(xs@),
{
    let mut out: Vec<Dec> = Vec::new();
    let mut i: usize = 0;
    while i < xs.len()
        invariant
            i <= xs@.len(),
            out@ == turned(xs@).take(i as int),
        decreases xs@.len() - i,
    {
        out.push(xs[i].neg());
        proof {
            assert(out@ =~= turned(xs@).take(i as int + 1));
        }
        i = i + 1;
    }
    proof {
        assert(turned(xs@).take(i as int) =~= turned(xs@));
    }
    out
}

/// The mean; the inner `None` says that there is nothing to take it of.
pub open spec fn mean_of(xs: Seq<Dec>) -> Option<Option<Dec>> {
    if xs.len() == 0 {
        Some(None)
    } else {
        match n_div(sum_of(xs), Some(dec(xs.len() as int, 0))) {
            Some(d) => Some(Some(d)),
            None => None,
        }
    }
}

fn mean(xs: &[Dec]) -> (r: Option<Option<Dec>>)
    ensures
        r == mean_of(xs@),
{
    if xs.len() == 0 {
        return Some(None);
    }
    let d: Dec = over(sum(xs), Some(Dec::from_count(xs.len())))?;
    Some(Some(d))
}

/// The cells of a row of the table.
pub struct Cells {
    pub id: Seq<char>,
    pub trades: Seq<char>,
    pub rate: Seq<char>,
    pub pnl: Seq<char>,
    pub expected: Seq<char>,
    pub win: Seq<char>,
    pub loss: Seq<char>,
    pub factor: Seq<char>,
    pub mfe: Seq<char>,
    pub mae: Seq<char>,
    pub hold: Seq<char>,
}

pub open spec fn row_text(c: Cells) -> Seq<char> {
    "  "@ + left_in(c.id, 4) + " "@ + right_in(c.trades, 6) + " "@ + right_in(c.rate, 7) + " "@ + right_in(
        c.pnl,
        10,
    ) + " "@ + right_in(c.expected, 8) + " "@ + right_in(c.win, 7) + " "@ + right_in(c.loss, 7) + " "@
        + right_in(c.factor, 5) + " "@ + right_in(c.mfe, 6) + " "@ + right_in(c.mae, 6) + " "@ + right_in(
        c.hold,
        6,
    )
}

fn write_row(
    id: &str,
    trades: &str,
    rate: &str,
    pnl: &str,
    expected: &str,
    win: &str,
    loss: &str,
    factor: &str,
    mfe: &str,
    mae: &str,
    hold: &str,
) -> (r: String)
    ensures
        r@ == row_text(
            (Cells {
                id: id@,
                trades: trades@,
                rate: rate@,
                pnl: pnl@,
                expected: expected@,
                win: win@,
                loss: loss@,
                factor: factor@,
                mfe: mfe@,
                mae: mae@,
                hold: hold@,
            }),
        ),
{
    let mut t = own("  ");
    t.append(pad_right(id, 4).as_str());
    t.append(" ");
    t.append(pad_left(trades, 6).as_str());
    t.append(" ");
    t.append(pad_left(rate, 7).as_str());
    t.append(" ");
    t.append(pad_left(pnl, 10).as_str());
    t.append(" ");
    t.append(pad_left(expected, 8).as_str());
    t.append(" ");
    t.append(pad_left(win, 7).as_str());
    t.append(" ");
    t.append(pad_left(loss, 7).as_str());
    t.append(" ");
    t.append(pad_left(factor, 5).as_str());
    t.append(" ");
    t.append(pad_left(mfe, 6).as_str());
    t.append(" ");
    t.append(pad_left(mae, 6).as_str());
    t.append(" ");
    t.append(pad_left(hold, 6).as_str());
    t
}

/// What was won for every unit lost; the inner `None` says that nothing was lost.
pub open spec fn factor_of(gains: Seq<Dec>) -> Option<Option<Dec>> {
    match (sum_of(above(gains)), sum_of(turned(below(gains)))) {
        (Some(win), Some(loss)) => if loss.pos() {
            match n_div(Some(win), Some(loss)) {
                Some(d) => Some(Some(d)),
                None => None,
            }
        } else {
            Some(None)
        },
        _ => None,
    }
}

fn profit_factor(gains: &[Dec]) -> (r: Option<Option<Dec>>)
    ensures
        r == factor_of(gains@),
        r matches Some(Some(f)) ==> quotient_facts(
            sum_of(above(gains@))->0,
            sum_of(turned(below(gains@)))->0,
            Some(f),
        ),
{
    let win: Dec = sum(keep_above(gains).as_slice())?;
    let loss: Dec = sum(turn(keep_below(gains).as_slice()).as_slice())?;
    if loss.is_pos() {
        let d: Dec = over(Some(win), Some(loss))?;
        Some(Some(d))
    } else {
        Some(None)
    }
}

/// The row of a strategy.
pub open spec fn strategy_cells(id: i32, full: Seq<EventView>, rate: Seq<char>) -> Option<Cells> {
    let n = full.len() as int;
    let rs = figures(full, Field::FinalR);
    match (
        sum_of(gains_of(full)),
        factor_of(gains_of(full)),
        mean_of(rs),
        mean_of(above(rs)),
        mean_of(below(rs)),
        mean_of(figures(full, Field::MfeR)),
        mean_of(figures(full, Field::MaeR)),
        mean_of(figures(full, Field::Hold)),
    ) {
        (Some(pnl), Some(pf), Some(exp), Some(win), Some(loss), Some(mfe), Some(mae), Some(hold)) => if prints(
            pnl,
            4,
        ) {
            Some(
                Cells {
                    id: int_text(id as int),
                    trades: int_text(n),
                    rate: rate_or(n, "n/a"@, rate),
                    pnl: decimal_text_signed(pnl, 4),
                    expected: short_or_dash(exp, 2),
                    win: short_or_dash(win, 2),
                    loss: short_or_dash(loss, 2),
                    factor: short_or_dash(pf, 2),
                    mfe: short_or_dash(mfe, 2),
                    mae: short_or_dash(mae, 2),
                    hold: short_or_dash(hold, 0),
                },
            )
        } else {
            None
        },
        _ => None,
    }
}

pub open spec fn strategy_text(id: i32, full: Seq<EventView>, rate: Seq<char>) -> Option<Seq<char>> {
    match strategy_cells(id, full, rate) {
        Some(c) => Some(row_text(c)),
        None => None,
    }
}

fn write_strategy(id: i32, full: &[TradeEvent], rate: &str) -> (r: Option<String>)
    ensures
        opt_view(r) == strategy_text(id, event_views(full@), rate@),
{
    let ghost fv = event_views(full@);
    proof {
        assert(fv.len() == full@.len());
    }
    let gains: Vec<Dec> = list_gains(full);
    let pnl: Dec = sum(gains.as_slice())?;
    let pf: Option<Dec> = profit_factor(gains.as_slice())?;
    let rs: Vec<Dec> = read_figures(full, Field::FinalR);
    let exp: Option<Dec> = mean(rs.as_slice())?;
    let win: Option<Dec> = mean(keep_above(rs.as_slice()).as_slice())?;
    let loss: Option<Dec> = mean(keep_below(rs.as_slice()).as_slice())?;
    let mfe: Option<Dec> = mean(read_figures(full, Field::MfeR).as_slice())?;
    let mae: Option<Dec> = mean(read_figures(full, Field::MaeR).as_slice())?;
    let hold: Option<Dec> = mean(read_figures(full, Field::Hold).as_slice())?;
    let n: usize = full.len();
    let wr: &str = if n == 0 {
        "—"
    } else if n < SOAK_MIN_TRADES {
        "n/a"
    } else {
        rate
    };
    Some(
        write_row(
            print_i64(id as i64).as_str(),
            print_u64(n as u64).as_str(),
            wr,
            pnl.text_signed(4)?.as_str(),
            fmt_short(exp, 2).as_str(),
            fmt_short(win, 2).as_str(),
            fmt_short(loss, 2).as_str(),
            fmt_short(pf, 2).as_str(),
            fmt_short(mfe, 2).as_str(),
            fmt_short(mae, 2).as_str(),
            fmt_short(hold, 0).as_str(),
        ),
    )
}

/// The rows of strategies.
pub open spec fn strategy_rows(closes: Seq<EventView>, ids: Seq<i32>, n: int, by: Seq<(i32, String)>) -> Option<
    Seq<Seq<char>>,
>
    decreases n,
{
    if n <= 0 {
        Some(Seq::empty())
    } else {
        match (
            strategy_rows(closes, ids, n - 1, by),
            strategy_text(ids[n - 1], full_of(closes, ids[n - 1]), rate_from(by, ids[n - 1], 0)),
        ) {
            (Some(v), Some(t)) => Some(v.push(t)),
            _ => None,
        }
    }
}

proof fn lemma_strategy_rows_none(
    closes: Seq<EventView>,
    ids: Seq<i32>,
    n: int,
    m: int,
    by: Seq<(i32, String)>,
)
    requires
        n <= m,
        strategy_rows(closes, ids, n, by) is None,
    ensures
        strategy_rows(closes, ids, m, by) is None,
    decreases m,
{
    if n < m && m > 0 {
        lemma_strategy_rows_none(closes, ids, n, m - 1, by);
    }
}

/// Whether a strategy has lines without a multiple of the risk.
pub open spec fn lacks_r(full: Seq<EventView>) -> bool {
    figures(full, Field::FinalR).len() < full.len()
}

pub open spec fn note_text(id: i32, full: Seq<EventView>) -> Seq<char> {
    "sid "@ + int_text(id as int) + ": final_r "@ + int_text(figures(full, Field::FinalR).len() as int)
        + "/"@ + int_text(full.len() as int)
}

/// The notes on strategies whose lines lack the multiple of the risk.
pub open spec fn notes(closes: Seq<EventView>, ids: Seq<i32>, n: int) -> Seq<Seq<char>>
    decreases n,
{
    if n <= 0 {
        Seq::empty()
    } else {
        let full = full_of(closes, ids[n - 1]);
        if lacks_r(full) {
            notes(closes, ids, n - 1).push(note_text(ids[n - 1], full))
        } else {
            notes(closes, ids, n - 1)
        }
    }
}

/// Whether a strategy has full trades, but few of them.
pub open spec fn any_few(closes: Seq<EventView>, ids: Seq<i32>, n: int) -> bool
    decreases n,
{
    n > 0 && (any_few(closes, ids, n - 1) || 0 < full_of(closes, ids[n - 1]).len() < SOAK_MIN_TRADES)
}

/// The lines below the rows.
pub open spec fn foot_lines(notes: Seq<Seq<char>>, few: bool) -> Seq<Seq<char>> {
    (if notes.len() > 0 {
        seq![""@, "  прим.: "@ + joined(notes, "; "@) + " — старые строки без R"@]
    } else {
        Seq::empty()
    }) + seq![
        ""@,
        "  soak: смотри N + комиссия/funding (cost), не WR при N<30; метрика победы = Exp R / SQN / PF"@,
    ] + (if few {
        seq!["  * WR=n/a пока N<30 полных closes (мало для winrate)"@]
    } else {
        Seq::empty()
    })
}

/// What an exit is counted by.
pub open spec fn exit_key(e: EventView) -> Seq<char> {
    if e.reason.len() == 0 {
        "(empty)"@
    } else {
        shortened(e.reason, 48)
    }
}

pub open spec fn exit_keys(full: Seq<EventView>) -> Seq<Seq<char>> {
    Seq::new(full.len(), |i: int| exit_key(full[i]))
}

fn list_exit_keys(full: &[TradeEvent]) -> (r: Vec<String>)
    ensures
        views(r@) == exit_keys(event_views(full@)),
{
    let ghost all = event_views(full@);
    let mut out: Vec<String> = Vec::new();
    let mut i: usize = 0;
    proof {
        assert(views(out@) =~= exit_keys(all).take(0));
    }
    while i < full.len()
        invariant
            i <= full@.len(),
            all == event_views(full@),
            all.len() == full@.len(),
            views(out@) == exit_keys(all).take(i as int),
        decreases full@.len() - i,
    {
        proof {
            assert(all[i as int] == full@[i as int]@);
        }
        if full[i].reason.as_str().unicode_len() == 0 {
            add_text(&mut out, own("(empty)"));
        } else {
            add_text(&mut out, cut_text(full[i].reason.as_str(), 48));
        }
        proof {
            assert(views(out@) =~= exit_keys(all).take(i as int + 1));
        }
        i = i + 1;
    }
    proof {
        assert(exit_keys(all).take(i as int) =~= exit_keys(all));
    }
    out
}

/// The head of the table.
pub open spec fn table_head() -> Seq<Seq<char>> {
    seq![
        ""@,
        rule_text("По стратегиям"@),
        row_text(
            Cells {
                id: "sid"@,
                trades: "N"@,
                rate: "WR*"@,
                pnl: "PnL USDT"@,
                expected: "Exp R"@,
                win: "AvgW"@,
                loss: "AvgL"@,
                factor: "PF"@,
                mfe: "MFE"@,
                mae: "MAE"@,
                hold: "Hold"@,
            },
        ),
    ]
}

/// The table of strategies and the reasons of exits.
pub open spec fn research_lines(closes: Seq<EventView>, rates: WinTexts) -> Option<Seq<Seq<char>>> {
    let ids = ids_in(closes, closes.len() as int);
    let n = ids.len() as int;
    if n == 0 {
        Some(table_head() + seq!["  (нет закрытий)"@])
    } else {
        match strategy_rows(closes, ids, n, rates.by@) {
            None => None,
            Some(rows) => Some(
                table_head() + rows + foot_lines(notes(closes, ids, n), any_few(closes, ids, n))
                    + frequency_lines("Причины выхода"@, exit_keys(whole(closes)), 12),
            ),
        }
    }
}

fn write_foot(notes: &[String], few: bool) -> (r: Vec<String>)
    ensures
        views(r@) == foot_lines(views(notes@), few),
{
    let mut out: Vec<String> = Vec::new();
    proof {
        assert(views(notes@).len() == notes@.len());
    }
    if notes.len() > 0 {
        add_text(&mut out, own(""));
        let mut t = own("  прим.: ");
        t.append(join(notes, "; ").as_str());
        t.append(" — старые строки без R");
        add_text(&mut out, t);
    }
    add_text(&mut out, own(""));
    add_text(
        &mut out,
        own("  soak: смотри N + комиссия/funding (cost), не WR при N<30; метрика победы = Exp R / SQN / PF"),
    );
    if few {
        add_text(&mut out, own("  * WR=n/a пока N<30 полных closes (мало для winrate)"));
    }
    proof {
        assert(views(out@) =~= foot_lines(views(notes@), few));
    }
    out
}

fn write_note(id: i32, full: &[TradeEvent], n_r: usize) -> (r: String)
    requires
        n_r == figures(event_views(full@), Field::FinalR).len(),
    ensures
        r@ == note_text(id, event_views(full@)),
{
    proof {
        assert(event_views(full@).len() == full@.len());
    }
    let mut t = own("sid ");
    t.append(print_i64(id as i64).as_str());
    t.append(": final_r ");
    t.append(print_u64(n_r as u64).as_str());
    t.append("/");
    t.append(print_u64(full.len() as u64).as_str());
    t
}

pub(crate) fn format_research(closes: &[TradeEvent], rates: &WinTexts) -> (r: Option<Vec<String>>)
    ensures
        opt_views(r) == research_lines(event_views(closes@), *rates),
{
    let ghost cv = event_views(closes@);
    proof {
        assert(cv.len() == closes@.len());
    }
    let ids: Vec<i32> = list_ids(closes);
    let mut out: Vec<String> = Vec::new();
    add_text(&mut out, own(""));
    add_text(&mut out, rule("По стратегиям"));
    add_text(
        &mut out,
        write_row(
            "sid",
            "N",
            "WR*",
            "PnL USDT",
            "Exp R",
            "AvgW",
            "AvgL",
            "PF",
            "MFE",
            "MAE",
            "Hold",
        ),
    );
    proof {
        assert(views(out@) =~= table_head());
    }
    if ids.len() == 0 {
        let ghost before = views(out@);
        add_text(&mut out, own("  (нет закрытий)"));
        proof {
            assert(views(out@) =~= before + seq!["  (нет закрытий)"@]);
        }
        return Some(out);
    }
    let mut rows: Vec<String> = Vec::new();
    let mut marks: Vec<String> = Vec::new();
    let mut few: bool = false;
    let mut i: usize = 0;
    proof {
        assert(views(rows@) =~= Seq::<Seq<char>>::empty());
        assert(views(marks@) =~= Seq::<Seq<char>>::empty());
    }
    while i < ids.len()
        invariant
            i <= ids@.len(),
            ids@.len() > 0,
            cv == event_views(closes@),
            ids@ == ids_in(cv, cv.len() as int),
            strategy_rows(cv, ids@, i as int, rates.by@) == Some(views(rows@)),
            views(marks@) == notes(cv, ids@, i as int),
            few == any_few(cv, ids@, i as int),
        decreases ids@.len() - i,
    {
        let id: i32 = ids[i];
        let full: Vec<TradeEvent> = keep_full(closes, id);
        let rate: String = find_rate(rates.by.as_slice(), id);
        proof {
            assert(event_views(full@).len() == full@.len());
            if strategy_rows(cv, ids@, i as int + 1, rates.by@) is None {
                lemma_strategy_rows_none(cv, ids@, i as int + 1, ids@.len() as int, rates.by@);
            }
        }
        let row: String = write_strategy(id, full.as_slice(), rate.as_str())?;
        add_text(&mut rows, row);
        let n_r: usize = read_figures(full.as_slice(), Field::FinalR).len();
        if n_r < full.len() {
            add_text(&mut marks, write_note(id, full.as_slice(), n_r));
        }
        if full.len() > 0 && full.len() < SOAK_MIN_TRADES {
            few = true;
        }
        i = i + 1;
    }
    extend_texts(&mut out, rows.as_slice());
    extend_texts(&mut out, write_foot(marks.as_slice(), few).as_slice());
    let full: Vec<TradeEvent> = keep_whole(closes);
    let keys: Vec<String> = list_exit_keys(full.as_slice());
    extend_texts(&mut out, write_frequency("Причины выхода", keys.as_slice(), 12).as_slice());
    Some(out)
}

/// How many full trades there are, and how many of them won: of all strategies, and
/// of each.
pub fn win_counts(events: &[TradeEvent], strategy: Option<i32>) -> (r: (usize, usize, Vec<WinCount>))
    ensures
        ({
            let closes = super::picked(event_views(events@), strategy, "close"@);
            let full = whole(closes);
            let ids = ids_in(closes, closes.len() as int);
            &&& r.0 == won_in(full, full.len() as int)
            &&& r.1 == full.len()
            &&& r.2@.len() == ids.len()
            &&& forall|i: int|
                0 <= i < ids.len() ==> (#[trigger] r.2@[i]).strategy_id == ids[i] && r.2@[i].trades
                    == full_of(closes, ids[i]).len() && r.2@[i].wins == won_in(
                    full_of(closes, ids[i]),
                    full_of(closes, ids[i]).len() as int,
                )
        }),
{
    let closes: Vec<TradeEvent> = super::pick_events(events, strategy, "close");
    let full: Vec<TradeEvent> = keep_whole(closes.as_slice());
    let ids: Vec<i32> = list_ids(closes.as_slice());
    let ghost cv = event_views(closes@);
    proof {
        assert(cv.len() == closes@.len());
        assert(event_views(full@).len() == full@.len());
    }
    let mut by: Vec<WinCount> = Vec::new();
    let mut i: usize = 0;
    while i < ids.len()
        invariant
            i <= ids@.len(),
            cv == event_views(closes@),
            by@.len() == i,
            forall|k: int|
                0 <= k < i ==> (#[trigger] by@[k]).strategy_id == ids@[k] && by@[k].trades == full_of(
                    cv,
                    ids@[k],
                ).len() && by@[k].wins == won_in(
                    full_of(cv, ids@[k]),
                    full_of(cv, ids@[k]).len() as int,
                ),
        decreases ids@.len() - i,
    {
        let mine: Vec<TradeEvent> = keep_full(closes.as_slice(), ids[i]);
        proof {
            assert(event_views(mine@).len() == mine@.len());
        }
        by.push(
            WinCount {
                strategy_id: ids[i],
                wins: count_won(mine.as_slice()),
                trades: mine.len(),
            },
        );
        i = i + 1;
    }
    (count_won(full.as_slice()), full.len(), by)
}

} // verus!

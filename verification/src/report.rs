//! The operator's report on trades and errors.
pub mod counts;
pub mod laws;
pub mod research;

use crate::dec::{dec, decimal_text_fixed, decimal_text_signed, n_add, plus, prints, Dec, Num};
use crate::errorlog::{ErrorEvent, ErrorLine};
use crate::journal::{event_views, EventView, TradeEvent};
use crate::models::opt_view;
use crate::money::{amount, read_amount};
use crate::render::frame::opt_views;
use crate::text::{
    add_text, cut_text, extend_texts, has, int_text, join, joined, left_in, lower, own, pad_left, pad_right,
    print_i64, print_u64, right_in, shortened, views,
};
use self::counts::{count_block, count_rows, frequent, list_counts, name_counts, named, write_counts};
use self::research::{format_research, research_lines, WinTexts};
use vstd::prelude::*;
use vstd::string::StringExecFns;

verus! {

/// Below this many full trades a win rate is noise.
pub const SOAK_MIN_TRADES: usize = 30;

pub open spec fn rule_text(title: Seq<char>) -> Seq<char> {
    "── "@ + title + " ──"@
}

pub(crate) fn rule(title: &str) -> (r: String)
    ensures
        r@ == rule_text(title@),
{
    let mut t = own("── ");
    t.append(title);
    t.append(" ──");
    t
}

/// Whether a line only took a part off.
pub open spec fn is_part(e: EventView) -> bool {
    has(lower(e.reason), "частичная фиксация"@)
}

pub(crate) fn is_partial_scale(e: &TradeEvent) -> (r: bool)
    ensures
        r == is_part(e@),
{
    crate::text::contains(e.reason.as_str().to_ascii_lowercase().as_str(), "частичная фиксация")
}

/// The number in a field.
pub open spec fn figure(raw: Option<Seq<char>>) -> Option<Dec> {
    match raw {
        Some(t) => amount(t),
        None => None,
    }
}

pub(crate) fn read_figure(raw: &Option<String>) -> (r: Option<Dec>)
    ensures
        r == figure(opt_view(*raw)),
{
    match raw {
        Some(t) => read_amount(t.as_str()),
        None => None,
    }
}

/// The lines of a kind, of one strategy where one is asked for.
pub open spec fn picked(events: Seq<EventView>, strategy: Option<i32>, kind: Seq<char>) -> Seq<EventView> {
    events.filter(
        |e: EventView| (strategy is None || e.strategy_id == strategy->0) && e.event == kind,
    )
}

pub(crate) fn pick_events(events: &[TradeEvent], strategy: Option<i32>, kind: &str) -> (r: Vec<TradeEvent>)
    ensures
        event_views(r@) == picked(event_views(events@), strategy, kind@),
{
    let ghost all = event_views(events@);
    let ghost test = |e: EventView|
        (strategy is None || e.strategy_id == strategy->0) && e.event == kind@;
    let mut out: Vec<TradeEvent> = Vec::new();
    let mut i: usize = 0;
    proof {
        reveal(Seq::filter);
        assert(all.len() == events@.len());
        assert(all.take(0) =~= Seq::<EventView>::empty());
        assert(all.take(0).filter(test) =~= Seq::<EventView>::empty());
        assert(event_views(out@) =~= Seq::<EventView>::empty());
    }
    while i < events.len()
        invariant
            i <= events@.len(),
            all == event_views(events@),
            all.len() == events@.len(),
            test == (|e: EventView|
                (strategy is None || e.strategy_id == strategy->0) && e.event == kind@),
            event_views(out@) == all.take(i as int).filter(test),
        decreases events@.len() - i,
    {
        let e: &TradeEvent = &events[i];
        proof {
            reveal(Seq::filter);
            assert(all.take(i as int + 1).drop_last() =~= all.take(i as int));
            assert(all[i as int] == e@);
        }
        let wanted: bool = match strategy {
            Some(id) => e.strategy_id == id,
            None => true,
        };
        let ghost before = event_views(out@);
        if wanted && crate::text::same(e.event.as_str(), kind) {
            out.push(e.clone());
            proof {
                assert(event_views(out@) =~= before.push(e@));
            }
        }
        i = i + 1;
    }
    proof {
        assert(all.take(i as int) =~= all);
    }
    out
}

/// A field of a line with an amount.
#[derive(Debug, Clone, Copy, PartialEq, Eq, Structural)]
pub enum Field {
    Pnl,
    Fee,
    Funding,
    FinalR,
    MfeR,
    MaeR,
    Hold,
}

/// What a field of a line says.
pub open spec fn field_of(e: EventView, f: Field) -> Option<Dec> {
    match f {
        Field::Pnl => figure(e.pnl),
        Field::Fee => figure(e.fee),
        Field::Funding => figure(e.funding),
        Field::FinalR => figure(e.final_r),
        Field::MfeR => figure(e.mfe_r),
        Field::MaeR => figure(e.mae_r),
        Field::Hold => match e.hold_sec {
            Some(h) => Some(dec(h as int, 0)),
            None => None,
        },
    }
}

fn read_field(e: &TradeEvent, f: Field) -> (r: Option<Dec>)
    ensures
        r == field_of(e@, f),
{
    match f {
        Field::Pnl => read_figure(&e.pnl),
        Field::Fee => read_figure(&e.fee),
        Field::Funding => read_figure(&e.funding),
        Field::FinalR => read_figure(&e.final_r),
        Field::MfeR => read_figure(&e.mfe_r),
        Field::MaeR => read_figure(&e.mae_r),
        Field::Hold => match e.hold_sec {
            Some(h) => Some(Dec::from_int(h)),
            None => None,
        },
    }
}

/// What lines say in a field, those that say nothing left out.
pub open spec fn figures(events: Seq<EventView>, f: Field) -> Seq<Dec>
    decreases events.len(),
{
    if events.len() == 0 {
        Seq::empty()
    } else {
        match field_of(events.last(), f) {
            Some(d) => figures(events.drop_last(), f).push(d),
            None => figures(events.drop_last(), f),
        }
    }
}

pub(crate) fn read_figures(events: &[TradeEvent], f: Field) -> (r: Vec<Dec>)
    ensures
        r@ == figures(event_views(events@), f),
{
    let ghost all = event_views(events@);
    let mut out: Vec<Dec> = Vec::new();
    let mut i: usize = 0;
    while i < events.len()
        invariant
            i <= events@.len(),
            all == event_views(events@),
            out@ == figures(all.take(i as int), f),
        decreases events@.len() - i,
    {
        proof {
            assert(all.take(i as int + 1).drop_last() =~= all.take(i as int));
        }
        if let Some(d) = read_field(&events[i], f) {
            out.push(d);
        }
        i = i + 1;
    }
    proof {
        assert(all.take(i as int) =~= all);
    }
    out
}

/// The sum of amounts, from the first on.
pub open spec fn sum_of(xs: Seq<Dec>) -> Num
    decreases xs.len(),
{
    if xs.len() == 0 {
        Some(dec(0, 0))
    } else {
        n_add(sum_of(xs.drop_last()), Some(xs.last()))
    }
}

pub(crate) fn sum(xs: &[Dec]) -> (r: Num)
    ensures
        r == sum_of(xs@),
{
    let mut total: Num = Some(Dec::zero());
    let mut i: usize = 0;
    while i < xs.len()
        invariant
            i <= xs@.len(),
            total == sum_of(xs@.take(i as int)),
        decreases xs@.len() - i,
    {
        total = plus(total, Some(xs[i]));
        proof {
            assert(xs@.take(i as int + 1).drop_last() =~= xs@.take(i as int));
        }
        i = i + 1;
    }
    proof {
        assert(xs@.take(i as int) =~= xs@);
    }
    total
}

/// A share of wins: a dash without trades, not told of a few, else the given text.
pub open spec fn rate_or(trades: int, few: Seq<char>, rate: Seq<char>) -> Seq<char> {
    if trades == 0 {
        "—"@
    } else if trades < SOAK_MIN_TRADES {
        few
    } else {
        rate
    }
}

/// How many lines closed a whole position.
pub open spec fn whole(closes: Seq<EventView>) -> Seq<EventView> {
    closes.filter(|e: EventView| !is_part(e))
}

pub(crate) fn keep_whole(closes: &[TradeEvent]) -> (r: Vec<TradeEvent>)
    ensures
        event_views(r@) == whole(event_views(closes@)),
{
    let ghost all = event_views(closes@);
    let ghost test = |e: EventView| !is_part(e);
    let mut out: Vec<TradeEvent> = Vec::new();
    let mut i: usize = 0;
    proof {
        reveal(Seq::filter);
        assert(all.take(0) =~= Seq::<EventView>::empty());
        assert(all.take(0).filter(test) =~= Seq::<EventView>::empty());
        assert(event_views(out@) =~= Seq::<EventView>::empty());
    }
    while i < closes.len()
        invariant
            i <= closes@.len(),
            all == event_views(closes@),
            test == (|e: EventView| !is_part(e)),
            event_views(out@) == all.take(i as int).filter(test),
        decreases closes@.len() - i,
    {
        let e: &TradeEvent = &closes[i];
        proof {
            reveal(Seq::filter);
            assert(all.take(i as int + 1).drop_last() =~= all.take(i as int));
            assert(all[i as int] == e@);
        }
        let ghost before = event_views(out@);
        if !is_partial_scale(e) {
            out.push(e.clone());
            proof {
                assert(event_views(out@) =~= before.push(e@));
            }
        }
        i = i + 1;
    }
    proof {
        assert(all.take(i as int) =~= all);
    }
    out
}

/// How many of the first `n` lines won.
pub open spec fn won_in(events: Seq<EventView>, n: int) -> int
    decreases n,
{
    if n <= 0 {
        0
    } else {
        won_in(events, n - 1) + match figure(events[n - 1].pnl) {
            Some(d) => if d.pos() {
                1int
            } else {
                0
            },
            None => 0,
        }
    }
}

pub(crate) fn count_won(events: &[TradeEvent]) -> (r: usize)
    ensures
        r == won_in(event_views(events@), events@.len() as int),
        r <= events@.len(),
{
    let ghost all = event_views(events@);
    let mut n: usize = 0;
    let mut i: usize = 0;
    while i < events.len()
        invariant
            i <= events@.len(),
            n <= i,
            all == event_views(events@),
            n == won_in(all, i as int),
        decreases events@.len() - i,
    {
        proof {
            assert(all[i as int] == events@[i as int]@);
        }
        if let Some(d) = read_figure(&events[i].pnl) {
            if d.is_pos() {
                n = n + 1;
            }
        }
        i = i + 1;
    }
    n
}

/// The head of the report.
pub open spec fn head_lines(events: Seq<EventView>, strategy: Option<i32>, rate: Seq<char>) -> Option<
    Seq<Seq<char>>,
> {
    let closes = picked(events, strategy, "close"@);
    let full = whole(closes);
    let scope = match strategy {
        Some(s) => "strategy "@ + int_text(s as int),
        None => "все стратегии"@,
    };
    match (
        sum_of(figures(closes, Field::Pnl)),
        sum_of(figures(closes, Field::Fee)),
        sum_of(figures(closes, Field::Funding)),
    ) {
        (Some(pnl), Some(fee), Some(funding)) => if prints(pnl, 4) && prints(fee, 4) && prints(
            funding,
            4,
        ) {
            Some(
                seq![
                    "══════════════════════════════════════"@,
                    "  ОТЧЁТ  ·  "@ + scope,
                    "══════════════════════════════════════"@,
                    ""@,
                    rule_text("Сводка"@),
                    "  open="@ + left_in(int_text(picked(events, strategy, "open"@).len() as int), 4)
                        + " close="@ + left_in(int_text(closes.len() as int), 4) + " flatten="@ + left_in(
                        int_text(picked(events, strategy, "flatten"@).len() as int),
                        3,
                    ) + " skip="@ + int_text(picked(events, strategy, "skip"@).len() as int),
                    "  N="@ + left_in(int_text(full.len() as int), 4) + " WR="@ + left_in(
                        rate_or(full.len() as int, "n/a(N<30)"@, rate),
                        14,
                    ) + " нетто="@ + decimal_text_signed(pnl, 4) + "   комиссия="@ + decimal_text_fixed(
                        fee,
                        4,
                    ) + "   funding="@ + decimal_text_fixed(funding, 4),
                ],
            )
        } else {
            None
        },
        _ => None,
    }
}

fn write_head(events: &[TradeEvent], strategy: Option<i32>, rate: &str) -> (r: Option<Vec<String>>)
    ensures
        opt_views(r) == head_lines(event_views(events@), strategy, rate@),
{
    let closes: Vec<TradeEvent> = pick_events(events, strategy, "close");
    let opens: Vec<TradeEvent> = pick_events(events, strategy, "open");
    let skips: Vec<TradeEvent> = pick_events(events, strategy, "skip");
    let flats: Vec<TradeEvent> = pick_events(events, strategy, "flatten");
    let full: Vec<TradeEvent> = keep_whole(closes.as_slice());
    let pnl: Dec = sum(read_figures(closes.as_slice(), Field::Pnl).as_slice())?;
    let fee: Dec = sum(read_figures(closes.as_slice(), Field::Fee).as_slice())?;
    let funding: Dec = sum(read_figures(closes.as_slice(), Field::Funding).as_slice())?;
    proof {
        assert(event_views(closes@).len() == closes@.len());
        assert(event_views(opens@).len() == opens@.len());
        assert(event_views(skips@).len() == skips@.len());
        assert(event_views(flats@).len() == flats@.len());
        assert(event_views(full@).len() == full@.len());
    }
    let mut out: Vec<String> = Vec::new();
    add_text(&mut out, own("══════════════════════════════════════"));
    let mut t = own("  ОТЧЁТ  ·  ");
    let scope: String = match strategy {
        Some(s) => {
            let mut x = own("strategy ");
            x.append(print_i64(s as i64).as_str());
            x
        },
        None => own("все стратегии"),
    };
    t.append(scope.as_str());
    add_text(&mut out, t);
    add_text(&mut out, own("══════════════════════════════════════"));
    add_text(&mut out, own(""));
    add_text(&mut out, rule("Сводка"));
    let mut t = own("  open=");
    t.append(pad_right(print_u64(opens.len() as u64).as_str(), 4).as_str());
    t.append(" close=");
    t.append(pad_right(print_u64(closes.len() as u64).as_str(), 4).as_str());
    t.append(" flatten=");
    t.append(pad_right(print_u64(flats.len() as u64).as_str(), 3).as_str());
    t.append(" skip=");
    t.append(print_u64(skips.len() as u64).as_str());
    add_text(&mut out, t);
    let wr: &str = if full.len() == 0 {
        "—"
    } else if full.len() < SOAK_MIN_TRADES {
        "n/a(N<30)"
    } else {
        rate
    };
    let mut t = own("  N=");
    t.append(pad_right(print_u64(full.len() as u64).as_str(), 4).as_str());
    t.append(" WR=");
    t.append(pad_right(wr, 14).as_str());
    t.append(" нетто=");
    t.append(pnl.text_signed(4)?.as_str());
    t.append("   комиссия=");
    t.append(fee.text_fixed(4)?.as_str());
    t.append("   funding=");
    t.append(funding.text_fixed(4)?.as_str());
    add_text(&mut out, t);
    proof {
        assert(views(out@) =~= head_lines(event_views(events@), strategy, rate@)->0);
    }
    Some(out)
}

/// The block on the regime of the leading coin at entries.
pub open spec fn regime_lines(opens: Seq<EventView>) -> Seq<Seq<char>> {
    let tags = named(opens, opens.len() as int);
    if tags.len() == 0 {
        Seq::empty()
    } else {
        seq![
            ""@,
            rule_text(
                "BTC regime на входах ("@ + int_text(tags.len() as int) + "/"@ + int_text(
                    opens.len() as int,
                ) + ")"@,
            ),
        ] + count_block(name_counts(tags))
    }
}

fn write_regimes(opens: &[TradeEvent]) -> (r: Vec<String>)
    ensures
        views(r@) == regime_lines(event_views(opens@)),
{
    let ghost all = event_views(opens@);
    let mut tags: Vec<String> = Vec::new();
    let mut i: usize = 0;
    proof {
        assert(views(tags@) =~= Seq::<Seq<char>>::empty());
        assert(all.len() == opens@.len());
    }
    while i < opens.len()
        invariant
            i <= opens@.len(),
            all == event_views(opens@),
            views(tags@) == named(all, i as int),
        decreases opens@.len() - i,
    {
        proof {
            assert(all[i as int] == opens@[i as int]@);
        }
        if let Some(r) = &opens[i].btc_regime {
            if r.as_str().unicode_len() > 0 {
                add_text(&mut tags, own(r.as_str()));
            }
        }
        i = i + 1;
    }
    let mut out: Vec<String> = Vec::new();
    proof {
        assert(views(tags@).len() == tags@.len());
        assert(views(out@) =~= Seq::<Seq<char>>::empty());
    }
    if tags.len() == 0 {
        return out;
    }
    let mut t = own("BTC regime на входах (");
    t.append(print_u64(tags.len() as u64).as_str());
    t.append("/");
    t.append(print_u64(opens.len() as u64).as_str());
    t.append(")");
    let ghost title = t@;
    add_text(&mut out, own(""));
    add_text(&mut out, rule(t.as_str()));
    proof {
        assert(views(out@) =~= seq![""@, rule_text(title)]);
    }
    extend_texts(
        &mut out,
        write_counts(list_counts(tags.as_slice()).as_slice()).as_slice(),
    );
    out
}

/// A signed amount, or a dash.
pub open spec fn signed_or_dash(d: Option<Dec>) -> Seq<char> {
    match d {
        Some(x) => decimal_text_signed(x, 4),
        None => "—"@,
    }
}

/// An amount with four places, or a dash.
pub open spec fn fixed_or_dash(d: Option<Dec>) -> Seq<char> {
    match d {
        Some(x) => decimal_text_fixed(x, 4),
        None => "—"@,
    }
}

/// An amount with at most two places, or a dash.
pub open spec fn short_or_dash(d: Option<Dec>, places: usize) -> Seq<char> {
    match d {
        Some(x) => decimal_text_fixed(x, places),
        None => "—"@,
    }
}

/// Whether an amount, where there is one, can be shown with four places.
pub open spec fn shows(d: Option<Dec>) -> bool {
    d is Some ==> prints(d->0, 4)
}

fn fmt_signed(d: Option<Dec>) -> (r: Option<String>)
    ensures
        opt_view(r) == (if shows(d) {
            Some(signed_or_dash(d))
        } else {
            None
        }),
{
    match d {
        Some(x) => x.text_signed(4),
        None => Some(own("—")),
    }
}

fn fmt_fixed(d: Option<Dec>) -> (r: Option<String>)
    ensures
        opt_view(r) == (if shows(d) {
            Some(fixed_or_dash(d))
        } else {
            None
        }),
{
    match d {
        Some(x) => x.text_fixed(4),
        None => Some(own("—")),
    }
}

pub(crate) fn fmt_short(d: Option<Dec>, places: usize) -> (r: String)
    requires
        places <= 2,
    ensures
        r@ == short_or_dash(d, places),
{
    match d {
        Some(x) => x.text_short(places),
        None => own("—"),
    }
}

/// The time of day in a line.
pub open spec fn day_clock(ts: Seq<char>) -> Seq<char> {
    if ts.len() >= 19 {
        ts.subrange(11, 19)
    } else {
        ts
    }
}

fn write_day_clock(ts: &str) -> (r: String)
    ensures
        r@ == day_clock(ts@),
{
    let v: Vec<char> = crate::text::to_chars(ts);
    if v.len() < 19 {
        return own(ts);
    }
    let mut part: Vec<char> = Vec::new();
    let mut i: usize = 11;
    while i < 19
        invariant
            11 <= i <= 19 <= v@.len(),
            part@ == v@.subrange(11, i as int),
        decreases 19 - i,
    {
        part.push(v[i]);
        proof {
            assert(v@.subrange(11, i + 1) =~= v@.subrange(11, i as int).push(v@[i as int]));
        }
        i = i + 1;
    }
    crate::text::from_chars(part.as_slice())
}

/// The line on a close.
pub open spec fn close_text(e: EventView) -> Seq<char> {
    "  "@ + day_clock(e.ts) + "  "@ + left_in(e.symbol, 12) + "  "@ + right_in(
        signed_or_dash(figure(e.pnl)),
        9,
    ) + "  fee "@ + right_in(fixed_or_dash(figure(e.fee)), 7) + "  R "@ + right_in(
        short_or_dash(figure(e.final_r), 2),
        5,
    ) + "  "@ + shortened(e.reason, 36)
}

/// Whether the amounts of a close can be shown.
pub open spec fn close_shows(e: EventView) -> bool {
    shows(figure(e.pnl)) && shows(figure(e.fee))
}

fn write_close(e: &TradeEvent) -> (r: Option<String>)
    ensures
        opt_view(r) == (if close_shows(e@) {
            Some(close_text(e@))
        } else {
            None
        }),
{
    let mut t = own("  ");
    t.append(write_day_clock(e.ts.as_str()).as_str());
    t.append("  ");
    t.append(pad_right(e.symbol.as_str(), 12).as_str());
    t.append("  ");
    t.append(pad_left(fmt_signed(read_figure(&e.pnl))?.as_str(), 9).as_str());
    t.append("  fee ");
    t.append(pad_left(fmt_fixed(read_figure(&e.fee))?.as_str(), 7).as_str());
    t.append("  R ");
    t.append(pad_left(fmt_short(read_figure(&e.final_r), 2).as_str(), 5).as_str());
    t.append("  ");
    t.append(cut_text(e.reason.as_str(), 36).as_str());
    Some(t)
}

/// The block on the last closes, where their amounts can be shown.
pub open spec fn close_lines(closes: Seq<EventView>) -> Option<Seq<Seq<char>>> {
    let from = if closes.len() > 8 {
        closes.len() - 8
    } else {
        0
    };
    if closes.len() == 0 {
        Some(Seq::empty())
    } else if exists|i: int| from <= i < closes.len() && !close_shows(#[trigger] closes[i]) {
        None
    } else {
        Some(
            seq![""@, rule_text("Последние закрытия"@)] + Seq::new(
                (closes.len() - from) as nat,
                |i: int| close_text(closes[from + i]),
            ),
        )
    }
}

fn write_closes(closes: &[TradeEvent]) -> (r: Option<Vec<String>>)
    ensures
        opt_views(r) == close_lines(event_views(closes@)),
{
    let ghost all = event_views(closes@);
    let mut out: Vec<String> = Vec::new();
    let n: usize = closes.len();
    proof {
        assert(all.len() == n);
        assert(views(out@) =~= Seq::<Seq<char>>::empty());
    }
    if n == 0 {
        return Some(out);
    }
    let from: usize = if n > 8 {
        n - 8
    } else {
        0
    };
    let ghost head = seq![""@, rule_text("Последние закрытия"@)];
    let ghost body = Seq::new((n - from) as nat, |i: int| close_text(all[from + i]));
    add_text(&mut out, own(""));
    add_text(&mut out, rule("Последние закрытия"));
    let mut i: usize = from;
    proof {
        assert(views(out@) =~= head + body.take(0));
    }
    while i < n
        invariant
            from <= i <= n,
            n == closes@.len(),
            all == event_views(closes@),
            all.len() == n,
            n > 0,
            from == (if n > 8 {
                n - 8
            } else {
                0
            }),
            body == Seq::new((n - from) as nat, |i: int| close_text(all[from + i])),
            views(out@) == head + body.take(i - from),
            forall|j: int| from <= j < i ==> close_shows(#[trigger] all[j]),
        decreases n - i,
    {
        proof {
            assert(all[i as int] == closes@[i as int]@);
        }
        let line: String = write_close(&closes[i])?;
        add_text(&mut out, line);
        proof {
            assert(views(out@) =~= head + body.take(i + 1 - from));
        }
        i = i + 1;
    }
    proof {
        assert(body.take(i - from) =~= body);
    }
    Some(out)
}

/// What an entry that was skipped is counted by.
pub open spec fn skip_key(e: EventView) -> Seq<char> {
    match e.code {
        Some(c) => c,
        None => shortened(e.reason, 40),
    }
}

/// The keys of skipped entries.
pub open spec fn skip_keys(skips: Seq<EventView>) -> Seq<Seq<char>> {
    Seq::new(skips.len(), |i: int| skip_key(skips[i]))
}

fn list_skip_keys(skips: &[TradeEvent]) -> (r: Vec<String>)
    ensures
        views(r@) == skip_keys(event_views(skips@)),
{
    let ghost all = event_views(skips@);
    let mut out: Vec<String> = Vec::new();
    let mut i: usize = 0;
    proof {
        assert(views(out@) =~= skip_keys(all).take(0));
    }
    while i < skips.len()
        invariant
            i <= skips@.len(),
            all == event_views(skips@),
            all.len() == skips@.len(),
            views(out@) == skip_keys(all).take(i as int),
        decreases skips@.len() - i,
    {
        proof {
            assert(all[i as int] == skips@[i as int]@);
        }
        match &skips[i].code {
            Some(c) => add_text(&mut out, own(c.as_str())),
            None => add_text(&mut out, cut_text(skips[i].reason.as_str(), 40)),
        }
        proof {
            assert(views(out@) =~= skip_keys(all).take(i as int + 1));
        }
        i = i + 1;
    }
    proof {
        assert(skip_keys(all).take(i as int) =~= skip_keys(all));
    }
    out
}

/// What a shown error is counted by.
pub open spec fn error_key(e: ErrorLine) -> Seq<char> {
    if e.code.len() == 0 {
        shortened(e.shown, 40)
    } else {
        e.code
    }
}

/// The keys of the errors that were shown, of the first `n`.
pub open spec fn error_keys(errors: Seq<ErrorEvent>, n: int) -> Seq<Seq<char>>
    decreases n,
{
    if n <= 0 {
        Seq::empty()
    } else if errors[n - 1].event@ == "shown"@ {
        error_keys(errors, n - 1).push(error_key(errors[n - 1]@))
    } else {
        error_keys(errors, n - 1)
    }
}

fn list_error_keys(errors: &[ErrorEvent]) -> (r: Vec<String>)
    ensures
        views(r@) == error_keys(errors@, errors@.len() as int),
{
    let mut out: Vec<String> = Vec::new();
    let mut i: usize = 0;
    proof {
        assert(views(out@) =~= Seq::<Seq<char>>::empty());
    }
    while i < errors.len()
        invariant
            i <= errors@.len(),
            views(out@) == error_keys(errors@, i as int),
        decreases errors@.len() - i,
    {
        let e: &ErrorEvent = &errors[i];
        if crate::text::same(e.event.as_str(), "shown") {
            if e.code.as_str().unicode_len() == 0 {
                add_text(&mut out, cut_text(e.shown.as_str(), 40));
            } else {
                add_text(&mut out, own(e.code.as_str()));
            }
        }
        i = i + 1;
    }
    out
}

/// A block on the most frequent keys; none where there are no keys.
pub open spec fn frequency_lines(title: Seq<char>, keys: Seq<Seq<char>>, most: int) -> Seq<Seq<char>> {
    if keys.len() == 0 {
        Seq::empty()
    } else {
        seq![""@, rule_text(title)] + count_block(frequent(keys, most))
    }
}

pub(crate) fn write_frequency(title: &str, keys: &[String], most: usize) -> (r: Vec<String>)
    ensures
        views(r@) == frequency_lines(title@, views(keys@), most as int),
{
    let mut out: Vec<String> = Vec::new();
    proof {
        assert(views(keys@).len() == keys@.len());
        assert(views(out@) =~= Seq::<Seq<char>>::empty());
    }
    if keys.len() == 0 {
        return out;
    }
    add_text(&mut out, own(""));
    add_text(&mut out, rule(title));
    proof {
        assert(views(out@) =~= seq![""@, rule_text(title@)]);
    }
    extend_texts(&mut out, write_counts(count_rows(keys, most).as_slice()).as_slice());
    out
}

/// The lines of the report before its end.
pub open spec fn report_body(
    events: Seq<EventView>,
    errors: Seq<ErrorEvent>,
    strategy: Option<i32>,
    rates: WinTexts,
) -> Option<Seq<Seq<char>>> {
    let closes = picked(events, strategy, "close"@);
    let opens = picked(events, strategy, "open"@);
    let skips = picked(events, strategy, "skip"@);
    match (
        head_lines(events, strategy, rates.all@),
        research_lines(closes, rates),
        close_lines(closes),
    ) {
        (Some(head), Some(research), Some(last)) => Some(
            head + research + regime_lines(opens) + last + frequency_lines(
                "Отказы входа"@,
                skip_keys(skips),
                8,
            ) + frequency_lines("Ошибки TUI"@, error_keys(errors, errors.len() as int), 8),
        ),
        _ => None,
    }
}

/// The whole report.
pub open spec fn report_text(
    events: Seq<EventView>,
    errors: Seq<ErrorEvent>,
    strategy: Option<i32>,
    rates: WinTexts,
) -> Option<Seq<char>> {
    match report_body(events, errors, strategy, rates) {
        None => None,
        Some(lines) => Some(
            joined(
                lines + (if lines.len() <= 8 && picked(events, strategy, "close"@).len() == 0 && picked(
                    events,
                    strategy,
                    "skip"@,
                ).len() == 0 && error_keys(errors, errors.len() as int).len() == 0 {
                    seq!["(журналы пусты)"@]
                } else {
                    Seq::empty()
                }) + seq![""@],
                "\n"@,
            ),
        ),
    }
}

/// The report on all strategies.
pub fn format_report(events: &[TradeEvent], errors: &[ErrorEvent], rates: &WinTexts) -> (r: Option<String>)
    ensures
        opt_view(r) == report_text(event_views(events@), errors@, None, *rates),
{
    format_report_filtered(events, errors, None, rates)
}

/// The report on trades and errors, of one strategy where one is asked for.
/// `rates` are the win rates as texts. `None` where a sum leaves the range of
/// decimals or an amount cannot be shown.
pub fn format_report_filtered(
    events: &[TradeEvent],
    errors: &[ErrorEvent],
    strategy: Option<i32>,
    rates: &WinTexts,
) -> (r: Option<String>)
    ensures
        opt_view(r) == report_text(event_views(events@), errors@, strategy, *rates),
{
    let closes: Vec<TradeEvent> = pick_events(events, strategy, "close");
    let opens: Vec<TradeEvent> = pick_events(events, strategy, "open");
    let skips: Vec<TradeEvent> = pick_events(events, strategy, "skip");
    let shown: Vec<String> = list_error_keys(errors);
    proof {
        assert(event_views(closes@).len() == closes@.len());
        assert(event_views(skips@).len() == skips@.len());
        assert(views(shown@).len() == shown@.len());
    }
    let mut out: Vec<String> = write_head(events, strategy, rates.all.as_str())?;
    let research: Vec<String> = format_research(closes.as_slice(), rates)?;
    extend_texts(&mut out, research.as_slice());
    extend_texts(&mut out, write_regimes(opens.as_slice()).as_slice());
    let last: Vec<String> = write_closes(closes.as_slice())?;
    extend_texts(&mut out, last.as_slice());
    let keys: Vec<String> = list_skip_keys(skips.as_slice());
    extend_texts(&mut out, write_frequency("Отказы входа", keys.as_slice(), 8).as_slice());
    extend_texts(&mut out, write_frequency("Ошибки TUI", shown.as_slice(), 8).as_slice());
    let ghost body = views(out@);
    proof {
        assert(body.len() == out@.len());
    }
    if out.len() <= 8 && closes.len() == 0 && skips.len() == 0 && shown.len() == 0 {
        add_text(&mut out, own("(журналы пусты)"));
        proof {
            assert(views(out@) =~= body + seq!["(журналы пусты)"@]);
        }
    } else {
        proof {
            assert(views(out@) =~= body + Seq::<Seq<char>>::empty());
        }
    }
    let ghost most = views(out@);
    add_text(&mut out, own(""));
    proof {
        assert(views(out@) =~= most + seq![""@]);
    }
    Some(join(out.as_slice(), "\n"))
}

/// The report of one strategy does not depend on the lines of the others.
pub proof fn law_report_stays_in_scope(
    events: Seq<EventView>,
    errors: Seq<ErrorEvent>,
    strategy: i32,
    rates: WinTexts,
)
    ensures
        report_text(events, errors, Some(strategy), rates) == report_text(
            events.filter(|e: EventView| e.strategy_id == strategy),
            errors,
            Some(strategy),
            rates,
        ),
{
    let mine = events.filter(|e: EventView| e.strategy_id == strategy);
    lemma_picked_of_mine(events, strategy, "close"@);
    lemma_picked_of_mine(events, strategy, "open"@);
    lemma_picked_of_mine(events, strategy, "skip"@);
    lemma_picked_of_mine(events, strategy, "flatten"@);
}

proof fn lemma_picked_of_mine(events: Seq<EventView>, strategy: i32, kind: Seq<char>)
    ensures
        picked(events, Some(strategy), kind) == picked(
            events.filter(|e: EventView| e.strategy_id == strategy),
            Some(strategy),
            kind,
        ),
    decreases events.len(),
{
    reveal(Seq::filter);
    let own_line = |e: EventView| e.strategy_id == strategy;
    let s: Option<i32> = Some(strategy);
    let test = |e: EventView| (s is None || e.strategy_id == s->0) && e.event == kind;
    if events.len() > 0 {
        let rest = events.drop_last();
        lemma_picked_of_mine(rest, strategy, kind);
        if own_line(events.last()) {
            let mine = rest.filter(own_line);
            assert(mine.push(events.last()).drop_last() =~= mine);
        }
    }
}

} // verus!

//! Walks over grids of knobs.
use super::{
    count_trades, list_profits, plan_all, plan_views, planned_all, profits, trades_in,
    Kind, Plan, PlanView, Universe,
};
use crate::dec::{dec, decimal_text, decimal_text_signed, prints, Dec};
use crate::models::opt_view;
use crate::momentum::{default_momentum, MomentumParams, MomentumView};
use crate::report::{sum, sum_of};
use crate::sim::{summary_of, trade_views, wins_in, ClosedTrade, SimResult, TradeView};
use crate::text::{
    from_chars, int_text, left_in, own, pad_left, pad_right, print_u64, right_in, to_chars,
};
use vstd::prelude::*;
use vstd::string::StringExecFns;

verus! {

/// A setting of momentum that is tried.
#[derive(Debug, Clone, Copy)]
pub struct GridArm {
    pub label: &'static str,
    pub tp: Dec,
    pub trail: Dec,
    pub always: bool,
}

/// The settings of momentum that are tried.
pub open spec fn grid_arms() -> Seq<GridArm> {
    seq![
        GridArm { label: "2.5/2.0 24/7", tp: dec(25, 3), trail: dec(20, 3), always: true },
        GridArm { label: "4.0/2.0 24/7", tp: dec(40, 3), trail: dec(20, 3), always: true },
        GridArm { label: "5.0/2.5 24/7", tp: dec(50, 3), trail: dec(25, 3), always: true },
        GridArm { label: "3.0/1.5 24/7", tp: dec(30, 3), trail: dec(15, 3), always: true },
        GridArm { label: "6.0/3.0 24/7", tp: dec(60, 3), trail: dec(30, 3), always: true },
        GridArm { label: "2.5/2.0 windows", tp: dec(25, 3), trail: dec(20, 3), always: false },
        GridArm { label: "4.0/2.0 windows", tp: dec(40, 3), trail: dec(20, 3), always: false },
        GridArm { label: "trail 3% TP20", tp: dec(200, 3), trail: dec(30, 3), always: true },
    ]
}

fn arm(label: &'static str, tp: i64, trail: i64, always: bool) -> (r: GridArm)
    ensures
        r == (GridArm {
            label,
            tp: dec(tp as int, 3),
            trail: dec(trail as int, 3),
            always,
        }),
{
    GridArm { label, tp: Dec::new(tp, 3), trail: Dec::new(trail, 3), always }
}

pub fn momentum_grid() -> (r: Vec<GridArm>)
    ensures
        r@ == grid_arms(),
{
    let mut out: Vec<GridArm> = Vec::new();
    out.push(arm("2.5/2.0 24/7", 25, 20, true));
    out.push(arm("4.0/2.0 24/7", 40, 20, true));
    out.push(arm("5.0/2.5 24/7", 50, 25, true));
    out.push(arm("3.0/1.5 24/7", 30, 15, true));
    out.push(arm("6.0/3.0 24/7", 60, 30, true));
    out.push(arm("2.5/2.0 windows", 25, 20, false));
    out.push(arm("4.0/2.0 windows", 40, 20, false));
    out.push(arm("trail 3% TP20", 200, 30, true));
    proof {
        assert(out@ =~= grid_arms());
    }
    out
}

/// Momentum under a setting.
pub fn arm_momentum(a: &GridArm) -> (r: MomentumParams)
    ensures
        r@ == (MomentumView {
            always_enter: a.always,
            cooldown_ms: 0,
            tp_pct: a.tp,
            trail_pct: a.trail,
            ..default_momentum()
        }),
{
    let mut p: MomentumParams = MomentumParams::default();
    p.always_enter = a.always;
    p.cooldown_ms = 0;
    p.tp_pct = a.tp;
    p.trail_pct = a.trail;
    p
}

pub open spec fn grid_kind() -> Kind {
    Kind { strategy_id: 1, prefix: "", suffix: "", named: false, warmup: 40, sees_htf: true }
}

/// The walks of a setting of momentum.
pub fn grid_plan(u: &Universe) -> (r: Vec<Plan>)
    ensures
        plan_views(r@) == planned_all(u.m5@, grid_kind()),
{
    let mut out: Vec<Plan> = Vec::new();
    plan_all(
        &mut out,
        u.m5.as_slice(),
        &Kind { strategy_id: 1, prefix: "", suffix: "", named: false, warmup: 40, sees_htf: true },
    );
    proof {
        assert(plan_views(out@) =~= planned_all(u.m5@, grid_kind()));
    }
    out
}

/// How many trades of the first `n` results won.
pub open spec fn all_wins(rows: Seq<SimResult>, n: int) -> int
    decreases n,
{
    if n <= 0 {
        0
    } else {
        all_wins(rows, n - 1) + wins_in(trade_views(rows[n - 1].trades@), rows[n - 1].trades@.len() as int)
    }
}

proof fn lemma_wins_nonnegative(v: Seq<TradeView>, n: int)
    ensures
        wins_in(v, n) >= 0,
    decreases n,
{
    if n > 0 {
        lemma_wins_nonnegative(v, n - 1);
    }
}

proof fn lemma_all_wins_grow(rows: Seq<SimResult>, n: int, m: int)
    requires
        n <= m,
    ensures
        0 <= all_wins(rows, n) <= all_wins(rows, m),
    decreases m,
{
    if m > 0 {
        lemma_wins_nonnegative(trade_views(rows[m - 1].trades@), rows[m - 1].trades@.len() as int);
        if n < m {
            lemma_all_wins_grow(rows, n, m - 1);
        } else {
            lemma_all_wins_grow(rows, n - 1, m - 1);
        }
    }
}

/// How many trades of results won; `None` where they are too many to count.
pub fn pooled_wins(rows: &[SimResult]) -> (r: Option<u64>)
    ensures
        match r {
            Some(n) => n == all_wins(rows@, rows@.len() as int),
            None => all_wins(rows@, rows@.len() as int) > u64::MAX,
        },
{
    let mut n: u64 = 0;
    let mut i: usize = 0;
    while i < rows.len()
        invariant
            i <= rows@.len(),
            n == all_wins(rows@, i as int),
        decreases rows@.len() - i,
    {
        let more: u64 = rows[i].wins() as u64;
        proof {
            lemma_all_wins_grow(rows@, i as int + 1, rows@.len() as int);
        }
        if n > u64::MAX - more {
            return None;
        }
        n = n + more;
        i = i + 1;
    }
    Some(n)
}

/// The line on a setting of momentum.
pub open spec fn grid_text(label: Seq<char>, rows: Seq<SimResult>, rate: Seq<char>) -> Option<Seq<char>> {
    let n = rows.len() as int;
    match profits(rows, n) {
        None => None,
        Some(made) => match sum_of(made) {
            None => None,
            Some(pnl) => if trades_in(rows, n) > u64::MAX || !prints(pnl, 4) {
                None
            } else {
                Some(
                    "  "@ + left_in(label, 18) + " n="@ + right_in(int_text(trades_in(rows, n)), 4)
                        + "  wr="@ + right_in(
                        if trades_in(rows, n) == 0 {
                            "—"@
                        } else {
                            rate
                        },
                        6,
                    ) + "  pnl="@ + decimal_text_signed(pnl, 4),
                )
            },
        },
    }
}

pub fn grid_line(label: &str, rows: &[SimResult], rate: &str) -> (r: Option<String>)
    ensures
        opt_view(r) == grid_text(label@, rows@, rate@),
{
    let made: Vec<Dec> = list_profits(rows)?;
    let pnl: Dec = sum(made.as_slice())?;
    let n: u64 = count_trades(rows)?;
    let wr: &str = if n == 0 {
        "—"
    } else {
        rate
    };
    let mut t = own("  ");
    t.append(pad_right(label, 18).as_str());
    t.append(" n=");
    t.append(pad_left(print_u64(n).as_str(), 4).as_str());
    t.append("  wr=");
    t.append(pad_left(wr, 6).as_str());
    t.append("  pnl=");
    t.append(pnl.text_signed(4)?.as_str());
    Some(t)
}

/// The line on a trade.
pub open spec fn trade_text(t: ClosedTrade) -> Seq<char> {
    t.symbol@ + " "@ + decimal_text(t.entry) + " -> "@ + decimal_text(t.exit) + " qty="@ + decimal_text(t.qty)
        + " pnl="@ + decimal_text(t.pnl) + " reason="@ + t.reason@ + "\n"@
}

/// The lines on the first `n` trades.
pub open spec fn trades_text(v: Seq<ClosedTrade>, n: int) -> Seq<char>
    decreases n,
{
    if n <= 0 {
        Seq::empty()
    } else {
        trades_text(v, n - 1) + trade_text(v[n - 1])
    }
}

/// A result with its trades.
pub open spec fn dump_of(r: SimResult, rate: Seq<char>) -> Option<Seq<char>> {
    match summary_of(r, rate) {
        Some(t) => Some(t + "\n"@ + trades_text(r.trades@, r.trades@.len() as int)),
        None => None,
    }
}

/// A result with its trades; `rate` is its win rate as a text.
pub fn dump_text(res: &SimResult, rate: &str) -> (r: Option<String>)
    ensures
        opt_view(r) == dump_of(*res, rate@),
{
    let mut out: String = res.summary_line(rate)?;
    out.append("\n");
    let ghost head = out@;
    let mut i: usize = 0;
    proof {
        assert(out@ =~= head + trades_text(res.trades@, 0));
    }
    while i < res.trades.len()
        invariant
            i <= res.trades@.len(),
            out@ == head + trades_text(res.trades@, i as int),
        decreases res.trades@.len() - i,
    {
        let x: &ClosedTrade = &res.trades[i];
        let mut t = own(x.symbol.as_str());
        t.append(" ");
        t.append(x.entry.text().as_str());
        t.append(" -> ");
        t.append(x.exit.text().as_str());
        t.append(" qty=");
        t.append(x.qty.text().as_str());
        t.append(" pnl=");
        t.append(x.pnl.text().as_str());
        t.append(" reason=");
        t.append(x.reason.as_str());
        t.append("\n");
        let ghost before = out@;
        let ghost tv = t@;
        out.append(t.as_str());
        proof {
            assert(out@ =~= head + (trades_text(res.trades@, i as int) + tv));
        }
        i = i + 1;
    }
    Some(out)
}

pub open spec fn debug_kind() -> Kind {
    Kind {
        strategy_id: 5,
        prefix: "S5 debug ",
        suffix: " 1h",
        named: true,
        warmup: 40,
        sees_htf: true,
    }
}

/// The walks of the hourly continuation, one file each.
pub fn debug_plan(u: &Universe) -> (r: Vec<Plan>)
    ensures
        plan_views(r@) == planned_all(u.h1@, debug_kind()),
{
    let mut out: Vec<Plan> = Vec::new();
    plan_all(
        &mut out,
        u.h1.as_slice(),
        &Kind {
            strategy_id: 5,
            prefix: "S5 debug ",
            suffix: " 1h",
            named: true,
            warmup: 40,
            sees_htf: true,
        },
    );
    proof {
        assert(plan_views(out@) =~= planned_all(u.h1@, debug_kind()));
    }
    out
}

pub open spec fn sweep_kind15() -> Kind {
    Kind {
        strategy_id: 4,
        prefix: "S4 sweep ",
        suffix: " 15m",
        named: true,
        warmup: 40,
        sees_htf: true,
    }
}

pub open spec fn sweep_kind60() -> Kind {
    Kind {
        strategy_id: 5,
        prefix: "S5 sweep ",
        suffix: " 1h",
        named: true,
        warmup: 40,
        sees_htf: true,
    }
}

/// The walks of a setting of the continuation.
pub fn sweep_plan(u: &Universe) -> (r: Vec<Plan>)
    ensures
        plan_views(r@) == planned_all(u.m15@, sweep_kind15()) + planned_all(u.h1@, sweep_kind60()),
{
    let mut out: Vec<Plan> = Vec::new();
    proof {
        assert(plan_views(out@) =~= Seq::<PlanView>::empty());
    }
    plan_all(
        &mut out,
        u.m15.as_slice(),
        &Kind {
            strategy_id: 4,
            prefix: "S4 sweep ",
            suffix: " 15m",
            named: true,
            warmup: 40,
            sees_htf: true,
        },
    );
    proof {
        assert(plan_views(out@) =~= planned_all(u.m15@, sweep_kind15()));
    }
    plan_all(
        &mut out,
        u.h1.as_slice(),
        &Kind {
            strategy_id: 5,
            prefix: "S5 sweep ",
            suffix: " 1h",
            named: true,
            warmup: 40,
            sees_htf: true,
        },
    );
    out
}

/// A setting of the continuation that is tried: the least change of the day in
/// percent, how many true ranges the stop stands off, and the multiple of the risk
/// that is aimed at.
#[derive(Debug, Clone, Copy)]
pub struct SweepArm {
    pub min: Dec,
    pub atrk: Dec,
    pub reward: Dec,
}

pub open spec fn sweep_min(i: int) -> Dec {
    if i == 0 {
        dec(5, 1)
    } else if i == 1 {
        dec(10, 1)
    } else if i == 2 {
        dec(20, 1)
    } else {
        dec(40, 1)
    }
}

pub open spec fn sweep_factor(i: int) -> Dec {
    if i == 0 {
        dec(15, 1)
    } else if i == 1 {
        dec(2, 0)
    } else {
        dec(25, 1)
    }
}

/// The settings of the continuation that are tried: every least change with every
/// distance and every aim.
pub open spec fn sweep_arms() -> Seq<SweepArm> {
    Seq::new(
        36,
        |i: int|
            SweepArm {
                min: sweep_min(i / 9),
                atrk: sweep_factor((i / 3) % 3),
                reward: sweep_factor(i % 3),
            },
    )
}

fn read_min(i: usize) -> (r: Dec)
    ensures
        r == sweep_min(i as int),
{
    if i == 0 {
        Dec::new(5, 1)
    } else if i == 1 {
        Dec::new(10, 1)
    } else if i == 2 {
        Dec::new(20, 1)
    } else {
        Dec::new(40, 1)
    }
}

fn read_factor(i: usize) -> (r: Dec)
    ensures
        r == sweep_factor(i as int),
{
    if i == 0 {
        Dec::new(15, 1)
    } else if i == 1 {
        Dec::from_int(2)
    } else {
        Dec::new(25, 1)
    }
}

pub fn sweep_grid() -> (r: Vec<SweepArm>)
    ensures
        r@ == sweep_arms(),
{
    let mut out: Vec<SweepArm> = Vec::new();
    let mut i: usize = 0;
    while i < 36
        invariant
            i <= 36,
            out@ == sweep_arms().take(i as int),
        decreases 36 - i,
    {
        out.push(
            SweepArm {
                min: read_min(i / 9),
                atrk: read_factor((i / 3) % 3),
                reward: read_factor(i % 3),
            },
        );
        proof {
            assert(out@ =~= sweep_arms().take(i as int + 1));
        }
        i = i + 1;
    }
    proof {
        assert(sweep_arms().take(36) =~= sweep_arms());
    }
    out
}

/// What a setting came to.
#[derive(Debug, Clone, Copy)]
pub struct SweepRow {
    pub arm: SweepArm,
    pub pnl: Dec,
    pub trades: u64,
}

/// What a setting came to, from its results.
pub open spec fn swept(a: SweepArm, rows: Seq<SimResult>) -> Option<SweepRow> {
    let n = rows.len() as int;
    match profits(rows, n) {
        None => None,
        Some(made) => match sum_of(made) {
            None => None,
            Some(pnl) => if trades_in(rows, n) > u64::MAX {
                None
            } else {
                Some(SweepRow { arm: a, pnl, trades: trades_in(rows, n) as u64 })
            },
        },
    }
}

pub fn sweep_row(a: &SweepArm, rows: &[SimResult]) -> (r: Option<SweepRow>)
    ensures
        r == swept(*a, rows@),
{
    let made: Vec<Dec> = list_profits(rows)?;
    let pnl: Dec = sum(made.as_slice())?;
    let trades: u64 = count_trades(rows)?;
    Some(SweepRow { arm: *a, pnl, trades })
}

/// A row put among rows by its profit, behind those that made as much.
pub open spec fn by_pnl_in(v: Seq<SweepRow>, x: SweepRow) -> Seq<SweepRow>
    decreases v.len(),
{
    if v.len() == 0 || x.pnl.le(v.last().pnl) {
        v.push(x)
    } else {
        by_pnl_in(v.drop_last(), x).push(v.last())
    }
}

/// The rows by profit, the best first; equals keep their order.
pub open spec fn by_pnl(v: Seq<SweepRow>) -> Seq<SweepRow>
    decreases v.len(),
{
    if v.len() == 0 {
        Seq::empty()
    } else {
        by_pnl_in(by_pnl(v.drop_last()), v.last())
    }
}

proof fn lemma_by_pnl_in(v: Seq<SweepRow>, x: SweepRow, p: int)
    requires
        0 <= p <= v.len(),
        p > 0 ==> x.pnl.le(v[p - 1].pnl),
        forall|j: int| p <= j < v.len() ==> !x.pnl.le((#[trigger] v[j]).pnl),
    ensures
        by_pnl_in(v, x) == v.insert(p, x),
    decreases v.len(),
{
    if p < v.len() {
        assert(!x.pnl.le(v[v.len() - 1].pnl));
        let w = v.drop_last();
        assert forall|j: int| p <= j < w.len() implies !x.pnl.le((#[trigger] w[j]).pnl) by {
            assert(w[j] == v[j]);
        }
        lemma_by_pnl_in(w, x, p);
        assert(w.insert(p, x).push(v.last()) =~= v.insert(p, x));
    } else {
        assert(v.insert(p, x) =~= v.push(x));
    }
}

pub fn sort_rows(rows: &[SweepRow]) -> (r: Vec<SweepRow>)
    ensures
        r@ == by_pnl(rows@),
{
    let mut out: Vec<SweepRow> = Vec::new();
    let mut i: usize = 0;
    while i < rows.len()
        invariant
            i <= rows@.len(),
            out@ == by_pnl(rows@.take(i as int)),
        decreases rows@.len() - i,
    {
        let x: SweepRow = rows[i];
        let mut p: usize = out.len();
        while p > 0 && !(x.pnl <= out[p - 1].pnl)
            invariant
                p <= out@.len(),
                forall|j: int| p <= j < out@.len() ==> !x.pnl.le((#[trigger] out@[j]).pnl),
            decreases p,
        {
            p = p - 1;
        }
        proof {
            lemma_by_pnl_in(out@, x, p as int);
            assert(rows@.take(i as int + 1).drop_last() =~= rows@.take(i as int));
        }
        out.insert(p, x);
        i = i + 1;
    }
    proof {
        assert(rows@.take(i as int) =~= rows@);
    }
    out
}

pub open spec fn sweep_line(x: SweepRow) -> Seq<char> {
    " min="@ + decimal_text(x.arm.min) + "% atr_k="@ + decimal_text(x.arm.atrk) + " reward="@ + decimal_text(
        x.arm.reward,
    ) + " pnl="@ + decimal_text(x.pnl) + " trades="@ + int_text(x.trades as int) + "\n"@
}

/// The lines on the first `n` rows.
pub open spec fn sweep_lines(v: Seq<SweepRow>, n: int) -> Seq<char>
    decreases n,
{
    if n <= 0 {
        Seq::empty()
    } else {
        sweep_lines(v, n - 1) + sweep_line(v[n - 1])
    }
}

/// The report on settings of the continuation: the best twenty.
pub fn sweep_report(rows: &[SweepRow]) -> (r: String)
    ensures
        r@ == "S4/S5 sweep results:\n"@ + sweep_lines(
            by_pnl(rows@),
            if by_pnl(rows@).len() < 20 {
                by_pnl(rows@).len() as int
            } else {
                20
            },
        ),
{
    let best: Vec<SweepRow> = sort_rows(rows);
    let n: usize = if best.len() < 20 {
        best.len()
    } else {
        20
    };
    let mut out = own("S4/S5 sweep results:\n");
    let ghost head = out@;
    let mut i: usize = 0;
    proof {
        assert(out@ =~= head + sweep_lines(best@, 0));
    }
    while i < n
        invariant
            i <= n <= best@.len(),
            out@ == head + sweep_lines(best@, i as int),
        decreases n - i,
    {
        let x: SweepRow = best[i];
        let mut t = own(" min=");
        t.append(x.arm.min.text().as_str());
        t.append("% atr_k=");
        t.append(x.arm.atrk.text().as_str());
        t.append(" reward=");
        t.append(x.arm.reward.text().as_str());
        t.append(" pnl=");
        t.append(x.pnl.text().as_str());
        t.append(" trades=");
        t.append(print_u64(x.trades).as_str());
        t.append("\n");
        let ghost tv = t@;
        out.append(t.as_str());
        proof {
            assert(out@ =~= head + (sweep_lines(best@, i as int) + tv));
        }
        i = i + 1;
    }
    out
}

/// A number as a part of a file's name: a `p` in the place of the point.
pub open spec fn file_part(d: Dec) -> Seq<char> {
    let t = decimal_text(d);
    Seq::new(
        t.len(),
        |i: int|
            if t[i] == '.' {
                'p'
            } else {
                t[i]
            },
    )
}

fn write_part(d: Dec) -> (r: String)
    ensures
        r@ == file_part(d),
{
    let text: String = d.text();
    let v: Vec<char> = to_chars(text.as_str());
    let mut out: Vec<char> = Vec::new();
    let mut i: usize = 0;
    while i < v.len()
        invariant
            i <= v@.len(),
            v@ == decimal_text(d),
            out@ == file_part(d).take(i as int),
        decreases v@.len() - i,
    {
        if v[i] == '.' {
            out.push('p');
        } else {
            out.push(v[i]);
        }
        proof {
            assert(out@ =~= file_part(d).take(i as int + 1));
        }
        i = i + 1;
    }
    proof {
        assert(file_part(d).take(i as int) =~= file_part(d));
    }
    from_chars(out.as_slice())
}

/// The file of a walk under a setting.
pub fn sweep_file(interval: &str, symbol: &str, a: &SweepArm) -> (r: String)
    ensures
        r@ == ".state/sweep-"@ + interval@ + "-"@ + symbol@ + "-min"@ + file_part(a.min) + "-atrk"@
            + file_part(a.atrk) + "-r"@ + file_part(a.reward) + ".txt"@,
{
    let mut t = own(".state/sweep-");
    t.append(interval);
    t.append("-");
    t.append(symbol);
    t.append("-min");
    t.append(write_part(a.min).as_str());
    t.append("-atrk");
    t.append(write_part(a.atrk).as_str());
    t.append("-r");
    t.append(write_part(a.reward).as_str());
    t.append(".txt");
    t
}

/// The note on a walk under a setting.
pub fn sweep_note(strategy_id: i32, symbol: &str, bars: usize, a: &SweepArm) -> (r: String)
    ensures
        r@ == "S"@ + int_text(strategy_id as int) + " sweep symbol="@ + symbol@ + " bars="@ + int_text(
            bars as int,
        ) + " min="@ + decimal_text(a.min) + "% atr_k="@ + decimal_text(a.atrk) + " reward="@
            + decimal_text(a.reward),
{
    let mut t = own("S");
    t.append(crate::text::print_i64(strategy_id as i64).as_str());
    t.append(" sweep symbol=");
    t.append(symbol);
    t.append(" bars=");
    t.append(print_u64(bars as u64).as_str());
    t.append(" min=");
    t.append(a.min.text().as_str());
    t.append("% atr_k=");
    t.append(a.atrk.text().as_str());
    t.append(" reward=");
    t.append(a.reward.text().as_str());
    t
}

} // verus!

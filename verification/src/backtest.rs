//! What the strategies would have made of public candles. No keys, no orders.
pub mod arms;
pub mod research;
pub mod sweep;

use crate::config::TradeInterval;
use crate::continuation::{SkipRow, SkipTally};
use crate::dec::{dec, decimal_text_signed, n_sub, prints, Dec};
use crate::desk_orchestrator::HeatLimits;
use crate::engine::tick::DeskKnobs;
use crate::json::{json_document, read_document, Json};
use crate::models::{opt_bars, opt_view, some_bars, some_document_bars, Bar};
use crate::momentum::{default_momentum, MomentumParams, MomentumView};
use crate::openmeta::{MetaView, OpenMeta};
use crate::report::{sum, sum_of};
use crate::scalp::{ScalpParams, ScalpView};
use crate::sim::{
    day_back, default_notional, default_slip, equity_after, simulate_bars_opts, simulated,
    summary_of, trade_views, SimInput, SimOpts, SimResult,
};
use crate::snapshot::bars::copy_bars;
use crate::text::{
    add_text, extend_texts, int_text, join, joined, own, print_u64, same, views,
};
use crate::trend::{TrendParams, TrendView};
use vstd::prelude::*;
use vstd::string::StringExecFns;

verus! {

/// The candles of a symbol.
#[derive(Debug)]
pub struct Series {
    pub symbol: String,
    pub bars: Vec<Bar>,
}

/// The candles of a cached text; none where it is no document or no candle of it can
/// be read.
pub open spec fn cached(text: Seq<char>) -> Option<Seq<Bar>> {
    match json_document(text) {
        Some(raw) => some_document_bars(raw),
        None => None,
    }
}

/// Reads the candles of a cached text.
pub fn cached_bars(text: &str) -> (r: Option<Vec<Bar>>)
    ensures
        opt_bars(r) == cached(text@),
{
    let raw: Json = read_document(text)?;
    some_bars(&raw)
}

/// The candles that strategies are walked over, by interval, and those of the
/// higher timeframe.
#[derive(Debug)]
pub struct Universe {
    pub m5: Vec<Series>,
    pub m15: Vec<Series>,
    pub h1: Vec<Series>,
    pub d1: Vec<Series>,
    pub htf: Vec<Series>,
    pub btc_htf: Option<Vec<Bar>>,
}

/// A walk that is to be made.
#[derive(Debug)]
pub struct Plan {
    pub strategy_id: i32,
    pub symbol: String,
    pub bars: Vec<Bar>,
    pub name: String,
    pub warmup: usize,
    pub sees_htf: bool,
}

/// A walk that is to be made, with texts as characters.
pub struct PlanView {
    pub strategy_id: i32,
    pub symbol: Seq<char>,
    pub bars: Seq<Bar>,
    pub name: Seq<char>,
    pub warmup: usize,
    pub sees_htf: bool,
}

impl View for Plan {
    type V = PlanView;

    open spec fn view(&self) -> PlanView {
        PlanView {
            strategy_id: self.strategy_id,
            symbol: self.symbol@,
            bars: self.bars@,
            name: self.name@,
            warmup: self.warmup,
            sees_htf: self.sees_htf,
        }
    }
}

pub open spec fn plan_views(v: Seq<Plan>) -> Seq<PlanView> {
    Seq::new(v.len(), |i: int| v[i]@)
}

/// What walks of a kind have in common. A name is made of a prefix, the symbol and
/// a suffix; a walk without a name gets the simulator's own.
#[derive(Debug, Clone, Copy)]
pub struct Kind {
    pub strategy_id: i32,
    pub prefix: &'static str,
    pub suffix: &'static str,
    pub named: bool,
    pub warmup: usize,
    pub sees_htf: bool,
}

/// The walk of a kind over a series.
pub open spec fn planned(s: Series, k: Kind) -> PlanView {
    PlanView {
        strategy_id: k.strategy_id,
        symbol: s.symbol@,
        bars: s.bars@,
        name: if k.named {
            k.prefix@ + s.symbol@ + k.suffix@
        } else {
            Seq::empty()
        },
        warmup: k.warmup,
        sees_htf: k.sees_htf,
    }
}

fn make_plan(s: &Series, k: &Kind) -> (r: Plan)
    ensures
        r@ == planned(*s, *k),
{
    let mut name = String::new();
    if k.named {
        name.append(k.prefix);
        name.append(s.symbol.as_str());
        name.append(k.suffix);
    }
    proof {
        assert(name@ =~= planned(*s, *k).name);
    }
    Plan {
        strategy_id: k.strategy_id,
        symbol: own(s.symbol.as_str()),
        bars: copy_bars(s.bars.as_slice()),
        name,
        warmup: k.warmup,
        sees_htf: k.sees_htf,
    }
}

/// The walks of a kind over several series.
pub open spec fn planned_all(v: Seq<Series>, k: Kind) -> Seq<PlanView> {
    Seq::new(v.len(), |i: int| planned(v[i], k))
}

pub fn plan_all(into: &mut Vec<Plan>, v: &[Series], k: &Kind)
    ensures
        plan_views(final(into)@) == plan_views(old(into)@) + planned_all(v@, *k),
{
    let ghost start = plan_views(into@);
    let ghost more = planned_all(v@, *k);
    let mut i: usize = 0;
    proof {
        assert(plan_views(into@) =~= start + more.take(0));
    }
    while i < v.len()
        invariant
            i <= v@.len(),
            more == planned_all(v@, *k),
            plan_views(into@) == start + more.take(i as int),
        decreases v@.len() - i,
    {
        let ghost before = plan_views(into@);
        let p: Plan = make_plan(&v[i], k);
        let ghost pv = p@;
        into.push(p);
        proof {
            assert(plan_views(into@) =~= before.push(pv));
            assert(plan_views(into@) =~= start + more.take(i as int + 1));
        }
        i = i + 1;
    }
    proof {
        assert(more.take(i as int) =~= more);
    }
}

/// The knobs that walks are made with, by strategy.
#[derive(Debug)]
pub struct Knobs {
    pub momentum: Option<MomentumParams>,
    pub scalp: Option<ScalpParams>,
    pub trend: Option<TrendParams>,
    pub continuation: Option<MomentumParams>,
}

pub open spec fn momentum_view(p: Option<MomentumParams>) -> Option<MomentumView> {
    match p {
        Some(m) => Some(m@),
        None => None,
    }
}

pub open spec fn scalp_knob_view(p: Option<ScalpParams>) -> Option<ScalpView> {
    match p {
        Some(m) => Some(m@),
        None => None,
    }
}

pub open spec fn trend_knob_view(p: Option<TrendParams>) -> Option<TrendView> {
    match p {
        Some(m) => Some(m@),
        None => None,
    }
}

/// The knobs that a strategy gets.
pub open spec fn knobs_for(k: Knobs, strategy_id: i32) -> DeskKnobs {
    DeskKnobs {
        momentum: if strategy_id == 1 {
            momentum_view(k.momentum)
        } else if strategy_id == 4 || strategy_id == 5 {
            momentum_view(k.continuation)
        } else {
            None
        },
        scalp: if strategy_id == 2 {
            scalp_knob_view(k.scalp)
        } else {
            None
        },
        trend: if strategy_id == 3 {
            trend_knob_view(k.trend)
        } else {
            None
        },
    }
}

/// The candles of a symbol among series, from an index on.
pub open spec fn series_from(v: Seq<Series>, symbol: Seq<char>, i: int) -> Option<Seq<Bar>>
    decreases v.len() - i,
{
    if i < 0 || i >= v.len() {
        None
    } else if v[i].symbol@ == symbol {
        Some(v[i].bars@)
    } else {
        series_from(v, symbol, i + 1)
    }
}

fn find_series<'a>(v: &'a [Series], symbol: &str) -> (r: Option<&'a [Bar]>)
    ensures
        match (r, series_from(v@, symbol@, 0)) {
            (Some(b), Some(s)) => b@ == s,
            (None, None) => true,
            _ => false,
        },
{
    let mut i: usize = 0;
    while i < v.len()
        invariant
            i <= v@.len(),
            series_from(v@, symbol@, 0) == series_from(v@, symbol@, i as int),
        decreases v@.len() - i,
    {
        if same(v[i].symbol.as_str(), symbol) {
            return Some(v[i].bars.as_slice());
        }
        i = i + 1;
    }
    None
}

/// The higher-timeframe candles that a walk sees, by symbol.
pub open spec fn htf_for(u: Universe, symbol: Seq<char>, sees: bool) -> Map<Seq<char>, Seq<Bar>> {
    let none = Map::<Seq<char>, Seq<Bar>>::empty();
    if !sees {
        none
    } else {
        let lead = match u.btc_htf {
            Some(b) => none.insert("BTCUSDT"@, b@),
            None => none,
        };
        match series_from(u.htf@, symbol, 0) {
            Some(b) => lead.insert(symbol, b),
            None => lead,
        }
    }
}

/// What a walk is given: twenty USDT a trade, the taker's fee on both sides and a
/// slip of a hundredth of a percent.
pub open spec fn input_for(p: PlanView, u: Universe, k: Knobs, orchestrated: bool, heat: HeatLimits) -> SimInput {
    SimInput {
        strategy_id: p.strategy_id,
        bars: p.bars,
        symbol: p.symbol,
        notional: dec(20, 0),
        fee_rate: dec(4, 4),
        slip: dec(1, 4),
        lookback: day_back(p.bars),
        knobs: knobs_for(k, p.strategy_id),
        orchestrated,
        heat,
        htf: htf_for(u, p.symbol, p.sees_htf),
    }
}

/// What the desk remembers between walks.
pub struct Memory {
    pub meta: Map<Seq<char>, MetaView>,
    pub tally: Seq<SkipRow>,
}

/// Whether a result is what a walk comes to, from one memory to the next.
pub open spec fn plan_done(
    p: PlanView,
    r: Option<SimResult>,
    u: Universe,
    k: Knobs,
    orchestrated: bool,
    heat: HeatLimits,
    before: Memory,
    after: Memory,
) -> bool {
    simulated(
        r,
        p.name,
        input_for(p, u, k, orchestrated, heat),
        Some(p.warmup),
        dec(1000, 0),
        before.meta,
        before.tally,
        after.meta,
        after.tally,
    )
}

/// One walk.
pub fn run_one(
    p: &Plan,
    u: &Universe,
    k: &Knobs,
    meta: &mut OpenMeta,
    tally: &mut SkipTally,
    orchestrated: bool,
    heat: HeatLimits,
) -> (r: Option<SimResult>)
    ensures
        plan_done(
            p@,
            r,
            *u,
            *k,
            orchestrated,
            heat,
            (Memory { meta: old(meta)@, tally: old(tally)@ }),
            (Memory { meta: final(meta)@, tally: final(tally)@ }),
        ),
{
    let id: i32 = p.strategy_id;
    let momentum: Option<&MomentumParams> = if id == 1 {
        k.momentum.as_ref()
    } else if id == 4 || id == 5 {
        k.continuation.as_ref()
    } else {
        None
    };
    let scalp: Option<&ScalpParams> = if id == 2 {
        k.scalp.as_ref()
    } else {
        None
    };
    let trend: Option<&TrendParams> = if id == 3 {
        k.trend.as_ref()
    } else {
        None
    };
    let opts: SimOpts = if p.sees_htf {
        SimOpts {
            htf: find_series(u.htf.as_slice(), p.symbol.as_str()),
            btc_htf: match &u.btc_htf {
                Some(b) => Some(b.as_slice()),
                None => None,
            },
        }
    } else {
        SimOpts { htf: None, btc_htf: None }
    };
    simulate_bars_opts(
        id,
        p.bars.as_slice(),
        p.symbol.as_str(),
        p.name.as_str(),
        default_notional(),
        Dec::new(4, 4),
        default_slip(),
        Some(p.warmup),
        Dec::from_int(1000),
        momentum,
        scalp,
        trend,
        opts,
        meta,
        tally,
        orchestrated,
        heat,
    )
}

/// Whether the walk at an index leads from one memory to the next.
pub open spec fn link(
    i: int,
    plan: Seq<PlanView>,
    results: Seq<SimResult>,
    memories: Seq<Memory>,
    u: Universe,
    k: Knobs,
    orchestrated: bool,
    heat: HeatLimits,
) -> bool {
    plan_done(
        plan[i],
        Some(results[i]),
        u,
        k,
        orchestrated,
        heat,
        memories[i],
        memories[i + 1],
    )
}

/// Whether results are what the first `n` walks come to, one after the other.
pub open spec fn chained(
    n: int,
    plan: Seq<PlanView>,
    results: Seq<SimResult>,
    memories: Seq<Memory>,
    u: Universe,
    k: Knobs,
    orchestrated: bool,
    heat: HeatLimits,
) -> bool {
    &&& results.len() == n
    &&& memories.len() == n + 1
    &&& forall|i: int|
        0 <= i < n ==> #[trigger] link(i, plan, results, memories, u, k, orchestrated, heat)
}

/// Whether results are what a plan comes to, from one memory to another.
pub open spec fn all_done(
    plan: Seq<PlanView>,
    results: Seq<SimResult>,
    u: Universe,
    k: Knobs,
    orchestrated: bool,
    heat: HeatLimits,
    before: Memory,
    after: Memory,
) -> bool {
    exists|memories: Seq<Memory>|
        #![trigger chained(
            plan.len() as int,
            plan,
            results,
            memories,
            u,
            k,
            orchestrated,
            heat,
        )]
        chained(plan.len() as int, plan, results, memories, u, k, orchestrated, heat) && memories[0]
            == before && memories.last() == after
}

/// Whether a walk of a plan leaves the range of decimals, those before it done.
pub open spec fn one_failed(
    plan: Seq<PlanView>,
    u: Universe,
    k: Knobs,
    orchestrated: bool,
    heat: HeatLimits,
    before: Memory,
) -> bool {
    exists|n: int, results: Seq<SimResult>, memories: Seq<Memory>, after: Memory|
        #![trigger chained(n, plan, results, memories, u, k, orchestrated, heat), plan_done(
            plan[n],
            None,
            u,
            k,
            orchestrated,
            heat,
            memories.last(),
            after,
        )]
        0 <= n < plan.len() && chained(n, plan, results, memories, u, k, orchestrated, heat)
            && memories[0] == before && plan_done(
            plan[n],
            None,
            u,
            k,
            orchestrated,
            heat,
            memories.last(),
            after,
        )
}

/// The walks of a plan, one after the other. `None` where a figure of one leaves the
/// range of decimals.
pub fn run_plan(
    plan: &[Plan],
    u: &Universe,
    k: &Knobs,
    meta: &mut OpenMeta,
    tally: &mut SkipTally,
    orchestrated: bool,
    heat: HeatLimits,
) -> (r: Option<Vec<SimResult>>)
    ensures
        r is Some ==> all_done(
            plan_views(plan@),
            (r->0)@,
            *u,
            *k,
            orchestrated,
            heat,
            (Memory { meta: old(meta)@, tally: old(tally)@ }),
            (Memory { meta: final(meta)@, tally: final(tally)@ }),
        ),
        r is None ==> one_failed(
            plan_views(plan@),
            *u,
            *k,
            orchestrated,
            heat,
            (Memory { meta: old(meta)@, tally: old(tally)@ }),
        ),
{
    let ghost pv = plan_views(plan@);
    let ghost start = Memory { meta: meta@, tally: tally@ };
    let ghost mut memories: Seq<Memory> = seq![start];
    let mut out: Vec<SimResult> = Vec::new();
    let mut i: usize = 0;
    while i < plan.len()
        invariant
            i <= plan@.len(),
            pv == plan_views(plan@),
            start == (Memory { meta: old(meta)@, tally: old(tally)@ }),
            chained(i as int, pv, out@, memories, *u, *k, orchestrated, heat),
            memories[0] == start,
            memories.last() == (Memory { meta: meta@, tally: tally@ }),
        decreases plan@.len() - i,
    {
        let ghost was = out@;
        let ghost had = memories;
        proof {
            assert(pv[i as int] == plan@[i as int]@);
        }
        let r: Option<SimResult> = run_one(&plan[i], u, k, meta, tally, orchestrated, heat);
        let ghost after = Memory { meta: meta@, tally: tally@ };
        proof {
            assert(plan_done(pv[i as int], r, *u, *k, orchestrated, heat, had.last(), after));
        }
        let x: SimResult = match r {
            Some(x) => x,
            None => {
                proof {
                    assert(chained(i as int, pv, was, had, *u, *k, orchestrated, heat));
                    assert(plan_done(
                        pv[i as int],
                        None,
                        *u,
                        *k,
                        orchestrated,
                        heat,
                        had.last(),
                        after,
                    ));
                }
                return None;
            },
        };
        out.push(x);
        proof {
            memories = had.push(after);
            assert forall|j: int| 0 <= j < i + 1 implies #[trigger] link(
                j,
                pv,
                out@,
                memories,
                *u,
                *k,
                orchestrated,
                heat,
            ) by {
                if j < i {
                    assert(link(j, pv, was, had, *u, *k, orchestrated, heat));
                    assert(out@[j] == was[j]);
                    assert(memories[j] == had[j] && memories[j + 1] == had[j + 1]);
                } else {
                    assert(memories[j] == had.last());
                    assert(memories[j + 1] == after);
                }
            }
        }
        i = i + 1;
    }
    proof {
        assert(plan_views(plan@).len() == plan@.len());
        assert(chained(
            plan_views(plan@).len() as int,
            plan_views(plan@),
            out@,
            memories,
            *u,
            *k,
            orchestrated,
            heat,
        ));
        assert(all_done(
            plan_views(plan@),
            out@,
            *u,
            *k,
            orchestrated,
            heat,
            Memory { meta: old(meta)@, tally: old(tally)@ },
            Memory { meta: meta@, tally: tally@ },
        ));
    }
    Some(out)
}

/// Momentum that may enter at any hour and does not pause.
pub open spec fn free_momentum() -> MomentumView {
    MomentumView { always_enter: true, cooldown_ms: 0, ..default_momentum() }
}

pub fn shipped_momentum() -> (r: MomentumParams)
    ensures
        r@ == free_momentum(),
{
    let mut p: MomentumParams = MomentumParams::default();
    p.always_enter = true;
    p.cooldown_ms = 0;
    p
}

/// Continuation that may enter at any hour, on candles of a quarter of an hour.
pub open spec fn free_continuation() -> MomentumView {
    MomentumView {
        s4_always_enter: true,
        s4_interval: TradeInterval::Minute15,
        cooldown_ms: 0,
        ..default_momentum()
    }
}

pub fn shipped_continuation() -> (r: MomentumParams)
    ensures
        r@ == free_continuation(),
{
    let mut p: MomentumParams = MomentumParams::default();
    p.s4_always_enter = true;
    p.s4_interval = TradeInterval::Minute15;
    p.cooldown_ms = 0;
    p
}

/// The knobs that are shipped.
pub fn shipped_knobs() -> (r: Knobs)
    ensures
        r.momentum is Some && r.momentum->0@ == free_momentum(),
        r.scalp is Some && r.scalp->0@ == crate::scalp::default_scalp(),
        r.trend is Some && r.trend->0@ == crate::trend::default_trend(),
        r.continuation is Some && r.continuation->0@ == free_continuation(),
{
    Knobs {
        momentum: Some(shipped_momentum()),
        scalp: Some(ScalpParams::default()),
        trend: Some(TrendParams::default()),
        continuation: Some(shipped_continuation()),
    }
}

pub open spec fn momentum_kind() -> Kind {
    Kind {
        strategy_id: 1,
        prefix: "mom ",
        suffix: " 5m",
        named: true,
        warmup: 40,
        sees_htf: true,
    }
}

pub open spec fn scalp_kind() -> Kind {
    Kind {
        strategy_id: 2,
        prefix: "scalp ",
        suffix: " 5m",
        named: true,
        warmup: 80,
        sees_htf: false,
    }
}

pub open spec fn trend_kind() -> Kind {
    Kind {
        strategy_id: 3,
        prefix: "trend ",
        suffix: " 1d",
        named: true,
        warmup: 110,
        sees_htf: false,
    }
}

pub open spec fn continuation_kind() -> Kind {
    Kind {
        strategy_id: 4,
        prefix: "S4 cont ",
        suffix: " 15m",
        named: true,
        warmup: 40,
        sees_htf: true,
    }
}

pub open spec fn verify_kind() -> Kind {
    Kind {
        strategy_id: 5,
        prefix: "S5 verify ",
        suffix: " 1h",
        named: true,
        warmup: 40,
        sees_htf: true,
    }
}

/// Momentum and scalp over the first `n` five-minute series, side by side.
pub open spec fn fast_plans(v: Seq<Series>, n: int) -> Seq<PlanView>
    decreases n,
{
    if n <= 0 {
        Seq::empty()
    } else {
        fast_plans(v, n - 1).push(planned(v[n - 1], momentum_kind())).push(
            planned(v[n - 1], scalp_kind()),
        )
    }
}

/// The walks of the report.
pub open spec fn shipped_plans(u: Universe) -> Seq<PlanView> {
    fast_plans(u.m5@, u.m5@.len() as int) + planned_all(u.d1@, trend_kind()) + planned_all(
        u.m15@,
        continuation_kind(),
    ) + planned_all(u.h1@, verify_kind())
}

pub fn shipped_plan(u: &Universe) -> (r: Vec<Plan>)
    ensures
        plan_views(r@) == shipped_plans(*u),
{
    let mom: Kind = Kind {
        strategy_id: 1,
        prefix: "mom ",
        suffix: " 5m",
        named: true,
        warmup: 40,
        sees_htf: true,
    };
    let scalp: Kind = Kind {
        strategy_id: 2,
        prefix: "scalp ",
        suffix: " 5m",
        named: true,
        warmup: 80,
        sees_htf: false,
    };
    let mut out: Vec<Plan> = Vec::new();
    let mut i: usize = 0;
    proof {
        assert(plan_views(out@) =~= Seq::<PlanView>::empty());
    }
    while i < u.m5.len()
        invariant
            i <= u.m5@.len(),
            mom == momentum_kind(),
            scalp == scalp_kind(),
            plan_views(out@) == fast_plans(u.m5@, i as int),
        decreases u.m5@.len() - i,
    {
        let ghost was = plan_views(out@);
        let a: Plan = make_plan(&u.m5[i], &mom);
        let b: Plan = make_plan(&u.m5[i], &scalp);
        let ghost av = a@;
        let ghost bv = b@;
        out.push(a);
        out.push(b);
        proof {
            assert(plan_views(out@) =~= was.push(av).push(bv));
        }
        i = i + 1;
    }
    plan_all(
        &mut out,
        u.d1.as_slice(),
        &Kind {
            strategy_id: 3,
            prefix: "trend ",
            suffix: " 1d",
            named: true,
            warmup: 110,
            sees_htf: false,
        },
    );
    plan_all(
        &mut out,
        u.m15.as_slice(),
        &Kind {
            strategy_id: 4,
            prefix: "S4 cont ",
            suffix: " 15m",
            named: true,
            warmup: 40,
            sees_htf: true,
        },
    );
    plan_all(
        &mut out,
        u.h1.as_slice(),
        &Kind {
            strategy_id: 5,
            prefix: "S5 verify ",
            suffix: " 1h",
            named: true,
            warmup: 40,
            sees_htf: true,
        },
    );
    out
}

/// The text at an index; empty where there is none.
pub open spec fn text_at(v: Seq<String>, i: int) -> Seq<char> {
    if 0 <= i < v.len() {
        v[i]@
    } else {
        Seq::empty()
    }
}

/// The lines on the first `n` results.
pub open spec fn summary_rows(rows: Seq<SimResult>, rates: Seq<String>, n: int) -> Option<Seq<Seq<char>>>
    decreases n,
{
    if n <= 0 {
        Some(Seq::empty())
    } else {
        match (
            summary_rows(rows, rates, n - 1),
            summary_of(rows[n - 1], text_at(rates, n - 1)),
        ) {
            (Some(v), Some(t)) => Some(v.push("  "@ + t)),
            _ => None,
        }
    }
}

proof fn lemma_summary_rows_none(rows: Seq<SimResult>, rates: Seq<String>, n: int, m: int)
    requires
        n <= m,
        summary_rows(rows, rates, n) is None,
    ensures
        summary_rows(rows, rates, m) is None,
    decreases m,
{
    if n < m && m > 0 {
        lemma_summary_rows_none(rows, rates, n, m - 1);
    }
}

pub(crate) fn write_summaries(rows: &[SimResult], rates: &[String]) -> (r: Option<Vec<String>>)
    ensures
        crate::render::frame::opt_views(r) == summary_rows(rows@, rates@, rows@.len() as int),
{
    let mut out: Vec<String> = Vec::new();
    let mut i: usize = 0;
    proof {
        assert(views(out@) =~= Seq::<Seq<char>>::empty());
    }
    while i < rows.len()
        invariant
            i <= rows@.len(),
            summary_rows(rows@, rates@, i as int) == Some(views(out@)),
        decreases rows@.len() - i,
    {
        proof {
            if summary_rows(rows@, rates@, i as int + 1) is None {
                lemma_summary_rows_none(rows@, rates@, i as int + 1, rows@.len() as int);
            }
        }
        let rate: String = if i < rates.len() {
            own(rates[i].as_str())
        } else {
            String::new()
        };
        proof {
            assert(rate@ =~= text_at(rates@, i as int));
        }
        let line: String = rows[i].summary_line(rate.as_str())?;
        let mut t = own("  ");
        t.append(line.as_str());
        add_text(&mut out, t);
        i = i + 1;
    }
    Some(out)
}

/// What the first `n` results made.
pub open spec fn profits(rows: Seq<SimResult>, n: int) -> Option<Seq<Dec>>
    decreases n,
{
    if n <= 0 {
        Some(Seq::empty())
    } else {
        match (
            profits(rows, n - 1),
            n_sub(Some(rows[n - 1].end_equity), Some(rows[n - 1].start_equity)),
        ) {
            (Some(v), Some(p)) => Some(v.push(p)),
            _ => None,
        }
    }
}

proof fn lemma_profits_none(rows: Seq<SimResult>, n: int, m: int)
    requires
        n <= m,
        profits(rows, n) is None,
    ensures
        profits(rows, m) is None,
    decreases m,
{
    if n < m && m > 0 {
        lemma_profits_none(rows, n, m - 1);
    }
}

pub(crate) fn list_profits(rows: &[SimResult]) -> (r: Option<Vec<Dec>>)
    ensures
        match (r, profits(rows@, rows@.len() as int)) {
            (Some(v), Some(s)) => v@ == s,
            (None, None) => true,
            _ => false,
        },
{
    let mut out: Vec<Dec> = Vec::new();
    let mut i: usize = 0;
    while i < rows.len()
        invariant
            i <= rows@.len(),
            profits(rows@, i as int) == Some(out@),
        decreases rows@.len() - i,
    {
        proof {
            if profits(rows@, i as int + 1) is None {
                lemma_profits_none(rows@, i as int + 1, rows@.len() as int);
            }
        }
        let p: Dec = rows[i].pnl()?;
        out.push(p);
        i = i + 1;
    }
    Some(out)
}

/// How many trades the first `n` results have.
pub open spec fn trades_in(rows: Seq<SimResult>, n: int) -> int
    decreases n,
{
    if n <= 0 {
        0
    } else {
        trades_in(rows, n - 1) + rows[n - 1].trades@.len()
    }
}

proof fn lemma_trades_grow(rows: Seq<SimResult>, n: int, m: int)
    requires
        n <= m,
    ensures
        0 <= trades_in(rows, n) <= trades_in(rows, m),
    decreases m,
{
    if m > 0 {
        if n < m {
            lemma_trades_grow(rows, n, m - 1);
        } else {
            lemma_trades_grow(rows, n - 1, m - 1);
        }
    }
}

pub(crate) fn count_trades(rows: &[SimResult]) -> (r: Option<u64>)
    ensures
        match r {
            Some(n) => n == trades_in(rows@, rows@.len() as int),
            None => trades_in(rows@, rows@.len() as int) > u64::MAX,
        },
{
    let mut n: u64 = 0;
    let mut i: usize = 0;
    while i < rows.len()
        invariant
            i <= rows@.len(),
            n == trades_in(rows@, i as int),
        decreases rows@.len() - i,
    {
        let more: u64 = rows[i].trades.len() as u64;
        proof {
            lemma_trades_grow(rows@, i as int + 1, rows@.len() as int);
        }
        if n > u64::MAX - more {
            return None;
        }
        n = n + more;
        i = i + 1;
    }
    Some(n)
}

/// The report.
pub open spec fn packed_text(rows: Seq<SimResult>, rates: Seq<String>) -> Option<Seq<char>> {
    let n = rows.len() as int;
    match (summary_rows(rows, rates, n), profits(rows, n)) {
        (Some(lines), Some(made)) => match sum_of(made) {
            None => None,
            Some(pnl) => if trades_in(rows, n) > u64::MAX || !prints(pnl, 4) {
                None
            } else {
                Some(
                    joined(
                        seq![
                            "home-economic backtest (Binance USDT-M public klines)"@,
                            "это НЕ TestNet: свечи без ордеров, fee=0.04% taker/side, notional=20 USDT."@,
                            "momentum/scalp = 5m; trend = Donchian 40/20 on 1d; continuation = STRATEGY4_INTERVAL (5m/15m/30m/1h)."@,
                            ""@,
                            "=== L4 shipped defaults ==="@,
                        ] + lines + seq![
                            ""@,
                            "  totals trades="@ + int_text(trades_in(rows, n)) + "  pnl="@
                                + decimal_text_signed(pnl, 4),
                            ""@,
                        ],
                        "\n"@,
                    ),
                )
            },
        },
        _ => None,
    }
}

/// The report on results; `rates` are their win rates as texts. `None` where a sum
/// leaves its range or is too long to be shown.
pub fn format_packed(rows: &[SimResult], rates: &[String]) -> (r: Option<String>)
    ensures
        opt_view(r) == packed_text(rows@, rates@),
{
    let lines: Vec<String> = write_summaries(rows, rates)?;
    let made: Vec<Dec> = list_profits(rows)?;
    let pnl: Dec = sum(made.as_slice())?;
    let n: u64 = count_trades(rows)?;
    let mut out: Vec<String> = Vec::new();
    add_text(&mut out, own("home-economic backtest (Binance USDT-M public klines)"));
    add_text(
        &mut out,
        own("это НЕ TestNet: свечи без ордеров, fee=0.04% taker/side, notional=20 USDT."),
    );
    add_text(
        &mut out,
        own(
            "momentum/scalp = 5m; trend = Donchian 40/20 on 1d; continuation = STRATEGY4_INTERVAL (5m/15m/30m/1h).",
        ),
    );
    add_text(&mut out, own(""));
    add_text(&mut out, own("=== L4 shipped defaults ==="));
    proof {
        assert(views(out@) =~= seq![
            "home-economic backtest (Binance USDT-M public klines)"@,
            "это НЕ TestNet: свечи без ордеров, fee=0.04% taker/side, notional=20 USDT."@,
            "momentum/scalp = 5m; trend = Donchian 40/20 on 1d; continuation = STRATEGY4_INTERVAL (5m/15m/30m/1h)."@,
            ""@,
            "=== L4 shipped defaults ==="@,
        ]);
    }
    extend_texts(&mut out, lines.as_slice());
    let ghost before = views(out@);
    let mut t = own("  totals trades=");
    t.append(print_u64(n).as_str());
    t.append("  pnl=");
    t.append(pnl.text_signed(4)?.as_str());
    let ghost tv = t@;
    add_text(&mut out, own(""));
    add_text(&mut out, t);
    add_text(&mut out, own(""));
    proof {
        assert(views(out@) =~= before + seq![""@, tv, ""@]);
    }
    Some(join(out.as_slice(), "\n"))
}

/// The equity after each trade of a result. `None` where it leaves the range of
/// decimals.
pub fn equity_curve(r: &SimResult) -> (c: Option<Vec<Dec>>)
    ensures
        match c {
            Some(v) => {
                &&& v@.len() == r.trades@.len()
                &&& forall|i: int|
                    0 <= i < v@.len() ==> equity_after(
                        r.start_equity,
                        trade_views(r.trades@),
                        i + 1,
                    ) == Some(#[trigger] v@[i])
            },
            None => exists|i: int|
                0 < i <= r.trades@.len() && #[trigger] equity_after(
                    r.start_equity,
                    trade_views(r.trades@),
                    i,
                ) is None,
        },
{
    let ghost tv = trade_views(r.trades@);
    let mut out: Vec<Dec> = Vec::new();
    let mut eq: Dec = r.start_equity;
    let mut i: usize = 0;
    while i < r.trades.len()
        invariant
            i <= r.trades@.len(),
            tv == trade_views(r.trades@),
            out@.len() == i,
            equity_after(r.start_equity, tv, i as int) == Some(eq),
            forall|j: int|
                0 <= j < i ==> equity_after(r.start_equity, tv, j + 1) == Some(#[trigger] out@[j]),
        decreases r.trades@.len() - i,
    {
        proof {
            assert(tv[i as int] == r.trades@[i as int]@);
        }
        match crate::dec::plus(Some(eq), Some(r.trades[i].pnl)) {
            Some(d) => eq = d,
            None => {
                proof {
                    assert(equity_after(r.start_equity, tv, i as int + 1) is None);
                }
                return None;
            },
        }
        out.push(eq);
        i = i + 1;
    }
    Some(out)
}

} // verus!

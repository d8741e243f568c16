//! A plan walked under several settings, one after the other.
use super::sweep::{arm_momentum, grid_arms, momentum_grid, GridArm};
use super::{
    all_done, one_failed, plan_views, run_plan, write_summaries, Knobs, Memory, Plan, PlanView, Universe,
};
use crate::backtest::research::{arm_title, session_scalp};
use crate::continuation::SkipTally;
use crate::desk_orchestrator::HeatLimits;
use crate::momentum::{default_momentum, MomentumParams, MomentumView};
use crate::openmeta::OpenMeta;
use crate::render::frame::opt_views;
use crate::scalp::{default_scalp, ScalpParams, ScalpView};
use crate::sessions::default_windows;
use crate::sim::{ClosedTrade, SimResult};
use crate::text::{add_text, extend_texts, join, joined, own, views};
use vstd::prelude::*;

verus! {

/// Whether the walks under the setting at an index lead from one memory to the next.
pub open spec fn arm_link(
    i: int,
    plan: Seq<PlanView>,
    results: Seq<Vec<SimResult>>,
    memories: Seq<Memory>,
    u: Universe,
    arms: Seq<Knobs>,
    orchestrated: bool,
    heat: HeatLimits,
) -> bool {
    all_done(
        plan,
        results[i]@,
        u,
        arms[i],
        orchestrated,
        heat,
        memories[i],
        memories[i + 1],
    )
}

/// Whether results are what a plan comes to under the first `n` settings.
pub open spec fn arms_chained(
    n: int,
    plan: Seq<PlanView>,
    results: Seq<Vec<SimResult>>,
    memories: Seq<Memory>,
    u: Universe,
    arms: Seq<Knobs>,
    orchestrated: bool,
    heat: HeatLimits,
) -> bool {
    &&& results.len() == n
    &&& memories.len() == n + 1
    &&& forall|i: int|
        0 <= i < n ==> #[trigger] arm_link(i, plan, results, memories, u, arms, orchestrated, heat)
}

/// Whether results are what a plan comes to under all settings, from one memory to
/// another.
pub open spec fn arms_done(
    plan: Seq<PlanView>,
    results: Seq<Vec<SimResult>>,
    u: Universe,
    arms: Seq<Knobs>,
    orchestrated: bool,
    heat: HeatLimits,
    before: Memory,
    after: Memory,
) -> bool {
    exists|memories: Seq<Memory>|
        #![trigger arms_chained(arms.len() as int, plan, results, memories, u, arms, orchestrated, heat)]
        arms_chained(arms.len() as int, plan, results, memories, u, arms, orchestrated, heat)
            && memories[0] == before && memories.last() == after
}

/// Whether a walk under some setting leaves the range of decimals, those under the
/// settings before it done.
pub open spec fn arm_failed(
    plan: Seq<PlanView>,
    u: Universe,
    arms: Seq<Knobs>,
    orchestrated: bool,
    heat: HeatLimits,
    before: Memory,
) -> bool {
    exists|n: int, results: Seq<Vec<SimResult>>, memories: Seq<Memory>|
        #![trigger arms_chained(n, plan, results, memories, u, arms, orchestrated, heat)]
        0 <= n < arms.len() && arms_chained(n, plan, results, memories, u, arms, orchestrated, heat)
            && memories[0] == before && one_failed(
            plan,
            u,
            arms[n],
            orchestrated,
            heat,
            memories.last(),
        )
}

/// The walks of a plan under each setting. `None` where a figure of one leaves the
/// range of decimals.
pub fn run_arms(
    plan: &[Plan],
    u: &Universe,
    arms: &[Knobs],
    meta: &mut OpenMeta,
    tally: &mut SkipTally,
    orchestrated: bool,
    heat: HeatLimits,
) -> (r: Option<Vec<Vec<SimResult>>>)
    ensures
        r is Some ==> arms_done(
            plan_views(plan@),
            (r->0)@,
            *u,
            arms@,
            orchestrated,
            heat,
            (Memory { meta: old(meta)@, tally: old(tally)@ }),
            (Memory { meta: final(meta)@, tally: final(tally)@ }),
        ),
        r is None ==> arm_failed(
            plan_views(plan@),
            *u,
            arms@,
            orchestrated,
            heat,
            (Memory { meta: old(meta)@, tally: old(tally)@ }),
        ),
{
    let ghost pv = plan_views(plan@);
    let ghost start = Memory { meta: meta@, tally: tally@ };
    let ghost mut memories: Seq<Memory> = seq![start];
    let mut out: Vec<Vec<SimResult>> = Vec::new();
    let mut i: usize = 0;
    while i < arms.len()
        invariant
            i <= arms@.len(),
            pv == plan_views(plan@),
            start == (Memory { meta: old(meta)@, tally: old(tally)@ }),
            arms_chained(i as int, pv, out@, memories, *u, arms@, orchestrated, heat),
            memories[0] == start,
            memories.last() == (Memory { meta: meta@, tally: tally@ }),
        decreases arms@.len() - i,
    {
        let ghost was = out@;
        let ghost had = memories;
        let walked: Option<Vec<SimResult>> = run_plan(plan, u, &arms[i], meta, tally, orchestrated, heat);
        let rows: Vec<SimResult> = match walked {
            Some(rows) => rows,
            None => {
                proof {
                    assert(arms_chained(i as int, pv, was, had, *u, arms@, orchestrated, heat));
                    assert(one_failed(pv, *u, arms@[i as int], orchestrated, heat, had.last()));
                }
                return None;
            },
        };
        let ghost after = Memory { meta: meta@, tally: tally@ };
        out.push(rows);
        proof {
            memories = had.push(after);
            assert forall|j: int| 0 <= j < i + 1 implies #[trigger] arm_link(
                j,
                pv,
                out@,
                memories,
                *u,
                arms@,
                orchestrated,
                heat,
            ) by {
                if j < i {
                    assert(arm_link(j, pv, was, had, *u, arms@, orchestrated, heat));
                    assert(out@[j] == was[j]);
                    assert(memories[j] == had[j] && memories[j + 1] == had[j + 1]);
                } else {
                    assert(memories[j] == had.last());
                    assert(memories[j + 1] == after);
                }
            }
        }
        i = i + 1;
    }
    proof {
        assert(arms_chained(arms@.len() as int, pv, out@, memories, *u, arms@, orchestrated, heat));
    }
    Some(out)
}

/// Knobs under which every strategy goes by its own defaults.
pub open spec fn is_bare(k: Knobs) -> bool {
    k.momentum is None && k.scalp is None && k.trend is None && k.continuation is None
}

fn bare() -> (r: Knobs)
    ensures
        is_bare(r),
{
    Knobs { momentum: None, scalp: None, trend: None, continuation: None }
}

/// Whether knobs are those of a setting of momentum.
pub open spec fn is_grid_arm(k: Knobs, a: GridArm) -> bool {
    &&& k.momentum is Some && k.momentum->0@ == (MomentumView {
        always_enter: a.always,
        cooldown_ms: 0,
        tp_pct: a.tp,
        trail_pct: a.trail,
        ..default_momentum()
    })
    &&& k.scalp is None && k.trend is None && k.continuation is None
}

/// The settings of momentum as knobs.
pub fn grid_knobs() -> (r: Vec<Knobs>)
    ensures
        r@.len() == grid_arms().len(),
        forall|i: int| 0 <= i < r@.len() ==> is_grid_arm(#[trigger] r@[i], grid_arms()[i]),
{
    let grid: Vec<GridArm> = momentum_grid();
    let mut out: Vec<Knobs> = Vec::new();
    let mut i: usize = 0;
    while i < grid.len()
        invariant
            grid@ == grid_arms(),
            i <= grid@.len(),
            out@.len() == i,
            forall|j: int| 0 <= j < i ==> is_grid_arm(#[trigger] out@[j], grid_arms()[j]),
        decreases grid@.len() - i,
    {
        let p: MomentumParams = arm_momentum(&grid[i]);
        out.push(Knobs { momentum: Some(p), scalp: None, trend: None, continuation: None });
        i = i + 1;
    }
    out
}

/// As many bare knobs as there are settings of the continuation: the desk reads the
/// continuation's knobs from its defaults.
pub fn sweep_knobs() -> (r: Vec<Knobs>)
    ensures
        r@.len() == super::sweep::sweep_arms().len(),
        forall|i: int| 0 <= i < r@.len() ==> is_bare(#[trigger] r@[i]),
{
    let mut out: Vec<Knobs> = Vec::new();
    let mut i: usize = 0;
    while i < 36
        invariant
            i <= 36,
            out@.len() == i,
            forall|j: int| 0 <= j < i ==> is_bare(#[trigger] out@[j]),
        decreases 36 - i,
    {
        out.push(bare());
        i = i + 1;
    }
    out
}

/// Whether knobs hold the scalp alone.
pub open spec fn is_scalp_arm(k: Knobs, p: ScalpView) -> bool {
    &&& k.scalp is Some && k.scalp->0@ == p
    &&& k.momentum is None && k.trend is None && k.continuation is None
}

/// The scalp around the clock, and kept to the default entry hours.
pub fn scalp_knobs() -> (r: Vec<Knobs>)
    ensures
        r@.len() == 2,
        is_scalp_arm(r@[0], default_scalp()),
        is_scalp_arm(
            r@[1],
            (ScalpView {
                always_enter: false,
                entry_windows: default_windows(),
                ..default_scalp()
            }),
        ),
{
    let mut out: Vec<Knobs> = Vec::new();
    out.push(
        Knobs { momentum: None, scalp: Some(ScalpParams::default()), trend: None, continuation: None },
    );
    out.push(Knobs { momentum: None, scalp: Some(session_scalp()), trend: None, continuation: None });
    out
}

/// The trades of the first `n` results, one after the other.
pub open spec fn pooled(rows: Seq<SimResult>, n: int) -> Seq<ClosedTrade>
    decreases n,
{
    if n <= 0 {
        Seq::empty()
    } else {
        pooled(rows, n - 1) + rows[n - 1].trades@
    }
}

/// The trades of results, one after the other.
pub fn pool_trades(rows: Vec<SimResult>) -> (r: Vec<ClosedTrade>)
    ensures
        r@ == pooled(rows@, rows@.len() as int),
{
    let ghost all = rows@;
    let mut left: Vec<SimResult> = rows;
    let mut out: Vec<ClosedTrade> = Vec::new();
    let ghost mut n: int = 0;
    while left.len() > 0
        invariant
            0 <= n <= all.len(),
            left@ == all.skip(n),
            out@ == pooled(all, n),
        decreases left@.len(),
    {
        let mut row: SimResult = left.remove(0);
        out.append(&mut row.trades);
        proof {
            assert(all.skip(n)[0] == all[n]);
            assert(all.skip(n).remove(0) =~= all.skip(n + 1));
            n = n + 1;
        }
    }
    out
}

/// The lines on the walks of a setting; `rates` are their win rates as texts.
pub fn walk_lines(rows: &[SimResult], rates: &[String]) -> (r: Option<Vec<String>>)
    ensures
        opt_views(r) == super::summary_rows(rows@, rates@, rows@.len() as int),
{
    write_summaries(rows, rates)
}

/// What the closer look says of one setting of the scalp.
#[derive(Debug)]
pub struct ArmText {
    pub label: String,
    pub max_hold: usize,
    /// The lines on its walks.
    pub walks: Vec<String>,
    /// The lines on its trades.
    pub trades: Vec<String>,
}

/// The lines on the first `n` settings.
pub open spec fn arm_blocks(arms: Seq<ArmText>, n: int) -> Seq<Seq<char>>
    decreases n,
{
    if n <= 0 {
        Seq::empty()
    } else {
        let a = arms[n - 1];
        arm_blocks(arms, n - 1).push(arm_title(a.label@, a.max_hold as int)) + views(a.walks@) + views(
            a.trades@,
        )
    }
}

/// The closer look at the scalp.
pub fn research_text(arms: &[ArmText]) -> (r: String)
    ensures
        r@ == joined(
            super::research::head_lines() + arm_blocks(arms@, arms@.len() as int) + seq![
                "locked: max_hold default 8; peak≥0.8R→0.25R; session end flatten; majors book."@,
                "Do NOT raise RISK_PCT while PF_net≤1. No profit claim."@,
            ],
            "\n"@,
        ),
{
    let mut out: Vec<String> = super::research::research_head();
    let ghost head = views(out@);
    let mut i: usize = 0;
    proof {
        assert(head + arm_blocks(arms@, 0) =~= head);
    }
    while i < arms.len()
        invariant
            i <= arms@.len(),
            views(out@) == head + arm_blocks(arms@, i as int),
        decreases arms@.len() - i,
    {
        let ghost before = views(out@);
        let a: &ArmText = &arms[i];
        add_text(&mut out, super::research::arm_heading(a.label.as_str(), a.max_hold));
        extend_texts(&mut out, a.walks.as_slice());
        extend_texts(&mut out, a.trades.as_slice());
        proof {
            assert(views(out@) =~= head + arm_blocks(arms@, i as int + 1));
        }
        i = i + 1;
    }
    let ghost body = views(out@);
    add_text(
        &mut out,
        own("locked: max_hold default 8; peak≥0.8R→0.25R; session end flatten; majors book."),
    );
    add_text(&mut out, own("Do NOT raise RISK_PCT while PF_net≤1. No profit claim."));
    proof {
        assert(views(out@) =~= body + seq![
            "locked: max_hold default 8; peak≥0.8R→0.25R; session end flatten; majors book."@,
            "Do NOT raise RISK_PCT while PF_net≤1. No profit claim."@,
        ]);
    }
    join(out.as_slice(), "\n")
}

} // verus!

//! A closer look at the scalp: what it costs, and how its trades end.
use super::{plan_all, plan_views, planned_all, scalp_kind, Kind, Plan, Universe};
use crate::dec::{
    dec, decimal_text, decimal_text_fixed, decimal_text_signed, n_div, n_mul, over, prints, times, Dec,
};
use crate::render::frame::opt_views;
use crate::report::counts::names_in;
use crate::report::research::{above, below, keep_above, keep_below, turn, turned};
use crate::report::{sum, sum_of};
use crate::scalp::{default_scalp, ScalpParams, ScalpView};
use crate::sessions::{default_entry_windows, default_windows};
use crate::sim::ClosedTrade;
use crate::text::{add_text, extend_texts, int_text, own, pad_left, print_u64, right_in, same, views};
use vstd::prelude::*;
use vstd::string::StringExecFns;

verus! {

/// The walks of the scalp.
pub fn scalp_plan(u: &Universe) -> (r: Vec<Plan>)
    ensures
        plan_views(r@) == planned_all(u.m5@, scalp_kind()),
{
    let mut out: Vec<Plan> = Vec::new();
    plan_all(
        &mut out,
        u.m5.as_slice(),
        &Kind {
            strategy_id: 2,
            prefix: "scalp ",
            suffix: " 5m",
            named: true,
            warmup: 80,
            sees_htf: false,
        },
    );
    proof {
        assert(plan_views(out@) =~= planned_all(u.m5@, scalp_kind()));
    }
    out
}

/// The scalp kept to the default entry hours.
pub fn session_scalp() -> (r: ScalpParams)
    ensures
        r@ == (ScalpView {
            always_enter: false,
            entry_windows: default_windows(),
            ..default_scalp()
        }),
{
    let mut p: ScalpParams = ScalpParams::default();
    p.always_enter = false;
    p.entry_windows = default_entry_windows();
    p
}

pub open spec fn arm_title(label: Seq<char>, max_hold: int) -> Seq<char> {
    "--- arm: "@ + label + "  max_hold="@ + int_text(max_hold) + " ---"@
}

pub fn arm_heading(label: &str, max_hold: usize) -> (r: String)
    ensures
        r@ == arm_title(label@, max_hold as int),
{
    let mut t = own("--- arm: ");
    t.append(label);
    t.append("  max_hold=");
    t.append(print_u64(max_hold as u64).as_str());
    t.append(" ---");
    t
}

/// What trades made.
pub open spec fn pnls(v: Seq<ClosedTrade>) -> Seq<Dec> {
    Seq::new(v.len(), |i: int| v[i].pnl)
}

fn list_pnls(v: &[ClosedTrade]) -> (r: Vec<Dec>)
    ensures
        r@ == pnls(v@),
{
    let mut out: Vec<Dec> = Vec::new();
    let mut i: usize = 0;
    while i < v.len()
        invariant
            i <= v@.len(),
            out@ == pnls(v@).take(i as int),
        decreases v@.len() - i,
    {
        out.push(v[i].pnl);
        proof {
            assert(out@ =~= pnls(v@).take(i as int + 1));
        }
        i = i + 1;
    }
    proof {
        assert(pnls(v@).take(i as int) =~= pnls(v@));
    }
    out
}

/// What trades cost.
pub open spec fn fees(v: Seq<ClosedTrade>) -> Seq<Dec> {
    Seq::new(v.len(), |i: int| v[i].fee)
}

fn list_fees(v: &[ClosedTrade]) -> (r: Vec<Dec>)
    ensures
        r@ == fees(v@),
{
    let mut out: Vec<Dec> = Vec::new();
    let mut i: usize = 0;
    while i < v.len()
        invariant
            i <= v@.len(),
            out@ == fees(v@).take(i as int),
        decreases v@.len() - i,
    {
        out.push(v[i].fee);
        proof {
            assert(out@ =~= fees(v@).take(i as int + 1));
        }
        i = i + 1;
    }
    proof {
        assert(fees(v@).take(i as int) =~= fees(v@));
    }
    out
}

/// A sum over how many made it; zero where none did.
pub open spec fn share(total: Dec, n: int) -> Option<Dec> {
    if n == 0 {
        Some(dec(0, 0))
    } else {
        n_div(Some(total), Some(dec(n, 0)))
    }
}

fn part(total: Dec, n: usize) -> (r: Option<Dec>)
    ensures
        r == share(total, n as int),
{
    if n == 0 {
        Some(Dec::zero())
    } else {
        over(Some(total), Some(Dec::from_count(n)))
    }
}

/// Gains over losses as a text.
pub open spec fn pf_text(win: Dec, loss: Dec) -> Option<Seq<char>> {
    if loss.pos() {
        match n_div(Some(win), Some(loss)) {
            Some(d) => if prints(d, 3) {
                Some(decimal_text_fixed(d, 3))
            } else {
                None
            },
            None => None,
        }
    } else if win.pos() {
        Some("∞"@)
    } else {
        Some("0"@)
    }
}

fn write_pf(win: Dec, loss: Dec) -> (r: Option<String>)
    ensures
        crate::models::opt_view(r) == pf_text(win, loss),
{
    if loss.is_pos() {
        let d: Dec = over(Some(win), Some(loss))?;
        d.text_fixed(3)
    } else if win.is_pos() {
        Some(own("∞"))
    } else {
        Some(own("0"))
    }
}

/// A number with its sign.
pub open spec fn plus_text(d: Dec) -> Seq<char> {
    if d.units() < 0 {
        decimal_text(d)
    } else {
        "+"@ + decimal_text(d)
    }
}

fn write_plus(d: Dec) -> (r: String)
    ensures
        r@ == plus_text(d),
{
    if d.is_neg() {
        d.text()
    } else {
        let mut t = own("+");
        t.append(d.text().as_str());
        t
    }
}

/// Whether the mean gain clears twice the mean cost, in words.
pub open spec fn floor_text(win: Dec, limit: Dec) -> Seq<char> {
    if limit.lt(win) {
        "fee-floor OK (avg_win>2xRT fee; NOT edge — PF/funding decide)"@
    } else {
        "fee-floor FAIL → not edge even with pretty WR"@
    }
}

/// The line on all trades together; the win rate is given.
pub open spec fn pooled_text(v: Seq<ClosedTrade>, rate: Seq<char>) -> Option<Seq<char>> {
    let xs = pnls(v);
    let n = v.len() as int;
    match (sum_of(above(xs)), sum_of(turned(below(xs))), sum_of(fees(v)), sum_of(xs)) {
        (Some(win), Some(loss), Some(fee), Some(total)) => match (
            share(win, above(xs).len() as int),
            share(loss, below(xs).len() as int),
            share(fee, n),
            pf_text(win, loss),
        ) {
            (Some(avg_win), Some(avg_loss), Some(avg_fee), Some(pf)) => match n_mul(
                Some(avg_fee),
                Some(dec(2, 0)),
            ) {
                None => None,
                Some(limit) => if prints(avg_win, 4) && prints(avg_loss, 4) && prints(avg_fee, 4) && prints(
                    limit,
                    4,
                ) {
                    Some(
                        "  pooled n="@ + int_text(n) + " wr="@ + rate + " pf_net≈"@ + pf + " sum_pnl="@
                            + plus_text(total) + " avg_win="@ + decimal_text_fixed(avg_win, 4)
                            + " avg_loss="@ + decimal_text_fixed(avg_loss, 4) + " avg_fee_RT="@
                            + decimal_text_fixed(avg_fee, 4) + " 2xfee="@ + decimal_text_fixed(limit, 4)
                            + " -> "@ + floor_text(avg_win, limit),
                    )
                } else {
                    None
                },
            },
            _ => None,
        },
        _ => None,
    }
}

fn write_pooled(v: &[ClosedTrade], rate: &str) -> (r: Option<String>)
    ensures
        crate::models::opt_view(r) == pooled_text(v@, rate@),
{
    let xs: Vec<Dec> = list_pnls(v);
    let ups: Vec<Dec> = keep_above(xs.as_slice());
    let downs: Vec<Dec> = keep_below(xs.as_slice());
    let win: Dec = sum(ups.as_slice())?;
    let loss: Dec = sum(turn(downs.as_slice()).as_slice())?;
    let fee: Dec = sum(list_fees(v).as_slice())?;
    let total: Dec = sum(xs.as_slice())?;
    let avg_win: Dec = part(win, ups.len())?;
    let avg_loss: Dec = part(loss, downs.len())?;
    let avg_fee: Dec = part(fee, v.len())?;
    let pf: String = write_pf(win, loss)?;
    let limit: Dec = times(Some(avg_fee), Some(Dec::from_int(2)))?;
    let mut t = own("  pooled n=");
    t.append(print_u64(v.len() as u64).as_str());
    t.append(" wr=");
    t.append(rate);
    t.append(" pf_net≈");
    t.append(pf.as_str());
    t.append(" sum_pnl=");
    t.append(write_plus(total).as_str());
    t.append(" avg_win=");
    t.append(avg_win.text_fixed(4)?.as_str());
    t.append(" avg_loss=");
    t.append(avg_loss.text_fixed(4)?.as_str());
    t.append(" avg_fee_RT=");
    t.append(avg_fee.text_fixed(4)?.as_str());
    t.append(" 2xfee=");
    t.append(limit.text_fixed(4)?.as_str());
    t.append(" -> ");
    t.append(
        if avg_win > limit {
            "fee-floor OK (avg_win>2xRT fee; NOT edge — PF/funding decide)"
        } else {
            "fee-floor FAIL → not edge even with pretty WR"
        },
    );
    Some(t)
}

/// The reasons that trades ended with.
pub open spec fn reasons(v: Seq<ClosedTrade>) -> Seq<Seq<char>> {
    Seq::new(v.len(), |i: int| v[i].reason@)
}

fn list_reasons(v: &[ClosedTrade]) -> (r: Vec<String>)
    ensures
        views(r@) == reasons(v@),
{
    let mut out: Vec<String> = Vec::new();
    let mut i: usize = 0;
    proof {
        assert(views(out@) =~= reasons(v@).take(0));
    }
    while i < v.len()
        invariant
            i <= v@.len(),
            views(out@) == reasons(v@).take(i as int),
        decreases v@.len() - i,
    {
        add_text(&mut out, own(v[i].reason.as_str()));
        proof {
            assert(views(out@) =~= reasons(v@).take(i as int + 1));
        }
        i = i + 1;
    }
    proof {
        assert(reasons(v@).take(i as int) =~= reasons(v@));
    }
    out
}

/// What the trades with a reason made, of the first `n`.
pub open spec fn made_by(v: Seq<ClosedTrade>, reason: Seq<char>, n: int) -> Seq<Dec>
    decreases n,
{
    if n <= 0 {
        Seq::empty()
    } else if v[n - 1].reason@ == reason {
        made_by(v, reason, n - 1).push(v[n - 1].pnl)
    } else {
        made_by(v, reason, n - 1)
    }
}

fn list_made_by(v: &[ClosedTrade], reason: &str) -> (r: Vec<Dec>)
    ensures
        r@ == made_by(v@, reason@, v@.len() as int),
{
    let mut out: Vec<Dec> = Vec::new();
    let mut i: usize = 0;
    while i < v.len()
        invariant
            i <= v@.len(),
            out@ == made_by(v@, reason@, i as int),
        decreases v@.len() - i,
    {
        if same(v[i].reason.as_str(), reason) {
            out.push(v[i].pnl);
        }
        i = i + 1;
    }
    out
}

/// The line on trades with a reason.
pub open spec fn mix_text(v: Seq<ClosedTrade>, reason: Seq<char>) -> Option<Seq<char>> {
    let xs = made_by(v, reason, v.len() as int);
    match sum_of(xs) {
        None => None,
        Some(pnl) => if prints(pnl, 4) {
            Some(
                "    "@ + right_in(int_text(xs.len() as int), 4) + "  pnl="@ + decimal_text_signed(pnl, 4)
                    + "  "@ + reason,
            )
        } else {
            None
        },
    }
}

/// The lines on the first `n` reasons.
pub open spec fn mix_lines(v: Seq<ClosedTrade>, names: Seq<Seq<char>>, n: int) -> Option<Seq<Seq<char>>>
    decreases n,
{
    if n <= 0 {
        Some(Seq::empty())
    } else {
        match (mix_lines(v, names, n - 1), mix_text(v, names[n - 1])) {
            (Some(a), Some(t)) => Some(a.push(t)),
            _ => None,
        }
    }
}

proof fn lemma_mix_lines_none(v: Seq<ClosedTrade>, names: Seq<Seq<char>>, n: int, m: int)
    requires
        n <= m,
        mix_lines(v, names, n) is None,
    ensures
        mix_lines(v, names, m) is None,
    decreases m,
{
    if n < m && m > 0 {
        lemma_mix_lines_none(v, names, n, m - 1);
    }
}

/// The lines on an arm below its walks: all trades together, how they ended, and
/// how long they were held. The win rate and the mean hold are given.
pub open spec fn arm_lines(v: Seq<ClosedTrade>, rate: Seq<char>, hold: Seq<char>, max_hold: int) -> Option<
    Seq<Seq<char>>,
> {
    let names = names_in(reasons(v), v.len() as int);
    if v.len() == 0 {
        Some(seq!["  (no trades)"@, ""@])
    } else {
        match (pooled_text(v, rate), mix_lines(v, names, names.len() as int)) {
            (Some(pooled), Some(mix)) => Some(
                seq![pooled, "  exit-mix:"@] + mix + seq![
                    "  avg_bars_held≈"@ + hold + " (max_hold locked="@ + int_text(max_hold) + ")"@,
                    ""@,
                ],
            ),
            _ => None,
        }
    }
}

pub fn arm_report(v: &[ClosedTrade], rate: &str, hold: &str, max_hold: usize) -> (r: Option<Vec<String>>)
    ensures
        opt_views(r) == arm_lines(v@, rate@, hold@, max_hold as int),
{
    let mut out: Vec<String> = Vec::new();
    if v.len() == 0 {
        add_text(&mut out, own("  (no trades)"));
        add_text(&mut out, own(""));
        proof {
            assert(views(out@) =~= seq!["  (no trades)"@, ""@]);
        }
        return Some(out);
    }
    let pooled: String = write_pooled(v, rate)?;
    let keys: Vec<String> = list_reasons(v);
    let names: Vec<String> = crate::report::counts::list_names(keys.as_slice());
    let ghost nv = names_in(reasons(v@), v@.len() as int);
    proof {
        assert(views(keys@).len() == keys@.len());
        assert(views(names@).len() == names@.len());
        assert(views(names@) == nv);
    }
    let mut mix: Vec<String> = Vec::new();
    let mut i: usize = 0;
    proof {
        assert(views(mix@) =~= Seq::<Seq<char>>::empty());
    }
    while i < names.len()
        invariant
            i <= names@.len(),
            v@.len() > 0,
            nv == names_in(reasons(v@), v@.len() as int),
            nv == views(names@),
            nv.len() == names@.len(),
            mix_lines(v@, nv, i as int) == Some(views(mix@)),
        decreases names@.len() - i,
    {
        proof {
            assert(nv[i as int] == names@[i as int]@);
            if mix_lines(v@, nv, i as int + 1) is None {
                lemma_mix_lines_none(v@, nv, i as int + 1, nv.len() as int);
            }
        }
        let xs: Vec<Dec> = list_made_by(v, names[i].as_str());
        let pnl: Dec = sum(xs.as_slice())?;
        let mut t = own("    ");
        t.append(pad_left(print_u64(xs.len() as u64).as_str(), 4).as_str());
        t.append("  pnl=");
        t.append(pnl.text_signed(4)?.as_str());
        t.append("  ");
        t.append(names[i].as_str());
        add_text(&mut mix, t);
        i = i + 1;
    }
    let ghost pv = pooled@;
    add_text(&mut out, pooled);
    add_text(&mut out, own("  exit-mix:"));
    proof {
        assert(views(out@) =~= seq![pv, "  exit-mix:"@]);
    }
    extend_texts(&mut out, mix.as_slice());
    let ghost before = views(out@);
    let mut t = own("  avg_bars_held≈");
    t.append(hold);
    t.append(" (max_hold locked=");
    t.append(print_u64(max_hold as u64).as_str());
    t.append(")");
    let ghost tv = t@;
    add_text(&mut out, t);
    add_text(&mut out, own(""));
    proof {
        assert(views(out@) =~= before + seq![tv, ""@]);
    }
    Some(out)
}

/// The head of the closer look.
pub open spec fn head_lines() -> Seq<Seq<char>> {
    seq![
        "=== DUMP_S2 scalp research ==="@,
        "fee="@ + decimal_text(dec(4, 4)) + " /side  RT≈"@ + decimal_text(dec(8, 4)) + "  notional="@
            + decimal_text(dec(20, 0)) + "  slip="@ + decimal_text(dec(1, 4))
            + "  funding=NOT modeled"@,
        "costR: if avg_win <= ~2x avg RT fee → not edge. fee-floor OK ≠ edge (need PF_net>1 + funding + live)."@,
        "MFE peak not stored on ClosedTrade — exit-mix only; live journal S2 n=0."@,
        ""@,
    ]
}

pub fn research_head() -> (r: Vec<String>)
    ensures
        views(r@) == head_lines(),
{
    let mut out: Vec<String> = Vec::new();
    add_text(&mut out, own("=== DUMP_S2 scalp research ==="));
    let mut t = own("fee=");
    t.append(Dec::new(4, 4).text().as_str());
    t.append(" /side  RT≈");
    t.append(Dec::new(8, 4).text().as_str());
    t.append("  notional=");
    t.append(Dec::from_int(20).text().as_str());
    t.append("  slip=");
    t.append(Dec::new(1, 4).text().as_str());
    t.append("  funding=NOT modeled");
    let ghost tv = t@;
    add_text(&mut out, t);
    add_text(
        &mut out,
        own(
            "costR: if avg_win <= ~2x avg RT fee → not edge. fee-floor OK ≠ edge (need PF_net>1 + funding + live).",
        ),
    );
    add_text(
        &mut out,
        own("MFE peak not stored on ClosedTrade — exit-mix only; live journal S2 n=0."),
    );
    add_text(&mut out, own(""));
    proof {
        assert(views(out@) =~= seq![
            "=== DUMP_S2 scalp research ==="@,
            tv,
            "costR: if avg_win <= ~2x avg RT fee → not edge. fee-floor OK ≠ edge (need PF_net>1 + funding + live)."@,
            "MFE peak not stored on ClosedTrade — exit-mix only; live journal S2 n=0."@,
            ""@,
        ]);
    }
    out
}

/// Gains over losses as shown: the quotient with three places; a sign for gains
/// without a loss, and a zero for neither.
pub proof fn law_shown_factor(win: Dec, loss: Dec)
    ensures
        loss.pos() ==> pf_text(win, loss) == match crate::dec::decimal_quotient(win, loss) {
            Some(d) => if prints(d, 3) {
                Some(decimal_text_fixed(d, 3))
            } else {
                None
            },
            None => None,
        },
        !loss.pos() && win.pos() ==> pf_text(win, loss) == Some("∞"@),
        !loss.pos() && !win.pos() ==> pf_text(win, loss) == Some("0"@),
{
}

/// A mean times the count is the total, wherever the decimals divide evenly; of
/// nothing it is zero.
pub proof fn law_share_times_count(total: Dec, n: int)
    requires
        crate::dec::decimal_rules(),
        n > 0 ==> crate::dec::goes_into(dec(n, 0), total),
    ensures
        n == 0 ==> share(total, n) == Some(dec(0, 0)),
        n > 0 ==> (share(total, n) matches Some(x) && x.units() * dec(n, 0).units() == total.units() * dec(
            1,
            0,
        ).units()),
{
    if n > 0 {
        crate::dec::law_even_quotients_are_exact(total, dec(n, 0));
    }
}

/// The fees are cleared exactly where the mean gain is above the limit.
pub proof fn law_fee_floor(win: Dec, limit: Dec)
    ensures
        limit.lt(win) ==> floor_text(win, limit)
            == "fee-floor OK (avg_win>2xRT fee; NOT edge — PF/funding decide)"@,
        win.le(limit) ==> floor_text(win, limit) == "fee-floor FAIL → not edge even with pretty WR"@,
{
}

/// What a reason made: the results of exactly the trades that ended for it.
pub proof fn law_results_by_reason(v: Seq<ClosedTrade>, reason: Seq<char>, n: int)
    requires
        0 < n <= v.len(),
    ensures
        v[n - 1].reason@ == reason ==> made_by(v, reason, n) == made_by(v, reason, n - 1).push(v[n - 1].pnl),
        v[n - 1].reason@ != reason ==> made_by(v, reason, n) == made_by(v, reason, n - 1),
        made_by(v, reason, 0).len() == 0,
{
}

} // verus!

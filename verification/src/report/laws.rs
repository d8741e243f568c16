//! What the figures of the report add up to.
use super::research::{
    above, below, factor_of, full_of, gains_of, ids_in, mean_of, put_id, strategy_cells, turned,
};
use super::counts::times_in;
use super::{
    close_lines, close_text, field_of, figure, figures, head_lines, is_part, picked, sum_of, whole,
    won_in, Field,
};
use crate::dec::{
    dec, decimal_quotient, decimal_rules, decimal_sum, decimal_text_fixed, decimal_text_signed,
    fits, goes_into, law_even_quotients_are_exact, law_short_sums_are_exact, lemma_dec_parts,
    lemma_units_neg, lemma_units_sign, lemma_wf, negated, quotient_facts, short, Dec,
};
use crate::journal::EventView;
use crate::text::{int_text, left_in};
use vstd::prelude::*;

verus! {

/// The values of amounts, added up.
pub open spec fn unit_sum(xs: Seq<Dec>) -> int
    decreases xs.len(),
{
    if xs.len() == 0 {
        0
    } else {
        unit_sum(xs.drop_last()) + xs.last().units()
    }
}

/// Whether amounts can be added one by one without a figure being rounded off.
pub open spec fn adds_up(xs: Seq<Dec>) -> bool
    decreases xs.len(),
{
    xs.len() == 0 || {
        &&& adds_up(xs.drop_last())
        &&& sum_of(xs.drop_last()) matches Some(t) && short(t, xs.last())
    }
}

/// A total is the sum of the amounts.
pub proof fn law_totals_add_up(xs: Seq<Dec>)
    requires
        decimal_rules(),
        adds_up(xs),
    ensures
        sum_of(xs) matches Some(t) && t.units() == unit_sum(xs) && t.wf(),
    decreases xs.len(),
{
    if xs.len() == 0 {
        lemma_dec_parts(0, 0);
        lemma_wf(dec(0, 0));
        lemma_units_sign(dec(0, 0));
    } else {
        law_totals_add_up(xs.drop_last());
        let t = sum_of(xs.drop_last())->0;
        lemma_short_is_wf(t, xs.last());
        law_short_sums_are_exact(t, xs.last());
        assert(decimal_sum(t, xs.last()) == sum_of(xs));
    }
}

proof fn lemma_short_is_wf(a: Dec, b: Dec)
    requires
        short(a, b),
    ensures
        a.wf(),
        b.wf(),
{
}

/// What the winning amounts come to.
pub open spec fn units_won(xs: Seq<Dec>) -> int
    decreases xs.len(),
{
    if xs.len() == 0 {
        0
    } else {
        units_won(xs.drop_last()) + if xs.last().units() > 0 {
            xs.last().units()
        } else {
            0
        }
    }
}

/// What the losing amounts come to, as a positive value.
pub open spec fn units_lost(xs: Seq<Dec>) -> int
    decreases xs.len(),
{
    if xs.len() == 0 {
        0
    } else {
        units_lost(xs.drop_last()) + if xs.last().units() < 0 {
            -xs.last().units()
        } else {
            0
        }
    }
}

proof fn lemma_sides(xs: Seq<Dec>)
    requires
        forall|i: int| 0 <= i < xs.len() ==> (#[trigger] xs[i]).wf(),
    ensures
        unit_sum(above(xs)) == units_won(xs),
        unit_sum(turned(below(xs))) == units_lost(xs),
        units_lost(xs) >= 0,
        units_won(xs) >= 0,
    decreases xs.len(),
{
    reveal(Seq::filter);
    if xs.len() > 0 {
        let d = xs.drop_last();
        assert forall|i: int| 0 <= i < d.len() implies (#[trigger] d[i]).wf() by {
            assert(d[i] == xs[i]);
        }
        lemma_sides(d);
        let x = xs.last();
        assert(x == xs[xs.len() - 1]);
        lemma_wf(x);
        if x.pos() {
            assert(above(xs) =~= above(d).push(x));
            assert(above(xs).drop_last() =~= above(d));
        } else {
            assert(above(xs) =~= above(d));
        }
        if x.units() < 0 {
            assert(below(xs) =~= below(d).push(x));
            assert(turned(below(xs)).drop_last() =~= turned(below(d)));
            assert(turned(below(xs)).last() == negated(x));
            lemma_dec_parts(-x.m(), x.s());
            lemma_units_neg(negated(x), x);
        } else {
            assert(below(xs) =~= below(d));
        }
    } else {
        assert(above(xs) =~= Seq::<Dec>::empty());
        assert(below(xs) =~= Seq::<Dec>::empty());
        assert(turned(below(xs)) =~= Seq::<Dec>::empty());
    }
}

/// Where amounts hold a loss, the profit factor is what was won over what was
/// lost: times the losses it is the gains, wherever the decimals divide evenly.
/// So it is above one exactly where the gains exceed the losses. Without a loss
/// there is none.
pub proof fn law_profit_factor_is_gains_over_losses(xs: Seq<Dec>)
    requires
        decimal_rules(),
        forall|i: int| 0 <= i < xs.len() ==> (#[trigger] xs[i]).wf(),
        adds_up(above(xs)),
        adds_up(turned(below(xs))),
    ensures
        units_lost(xs) == 0 ==> factor_of(xs) == Some(None::<Dec>),
        units_lost(xs) > 0 ==> exists|won: Dec, lost: Dec|
            {
                &&& won.units() == units_won(xs)
                &&& lost.units() == units_lost(xs)
                &&& factor_of(xs) == match #[trigger] decimal_quotient(won, lost) {
                    Some(f) => Some(Some(f)),
                    None => None,
                }
                &&& goes_into(lost, won) ==> {
                    &&& factor_of(xs) matches Some(Some(f)) && f.units() * units_lost(xs)
                        == units_won(xs) * dec(1, 0).units()
                    &&& dec(1, 0).lt(factor_of(xs)->0->0) <==> units_won(xs) > units_lost(xs)
                    &&& factor_of(xs)->0->0.lt(dec(1, 0)) <==> units_won(xs) < units_lost(xs)
                }
            },
{
    lemma_sides(xs);
    law_totals_add_up(above(xs));
    law_totals_add_up(turned(below(xs)));
    let won = sum_of(above(xs))->0;
    let lost = sum_of(turned(below(xs)))->0;
    if units_lost(xs) > 0 {
        if goes_into(lost, won) {
            law_even_quotients_are_exact(won, lost);
        }
        assert(factor_of(xs) == match decimal_quotient(won, lost) {
            Some(f) => Some(Some(f)),
            None => None,
        });
    }
}

/// A mean times the number of amounts is their sum, wherever the decimals divide
/// evenly; of no amounts there is none.
pub proof fn law_mean_is_the_sum_over_the_count(xs: Seq<Dec>)
    requires
        decimal_rules(),
        adds_up(xs),
        fits(xs.len() as int),
    ensures
        xs.len() == 0 ==> mean_of(xs) == Some(None::<Dec>),
        xs.len() > 0 && goes_into(dec(xs.len() as int, 0), sum_of(xs)->0) ==> (mean_of(xs) matches Some(
            Some(m),
        ) && m.units() * xs.len() == unit_sum(xs)),
{
    broadcast use lemma_dec_parts;

    let n = xs.len() as int;
    law_totals_add_up(xs);
    if n > 0 && goes_into(dec(n, 0), sum_of(xs)->0) {
        let t = sum_of(xs)->0;
        let c = dec(n, 0);
        lemma_wf(c);
        law_even_quotients_are_exact(t, c);
        let m = decimal_quotient(t, c)->0;
        let one = dec(1, 0).units();
        lemma_units_sign(dec(1, 0));
        assert(dec(1, 0).m() == 1 && dec(1, 0).s() == 0 && c.m() == n && c.s() == 0);
        assert(c.units() == n * one) by {
            assert(n * (1 * crate::dec::pow10(28)) == n * crate::dec::pow10(28))
                by (nonlinear_arith);
        }
        let u = m.units();
        let k = t.units();
        assert(u * n == k) by (nonlinear_arith)
            requires
                u * (n * one) == k * one,
                one > 0,
        ;
    }
}

/// The row of a strategy: it counts its whole closes, sums their results, and
/// shows the profit factor of the same results; the mean multiples of the risk are
/// those of all closes, of the winning ones and of the losing ones.
pub proof fn law_strategy_row_shows_its_closes(id: i32, closes: Seq<EventView>, rate: Seq<char>)
    requires
        strategy_cells(id, full_of(closes, id), rate) is Some,
    ensures
        ({
            let mine = closes.filter(|e: EventView| !is_part(e)).filter(
                |e: EventView| e.strategy_id == id,
            );
            let c = strategy_cells(id, full_of(closes, id), rate)->0;
            let results = Seq::new(
                mine.len(),
                |i: int|
                    match figure(mine[i].pnl) {
                        Some(d) => d,
                        None => dec(0, 0),
                    },
            );
            let rs = figures(mine, Field::FinalR);
            &&& c.id == int_text(id as int)
            &&& c.trades == int_text(mine.len() as int)
            &&& sum_of(results) is Some && c.pnl == decimal_text_signed(sum_of(results)->0, 4)
            &&& factor_of(results) is Some && c.factor == match factor_of(results)->0 {
                Some(f) => decimal_text_fixed(f, 2),
                None => "—"@,
            }
            &&& mean_of(rs) is Some && c.expected == match mean_of(rs)->0 {
                Some(x) => decimal_text_fixed(x, 2),
                None => "—"@,
            }
            &&& mean_of(above(rs)) is Some && c.win == match mean_of(above(rs))->0 {
                Some(x) => decimal_text_fixed(x, 2),
                None => "—"@,
            }
            &&& mean_of(below(rs)) is Some && c.loss == match mean_of(below(rs))->0 {
                Some(x) => decimal_text_fixed(x, 2),
                None => "—"@,
            }
            &&& mean_of(figures(mine, Field::MfeR)) is Some && c.mfe == match mean_of(
                figures(mine, Field::MfeR),
            )->0 {
                Some(x) => decimal_text_fixed(x, 2),
                None => "—"@,
            }
            &&& mean_of(figures(mine, Field::MaeR)) is Some && c.mae == match mean_of(
                figures(mine, Field::MaeR),
            )->0 {
                Some(x) => decimal_text_fixed(x, 2),
                None => "—"@,
            }
            &&& mine.len() == 0 ==> c.rate == "—"@
            &&& 0 < mine.len() < 30 ==> c.rate == "n/a"@
            &&& mine.len() >= 30 ==> c.rate == rate
        }),
{
    let mine = closes.filter(|e: EventView| !is_part(e)).filter(
        |e: EventView| e.strategy_id == id,
    );
    assert(mine == full_of(closes, id));
    let results = Seq::new(
        mine.len(),
        |i: int|
            match figure(mine[i].pnl) {
                Some(d) => d,
                None => dec(0, 0),
            },
    );
    assert(results =~= gains_of(mine));
}

/// Positive amounts are above zero and negative ones below it; nothing else is
/// kept, and nothing that belongs there is left out.
pub proof fn law_sides_are_told_by_sign(xs: Seq<Dec>, x: Dec)
    ensures
        above(xs).contains(x) <==> xs.contains(x) && x.units() > 0,
        below(xs).contains(x) <==> xs.contains(x) && x.units() < 0,
    decreases xs.len(),
{
    reveal(Seq::filter);
    if xs.len() > 0 {
        let d = xs.drop_last();
        law_sides_are_told_by_sign(d, x);
        assert(xs =~= d.push(xs.last()));
        assert(xs.contains(x) <==> d.contains(x) || x == xs.last()) by {
            if xs.contains(x) {
                let i = choose|i: int| 0 <= i < xs.len() && xs[i] == x;
                if i < d.len() {
                    assert(d[i] == x);
                }
            }
            if d.contains(x) {
                let i = choose|i: int| 0 <= i < d.len() && d[i] == x;
                assert(xs[i] == x);
            }
            assert(xs[xs.len() - 1] == xs.last());
        }
        lemma_pushed(above(d), xs.last(), x);
        lemma_pushed(below(d), xs.last(), x);
    }
}

proof fn lemma_pushed(v: Seq<Dec>, y: Dec, x: Dec)
    ensures
        v.push(y).contains(x) <==> v.contains(x) || x == y,
{
    if v.contains(x) {
        let i = choose|i: int| 0 <= i < v.len() && v[i] == x;
        assert(v.push(y)[i] == x);
    }
    assert(v.push(y)[v.len() as int] == y);
    if v.push(y).contains(x) && x != y {
        let i = choose|i: int| 0 <= i < v.push(y).len() && v.push(y)[i] == x;
        assert(v[i] == x);
    }
}

/// Which closes won: one more counts as won exactly where its result is above
/// zero.
pub proof fn law_a_close_wins_above_zero(events: Seq<EventView>, e: EventView)
    ensures
        won_in(events.push(e), events.len() as int + 1) == won_in(events, events.len() as int) + (
        if figure(e.pnl) is Some && figure(e.pnl)->0.units() > 0 {
            1int
        } else {
            0
        }),
        0 <= won_in(events, events.len() as int) <= events.len(),
{
    lemma_won_prefix(events, e, events.len() as int);
}

proof fn lemma_won_prefix(events: Seq<EventView>, e: EventView, n: int)
    requires
        0 <= n <= events.len(),
    ensures
        won_in(events.push(e), n) == won_in(events, n),
        0 <= won_in(events, n) <= n,
    decreases n,
{
    if n > 0 {
        lemma_won_prefix(events, e, n - 1);
    }
}

/// The head of a report counts the lines of each kind in its scope and sums what
/// its closes made, cost and paid in funding.
pub proof fn law_report_head(events: Seq<EventView>, strategy: Option<i32>, rate: Seq<char>)
    requires
        head_lines(events, strategy, rate) is Some,
    ensures
        ({
            let mine = |kind: Seq<char>|
                events.filter(
                    |e: EventView| (strategy is None || e.strategy_id == strategy->0) && e.event == kind,
                );
            let closes = mine("close"@);
            let full = closes.filter(|e: EventView| !is_part(e));
            let lines = head_lines(events, strategy, rate)->0;
            let pnl = sum_of(figures(closes, Field::Pnl));
            let fee = sum_of(figures(closes, Field::Fee));
            let funding = sum_of(figures(closes, Field::Funding));
            &&& pnl is Some && fee is Some && funding is Some
            &&& lines.len() == 7
            &&& lines[5] == "  open="@ + left_in(int_text(mine("open"@).len() as int), 4) + " close="@
                + left_in(int_text(closes.len() as int), 4) + " flatten="@ + left_in(
                int_text(mine("flatten"@).len() as int),
                3,
            ) + " skip="@ + int_text(mine("skip"@).len() as int)
            &&& lines[6] == "  N="@ + left_in(int_text(full.len() as int), 4) + " WR="@ + left_in(
                if full.len() == 0 {
                    "—"@
                } else if full.len() < 30 {
                    "n/a(N<30)"@
                } else {
                    rate
                },
                14,
            ) + " нетто="@ + decimal_text_signed(pnl->0, 4) + "   комиссия="@ + decimal_text_fixed(
                fee->0,
                4,
            ) + "   funding="@ + decimal_text_fixed(funding->0, 4)
        }),
{
    let closes = picked(events, strategy, "close"@);
    assert(whole(closes) == closes.filter(|e: EventView| !is_part(e)));
}

/// Which figures a sum takes: those that can be read, in order; a line without one
/// adds nothing.
pub proof fn law_figures_are_those_that_read(events: Seq<EventView>, e: EventView, f: Field)
    ensures
        figures(events.push(e), f) == match field_of(e, f) {
            Some(d) => figures(events, f).push(d),
            None => figures(events, f),
        },
        field_of(e, Field::Pnl) == figure(e.pnl),
        field_of(e, Field::Fee) == figure(e.fee),
        field_of(e, Field::Funding) == figure(e.funding),
        field_of(e, Field::FinalR) == figure(e.final_r),
        field_of(e, Field::MfeR) == figure(e.mfe_r),
        field_of(e, Field::MaeR) == figure(e.mae_r),
{
    assert(events.push(e).drop_last() =~= events);
}

/// How often a name comes: one more exactly where it comes once more.
pub proof fn law_names_are_counted(keys: Seq<Seq<char>>, k: Seq<char>, n: int)
    requires
        0 < n <= keys.len(),
    ensures
        times_in(keys, k, n) == times_in(keys, k, n - 1) + (if keys[n - 1] == k {
            1int
        } else {
            0
        }),
        times_in(keys, k, 0) == 0,
{
}

/// The last closes of a report are the last eight, in order.
pub proof fn law_last_closes(closes: Seq<EventView>, i: int)
    requires
        closes.len() > 0,
        close_lines(closes) is Some,
    ensures
        ({
            let lines = close_lines(closes)->0;
            let n = if closes.len() > 8 {
                8
            } else {
                closes.len() as int
            };
            &&& lines.len() == n + 2
            &&& 0 <= i < n ==> lines[2 + i] == close_text(closes[closes.len() - n + i])
        }),
{
}

/// The strategies of a report rise, each once, and are exactly those of its lines.
pub proof fn law_strategies_rise(events: Seq<EventView>, n: int, i: int, j: int)
    requires
        0 <= n <= events.len(),
    ensures
        0 <= i < j < ids_in(events, n).len() ==> ids_in(events, n)[i] < ids_in(events, n)[j],
        0 <= i < n ==> ids_in(events, n).contains(events[i].strategy_id),
    decreases n,
{
    if n > 0 {
        let v = ids_in(events, n - 1);
        let id = events[n - 1].strategy_id;
        assert forall|a: int, b: int| 0 <= a < b < v.len() implies #[trigger] v[a] < #[trigger] v[b] by {
            law_strategies_rise(events, n - 1, a, b);
        }
        lemma_put_id(v, id);
        law_strategies_rise(events, n - 1, i, j);
        let w = ids_in(events, n);
        if 0 <= i < n - 1 {
            let k = choose|k: int| 0 <= k < v.len() && v[k] == events[i].strategy_id;
            assert(v.contains(v[k]));
            assert(w.contains(v[k]));
        }
    }
}

proof fn lemma_put_id(v: Seq<i32>, id: i32)
    requires
        forall|a: int, b: int| 0 <= a < b < v.len() ==> #[trigger] v[a] < #[trigger] v[b],
    ensures
        forall|a: int, b: int|
            0 <= a < b < put_id(v, id).len() ==> #[trigger] put_id(v, id)[a] < #[trigger] put_id(v, id)[b],
        put_id(v, id).contains(id),
        forall|x: i32| v.contains(x) ==> #[trigger] put_id(v, id).contains(x),
        forall|x: i32| #[trigger] put_id(v, id).contains(x) ==> v.contains(x) || x == id,
    decreases v.len(),
{
    let w = put_id(v, id);
    if v.len() == 0 || v.last() < id {
        assert(w[v.len() as int] == id);
        assert forall|x: i32| v.contains(x) implies #[trigger] w.contains(x) by {
            let k = choose|k: int| 0 <= k < v.len() && v[k] == x;
            assert(w[k] == x);
        }
        assert forall|x: i32| #[trigger] w.contains(x) implies v.contains(x) || x == id by {
            let k = choose|k: int| 0 <= k < w.len() && w[k] == x;
            if k < v.len() {
                assert(v[k] == x);
            }
        }
        assert forall|a: int, b: int| 0 <= a < b < w.len() implies #[trigger] w[a] < #[trigger] w[b] by {
            if b == v.len() {
                if a < v.len() - 1 {
                    assert(v[a] < v[v.len() - 1]);
                }
            } else {
                assert(v[a] < v[b]);
            }
        }
    } else if v.last() == id {
        assert(v[v.len() - 1] == id);
    } else {
        let d = v.drop_last();
        assert forall|a: int, b: int| 0 <= a < b < d.len() implies #[trigger] d[a] < #[trigger] d[b] by {
            assert(v[a] < v[b]);
        }
        lemma_put_id(d, id);
        let e = put_id(d, id);
        assert(w[w.len() - 1] == v.last());
        assert forall|x: i32| v.contains(x) implies #[trigger] w.contains(x) by {
            let k = choose|k: int| 0 <= k < v.len() && v[k] == x;
            if k < d.len() {
                assert(d[k] == x);
                assert(d.contains(x));
                assert(e.contains(x));
                let m = choose|m: int| 0 <= m < e.len() && e[m] == x;
                assert(w[m] == x);
            }
        }
        assert(w.contains(id)) by {
            let m = choose|m: int| 0 <= m < e.len() && e[m] == id;
            assert(w[m] == id);
        }
        assert forall|x: i32| #[trigger] w.contains(x) implies v.contains(x) || x == id by {
            let k = choose|k: int| 0 <= k < w.len() && w[k] == x;
            if k < e.len() {
                assert(e[k] == x);
                assert(e.contains(x));
                if x != id {
                    let m = choose|m: int| 0 <= m < d.len() && d[m] == x;
                    assert(v[m] == x);
                }
            } else {
                assert(v[v.len() - 1] == x);
            }
        }
        assert forall|a: int, b: int| 0 <= a < b < w.len() implies #[trigger] w[a] < #[trigger] w[b] by {
            if b < e.len() {
                assert(e[a] < e[b]);
            } else {
                assert(e.contains(e[a]));
                if e[a] != id {
                    let m = choose|m: int| 0 <= m < d.len() && d[m] == e[a];
                    assert(v[m] < v[v.len() - 1]);
                }
            }
        }
    }
}

/// The profit factor of amounts whose gains and losses are known in all: the gains
/// over the losses, and none without a loss. Where the quotient is exact, times the
/// losses it is the gains, and it is above one exactly where the gains are above
/// the losses.
pub proof fn law_profit_factor_of_known_totals(xs: Seq<Dec>, won: Dec, lost: Dec)
    requires
        sum_of(xs.filter(|d: Dec| d.pos())) == Some(won),
        sum_of(turned(xs.filter(|d: Dec| d.units() < 0))) == Some(lost),
    ensures
        !lost.pos() ==> factor_of(xs) == Some(None::<Dec>),
        lost.pos() ==> factor_of(xs) == match decimal_quotient(won, lost) {
            Some(f) => Some(Some(f)),
            None => None,
        },
        lost.pos() && goes_into(lost, won) && quotient_facts(won, lost, decimal_quotient(won, lost)) ==> {
            &&& factor_of(xs) matches Some(Some(f)) && f.units() * lost.units() == won.units() * dec(
                1,
                0,
            ).units()
            &&& dec(1, 0).lt(factor_of(xs)->0->0) <==> lost.lt(won)
            &&& factor_of(xs)->0->0.lt(dec(1, 0)) <==> won.lt(lost)
        },
{
    if lost.pos() && goes_into(lost, won) && quotient_facts(won, lost, decimal_quotient(won, lost)) {
        law_even_quotients_are_exact(won, lost);
    }
}

} // verus!

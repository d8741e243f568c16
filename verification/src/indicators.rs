//! Decimal OHLC indicators. No lookahead beyond the last bar given.
//!
//! An outer `None` says that a number left the decimal range.
use crate::dec::{
    dec, decimal_difference, decimal_product, decimal_quotient, decimal_rules, decimal_sum,
    goes_into, larger, law_even_quotients_are_exact, law_short_products_are_exact,
    law_short_sums_are_exact, lemma_dec_parts, lemma_units_neg, lemma_units_sign, lemma_wf,
    magnitude, minus, n_add, n_div, n_mul, n_sub, negated, over, plus, short, short_product,
    sum_facts, times, Dec, Num,
};
use crate::models::Bar;
use vstd::prelude::*;

verus! {

/// Sum of the values `from..to`, added from the left.
pub open spec fn sum_between(v: Seq<Dec>, from: int, to: int) -> Num
    decreases to - from,
{
    if to <= from {
        Some(dec(0, 0))
    } else {
        n_add(sum_between(v, from, to - 1), Some(v[to - 1]))
    }
}

fn sum_range(v: &[Dec], from: usize, to: usize) -> (r: Num)
    requires
        from <= to <= v@.len(),
    ensures
        r == sum_between(v@, from as int, to as int),
{
    let mut acc: Num = Some(Dec::zero());
    let mut i: usize = from;
    while i < to
        invariant
            from <= i <= to <= v@.len(),
            acc == sum_between(v@, from as int, i as int),
        decreases to - i,
    {
        acc = plus(acc, Some(v[i]));
        i = i + 1;
    }
    acc
}

/// A count as a number.
pub open spec fn count(n: int) -> Num {
    Some(dec(n, 0))
}

/// Mean of the last `period` values; the inner `None` where there are too few.
pub open spec fn mean_of_last(v: Seq<Dec>, period: int) -> Option<Option<Dec>> {
    if period == 0 || v.len() < period {
        Some(None)
    } else {
        match n_div(sum_between(v, v.len() - period, v.len() as int), count(period)) {
            Some(m) => Some(Some(m)),
            None => None,
        }
    }
}

fn settled(n: Num) -> (r: Option<Option<Dec>>)
    ensures
        r == (match n {
            Some(x) => Some(Some(x)),
            None => None,
        }),
{
    match n {
        Some(x) => Some(Some(x)),
        None => None,
    }
}

pub fn sma(values: &[Dec], period: usize) -> (r: Option<Option<Dec>>)
    ensures
        r == mean_of_last(values@, period as int),
{
    if period == 0 || values.len() < period {
        return Some(None);
    }
    let n: usize = values.len();
    settled(over(sum_range(values, n - period, n), Some(Dec::from_count(period))))
}

/// Smoothing factor of an exponential mean.
pub open spec fn ema_factor(period: int) -> Num {
    n_div(Some(dec(2, 0)), n_add(count(period), Some(dec(1, 0))))
}

/// Exponential mean at index `i`, seeded with the plain mean of the first `period`.
pub open spec fn ema_at(v: Seq<Dec>, period: int, i: int) -> Num
    decreases i - period + 1,
{
    if i <= period - 1 {
        n_div(sum_between(v, 0, period), count(period))
    } else {
        n_add(
            n_mul(Some(v[i]), ema_factor(period)),
            n_mul(
                ema_at(v, period, i - 1),
                n_sub(Some(dec(1, 0)), ema_factor(period)),
            ),
        )
    }
}

/// Whether a series of length `n` is the given numbers from index `first` on,
/// and empty before.
pub open spec fn is_series(
    r: Option<Seq<Option<Dec>>>,
    n: int,
    first: int,
    at: spec_fn(int) -> Num,
) -> bool {
    match r {
        Some(out) => {
            &&& out.len() == n
            &&& forall|i: int| 0 <= i < n && i < first ==> (#[trigger] out[i]) is None
            &&& forall|i: int|
                first <= i < n ==> (#[trigger] out[i]) is Some && at(i) == out[i]
        },
        None => exists|i: int| first <= i < n && (#[trigger] at(i)) is None,
    }
}

pub open spec fn opt_seq(r: Option<Vec<Option<Dec>>>) -> Option<Seq<Option<Dec>>> {
    match r {
        Some(v) => Some(v@),
        None => None,
    }
}

/// From which index on a series of `n` values has an exponential mean.
pub open spec fn ema_first(n: int, period: int) -> int {
    if period == 0 || n < period {
        n
    } else {
        period - 1
    }
}

fn blanks(n: usize) -> (r: Vec<Option<Dec>>)
    ensures
        r@ == Seq::new(n as nat, |i: int| None::<Dec>),
{
    let mut out: Vec<Option<Dec>> = Vec::new();
    let mut i: usize = 0;
    while i < n
        invariant
            i <= n,
            out@ == Seq::new(i as nat, |j: int| None::<Dec>),
        decreases n - i,
    {
        out.push(None);
        proof {
            assert(out@ =~= Seq::new((i + 1) as nat, |j: int| None::<Dec>));
        }
        i = i + 1;
    }
    out
}

pub fn ema_series(values: &[Dec], period: usize) -> (r: Option<Vec<Option<Dec>>>)
    ensures
        is_series(
            opt_seq(r),
            values@.len() as int,
            ema_first(values@.len() as int, period as int),
            |i: int| ema_at(values@, period as int, i),
        ),
{
    let n: usize = values.len();
    let ghost at = |i: int| ema_at(values@, period as int, i);
    if period == 0 || n < period {
        return Some(blanks(n));
    }
    let mut out: Vec<Option<Dec>> = blanks(period - 1);
    let seed: Num = over(sum_range(values, 0, period), Some(Dec::from_count(period)));
    let k: Num = over(
        Some(Dec::from_int(2)),
        plus(Some(Dec::from_count(period)), Some(Dec::one())),
    );
    let one_k: Num = minus(Some(Dec::one()), k);
    let mut prev: Num = seed;
    let mut i: usize = period - 1;
    proof {
        assert(at(period - 1) == seed);
    }
    while i < n
        invariant
            period >= 1,
            period - 1 <= i <= n,
            n == values@.len(),
            at == (|j: int| ema_at(values@, period as int, j)),
            k == ema_factor(period as int),
            one_k == n_sub(Some(dec(1, 0)), k),
            i == period - 1 ==> prev == at(period - 1),
            i > period - 1 ==> prev == at(i - 1),
            out@.len() == i,
            forall|j: int| 0 <= j < period - 1 ==> (#[trigger] out@[j]) is None,
            forall|j: int|
                period - 1 <= j < i ==> (#[trigger] out@[j]) is Some && at(j) == out@[j],
        decreases n - i,
    {
        if i >= period {
            prev = plus(times(Some(values[i]), k), times(prev, one_k));
        }
        proof {
            assert(at(i as int) == prev);
        }
        if prev.is_none() {
            return None;
        }
        out.push(prev);
        i = i + 1;
    }
    Some(out)
}

/// The last entry of a series of length `n` from `first` on: `None` where some
/// entry leaves the range, the inner `None` where the series is empty so far.
pub open spec fn last_of(n: int, first: int, at: spec_fn(int) -> Num) -> Option<Option<Dec>> {
    if exists|i: int| first <= i < n && (#[trigger] at(i)) is None {
        None
    } else if first >= n {
        Some(None)
    } else {
        Some(at(n - 1))
    }
}

fn final_entry(
    r: Option<Vec<Option<Dec>>>,
    Ghost(n): Ghost<int>,
    Ghost(first): Ghost<int>,
    Ghost(at): Ghost<spec_fn(int) -> Num>,
) -> (e: Option<Option<Dec>>)
    requires
        is_series(opt_seq(r), n, first, at),
        0 <= first,
    ensures
        e == last_of(n, first, at),
{
    match r {
        Some(v) => {
            proof {
                assert forall|i: int| first <= i < n implies (#[trigger] at(i)) is Some by {
                    assert(v@[i] is Some);
                }
            }
            if v.len() == 0 {
                Some(None)
            } else {
                Some(v[v.len() - 1])
            }
        },
        None => None,
    }
}

/// The exponential mean at the last value.
pub open spec fn ema_last(v: Seq<Dec>, period: int) -> Option<Option<Dec>> {
    last_of(v.len() as int, ema_first(v.len() as int, period), |i: int| ema_at(v, period, i))
}

pub fn last_ema(values: &[Dec], period: usize) -> (r: Option<Option<Dec>>)
    ensures
        r == ema_last(values@, period as int),
{
    final_entry(
        ema_series(values, period),
        Ghost(values@.len() as int),
        Ghost(ema_first(values@.len() as int, period as int)),
        Ghost(|i: int| ema_at(values@, period as int, i)),
    )
}

/// Whether the low at `i` is positive and strictly below its `wing` neighbours
/// on each side.
pub open spec fn is_pivot(bars: Seq<Bar>, wing: int, i: int) -> bool {
    &&& bars[i].low.pos()
    &&& forall|k: int|
        1 <= k <= wing ==> bars[i].low.lt(#[trigger] bars[i - k].low) && bars[i].low.lt(
            bars[i + k].low,
        )
}

/// The pivots among the indices `wing..to`, in order.
pub open spec fn pivots(bars: Seq<Bar>, wing: int, to: int) -> Seq<(usize, Dec)>
    decreases to - wing,
{
    if to <= wing {
        Seq::empty()
    } else {
        let rest = pivots(bars, wing, to - 1);
        if is_pivot(bars, wing, to - 1) {
            rest.push(((to - 1) as usize, bars[to - 1].low))
        } else {
            rest
        }
    }
}

pub open spec fn at_least_one(n: int) -> int {
    if n < 1 {
        1
    } else {
        n
    }
}

/// Pivot swing lows (`wing` bars on each side). Chronological.
pub fn swing_lows(bars: &[Bar], wing: usize) -> (r: Vec<(usize, Dec)>)
    ensures
        r@ == pivots(
            bars@,
            at_least_one(wing as int),
            bars@.len() - at_least_one(wing as int),
        ),
{
    let wing: usize = if wing < 1 {
        1
    } else {
        wing
    };
    let n: usize = bars.len();
    let mut out: Vec<(usize, Dec)> = Vec::new();
    if n == 0 || wing > (n - 1) / 2 {
        return out;
    }
    let mut i: usize = wing;
    while i < n - wing
        invariant
            1 <= wing <= i,
            n == bars@.len(),
            i <= n - wing,
            2 * wing + 1 <= n,
            out@ == pivots(bars@, wing as int, i as int),
        decreases n - i,
    {
        let lo: Dec = bars[i].low;
        let mut is_low: bool = lo.is_pos();
        let mut k: usize = 1;
        while is_low && k <= wing
            invariant
                1 <= wing <= i < n - wing,
                n == bars@.len(),
                1 <= k <= wing + 1,
                lo == bars@[i as int].low,
                is_low ==> lo.pos(),
                is_low ==> forall|j: int|
                    1 <= j < k ==> lo.lt(#[trigger] bars@[i - j].low) && lo.lt(bars@[i + j].low),
                !is_low ==> !is_pivot(bars@, wing as int, i as int),
            decreases wing + 1 - k,
        {
            if bars[i - k].low <= lo || bars[i + k].low <= lo {
                is_low = false;
            }
            k = k + 1;
        }
        if is_low {
            out.push((i, lo));
        }
        i = i + 1;
    }
    out
}

/// Last two swing lows (older, newer). None if fewer than two pivots.
pub fn last_two_swing_lows(bars: &[Bar]) -> (r: Option<(Dec, Dec)>)
    ensures
        ({
            let p = pivots(bars@, 1, bars@.len() - 1);
            r == (if p.len() < 2 {
                None
            } else {
                Some((p[p.len() - 2].1, p[p.len() - 1].1))
            })
        }),
{
    let lows: Vec<(usize, Dec)> = swing_lows(bars, 1);
    if lows.len() < 2 {
        return None;
    }
    Some((lows[lows.len() - 2].1, lows[lows.len() - 1].1))
}

/// A swing low is a positive low strictly below both neighbours.
pub proof fn law_swing_lows_are_local_minima(bars: Seq<Bar>, wing: int, to: int, j: int)
    requires
        wing >= 1,
        0 <= j < pivots(bars, wing, to).len(),
        to + wing <= bars.len(),
        bars.len() <= usize::MAX,
    ensures
        ({
            let p = pivots(bars, wing, to)[j];
            &&& wing <= p.0 < to
            &&& p.1 == bars[p.0 as int].low
            &&& p.1.pos()
            &&& p.1.lt(bars[p.0 - 1].low)
            &&& p.1.lt(bars[p.0 + 1].low)
        }),
    decreases to - wing,
{
    if to > wing {
        let rest = pivots(bars, wing, to - 1);
        if j < rest.len() {
            law_swing_lows_are_local_minima(bars, wing, to - 1, j);
        } else {
            assert(is_pivot(bars, wing, to - 1));
            assert(bars[to - 1].low.lt(bars[to - 1 - 1].low));
        }
    }
}

/// True range of a bar after a close.
pub open spec fn range_of(bar: Bar, prev_close: Dec) -> Num {
    match (
        n_sub(Some(bar.high), Some(bar.low)),
        n_sub(Some(bar.high), Some(prev_close)),
        n_sub(Some(bar.low), Some(prev_close)),
    ) {
        (Some(hl), Some(hc), Some(lc)) => Some(
            larger(larger(hl, magnitude(hc)), magnitude(lc)),
        ),
        _ => None,
    }
}

pub fn true_range(bar: &Bar, prev_close: Dec) -> (r: Num)
    ensures
        r == range_of(*bar, prev_close),
{
    match (
        minus(Some(bar.high), Some(bar.low)),
        minus(Some(bar.high), Some(prev_close)),
        minus(Some(bar.low), Some(prev_close)),
    ) {
        (Some(hl), Some(hc), Some(lc)) => Some(hl.max(hc.abs()).max(lc.abs())),
        _ => None,
    }
}

/// True range at index `i`, from the close before it.
pub open spec fn range_at(bars: Seq<Bar>, i: int) -> Num {
    range_of(bars[i], bars[i - 1].close)
}

/// Sum of a formula over the indices `from..to`, added from the left.
pub open spec fn sum_at(at: spec_fn(int) -> Num, from: int, to: int) -> Num
    decreases to - from,
{
    if to <= from {
        Some(dec(0, 0))
    } else {
        n_add(sum_at(at, from, to - 1), at(to - 1))
    }
}

/// One step of Wilder's smoothing: `(prev * (n - 1) + x) / n`.
pub open spec fn wilder(prev: Num, x: Num, period: int) -> Num {
    n_div(
        n_add(n_mul(prev, n_sub(count(period), Some(dec(1, 0)))), x),
        count(period),
    )
}

fn wilder_step(prev: Num, x: Num, period: usize) -> (r: Num)
    ensures
        r == wilder(prev, x, period as int),
{
    let n: Num = Some(Dec::from_count(period));
    over(plus(times(prev, minus(n, Some(Dec::one()))), x), n)
}

/// Average true range at index `i`.
pub open spec fn atr_at(bars: Seq<Bar>, period: int, i: int) -> Num
    decreases i - period,
{
    if i <= period {
        n_div(sum_at(|j: int| range_at(bars, j), 1, period + 1), count(period))
    } else {
        wilder(atr_at(bars, period, i - 1), range_at(bars, i), period)
    }
}

/// From which index on a series that needs `need` bars before has values.
pub open spec fn first_after(n: int, period: int, need: int) -> int {
    if period == 0 || n < need + 1 {
        n
    } else {
        need
    }
}

pub fn atr_series(bars: &[Bar], period: usize) -> (r: Option<Vec<Option<Dec>>>)
    ensures
        is_series(
            opt_seq(r),
            bars@.len() as int,
            first_after(bars@.len() as int, period as int, period as int),
            |i: int| atr_at(bars@, period as int, i),
        ),
{
    let n: usize = bars.len();
    let ghost at = |i: int| atr_at(bars@, period as int, i);
    let ghost tr = |j: int| range_at(bars@, j);
    if period == 0 || n <= period {
        return Some(blanks(n));
    }
    let mut out: Vec<Option<Dec>> = blanks(period);
    let mut acc: Num = Some(Dec::zero());
    let mut i: usize = 1;
    while i <= period
        invariant
            1 <= i <= period + 1,
            period < n,
            n == bars@.len(),
            tr == (|j: int| range_at(bars@, j)),
            acc == sum_at(tr, 1, i as int),
        decreases period + 1 - i,
    {
        acc = plus(acc, true_range(&bars[i], bars[i - 1].close));
        i = i + 1;
    }
    let mut prev: Num = over(acc, Some(Dec::from_count(period)));
    let mut i: usize = period;
    proof {
        assert(at(period as int) == prev);
    }
    while i < n
        invariant
            period >= 1,
            period <= i <= n,
            n == bars@.len(),
            at == (|j: int| atr_at(bars@, period as int, j)),
            i == period ==> prev == at(period as int),
            i > period ==> prev == at(i - 1),
            out@.len() == i,
            forall|j: int| 0 <= j < period ==> (#[trigger] out@[j]) is None,
            forall|j: int| period <= j < i ==> (#[trigger] out@[j]) is Some && at(j) == out@[j],
        decreases n - i,
    {
        if i > period {
            prev = wilder_step(prev, true_range(&bars[i], bars[i - 1].close), period);
        }
        proof {
            assert(at(i as int) == prev);
        }
        if prev.is_none() {
            return None;
        }
        out.push(prev);
        i = i + 1;
    }
    Some(out)
}

/// The average true range at the last bar.
pub open spec fn atr_last(v: Seq<Bar>, period: int) -> Option<Option<Dec>> {
    last_of(
        v.len() as int,
        first_after(v.len() as int, period, period),
        |i: int| atr_at(v, period, i),
    )
}

pub fn last_atr(bars: &[Bar], period: usize) -> (r: Option<Option<Dec>>)
    ensures
        r == atr_last(bars@, period as int),
{
    final_entry(
        atr_series(bars, period),
        Ghost(bars@.len() as int),
        Ghost(first_after(bars@.len() as int, period as int, period as int)),
        Ghost(|i: int| atr_at(bars@, period as int, i)),
    )
}

/// Relative strength from average gain and loss.
pub open spec fn rsi_of(avg_g: Num, avg_l: Num) -> Num {
    match (avg_g, avg_l) {
        (Some(g), Some(l)) => if l.units() == 0 {
            if g.pos() {
                Some(dec(100, 0))
            } else {
                Some(dec(50, 0))
            }
        } else {
            n_sub(
                Some(dec(100, 0)),
                n_div(Some(dec(100, 0)), n_add(Some(dec(1, 0)), n_div(avg_g, avg_l))),
            )
        },
        _ => None,
    }
}

fn rsi_from_avgs(avg_g: Num, avg_l: Num) -> (r: Num)
    ensures
        r == rsi_of(avg_g, avg_l),
{
    match (avg_g, avg_l) {
        (Some(g), Some(l)) => {
            if l.is_zero() {
                return if g.is_pos() {
                    Some(Dec::from_int(100))
                } else {
                    Some(Dec::from_int(50))
                };
            }
            let rs: Num = over(avg_g, avg_l);
            minus(
                Some(Dec::from_int(100)),
                over(Some(Dec::from_int(100)), plus(Some(Dec::one()), rs)),
            )
        },
        _ => None,
    }
}

/// Rise of the close at index `i`, zero for a fall.
pub open spec fn gain_at(closes: Seq<Dec>, i: int) -> Num {
    match n_sub(Some(closes[i]), Some(closes[i - 1])) {
        Some(d) => Some(
            if d.pos() {
                d
            } else {
                dec(0, 0)
            },
        ),
        None => None,
    }
}

/// Fall of the close at index `i`, zero for a rise.
pub open spec fn loss_at(closes: Seq<Dec>, i: int) -> Num {
    match n_sub(Some(closes[i]), Some(closes[i - 1])) {
        Some(d) => Some(
            if d.units() < 0 {
                negated(d)
            } else {
                dec(0, 0)
            },
        ),
        None => None,
    }
}

/// Smoothed average of a formula at index `i`.
pub open spec fn wilder_at(x: spec_fn(int) -> Num, period: int, i: int) -> Num
    decreases i - period,
{
    if i <= period {
        n_div(sum_at(x, 1, period + 1), count(period))
    } else {
        wilder(wilder_at(x, period, i - 1), x(i), period)
    }
}

/// Relative strength at index `i`.
pub open spec fn rsi_at(closes: Seq<Dec>, period: int, i: int) -> Num {
    rsi_of(
        wilder_at(|j: int| gain_at(closes, j), period, i),
        wilder_at(|j: int| loss_at(closes, j), period, i),
    )
}

fn gain_loss(closes: &[Dec], i: usize) -> (r: (Num, Num))
    requires
        1 <= i < closes@.len(),
    ensures
        r.0 == gain_at(closes@, i as int),
        r.1 == loss_at(closes@, i as int),
{
    match minus(Some(closes[i]), Some(closes[i - 1])) {
        Some(d) => {
            if d.is_pos() {
                (Some(d), Some(Dec::zero()))
            } else if d.is_neg() {
                (Some(Dec::zero()), Some(d.neg()))
            } else {
                (Some(Dec::zero()), Some(Dec::zero()))
            }
        },
        None => (None, None),
    }
}

pub fn rsi_series(closes: &[Dec], period: usize) -> (r: Option<Vec<Option<Dec>>>)
    ensures
        is_series(
            opt_seq(r),
            closes@.len() as int,
            first_after(closes@.len() as int, period as int, period as int),
            |i: int| rsi_at(closes@, period as int, i),
        ),
{
    let n: usize = closes.len();
    let ghost at = |i: int| rsi_at(closes@, period as int, i);
    let ghost g = |j: int| gain_at(closes@, j);
    let ghost l = |j: int| loss_at(closes@, j);
    if period == 0 || n <= period {
        return Some(blanks(n));
    }
    let mut out: Vec<Option<Dec>> = blanks(period);
    let mut sum_g: Num = Some(Dec::zero());
    let mut sum_l: Num = Some(Dec::zero());
    let mut i: usize = 1;
    while i <= period
        invariant
            1 <= i <= period + 1,
            period < n,
            n == closes@.len(),
            g == (|j: int| gain_at(closes@, j)),
            l == (|j: int| loss_at(closes@, j)),
            sum_g == sum_at(g, 1, i as int),
            sum_l == sum_at(l, 1, i as int),
        decreases period + 1 - i,
    {
        let d: (Num, Num) = gain_loss(closes, i);
        sum_g = plus(sum_g, d.0);
        sum_l = plus(sum_l, d.1);
        i = i + 1;
    }
    let mut avg_g: Num = over(sum_g, Some(Dec::from_count(period)));
    let mut avg_l: Num = over(sum_l, Some(Dec::from_count(period)));
    let mut i: usize = period;
    while i < n
        invariant
            period >= 1,
            period <= i <= n,
            n == closes@.len(),
            at == (|j: int| rsi_at(closes@, period as int, j)),
            g == (|j: int| gain_at(closes@, j)),
            l == (|j: int| loss_at(closes@, j)),
            i == period ==> avg_g == wilder_at(g, period as int, period as int) && avg_l
                == wilder_at(l, period as int, period as int),
            i > period ==> avg_g == wilder_at(g, period as int, i - 1) && avg_l == wilder_at(
                l,
                period as int,
                i - 1,
            ),
            out@.len() == i,
            forall|j: int| 0 <= j < period ==> (#[trigger] out@[j]) is None,
            forall|j: int| period <= j < i ==> (#[trigger] out@[j]) is Some && at(j) == out@[j],
        decreases n - i,
    {
        if i > period {
            let d: (Num, Num) = gain_loss(closes, i);
            avg_g = wilder_step(avg_g, d.0, period);
            avg_l = wilder_step(avg_l, d.1, period);
        }
        let x: Num = rsi_from_avgs(avg_g, avg_l);
        proof {
            assert(at(i as int) == x);
        }
        if x.is_none() {
            return None;
        }
        out.push(x);
        i = i + 1;
    }
    Some(out)
}

/// The relative strength at the last bar.
pub open spec fn rsi_last(v: Seq<Dec>, period: int) -> Option<Option<Dec>> {
    last_of(
        v.len() as int,
        first_after(v.len() as int, period, period),
        |i: int| rsi_at(v, period, i),
    )
}

pub fn last_rsi(closes: &[Dec], period: usize) -> (r: Option<Option<Dec>>)
    ensures
        r == rsi_last(closes@, period as int),
{
    final_entry(
        rsi_series(closes, period),
        Ghost(closes@.len() as int),
        Ghost(first_after(closes@.len() as int, period as int, period as int)),
        Ghost(|i: int| rsi_at(closes@, period as int, i)),
    )
}

/// Upward and downward movement at index `i`.
pub open spec fn up_move(bars: Seq<Bar>, i: int) -> Num {
    n_sub(Some(bars[i].high), Some(bars[i - 1].high))
}

pub open spec fn down_move(bars: Seq<Bar>, i: int) -> Num {
    n_sub(Some(bars[i - 1].low), Some(bars[i].low))
}

/// The movement that counts: the larger one, where it is positive.
pub open spec fn dominant(mine: Num, other: Num) -> Num {
    match (mine, other) {
        (Some(a), Some(b)) => Some(
            if b.lt(a) && a.pos() {
                a
            } else {
                dec(0, 0)
            },
        ),
        _ => None,
    }
}

fn dominant_move(mine: Num, other: Num) -> (r: Num)
    ensures
        r == dominant(mine, other),
{
    match (mine, other) {
        (Some(a), Some(b)) => if a > b && a.is_pos() {
            Some(a)
        } else {
            Some(Dec::zero())
        },
        _ => None,
    }
}

pub open spec fn plus_dm(bars: Seq<Bar>, i: int) -> Num {
    dominant(up_move(bars, i), down_move(bars, i))
}

pub open spec fn minus_dm(bars: Seq<Bar>, i: int) -> Num {
    dominant(down_move(bars, i), up_move(bars, i))
}

/// Wilder's running sum of a formula at index `i`.
pub open spec fn running_at(x: spec_fn(int) -> Num, period: int, i: int) -> Num
    decreases i - period,
{
    if i <= period {
        sum_at(x, 1, period + 1)
    } else {
        let prev = running_at(x, period, i - 1);
        n_add(n_sub(prev, n_div(prev, count(period))), x(i))
    }
}

/// Directional index from the three running sums.
pub open spec fn dx_of(sm_tr: Num, sm_p: Num, sm_m: Num) -> Num {
    match (sm_tr, sm_p, sm_m) {
        (Some(tr), Some(p), Some(m)) => if !tr.pos() {
            Some(dec(0, 0))
        } else {
            let plus_di = n_div(n_mul(Some(dec(100, 0)), sm_p), sm_tr);
            let minus_di = n_div(n_mul(Some(dec(100, 0)), sm_m), sm_tr);
            match (n_add(plus_di, minus_di), n_sub(plus_di, minus_di)) {
                (Some(denom), Some(diff)) => if denom.units() == 0 {
                    Some(dec(0, 0))
                } else {
                    n_div(n_mul(Some(dec(100, 0)), Some(magnitude(diff))), Some(denom))
                },
                (Some(denom), None) => if denom.units() == 0 {
                    Some(dec(0, 0))
                } else {
                    None
                },
                _ => None,
            }
        },
        _ => None,
    }
}

fn dx_from(sm_tr: Num, sm_p: Num, sm_m: Num) -> (r: Num)
    ensures
        r == dx_of(sm_tr, sm_p, sm_m),
{
    match (sm_tr, sm_p, sm_m) {
        (Some(tr), Some(p), Some(m)) => {
            if !tr.is_pos() {
                return Some(Dec::zero());
            }
            let hundred: Num = Some(Dec::from_int(100));
            let plus_di: Num = over(times(hundred, sm_p), sm_tr);
            let minus_di: Num = over(times(hundred, sm_m), sm_tr);
            match plus(plus_di, minus_di) {
                Some(denom) => {
                    if denom.is_zero() {
                        return Some(Dec::zero());
                    }
                    match minus(plus_di, minus_di) {
                        Some(diff) => over(times(hundred, Some(diff.abs())), Some(denom)),
                        None => None,
                    }
                },
                None => None,
            }
        },
        _ => None,
    }
}

/// Directional index at index `i`.
pub open spec fn dx_at(bars: Seq<Bar>, period: int, i: int) -> Num {
    dx_of(
        running_at(|j: int| range_at(bars, j), period, i),
        running_at(|j: int| plus_dm(bars, j), period, i),
        running_at(|j: int| minus_dm(bars, j), period, i),
    )
}

/// Average directional index at index `i`.
pub open spec fn adx_at(bars: Seq<Bar>, period: int, i: int) -> Num
    decreases i - 2 * period,
{
    if i <= 2 * period {
        n_div(
            sum_at(|j: int| dx_at(bars, period, j), period + 1, 2 * period + 1),
            count(period),
        )
    } else {
        wilder(adx_at(bars, period, i - 1), dx_at(bars, period, i), period)
    }
}

/// A sum with a term out of range is out of range.
proof fn lemma_sum_none(at: spec_fn(int) -> Num, from: int, to: int, j: int)
    requires
        from <= j < to,
        at(j) is None,
    ensures
        sum_at(at, from, to) is None,
    decreases to - from,
{
    if j < to - 1 {
        lemma_sum_none(at, from, to - 1, j);
    }
}

pub fn adx_series(bars: &[Bar], period: usize) -> (r: Option<Vec<Option<Dec>>>)
    ensures
        is_series(
            opt_seq(r),
            bars@.len() as int,
            first_after(bars@.len() as int, period as int, 2 * period as int),
            |i: int| adx_at(bars@, period as int, i),
        ),
{
    let n: usize = bars.len();
    let ghost at = |i: int| adx_at(bars@, period as int, i);
    let ghost tr = |j: int| range_at(bars@, j);
    let ghost pd = |j: int| plus_dm(bars@, j);
    let ghost md = |j: int| minus_dm(bars@, j);
    let ghost dx = |j: int| dx_at(bars@, period as int, j);
    if period == 0 || n == 0 || period > (n - 1) / 2 {
        return Some(blanks(n));
    }
    let mut out: Vec<Option<Dec>> = blanks(2 * period);
    let mut sm_tr: Num = Some(Dec::zero());
    let mut sm_p: Num = Some(Dec::zero());
    let mut sm_m: Num = Some(Dec::zero());
    let mut i: usize = 1;
    while i <= period
        invariant
            1 <= i <= period + 1,
            2 * period + 1 <= n,
            n == bars@.len(),
            tr == (|j: int| range_at(bars@, j)),
            pd == (|j: int| plus_dm(bars@, j)),
            md == (|j: int| minus_dm(bars@, j)),
            sm_tr == sum_at(tr, 1, i as int),
            sm_p == sum_at(pd, 1, i as int),
            sm_m == sum_at(md, 1, i as int),
        decreases period + 1 - i,
    {
        let up: Num = minus(Some(bars[i].high), Some(bars[i - 1].high));
        let down: Num = minus(Some(bars[i - 1].low), Some(bars[i].low));
        sm_p = plus(sm_p, dominant_move(up, down));
        sm_m = plus(sm_m, dominant_move(down, up));
        sm_tr = plus(sm_tr, true_range(&bars[i], bars[i - 1].close));
        i = i + 1;
    }
    let nd: Num = Some(Dec::from_count(period));
    let mut dx_sum: Num = Some(Dec::zero());
    let mut adx: Num = None;
    let mut i: usize = period + 1;
    while i < n
        invariant
            period >= 1,
            period + 1 <= i <= n,
            2 * period + 1 <= n,
            n == bars@.len(),
            nd == count(period as int),
            at == (|j: int| adx_at(bars@, period as int, j)),
            tr == (|j: int| range_at(bars@, j)),
            pd == (|j: int| plus_dm(bars@, j)),
            md == (|j: int| minus_dm(bars@, j)),
            dx == (|j: int| dx_at(bars@, period as int, j)),
            sm_tr == running_at(tr, period as int, i - 1),
            sm_p == running_at(pd, period as int, i - 1),
            sm_m == running_at(md, period as int, i - 1),
            i <= 2 * period ==> dx_sum == sum_at(dx, period + 1, i as int),
            i <= 2 * period ==> out@.len() == 2 * period,
            i > 2 * period ==> out@.len() == i && adx == at(i - 1) && adx is Some,
            forall|j: int| 0 <= j < 2 * period ==> (#[trigger] out@[j]) is None,
            forall|j: int|
                2 * period <= j < out@.len() ==> (#[trigger] out@[j]) is Some && at(j) == out@[j],
        decreases n - i,
    {
        let up: Num = minus(Some(bars[i].high), Some(bars[i - 1].high));
        let down: Num = minus(Some(bars[i - 1].low), Some(bars[i].low));
        sm_tr = plus(minus(sm_tr, over(sm_tr, nd)), true_range(&bars[i], bars[i - 1].close));
        sm_p = plus(minus(sm_p, over(sm_p, nd)), dominant_move(up, down));
        sm_m = plus(minus(sm_m, over(sm_m, nd)), dominant_move(down, up));
        let x: Num = dx_from(sm_tr, sm_p, sm_m);
        proof {
            assert(dx(i as int) == x);
        }
        if x.is_none() {
            proof {
                if i <= 2 * period {
                    lemma_sum_none(dx, period + 1, 2 * period + 1, i as int);
                    assert(at(2 * period as int) is None);
                } else {
                    assert(at(i as int) is None);
                }
            }
            return None;
        }
        if i <= 2 * period {
            dx_sum = plus(dx_sum, x);
        }
        if i >= 2 * period {
            adx = if i == 2 * period {
                over(dx_sum, nd)
            } else {
                wilder_step(adx, x, period)
            };
            proof {
                assert(at(i as int) == adx);
            }
            if adx.is_none() {
                return None;
            }
            out.push(adx);
        }
        i = i + 1;
    }
    Some(out)
}

/// The average directional index at the last bar.
pub open spec fn adx_last(v: Seq<Bar>, period: int) -> Option<Option<Dec>> {
    last_of(
        v.len() as int,
        first_after(v.len() as int, period, 2 * period),
        |i: int| adx_at(v, period, i),
    )
}

pub fn last_adx(bars: &[Bar], period: usize) -> (r: Option<Option<Dec>>)
    ensures
        r == adx_last(bars@, period as int),
{
    final_entry(
        adx_series(bars, period),
        Ghost(bars@.len() as int),
        Ghost(first_after(bars@.len() as int, period as int, 2 * period as int)),
        Ghost(|i: int| adx_at(bars@, period as int, i)),
    )
}

/// Weight of a bar: its volume, or one where there is none.
pub open spec fn weight(bar: Bar) -> Dec {
    if bar.volume.pos() {
        bar.volume
    } else {
        dec(1, 0)
    }
}

/// Mean of high, low and close.
pub open spec fn typical(bar: Bar) -> Num {
    n_div(
        n_add(n_add(Some(bar.high), Some(bar.low)), Some(bar.close)),
        Some(dec(3, 0)),
    )
}

/// Volume-weighted mean price; the inner `None` without bars or weight.
pub open spec fn vwap_of(bars: Seq<Bar>) -> Option<Option<Dec>> {
    if bars.len() == 0 {
        Some(None)
    } else {
        let num = sum_at(|i: int| n_mul(typical(bars[i]), Some(weight(bars[i]))), 0, bars.len() as int);
        let den = sum_at(|i: int| Some(weight(bars[i])), 0, bars.len() as int);
        match (num, den) {
            (Some(_), Some(d)) => if !d.pos() {
                Some(None)
            } else {
                match n_div(num, den) {
                    Some(x) => Some(Some(x)),
                    None => None,
                }
            },
            _ => None,
        }
    }
}

pub fn vwap(bars: &[Bar]) -> (r: Option<Option<Dec>>)
    ensures
        r == vwap_of(bars@),
{
    if bars.len() == 0 {
        return Some(None);
    }
    let ghost nf = |i: int| n_mul(typical(bars@[i]), Some(weight(bars@[i])));
    let ghost df = |i: int| Some(weight(bars@[i]));
    let mut num: Num = Some(Dec::zero());
    let mut den: Num = Some(Dec::zero());
    let mut i: usize = 0;
    while i < bars.len()
        invariant
            i <= bars@.len(),
            nf == (|k: int| n_mul(typical(bars@[k]), Some(weight(bars@[k])))),
            df == (|k: int| Some(weight(bars@[k]))),
            num == sum_at(nf, 0, i as int),
            den == sum_at(df, 0, i as int),
        decreases bars@.len() - i,
    {
        let b: Bar = bars[i];
        let t: Num = over(
            plus(plus(Some(b.high), Some(b.low)), Some(b.close)),
            Some(Dec::from_int(3)),
        );
        let vol: Dec = if b.volume.is_pos() {
            b.volume
        } else {
            Dec::one()
        };
        num = plus(num, times(t, Some(vol)));
        den = plus(den, Some(vol));
        i = i + 1;
    }
    match (num, den) {
        (Some(_), Some(d)) => if !d.is_pos() {
            Some(None)
        } else {
            settled(over(num, den))
        },
        _ => None,
    }
}

/// The closes of a series.
pub open spec fn closes_of(bars: Seq<Bar>) -> Seq<Dec> {
    Seq::new(bars.len(), |i: int| bars[i].close)
}

/// The closes of a series.
pub fn closes(bars: &[Bar]) -> (r: Vec<Dec>)
    ensures
        r@ == closes_of(bars@),
{
    let mut out: Vec<Dec> = Vec::new();
    let mut i: usize = 0;
    while i < bars.len()
        invariant
            i <= bars@.len(),
            out@ == closes_of(bars@).take(i as int),
        decreases bars@.len() - i,
    {
        out.push(bars[i].close);
        proof {
            assert(closes_of(bars@).take(i as int + 1) =~= closes_of(bars@).take(i as int).push(
                bars@[i as int].close,
            ));
        }
        i = i + 1;
    }
    proof {
        assert(closes_of(bars@).take(i as int) =~= closes_of(bars@));
    }
    out
}

/// Mean volume; the inner `None` without bars.
pub open spec fn mean_volume_of(bars: Seq<Bar>) -> Option<Option<Dec>> {
    if bars.len() == 0 {
        Some(None)
    } else {
        match n_div(
            sum_at(|i: int| Some(bars[i].volume), 0, bars.len() as int),
            count(bars.len() as int),
        ) {
            Some(x) => Some(Some(x)),
            None => None,
        }
    }
}

pub fn mean_volume(bars: &[Bar]) -> (r: Option<Option<Dec>>)
    ensures
        r == mean_volume_of(bars@),
{
    if bars.len() == 0 {
        return Some(None);
    }
    let ghost f = |i: int| Some(bars@[i].volume);
    let mut acc: Num = Some(Dec::zero());
    let mut i: usize = 0;
    while i < bars.len()
        invariant
            i <= bars@.len(),
            f == (|k: int| Some(bars@[k].volume)),
            acc == sum_at(f, 0, i as int),
        decreases bars@.len() - i,
    {
        acc = plus(acc, Some(bars[i].volume));
        i = i + 1;
    }
    settled(over(acc, Some(Dec::from_count(bars.len()))))
}

/// The highest high of the bars `from..to`; of equal ones the last.
pub open spec fn highest(bars: Seq<Bar>, from: int, to: int) -> Dec
    decreases to - from,
{
    if to <= from + 1 {
        bars[from].high
    } else {
        let m = highest(bars, from, to - 1);
        if m.le(bars[to - 1].high) {
            bars[to - 1].high
        } else {
            m
        }
    }
}

/// The lowest low of the bars `from..to`; of equal ones the first.
pub open spec fn lowest(bars: Seq<Bar>, from: int, to: int) -> Dec
    decreases to - from,
{
    if to <= from + 1 {
        bars[from].low
    } else {
        let m = lowest(bars, from, to - 1);
        if bars[to - 1].low.lt(m) {
            bars[to - 1].low
        } else {
            m
        }
    }
}

/// Where a channel of `period` bars ends and starts, if there are enough bars.
pub open spec fn channel(n: int, period: int, exclude_last: bool) -> Option<(int, int)> {
    let end = if exclude_last && n > 0 {
        n - 1
    } else {
        n
    };
    if period == 0 || end < period {
        None
    } else {
        Some((end - period, end))
    }
}

fn channel_window(n: usize, period: usize, exclude_last: bool) -> (r: Option<(usize, usize)>)
    ensures
        match r {
            Some((from, to)) => channel(n as int, period as int, exclude_last) == Some(
                (from as int, to as int),
            ) && from < to <= n,
            None => channel(n as int, period as int, exclude_last) is None,
        },
{
    if period == 0 {
        return None;
    }
    let end: usize = if exclude_last && n > 0 {
        n - 1
    } else {
        n
    };
    if end < period {
        return None;
    }
    Some((end - period, end))
}

/// The top of the channel.
pub open spec fn channel_top(bars: Seq<Bar>, period: int, exclude_last: bool) -> Option<Dec> {
    match channel(bars.len() as int, period, exclude_last) {
        Some((from, to)) => Some(highest(bars, from, to)),
        None => None,
    }
}

pub fn channel_high(bars: &[Bar], period: usize, exclude_last: bool) -> (r: Option<Dec>)
    ensures
        r == channel_top(bars@, period as int, exclude_last),
{
    match channel_window(bars.len(), period, exclude_last) {
        Some((from, to)) => {
            let mut m: Dec = bars[from].high;
            let mut i: usize = from + 1;
            while i < to
                invariant
                    from < i <= to <= bars@.len(),
                    m == highest(bars@, from as int, i as int),
                decreases to - i,
            {
                if m <= bars[i].high {
                    m = bars[i].high;
                }
                i = i + 1;
            }
            Some(m)
        },
        None => None,
    }
}

/// The bottom of the channel.
pub open spec fn channel_bottom(bars: Seq<Bar>, period: int, exclude_last: bool) -> Option<Dec> {
    match channel(bars.len() as int, period, exclude_last) {
        Some((from, to)) => Some(lowest(bars, from, to)),
        None => None,
    }
}

pub fn channel_low(bars: &[Bar], period: usize, exclude_last: bool) -> (r: Option<Dec>)
    ensures
        r == channel_bottom(bars@, period as int, exclude_last),
{
    match channel_window(bars.len(), period, exclude_last) {
        Some((from, to)) => {
            let mut m: Dec = bars[from].low;
            let mut i: usize = from + 1;
            while i < to
                invariant
                    from < i <= to <= bars@.len(),
                    m == lowest(bars@, from as int, i as int),
                decreases to - i,
            {
                if bars[i].low < m {
                    m = bars[i].low;
                }
                i = i + 1;
            }
            Some(m)
        },
        None => None,
    }
}

/// The channel holds every bar in its window.
pub proof fn law_channel_bounds_its_bars(bars: Seq<Bar>, from: int, to: int, i: int)
    requires
        0 <= from <= i < to <= bars.len(),
    ensures
        bars[i].high.le(highest(bars, from, to)),
        lowest(bars, from, to).le(bars[i].low),
    decreases to - from,
{
    if to > from + 1 && i < to - 1 {
        law_channel_bounds_its_bars(bars, from, to - 1, i);
    }
}

/// The edges of a channel are an actual high and an actual low of its bars.
pub proof fn law_channel_edges_are_bars(bars: Seq<Bar>, from: int, to: int)
    requires
        0 <= from < to <= bars.len(),
    ensures
        exists|k: int| from <= k < to && highest(bars, from, to) == (#[trigger] bars[k]).high,
        exists|k: int| from <= k < to && lowest(bars, from, to) == (#[trigger] bars[k]).low,
    decreases to - from,
{
    let high = highest(bars, from, to);
    let low = lowest(bars, from, to);
    if to > from + 1 {
        law_channel_edges_are_bars(bars, from, to - 1);
        let a = choose|a: int|
            from <= a < to - 1 && highest(bars, from, to - 1) == (#[trigger] bars[a]).high;
        let b = choose|b: int|
            from <= b < to - 1 && lowest(bars, from, to - 1) == (#[trigger] bars[b]).low;
        assert(bars[a].high == high || bars[to - 1].high == high);
        assert(bars[b].low == low || bars[to - 1].low == low);
    } else {
        assert(bars[from].high == high && bars[from].low == low);
    }
}

/// The exponential mean: it starts as the plain mean of the first values, and each
/// further value moves it towards itself by a fixed share, two over the number of
/// values and one.
pub proof fn law_mean_moves_towards_the_value(v: Seq<Dec>, period: int, i: int, share: Dec)
    requires
        1 <= period <= i < v.len(),
        n_div(Some(dec(2, 0)), decimal_sum(dec(period, 0), dec(1, 0))) == Some(share),
    ensures
        ema_at(v, period, period - 1) == n_div(sum_between(v, 0, period), Some(dec(period, 0))),
        ema_at(v, period, i) == n_add(
            decimal_product(v[i], share),
            n_mul(ema_at(v, period, i - 1), decimal_difference(dec(1, 0), share)),
        ),
{
}

/// Wherever the decimals hold all digits, the new mean lies between the old one and
/// the value, away from the old one by exactly the share of the way.
pub proof fn law_mean_stays_between(v: Seq<Dec>, period: int, i: int, share: Dec, old_mean: Dec)
    requires
        decimal_rules(),
        1 <= period <= i < v.len(),
        n_div(Some(dec(2, 0)), decimal_sum(dec(period, 0), dec(1, 0))) == Some(share),
        ema_at(v, period, i - 1) == Some(old_mean),
        share.pos() && share.lt(dec(1, 0)),
        short(dec(1, 0), share),
        short_product(v[i], share),
        short_product(old_mean, decimal_difference(dec(1, 0), share)->0),
        short(
            decimal_product(v[i], share)->0,
            decimal_product(old_mean, decimal_difference(dec(1, 0), share)->0)->0,
        ),
    ensures
        ema_at(v, period, i) matches Some(m) && {
            &&& (m.units() - old_mean.units()) * dec(1, 0).units() == (v[i].units() - old_mean.units())
                * share.units()
            &&& old_mean.lt(v[i]) ==> old_mean.lt(m) && m.lt(v[i])
            &&& v[i].lt(old_mean) ==> m.lt(old_mean) && v[i].lt(m)
            &&& v[i].same(old_mean) ==> m.same(old_mean)
        },
{
    broadcast use lemma_dec_parts;

    let one = dec(1, 0);
    lemma_wf(one);
    lemma_units_sign(one);
    law_short_sums_are_exact(one, share);
    let rest = decimal_difference(one, share)->0;
    law_short_products_are_exact(v[i], share);
    law_short_products_are_exact(old_mean, rest);
    let a = decimal_product(v[i], share)->0;
    let b = decimal_product(old_mean, rest)->0;
    law_short_sums_are_exact(a, b);
    let m = decimal_sum(a, b)->0;
    assert(ema_at(v, period, i) == Some(m));
    let u = one.units();
    let k = share.units();
    let x = v[i].units();
    let y = old_mean.units();
    let z = m.units();
    let au = a.units();
    let bu = b.units();
    assert((z - y) * u == (x - y) * k) by (nonlinear_arith)
        requires
            au * u == x * k,
            bu * u == y * (u - k),
            z == au + bu,
    ;
    assert((y < x ==> y < z < x) && (x < y ==> x < z < y) && (x == y ==> z == y)) by (nonlinear_arith)
        requires
            (z - y) * u == (x - y) * k,
            0 < k < u,
    ;
}

/// The true range of a bar covers its own range and its way from the close before:
/// it is the largest of the three, told as a positive amount.
pub proof fn law_true_range_is_the_widest(bar: Bar, prev: Dec)
    requires
        range_of(bar, prev) is Some,
        decimal_rules(),
        short(bar.high, bar.low),
        short(bar.high, prev),
        short(bar.low, prev),
    ensures
        ({
            let r = range_of(bar, prev)->0.units();
            let own = bar.high.units() - bar.low.units();
            let up = bar.high.units() - prev.units();
            let down = bar.low.units() - prev.units();
            &&& r >= own && r >= up && r >= -up && r >= down && r >= -down
            &&& r == own || r == up || r == -up || r == down || r == -down
        }),
{
    broadcast use lemma_dec_parts;

    law_short_sums_are_exact(bar.high, bar.low);
    law_short_sums_are_exact(bar.high, prev);
    law_short_sums_are_exact(bar.low, prev);
    let hc = decimal_difference(bar.high, prev)->0;
    let lc = decimal_difference(bar.low, prev)->0;
    lemma_wf(hc);
    lemma_wf(lc);
    lemma_units_sign(hc);
    lemma_units_sign(lc);
    lemma_units_neg(negated(hc), hc);
    lemma_units_neg(negated(lc), lc);
}

/// What a close rose and fell by: neither is negative, one of them is zero, and
/// their difference is the way from the close before.
pub proof fn law_rises_and_falls(closes: Seq<Dec>, i: int)
    requires
        decimal_rules(),
        1 <= i < closes.len(),
        short(closes[i], closes[i - 1]),
    ensures
        gain_at(closes, i) matches Some(g) && g.units() >= 0,
        loss_at(closes, i) matches Some(l) && l.units() >= 0,
        gain_at(closes, i)->0.units() == 0 || loss_at(closes, i)->0.units() == 0,
        gain_at(closes, i)->0.units() - loss_at(closes, i)->0.units() == closes[i].units() - closes[i
            - 1].units(),
{
    broadcast use lemma_dec_parts;

    law_short_sums_are_exact(closes[i], closes[i - 1]);
    let d = decimal_difference(closes[i], closes[i - 1])->0;
    lemma_wf(d);
    lemma_units_sign(d);
    lemma_units_neg(negated(d), d);
    lemma_units_sign(dec(0, 0));
}

/// The relative strength: the most without a fall, the middle without either, and
/// otherwise a hundred less a hundred over one and the rises over the falls.
pub proof fn law_relative_strength(g: Dec, l: Dec)
    ensures
        l.units() == 0 && g.pos() ==> rsi_of(Some(g), Some(l)) == Some(dec(100, 0)),
        l.units() == 0 && !g.pos() ==> rsi_of(Some(g), Some(l)) == Some(dec(50, 0)),
        l.units() != 0 ==> rsi_of(Some(g), Some(l)) == n_sub(
            Some(dec(100, 0)),
            n_div(Some(dec(100, 0)), n_add(Some(dec(1, 0)), decimal_quotient(g, l))),
        ),
{
}

/// A smoothed average: times the number of values it is the old one that many times
/// less one, and the new value, wherever the decimals divide evenly.
pub proof fn law_smoothing(prev: Dec, x: Dec, period: int, total: Dec)
    requires
        decimal_rules(),
        n_add(n_mul(Some(prev), decimal_difference(dec(period, 0), dec(1, 0))), Some(x)) == Some(total),
        goes_into(dec(period, 0), total),
    ensures
        wilder(Some(prev), Some(x), period) matches Some(r) && r.units() * dec(period, 0).units()
            == total.units() * dec(1, 0).units(),
{
    law_even_quotients_are_exact(total, dec(period, 0));
}

/// Which way a bar moved: up counts where its high rose by more than its low fell,
/// down the other way round, and never both.
pub proof fn law_moves_exclude_each_other(bars: Seq<Bar>, i: int, up: Dec, down: Dec)
    requires
        1 <= i < bars.len(),
        decimal_difference(bars[i].high, bars[i - 1].high) == Some(up),
        decimal_difference(bars[i - 1].low, bars[i].low) == Some(down),
    ensures
        plus_dm(bars, i) == Some(
            if down.lt(up) && up.pos() {
                up
            } else {
                dec(0, 0)
            },
        ),
        minus_dm(bars, i) == Some(
            if up.lt(down) && down.pos() {
                down
            } else {
                dec(0, 0)
            },
        ),
{
}

/// What a bar counts in the volume-weighted mean: a third of its high, low and
/// close together, by its volume.
pub proof fn law_weighted_mean_of_one_bar(b: Bar, third: Dec)
    requires
        n_div(n_add(decimal_sum(b.high, b.low), Some(b.close)), Some(dec(3, 0))) == Some(third),
        b.volume.pos(),
        decimal_rules(),
        b.volume.wf() && third.wf(),
        decimal_product(third, b.volume) matches Some(x) && x.wf(),
    ensures
        vwap_of(seq![b]) == match n_div(decimal_product(third, b.volume), Some(b.volume)) {
            Some(x) => Some(Some(x)),
            None => None,
        },
{
    broadcast use lemma_dec_parts;

    let bars = seq![b];
    let num = |i: int| n_mul(typical(bars[i]), Some(weight(bars[i])));
    let den = |i: int| Some(weight(bars[i]));
    reveal_with_fuel(sum_at, 2);
    lemma_wf(dec(0, 0));
    let x = decimal_product(third, b.volume)->0;
    assert(sum_facts(dec(0, 0), x, decimal_sum(dec(0, 0), x)));
    assert(sum_facts(dec(0, 0), b.volume, decimal_sum(dec(0, 0), b.volume)));
    assert(sum_at(num, 0, 1) == Some(x));
    assert(sum_at(den, 0, 1) == Some(b.volume));
}

/// A sum over a stretch takes in every value of it, one by one.
pub proof fn law_sums_take_in_every_value(v: Seq<Dec>, from: int, to: int)
    requires
        0 <= from < to <= v.len(),
    ensures
        sum_between(v, from, to) == n_add(sum_between(v, from, to - 1), Some(v[to - 1])),
        sum_between(v, from, from) == Some(dec(0, 0)),
{
}

} // verus!

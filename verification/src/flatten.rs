//! Panic flatten: close every open position. Fail-closed, no invented fills.
use crate::dec::Dec;
use crate::exchange::ExchangeError;
use crate::models::{Position, Side};
use crate::text::{join, joined, own, same, split, split_on, lemma_split_nonempty, upper, views};
use crate::wire::{ask, book, done, explains, Call, Exchange, FlattenClient, Run, Wire, World};
use vstd::prelude::*;
use vstd::string::StringExecFns;

verus! {

/// What is to be closed.
#[derive(Debug)]
pub struct FlattenTarget {
    pub symbol: String,
    pub side: Side,
    pub qty: Dec,
}

/// A target with its symbol as characters.
pub struct TargetView {
    pub symbol: Seq<char>,
    pub side: Side,
    pub qty: Dec,
}

impl View for FlattenTarget {
    type V = TargetView;

    open spec fn view(&self) -> TargetView {
        TargetView { symbol: self.symbol@, side: self.side, qty: self.qty }
    }
}

impl TargetView {
    /// How a target is shown.
    pub open spec fn label(self) -> Seq<char> {
        self.side.text() + " "@ + self.symbol
    }
}

pub open spec fn target_views(v: Seq<FlattenTarget>) -> Seq<TargetView> {
    Seq::new(v.len(), |i: int| v[i]@)
}

/// What was closed, and what went wrong.
#[derive(Debug)]
pub struct FlattenResult {
    pub closed: Vec<String>,
    pub errors: Vec<String>,
}

/// The result with its texts as characters.
pub struct FlattenView {
    pub closed: Seq<Seq<char>>,
    pub errors: Seq<Seq<char>>,
}

impl View for FlattenResult {
    type V = FlattenView;

    open spec fn view(&self) -> FlattenView {
        FlattenView { closed: views(self.closed@), errors: views(self.errors@) }
    }
}

/// Nothing closed, nothing wrong.
pub open spec fn nothing_closed() -> FlattenView {
    FlattenView { closed: Seq::empty(), errors: Seq::empty() }
}

impl Default for FlattenResult {
    fn default() -> (r: Self)
        ensures
            r@ == nothing_closed(),
    {
        let r = FlattenResult { closed: Vec::new(), errors: Vec::new() };
        proof {
            assert(r@.closed =~= Seq::<Seq<char>>::empty());
            assert(r@.errors =~= Seq::<Seq<char>>::empty());
        }
        r
    }
}

/// The symbol at the end of a label.
pub open spec fn label_symbol(label: Seq<char>) -> Seq<char> {
    split(label, ' ').last()
}

/// The symbol at the end of a label.
pub fn symbol_of_label(label: &str) -> (r: String)
    ensures
        r@ == label_symbol(label@),
{
    let mut parts: Vec<String> = split_on(label, ' ');
    proof {
        lemma_split_nonempty(label@, ' ');
        assert(views(parts@).len() == parts@.len());
        assert(views(parts@).last() == parts@.last()@);
    }
    match parts.pop() {
        Some(s) => s,
        None => own(""),
    }
}

/// The symbols at the ends of labels.
pub open spec fn label_symbols(labels: Seq<Seq<char>>) -> Seq<Seq<char>> {
    Seq::new(labels.len(), |i: int| label_symbol(labels[i]))
}

impl FlattenView {
    /// The errors in one text; nothing where there is none.
    pub open spec fn error(self) -> Option<Seq<char>> {
        if self.errors.len() == 0 {
            None
        } else {
            Some(joined(self.errors, "; "@))
        }
    }
}

impl FlattenResult {
    pub fn error(&self) -> (r: Option<String>)
        ensures
            crate::models::opt_view(r) == self@.error(),
    {
        proof {
            assert(self@.errors.len() == self.errors@.len());
        }
        if self.errors.len() == 0 {
            None
        } else {
            Some(join(self.errors.as_slice(), "; "))
        }
    }

    pub fn symbols(&self) -> (r: Vec<String>)
        ensures
            views(r@) == label_symbols(self@.closed),
    {
        let ghost goal = label_symbols(self@.closed);
        let mut out: Vec<String> = Vec::new();
        let mut i: usize = 0;
        proof {
            assert(views(out@) =~= goal.take(0));
        }
        while i < self.closed.len()
            invariant
                i <= self.closed@.len(),
                goal == label_symbols(self@.closed),
                views(out@) == goal.take(i as int),
            decreases self.closed@.len() - i,
        {
            let s = symbol_of_label(self.closed[i].as_str());
            let ghost sv = s@;
            let ghost prior = views(out@);
            out.push(s);
            proof {
                assert(self@.closed[i as int] == self.closed@[i as int]@);
                assert(views(out@) =~= prior.push(sv));
                assert(goal.take(i as int + 1) =~= goal.take(i as int).push(goal[i as int]));
            }
            i = i + 1;
        }
        proof {
            assert(goal.take(i as int) =~= goal);
        }
        out
    }
}

/// A target put into a list that holds each symbol and side once: in the place
/// of the one it replaces, else at the end.
pub open spec fn put_target(v: Seq<TargetView>, t: TargetView) -> Seq<TargetView>
    decreases v.len(),
{
    if v.len() == 0 {
        seq![t]
    } else if v[0].symbol == t.symbol && v[0].side == t.side {
        v.update(0, t)
    } else {
        seq![v[0]] + put_target(v.drop_first(), t)
    }
}

/// What is to be closed: each symbol and side once, the last row counting.
pub open spec fn targets_of(positions: Seq<Position>) -> Seq<TargetView>
    decreases positions.len(),
{
    if positions.len() == 0 {
        Seq::empty()
    } else {
        let rest = targets_of(positions.drop_last());
        let p = positions.last();
        if p.qty.pos() && upper(p.symbol@).len() > 0 {
            put_target(
                rest,
                TargetView { symbol: upper(p.symbol@), side: p.side, qty: p.qty },
            )
        } else {
            rest
        }
    }
}

proof fn lemma_put_target(v: Seq<TargetView>, t: TargetView, i: int)
    requires
        0 <= i <= v.len(),
        forall|j: int| 0 <= j < i ==> (#[trigger] v[j]).symbol != t.symbol || v[j].side != t.side,
        i < v.len() ==> v[i].symbol == t.symbol && v[i].side == t.side,
    ensures
        put_target(v, t) == if i < v.len() {
            v.update(i, t)
        } else {
            v.push(t)
        },
    decreases v.len(),
{
    if v.len() == 0 {
        assert(seq![t] =~= v.push(t));
    } else if i > 0 {
        let d = v.drop_first();
        assert(v[0].symbol != t.symbol || v[0].side != t.side);
        assert forall|j: int| 0 <= j < i - 1 implies (#[trigger] d[j]).symbol != t.symbol || d[j].side
            != t.side by {
            assert(d[j] == v[j + 1]);
        }
        lemma_put_target(d, t, i - 1);
        if i < v.len() {
            assert(seq![v[0]] + d.update(i - 1, t) =~= v.update(i, t));
        } else {
            assert(seq![v[0]] + d.push(t) =~= v.push(t));
        }
    }
}

fn add_target(v: &mut Vec<FlattenTarget>, t: FlattenTarget)
    ensures
        target_views(final(v)@) == put_target(target_views(old(v)@), t@),
{
    let ghost start = target_views(v@);
    let mut i: usize = 0;
    while i < v.len()
        invariant
            i <= v@.len(),
            v@ == old(v)@,
            start == target_views(v@),
            forall|j: int|
                0 <= j < i ==> (#[trigger] start[j]).symbol != t@.symbol || start[j].side != t@.side,
        decreases v@.len() - i,
    {
        proof {
            assert(start[i as int] == v@[i as int]@);
        }
        if same(v[i].symbol.as_str(), t.symbol.as_str()) && v[i].side == t.side {
            let ghost tv = t@;
            proof {
                lemma_put_target(start, tv, i as int);
            }
            v.set(i, t);
            proof {
                assert(target_views(v@) =~= start.update(i as int, tv));
            }
            return ;
        }
        i = i + 1;
    }
    let ghost tv = t@;
    proof {
        lemma_put_target(start, tv, i as int);
    }
    v.push(t);
    proof {
        assert(target_views(v@) =~= start.push(tv));
    }
}

/// What is to be closed: each symbol and side once, the last row counting.
pub fn flatten_targets(positions: &[Position]) -> (r: Vec<FlattenTarget>)
    ensures
        target_views(r@) == targets_of(positions@),
{
    let mut out: Vec<FlattenTarget> = Vec::new();
    let mut i: usize = 0;
    proof {
        assert(target_views(out@) =~= targets_of(positions@.take(0)));
    }
    while i < positions.len()
        invariant
            i <= positions@.len(),
            target_views(out@) == targets_of(positions@.take(i as int)),
        decreases positions@.len() - i,
    {
        proof {
            assert(positions@.take(i as int + 1).drop_last() =~= positions@.take(i as int));
        }
        let p: &Position = &positions[i];
        if p.qty.is_pos() {
            let symbol = p.symbol.as_str().to_ascii_uppercase();
            if !symbol.as_str().is_empty() {
                add_target(&mut out, FlattenTarget { symbol, side: p.side, qty: p.qty });
            }
        }
        i = i + 1;
    }
    proof {
        assert(positions@.take(i as int) =~= positions@);
    }
    out
}

/// Whether no symbol is closed twice on one side.
pub open spec fn distinct_targets(v: Seq<TargetView>) -> bool {
    forall|i: int, j: int|
        0 <= i < j < v.len() ==> (#[trigger] v[i]).symbol != (#[trigger] v[j]).symbol || v[i].side
            != v[j].side
}

proof fn lemma_put_distinct(v: Seq<TargetView>, t: TargetView)
    requires
        distinct_targets(v),
        forall|i: int| 0 <= i < v.len() ==> (#[trigger] v[i]).qty.pos(),
        t.qty.pos(),
    ensures
        distinct_targets(put_target(v, t)),
        forall|i: int| 0 <= i < put_target(v, t).len() ==> (#[trigger] put_target(v, t)[i]).qty.pos(),
        put_target(v, t).contains(t),
{
    if exists|i: int| 0 <= i < v.len() && (#[trigger] v[i]).symbol == t.symbol && v[i].side == t.side {
        let i = choose|i: int|
            0 <= i < v.len() && (#[trigger] v[i]).symbol == t.symbol && v[i].side == t.side;
        assert forall|j: int| 0 <= j < i implies (#[trigger] v[j]).symbol != t.symbol || v[j].side
            != t.side by {}
        lemma_put_target(v, t, i);
        assert(put_target(v, t)[i] == t);
    } else {
        lemma_put_target(v, t, v.len() as int);
        assert(put_target(v, t)[v.len() as int] == t);
    }
}

proof fn lemma_targets_distinct(positions: Seq<Position>)
    ensures
        distinct_targets(targets_of(positions)),
        forall|i: int|
            0 <= i < targets_of(positions).len() ==> (#[trigger] targets_of(positions)[i]).qty.pos(),
    decreases positions.len(),
{
    if positions.len() > 0 {
        lemma_targets_distinct(positions.drop_last());
        let p = positions.last();
        if p.qty.pos() && upper(p.symbol@).len() > 0 {
            lemma_put_distinct(
                targets_of(positions.drop_last()),
                TargetView { symbol: upper(p.symbol@), side: p.side, qty: p.qty },
            );
        }
    }
}

/// Whether a list has a target for a symbol and side.
pub open spec fn has_target(v: Seq<TargetView>, symbol: Seq<char>, side: Side) -> bool {
    exists|i: int| 0 <= i < v.len() && (#[trigger] v[i]).symbol == symbol && v[i].side == side
}

proof fn lemma_put_covers(v: Seq<TargetView>, t: TargetView, symbol: Seq<char>, side: Side)
    requires
        has_target(v, symbol, side) || (t.symbol == symbol && t.side == side),
    ensures
        has_target(put_target(v, t), symbol, side),
    decreases v.len(),
{
    let w = put_target(v, t);
    if v.len() == 0 {
        assert(w[0] == t);
    } else if v[0].symbol == t.symbol && v[0].side == t.side {
        assert(w[0] == t);
        if has_target(v, symbol, side) {
            let i = choose|i: int|
                0 <= i < v.len() && (#[trigger] v[i]).symbol == symbol && v[i].side == side;
            assert(w[i].symbol == symbol && w[i].side == side);
        }
    } else {
        let d = v.drop_first();
        let e = put_target(d, t);
        assert(w[0] == v[0]);
        if v[0].symbol != symbol || v[0].side != side {
            if has_target(v, symbol, side) {
                let i = choose|i: int|
                    0 <= i < v.len() && (#[trigger] v[i]).symbol == symbol && v[i].side == side;
                assert(d[i - 1] == v[i]);
            }
            lemma_put_covers(d, t, symbol, side);
            let i = choose|i: int|
                0 <= i < e.len() && (#[trigger] e[i]).symbol == symbol && e[i].side == side;
            assert(w[i + 1] == e[i]);
        }
    }
}

/// Every open row has a target, no symbol is closed twice on one side, and only
/// positive quantities are closed.
pub proof fn law_every_open_row_is_closed_once(positions: Seq<Position>, k: int)
    requires
        0 <= k < positions.len(),
    ensures
        positions[k].qty.pos() && upper(positions[k].symbol@).len() > 0 ==> has_target(
            targets_of(positions),
            upper(positions[k].symbol@),
            positions[k].side,
        ),
        distinct_targets(targets_of(positions)),
        forall|i: int|
            0 <= i < targets_of(positions).len() ==> (#[trigger] targets_of(positions)[i]).qty.pos(),
    decreases positions.len(),
{
    lemma_targets_distinct(positions);
    let d = positions.drop_last();
    let p = positions.last();
    let want = upper(positions[k].symbol@);
    if positions[k].qty.pos() && want.len() > 0 {
        if k < d.len() {
            assert(d[k] == positions[k]);
            law_every_open_row_is_closed_once(d, k);
        }
        if p.qty.pos() && upper(p.symbol@).len() > 0 {
            lemma_put_covers(
                targets_of(d),
                TargetView { symbol: upper(p.symbol@), side: p.side, qty: p.qty },
                want,
                positions[k].side,
            );
        }
    }
}

/// Closes one target: its protective orders go first, and again at the end, for
/// one that survives the close could open a short.
pub open spec fn close_one(w: World, log: Seq<Exchange>, t: TargetView) -> Run<Option<Seq<char>>> {
    let a = ask(w, log, Call::CancelProtectives { symbol: t.symbol });
    match done(a.out) {
        Err(e) => Run { log: a.log, out: Some(e) },
        Ok(_) => {
            let b = ask(
                w,
                a.log,
                Call::MarketClose { symbol: t.symbol, side: t.side.text(), qty: t.qty },
            );
            match done(b.out) {
                Err(e) => Run { log: b.log, out: Some(e) },
                Ok(_) => Run {
                    log: ask(w, b.log, Call::CancelProtectives { symbol: t.symbol }).log,
                    out: None,
                },
            }
        },
    }
}

/// Closes the first `n` targets.
pub open spec fn close_run(w: World, log: Seq<Exchange>, targets: Seq<TargetView>, n: int) -> Run<
    FlattenView,
>
    decreases n,
{
    if n <= 0 {
        Run { log, out: nothing_closed() }
    } else {
        let a = close_run(w, log, targets, n - 1);
        let t = targets[n - 1];
        let b = close_one(w, a.log, t);
        Run {
            log: b.log,
            out: match b.out {
                None => FlattenView { closed: a.out.closed.push(t.label()), ..a.out },
                Some(e) => FlattenView {
                    errors: a.out.errors.push(t.symbol + ": "@ + e),
                    ..a.out
                },
            },
        }
    }
}

fn close_target<C: FlattenClient>(wire: &mut Wire<C>, t: &FlattenTarget) -> (r: Option<
    ExchangeError,
>)
    ensures
        forall|w: World| #[trigger]
            explains(w, final(wire).log()) ==> explains(w, old(wire).log()) && close_one(
                w,
                old(wire).log(),
                t@,
            ) == (Run {
                log: final(wire).log(),
                out: match r {
                    Some(e) => Some(e@),
                    None => None,
                },
            }),
{
    if let Err(e) = wire.cancel_protectives(t.symbol.as_str()) {
        return Some(e);
    }
    if let Err(e) = wire.market_close(t.symbol.as_str(), t.side.as_str(), t.qty) {
        return Some(e);
    }
    let _ = wire.cancel_protectives(t.symbol.as_str());
    None
}

/// Closes positions, each symbol and side once.
pub fn close_targets<C: FlattenClient>(wire: &mut Wire<C>, positions: &[Position]) -> (r: FlattenResult)
    ensures
        forall|w: World| #[trigger]
            explains(w, final(wire).log()) ==> explains(w, old(wire).log()) && close_run(
                w,
                old(wire).log(),
                targets_of(positions@),
                targets_of(positions@).len() as int,
            ) == (Run { log: final(wire).log(), out: r@ }),
{
    let targets: Vec<FlattenTarget> = flatten_targets(positions);
    let ghost all = targets_of(positions@);
    let ghost start = wire.log();
    let mut out: FlattenResult = FlattenResult::default();
    let mut i: usize = 0;
    proof {
        assert(all.len() == targets@.len());
    }
    while i < targets.len()
        invariant
            i <= targets@.len(),
            all == target_views(targets@),
            forall|w: World| #[trigger]
                explains(w, wire.log()) ==> explains(w, start) && close_run(w, start, all, i as int)
                    == (Run { log: wire.log(), out: out@ }),
        decreases targets@.len() - i,
    {
        let t: &FlattenTarget = &targets[i];
        let ghost before = wire.log();
        let ghost shown = out@;
        proof {
            assert(all[i as int] == t@);
        }
        match close_target(wire, t) {
            None => {
                let mut label = own(t.side.as_str());
                label.append(" ");
                label.append(t.symbol.as_str());
                let ghost lv = label@;
                out.closed.push(label);
                proof {
                    assert(out@.closed =~= shown.closed.push(lv));
                }
            },
            Some(e) => {
                let mut text = own(t.symbol.as_str());
                text.append(": ");
                text.append(e.0.as_str());
                let ghost tv = text@;
                out.errors.push(text);
                proof {
                    assert(out@.errors =~= shown.errors.push(tv));
                }
            },
        }
        i = i + 1;
    }
    out
}

/// A refusal to close anything.
pub open spec fn refused(why: Seq<char>) -> FlattenView {
    FlattenView { closed: Seq::empty(), errors: seq![why] }
}

/// A refusal to close anything.
pub fn refuse(why: &str) -> (r: FlattenResult)
    ensures
        r@ == refused(why@),
{
    let mut r: FlattenResult = FlattenResult::default();
    r.errors.push(own(why));
    proof {
        assert(r@.errors =~= seq![why@]);
    }
    r
}

/// Closing everything, where the desk is live and has keys.
pub open spec fn close_all_run(
    w: World,
    log: Seq<Exchange>,
    live: bool,
    has_credentials: bool,
    positions: Seq<Position>,
) -> Run<FlattenView> {
    if !live {
        Run { log, out: refused("flatten refused: not live"@) }
    } else if !has_credentials {
        Run { log, out: refused("flatten refused: no credentials"@) }
    } else {
        close_run(w, log, targets_of(positions), targets_of(positions).len() as int)
    }
}

pub fn close_all_positions<C: FlattenClient>(
    live: bool,
    has_credentials: bool,
    wire: &mut Wire<C>,
    positions: &[Position],
) -> (r: FlattenResult)
    ensures
        forall|w: World| #[trigger]
            explains(w, final(wire).log()) ==> explains(w, old(wire).log()) && close_all_run(
                w,
                old(wire).log(),
                live,
                has_credentials,
                positions@,
            ) == (Run { log: final(wire).log(), out: r@ }),
{
    if !live {
        return refuse("flatten refused: not live");
    }
    if !has_credentials {
        return refuse("flatten refused: no credentials");
    }
    close_targets(wire, positions)
}

/// The labels of positions.
pub open spec fn position_labels(v: Seq<Position>) -> Seq<Seq<char>> {
    crate::engine::tick::row_labels(v)
}

/// Closing whatever the exchange lists as open, then looking again.
pub open spec fn flatten_run(w: World, log: Seq<Exchange>) -> Run<FlattenView> {
    let a = ask(w, log, Call::PositionRisk);
    match book(a.out) {
        Err(e) => Run {
            log: a.log,
            out: refused("не удалось прочитать позиции: "@ + e),
        },
        Ok(rows) => if rows.len() == 0 {
            Run { log: a.log, out: nothing_closed() }
        } else {
            let b = close_run(w, a.log, targets_of(rows), targets_of(rows).len() as int);
            if b.out.closed.len() == 0 {
                b
            } else {
                let c = ask(w, b.log, Call::PositionRisk);
                match book(c.out) {
                    Ok(still) => if still.len() > 0 {
                        Run {
                            log: c.log,
                            out: FlattenView {
                                errors: b.out.errors.push(
                                    "ещё открыты: "@ + joined(position_labels(still), ", "@),
                                ),
                                ..b.out
                            },
                        }
                    } else {
                        Run { log: c.log, out: b.out }
                    },
                    Err(_) => Run { log: c.log, out: b.out },
                }
            }
        },
    }
}

/// Closes whatever the exchange lists as open, and says what is still open.
pub fn flatten_open_book<C: FlattenClient>(wire: &mut Wire<C>) -> (r: FlattenResult)
    ensures
        forall|w: World| #[trigger]
            explains(w, final(wire).log()) ==> explains(w, old(wire).log()) && flatten_run(
                w,
                old(wire).log(),
            ) == (Run { log: final(wire).log(), out: r@ }),
{
    let positions: Vec<Position> = match wire.fetch_book() {
        Ok(v) => v,
        Err(e) => {
            let mut text = own("не удалось прочитать позиции: ");
            text.append(e.0.as_str());
            return refuse(text.as_str());
        },
    };
    if positions.len() == 0 {
        return FlattenResult::default();
    }
    let mut result: FlattenResult = close_targets(wire, positions.as_slice());
    proof {
        assert(result@.closed.len() == result.closed@.len());
    }
    if result.closed.len() == 0 {
        return result;
    }
    if let Ok(still) = wire.fetch_book() {
        if still.len() > 0 {
            let labels: Vec<String> = crate::engine::tick::label_rows(still.as_slice());
            let mut text = own("ещё открыты: ");
            text.append(join(labels.as_slice(), ", ").as_str());
            let ghost before = result@;
            let ghost tv = text@;
            result.errors.push(text);
            proof {
                assert(result@.errors =~= before.errors.push(tv));
            }
        }
    }
    result
}

/// Every target ends either among what was closed or among the errors.
pub proof fn law_flatten_accounts_for_every_target(
    w: World,
    log: Seq<Exchange>,
    targets: Seq<TargetView>,
    n: int,
)
    requires
        0 <= n <= targets.len(),
    ensures
        ({
            let out = close_run(w, log, targets, n).out;
            out.closed.len() + out.errors.len() == n
        }),
    decreases n,
{
    if n > 0 {
        law_flatten_accounts_for_every_target(w, log, targets, n - 1);
    }
}

/// Whether a question is one of a flatten of some targets: a target's protective
/// orders are cancelled, or all of a target is closed on the side on which it is
/// held.
pub open spec fn is_of_flatten(x: Exchange, targets: Seq<TargetView>) -> bool {
    exists|i: int|
        0 <= i < targets.len() && (x.call == (Call::CancelProtectives {
            symbol: (#[trigger] targets[i]).symbol,
        }) || x.call == (Call::MarketClose {
            symbol: targets[i].symbol,
            side: if targets[i].side == Side::Long {
                "LONG"@
            } else {
                "SHORT"@
            },
            qty: targets[i].qty,
        }))
}

/// A flatten keeps what was asked before, and asks nothing but to cancel the
/// protective orders of a target and to close all of it on its own side.
pub proof fn law_flatten_closes_whole_targets(
    w: World,
    log: Seq<Exchange>,
    targets: Seq<TargetView>,
    n: int,
)
    requires
        0 <= n <= targets.len(),
    ensures
        ({
            let r = close_run(w, log, targets, n).log;
            &&& log.len() <= r.len()
            &&& forall|k: int| 0 <= k < log.len() ==> #[trigger] r[k] == log[k]
            &&& forall|k: int| log.len() <= k < r.len() ==> is_of_flatten(#[trigger] r[k], targets)
        }),
    decreases n,
{
    if n > 0 {
        law_flatten_closes_whole_targets(w, log, targets, n - 1);
        let a = close_run(w, log, targets, n - 1).log;
        let r = close_run(w, log, targets, n).log;
        let t = targets[n - 1];
        assert forall|k: int| log.len() <= k < r.len() implies is_of_flatten(
            #[trigger] r[k],
            targets,
        ) by {
            if k < a.len() {
                assert(r[k] == a[k]);
            } else {
                assert(targets[n - 1] == t);
            }
        }
    }
}

/// How one target is closed: its protective orders are cancelled, then all of it
/// is closed, then its protective orders are cleared once more. It counts as
/// closed exactly where the exchange took the first two.
pub proof fn law_flatten_of_one_target(w: World, log: Seq<Exchange>, t: TargetView)
    ensures
        ({
            let n = log.len() as int;
            let r = close_run(w, log, seq![t], 1);
            &&& n < r.log.len()
            &&& r.log[n].call == (Call::CancelProtectives { symbol: t.symbol })
            &&& done(w(n)) is Err ==> r.log.len() == n + 1
            &&& done(w(n)) is Ok ==> {
                &&& n + 1 < r.log.len()
                &&& r.log[n + 1].call == (Call::MarketClose {
                    symbol: t.symbol,
                    side: if t.side == Side::Long {
                        "LONG"@
                    } else {
                        "SHORT"@
                    },
                    qty: t.qty,
                })
            }
            &&& r.out.closed.len() == 1 <==> done(w(n)) is Ok && done(w(n + 1)) is Ok
            &&& r.out.errors.len() == 1 <==> !(done(w(n)) is Ok && done(w(n + 1)) is Ok)
            &&& r.out.closed.len() == 1 ==> r.log.len() == n + 3 && r.log[n + 2].call == (
            Call::CancelProtectives { symbol: t.symbol })
        }),
{
    reveal_with_fuel(close_run, 2);
    assert(seq![t][0] == t);
}

proof fn lemma_put_target_rows(v: Seq<TargetView>, t: TargetView, i: int)
    requires
        0 <= i < put_target(v, t).len(),
    ensures
        put_target(v, t)[i] == t || v.contains(put_target(v, t)[i]),
    decreases v.len(),
{
    if v.len() > 0 && !(v[0].symbol == t.symbol && v[0].side == t.side) {
        let rest = v.drop_first();
        if i > 0 {
            lemma_put_target_rows(rest, t, i - 1);
            assert(put_target(v, t)[i] == put_target(rest, t)[i - 1]);
            if rest.contains(put_target(rest, t)[i - 1]) {
                let j = choose|j: int| 0 <= j < rest.len() && rest[j] == put_target(rest, t)[i - 1];
                assert(v[j + 1] == rest[j]);
            }
        } else {
            assert(v[0] == put_target(v, t)[0]);
        }
    } else if v.len() > 0 {
        if i > 0 {
            assert(v[i] == put_target(v, t)[i]);
        }
    }
}

/// What is closed was held: each target is an open row's name, side and whole
/// quantity.
pub proof fn law_targets_are_open_rows(positions: Seq<Position>, i: int)
    requires
        0 <= i < targets_of(positions).len(),
    ensures
        exists|k: int|
            0 <= k < positions.len() && upper((#[trigger] positions[k]).symbol@) == targets_of(
                positions,
            )[i].symbol && positions[k].side == targets_of(positions)[i].side && positions[k].qty
                == targets_of(positions)[i].qty && positions[k].qty.pos(),
    decreases positions.len(),
{
    let d = positions.drop_last();
    let p = positions.last();
    let rest = targets_of(d);
    let goal = targets_of(positions)[i];
    if p.qty.pos() && upper(p.symbol@).len() > 0 {
        let t = TargetView { symbol: upper(p.symbol@), side: p.side, qty: p.qty };
        lemma_put_target_rows(rest, t, i);
        if goal == t {
            assert(positions[positions.len() - 1] == p);
        } else {
            let j = choose|j: int| 0 <= j < rest.len() && rest[j] == goal;
            law_targets_are_open_rows(d, j);
            let k = choose|k: int|
                0 <= k < d.len() && upper((#[trigger] d[k]).symbol@) == rest[j].symbol && d[k].side
                    == rest[j].side && d[k].qty == rest[j].qty && d[k].qty.pos();
            assert(positions[k] == d[k]);
        }
    } else {
        law_targets_are_open_rows(d, i);
        let k = choose|k: int|
            0 <= k < d.len() && upper((#[trigger] d[k]).symbol@) == rest[i].symbol && d[k].side
                == rest[i].side && d[k].qty == rest[i].qty && d[k].qty.pos();
        assert(positions[k] == d[k]);
    }
}

} // verus!

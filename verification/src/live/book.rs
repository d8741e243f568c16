//! What live trading reads of the book: which long is meant, what is held, and
//! at what price.
use crate::config::load::{Config, ConfigView};
use crate::dec::{dec, n_add, n_mul, plus, times, Dec, Num};
use crate::models::{opt_deref, EngineState, EngineStateView, MarketSnapshot, Position, Side};
use crate::ranking::{find_priced, priced_row};
use crate::text::{listed, own, same, upper, views};
use vstd::prelude::*;

verus! {

/// The view of an optional state.
pub open spec fn state_view(s: Option<&EngineState>) -> Option<EngineStateView> {
    match s {
        Some(x) => Some(x@),
        None => None,
    }
}

/// A list of the value that is there.
pub open spec fn one_or_none(p: Option<Position>) -> Seq<Position> {
    match p {
        Some(x) => seq![x],
        None => Seq::empty(),
    }
}

/// All rows that the snapshot and the state have.
pub open spec fn known_rows(s: MarketSnapshot, st: Option<EngineStateView>) -> Seq<Position> {
    one_or_none(s.position) + s.open_positions@ + match st {
        Some(x) => one_or_none(x.position) + x.positions,
        None => Seq::empty(),
    }
}

/// Appends copies of rows.
pub fn append_rows(out: &mut Vec<Position>, rows: &[Position])
    ensures
        final(out)@ == old(out)@ + rows@,
{
    let ghost start = out@;
    let mut i: usize = 0;
    proof {
        assert(start + rows@.take(0) =~= start);
    }
    while i < rows.len()
        invariant
            i <= rows@.len(),
            out@ == start + rows@.take(i as int),
        decreases rows@.len() - i,
    {
        out.push(rows[i].clone());
        proof {
            assert(start + rows@.take(i as int + 1) =~= (start + rows@.take(i as int)).push(
                rows@[i as int],
            ));
        }
        i = i + 1;
    }
    proof {
        assert(rows@.take(i as int) =~= rows@);
    }
}

/// Appends a copy of the row that is there.
pub fn append_slot(out: &mut Vec<Position>, slot: &Option<Position>)
    ensures
        final(out)@ == old(out)@ + one_or_none(*slot),
{
    let ghost start = out@;
    match slot {
        Some(p) => {
            out.push(p.clone());
            proof {
                assert(out@ =~= start + seq![*p]);
            }
        },
        None => {
            proof {
                assert(out@ =~= start + Seq::<Position>::empty());
            }
        },
    }
}

fn list_known_rows(s: &MarketSnapshot, st: Option<&EngineState>) -> (r: Vec<Position>)
    ensures
        r@ == known_rows(*s, state_view(st)),
{
    let mut out: Vec<Position> = Vec::new();
    append_slot(&mut out, &s.position);
    append_rows(&mut out, s.open_positions.as_slice());
    if let Some(x) = st {
        append_slot(&mut out, &x.position);
        append_rows(&mut out, x.positions.as_slice());
    }
    proof {
        assert(out@ =~= known_rows(*s, state_view(st)));
    }
    out
}

/// The names of the first `n` rows with a quantity, each once, after those that
/// are listed already.
pub open spec fn names_added(v: Seq<Seq<char>>, rows: Seq<Position>, longs_only: bool, n: int) -> Seq<
    Seq<char>,
>
    decreases n,
{
    if n <= 0 {
        v
    } else {
        let rest = names_added(v, rows, longs_only, n - 1);
        let p = rows[n - 1];
        if p.qty.pos() && (!longs_only || p.side == Side::Long) && !rest.contains(p.symbol@) {
            rest.push(p.symbol@)
        } else {
            rest
        }
    }
}

fn add_names(v: &mut Vec<String>, rows: &[Position], longs_only: bool)
    ensures
        views(final(v)@) == names_added(views(old(v)@), rows@, longs_only, rows@.len() as int),
{
    let ghost start = views(v@);
    let mut i: usize = 0;
    while i < rows.len()
        invariant
            i <= rows@.len(),
            views(v@) == names_added(start, rows@, longs_only, i as int),
        decreases rows@.len() - i,
    {
        let p: &Position = &rows[i];
        if p.qty.is_pos() && (!longs_only || p.side == Side::Long) && !listed(
            v.as_slice(),
            p.symbol.as_str(),
        ) {
            let ghost before = views(v@);
            v.push(own(p.symbol.as_str()));
            proof {
                assert(views(v@) =~= before.push(p.symbol@));
            }
        }
        i = i + 1;
    }
}

/// What is held: by what is known, and by the longs that the exchange lists.
pub open spec fn held_names(s: MarketSnapshot, st: Option<EngineStateView>, book: Seq<Position>) -> Seq<
    Seq<char>,
> {
    let known = known_rows(s, st);
    names_added(
        names_added(Seq::empty(), known, false, known.len() as int),
        book,
        true,
        book.len() as int,
    )
}

/// What is held: by what is known, and by the longs that the exchange lists.
pub fn list_held(s: &MarketSnapshot, st: Option<&EngineState>, book: &[Position]) -> (r: Vec<String>)
    ensures
        views(r@) == held_names(*s, state_view(st), book@),
{
    let known: Vec<Position> = list_known_rows(s, st);
    let mut out: Vec<String> = Vec::new();
    proof {
        assert(views(out@) =~= Seq::<Seq<char>>::empty());
    }
    add_names(&mut out, known.as_slice(), false);
    add_names(&mut out, book, true);
    out
}

/// How many of the first `n` names are not empty.
pub open spec fn named_count(v: Seq<Seq<char>>, n: int) -> int
    decreases n,
{
    if n <= 0 {
        0
    } else {
        named_count(v, n - 1) + if v[n - 1].len() > 0 {
            1int
        } else {
            0
        }
    }
}

/// How many names are not empty.
pub fn count_named(v: &[String]) -> (r: usize)
    ensures
        r == named_count(views(v@), v@.len() as int),
        r <= v@.len(),
{
    let mut n: usize = 0;
    let mut i: usize = 0;
    while i < v.len()
        invariant
            i <= v@.len(),
            n <= i,
            n == named_count(views(v@), i as int),
        decreases v@.len() - i,
    {
        proof {
            assert(views(v@)[i as int] == v@[i as int]@);
        }
        if !v[i].as_str().is_empty() {
            n = n + 1;
        }
        i = i + 1;
    }
    n
}

/// The position that a decision is about: by the state first, then by the
/// snapshot. Without a symbol, the slot of the snapshot, else of the state.
pub open spec fn position_of(s: MarketSnapshot, st: Option<EngineStateView>, symbol: Seq<char>) -> Option<
    Position,
> {
    let slot = match st {
        Some(x) => x.position,
        None => None,
    };
    let listed = match st {
        Some(x) => crate::models::with_symbol(x.positions, symbol),
        None => None,
    };
    if symbol.len() == 0 {
        crate::models::first_of(s.position, slot)
    } else if slot is Some && slot->0.symbol@ == symbol {
        slot
    } else if listed is Some {
        listed
    } else if s.position is Some && s.position->0.symbol@ == symbol {
        s.position
    } else {
        crate::models::with_symbol(s.open_positions@, symbol)
    }
}

/// The position that a decision is about.
pub fn position_for(s: &MarketSnapshot, st: Option<&EngineState>, symbol: &str) -> (r: Option<
    Position,
>)
    ensures
        r == position_of(*s, state_view(st), symbol@),
{
    if symbol.is_empty() {
        if let Some(p) = &s.position {
            return Some(p.clone());
        }
        return match st {
            Some(x) => match &x.position {
                Some(p) => Some(p.clone()),
                None => None,
            },
            None => None,
        };
    }
    if let Some(x) = st {
        if let Some(p) = &x.position {
            if same(p.symbol.as_str(), symbol) {
                return Some(p.clone());
            }
        }
        if let Some(p) = crate::models::find_symbol(x.positions.as_slice(), symbol) {
            return Some(p.clone());
        }
    }
    if let Some(p) = &s.position {
        if same(p.symbol.as_str(), symbol) {
            return Some(p.clone());
        }
    }
    match crate::models::find_symbol(s.open_positions.as_slice(), symbol) {
        Some(p) => Some(p.clone()),
        None => None,
    }
}

/// The first row with a quantity and a symbol; any symbol where none is asked.
pub open spec fn held_row(v: Seq<Position>, want: Seq<char>) -> Option<Position>
    decreases v.len(),
{
    if v.len() == 0 {
        None
    } else if v[0].qty.pos() && (want.len() == 0 || v[0].symbol@ == want) {
        Some(v[0])
    } else {
        held_row(v.drop_first(), want)
    }
}

proof fn lemma_held_skip(v: Seq<Position>, want: Seq<char>, n: int)
    requires
        0 <= n <= v.len(),
        forall|j: int|
            0 <= j < n ==> !((#[trigger] v[j]).qty.pos() && (want.len() == 0 || v[j].symbol@ == want)),
    ensures
        held_row(v, want) == held_row(v.skip(n), want),
    decreases n,
{
    if n == 0 {
        assert(v.skip(0) =~= v);
    } else {
        assert(!(v[0].qty.pos() && (want.len() == 0 || v[0].symbol@ == want)));
        let d = v.drop_first();
        assert forall|j: int| 0 <= j < n - 1 implies !((#[trigger] d[j]).qty.pos() && (want.len() == 0
            || d[j].symbol@ == want)) by {
            assert(d[j] == v[j + 1]);
        }
        lemma_held_skip(d, want, n - 1);
        assert(d.skip(n - 1) =~= v.skip(n));
    }
}

/// The first row with a quantity and a symbol.
pub fn find_held<'a>(v: &'a [Position], want: &str) -> (r: Option<&'a Position>)
    ensures
        opt_deref(r) == held_row(v@, want@),
{
    let any: bool = want.is_empty();
    let mut i: usize = 0;
    while i < v.len()
        invariant
            i <= v@.len(),
            any == (want@.len() == 0),
            forall|j: int|
                0 <= j < i ==> !((#[trigger] v@[j]).qty.pos() && (want@.len() == 0 || v@[j].symbol@
                    == want@)),
        decreases v@.len() - i,
    {
        if v[i].qty.is_pos() && (any || same(v[i].symbol.as_str(), want)) {
            proof {
                lemma_held_skip(v@, want@, i as int);
                assert(v@.skip(i as int)[0] == v@[i as int]);
            }
            return Some(&v[i]);
        }
        i = i + 1;
    }
    proof {
        lemma_held_skip(v@, want@, v@.len() as int);
        assert(v@.skip(v@.len() as int) =~= Seq::<Position>::empty());
    }
    None
}

/// The rows of the snapshot: the book, then the slot.
pub open spec fn snapshot_rows(s: MarketSnapshot) -> Seq<Position> {
    s.open_positions@ + one_or_none(s.position)
}

/// The rows of the snapshot: the book, then the slot.
pub fn list_snapshot_rows(s: &MarketSnapshot) -> (r: Vec<Position>)
    ensures
        r@ == snapshot_rows(*s),
{
    let mut out: Vec<Position> = Vec::new();
    append_rows(&mut out, s.open_positions.as_slice());
    append_slot(&mut out, &s.position);
    proof {
        assert(out@ =~= snapshot_rows(*s));
    }
    out
}

/// The open row of a symbol in the snapshot.
pub open spec fn snapshot_row(s: MarketSnapshot, symbol: Seq<char>) -> Option<Position> {
    held_row(snapshot_rows(s), upper(symbol))
}

/// The open row of a symbol in the snapshot.
pub fn find_snapshot_row(s: &MarketSnapshot, symbol: &str) -> (r: Option<Position>)
    ensures
        r == snapshot_row(*s, symbol@),
{
    let rows: Vec<Position> = list_snapshot_rows(s);
    let want = symbol.to_ascii_uppercase();
    match find_held(rows.as_slice(), want.as_str()) {
        Some(p) => Some(p.clone()),
        None => None,
    }
}

/// Whether the snapshot shows an open long of a symbol: the first open row of
/// it, or another one of the book.
pub open spec fn shows_long(s: MarketSnapshot, symbol: Seq<char>) -> bool {
    ||| snapshot_row(s, symbol) is Some && snapshot_row(s, symbol)->0.side == Side::Long
    ||| symbol.len() > 0 && crate::models::with_symbol(
        crate::models::open_longs(s.open_positions@),
        upper(symbol),
    ) is Some
}

/// Whether the snapshot shows an open long of a symbol.
pub fn has_long(s: &MarketSnapshot, symbol: &str) -> (r: bool)
    ensures
        r == shows_long(*s, symbol@),
{
    if let Some(row) = find_snapshot_row(s, symbol) {
        if row.side == Side::Long {
            return true;
        }
    }
    if symbol.is_empty() {
        return false;
    }
    let longs: Vec<Position> = crate::models::open_long_rows(s.open_positions.as_slice());
    let want = symbol.to_ascii_uppercase();
    crate::models::find_symbol(longs.as_slice(), want.as_str()).is_some()
}

/// The symbol that a decision without one is about.
pub open spec fn hinted_symbol(s: MarketSnapshot, st: Option<EngineStateView>) -> Seq<char> {
    let slot = match st {
        Some(x) => x.position,
        None => None,
    };
    if s.position is Some && s.position->0.qty.pos() {
        s.position->0.symbol@
    } else if slot is Some && slot->0.qty.pos() {
        slot->0.symbol@
    } else {
        match held_row(s.open_positions@, Seq::empty()) {
            Some(p) => p.symbol@,
            None => Seq::empty(),
        }
    }
}

/// The symbol that a decision without one is about.
pub fn symbol_hint(s: &MarketSnapshot, st: Option<&EngineState>) -> (r: String)
    ensures
        r@ == hinted_symbol(*s, state_view(st)),
{
    if let Some(p) = &s.position {
        if p.qty.is_pos() {
            return own(p.symbol.as_str());
        }
    }
    if let Some(x) = st {
        if let Some(p) = &x.position {
            if p.qty.is_pos() {
                return own(p.symbol.as_str());
            }
        }
    }
    proof {
        reveal_strlit("");
        assert(""@ =~= Seq::<char>::empty());
    }
    match find_held(s.open_positions.as_slice(), "") {
        Some(p) => own(p.symbol.as_str()),
        None => own(""),
    }
}

/// What a symbol trades at: its ticker, else the last close of the chart.
pub open spec fn mark_of(s: MarketSnapshot, symbol: Seq<char>) -> Option<Dec> {
    match priced_row(s.tickers@, symbol) {
        Some(t) => Some(t.last_price),
        None => if s.bars@.len() > 0 && s.bars@.last().close.pos() {
            Some(s.bars@.last().close)
        } else {
            None
        },
    }
}

/// What a symbol trades at: its ticker, else the last close of the chart.
pub fn mark_for_symbol(s: &MarketSnapshot, symbol: &str) -> (r: Option<Dec>)
    ensures
        r == mark_of(*s, symbol@),
{
    if let Some(t) = find_priced(s.tickers.as_slice(), symbol) {
        return Some(t.last_price);
    }
    let n: usize = s.bars.len();
    if n > 0 && s.bars[n - 1].close.is_pos() {
        return Some(s.bars[n - 1].close);
    }
    None
}

/// What a symbol trades at, else the given price.
pub open spec fn mark_or(s: MarketSnapshot, symbol: Seq<char>, entry: Dec) -> Dec {
    match mark_of(s, symbol) {
        Some(m) => m,
        None => entry,
    }
}

/// What a symbol trades at, else the given price.
pub fn mark_or_entry(s: &MarketSnapshot, symbol: &str, entry: Dec) -> (r: Dec)
    ensures
        r == mark_or(*s, symbol@, entry),
{
    match mark_for_symbol(s, symbol) {
        Some(m) => m,
        None => entry,
    }
}

/// The leverage of the first row of a symbol that says one.
pub open spec fn row_leverage(v: Seq<Position>, symbol: Seq<char>) -> Option<i32>
    decreases v.len(),
{
    if v.len() == 0 {
        None
    } else if v[0].symbol@ == symbol && v[0].leverage > 0 {
        Some(v[0].leverage)
    } else {
        row_leverage(v.drop_first(), symbol)
    }
}

/// The leverage of an order: as set, else as the book says, else 20.
pub open spec fn leverage_of(cfg: ConfigView, s: MarketSnapshot, symbol: Seq<char>) -> i32 {
    match cfg.leverage {
        Some(l) => l,
        None => match row_leverage(snapshot_rows(s), symbol) {
            Some(l) => l,
            None => 20,
        },
    }
}

/// The leverage of an order: as set, else as the book says, else 20.
pub fn leverage_for(cfg: &Config, s: &MarketSnapshot, symbol: &str) -> (r: i32)
    ensures
        r == leverage_of(cfg@, *s, symbol@),
{
    if let Some(l) = cfg.leverage {
        return l;
    }
    let rows: Vec<Position> = list_snapshot_rows(s);
    let mut i: usize = 0;
    proof {
        assert(rows@.skip(0) =~= rows@);
    }
    while i < rows.len()
        invariant
            i <= rows@.len(),
            rows@ == snapshot_rows(*s),
            cfg@.leverage is None,
            row_leverage(rows@, symbol@) == row_leverage(rows@.skip(i as int), symbol@),
        decreases rows@.len() - i,
    {
        let ghost rest = rows@.skip(i as int);
        proof {
            assert(rest[0] == rows@[i as int]);
            assert(rest.drop_first() =~= rows@.skip(i as int + 1));
        }
        if same(rows[i].symbol.as_str(), symbol) && rows[i].leverage > 0 {
            return rows[i].leverage;
        }
        i = i + 1;
    }
    20
}

/// What the first `n` rows of a symbol are worth, each side once.
pub open spec fn worth(rows: Seq<Position>, symbol: Seq<char>, mark: Dec, n: int) -> Worth
    decreases n,
{
    if n <= 0 {
        Worth { total: Some(dec(0, 0)), long: false, short: false }
    } else {
        let rest = worth(rows, symbol, mark, n - 1);
        let p = rows[n - 1];
        let seen = if p.side == Side::Long {
            rest.long
        } else {
            rest.short
        };
        if p.symbol@ != symbol || !p.qty.pos() || seen {
            rest
        } else {
            Worth {
                total: n_add(rest.total, n_mul(Some(p.qty), Some(mark))),
                long: rest.long || p.side == Side::Long,
                short: rest.short || p.side == Side::Short,
            }
        }
    }
}

/// A sum over rows, and which sides it has counted.
pub struct Worth {
    pub total: Num,
    pub long: bool,
    pub short: bool,
}

proof fn lemma_worth_none(rows: Seq<Position>, symbol: Seq<char>, mark: Dec, n: int, m: int)
    requires
        0 <= n <= m,
        worth(rows, symbol, mark, n).total is None,
    ensures
        worth(rows, symbol, mark, m).total is None,
    decreases m - n,
{
    if n < m {
        lemma_worth_none(rows, symbol, mark, n, m - 1);
    }
}

/// What is open of a symbol, at a price.
pub open spec fn open_worth(s: MarketSnapshot, symbol: Seq<char>, mark: Dec) -> Num {
    worth(snapshot_rows(s), symbol, mark, snapshot_rows(s).len() as int).total
}

/// What is open of a symbol, at a price; each side counts once.
pub fn existing_notional(s: &MarketSnapshot, symbol: &str, mark: Dec) -> (r: Num)
    ensures
        r == open_worth(*s, symbol@, mark),
{
    let rows: Vec<Position> = list_snapshot_rows(s);
    let mut total: Dec = Dec::zero();
    let mut long: bool = false;
    let mut short: bool = false;
    let mut i: usize = 0;
    while i < rows.len()
        invariant
            i <= rows@.len(),
            rows@ == snapshot_rows(*s),
            worth(rows@, symbol@, mark, i as int) == (Worth { total: Some(total), long, short }),
        decreases rows@.len() - i,
    {
        let p: &Position = &rows[i];
        let seen: bool = if p.side == Side::Long {
            long
        } else {
            short
        };
        if same(p.symbol.as_str(), symbol) && p.qty.is_pos() && !seen {
            match plus(Some(total), times(Some(p.qty), Some(mark))) {
                Some(t) => {
                    total = t;
                },
                None => {
                    proof {
                        lemma_worth_none(rows@, symbol@, mark, i as int + 1, rows@.len() as int);
                    }
                    return None;
                },
            }
            long = long || p.side == Side::Long;
            short = short || p.side == Side::Short;
        }
        i = i + 1;
    }
    Some(total)
}

} // verus!

//! Rank USDT-M futures tickers by 24h rise. Highest percent wins.
use crate::dec::{dec, n_mul, times, Dec};
use crate::json::{amount_in, Json};
use crate::models::{
    near_24h_high, near_high, reads_row, row_error, row_symbol, ticker_from_mapping, Ticker,
};
use crate::text::{
    before, ends, ends_with, lower, same, starts_with, stands_at, strip_ending, text_lt, to_chars,
    trim, trimmed, upper, views, without_ending,
};
use vstd::prelude::*;

verus! {

/// The majors that scalp and trend trade.
pub open spec fn is_liquid_major(symbol: Seq<char>) -> bool {
    symbol == "BTCUSDT"@ || symbol == "ETHUSDT"@ || symbol == "SOLUSDT"@
}

pub fn is_major_symbol(symbol: &str) -> (r: bool)
    ensures
        r == is_liquid_major(symbol@),
{
    same(symbol, "BTCUSDT") || same(symbol, "ETHUSDT") || same(symbol, "SOLUSDT")
}

/// The momentum book buys names with at least this 24h percent: 0.4.
pub fn momentum_min_change_percent() -> (r: Dec)
    ensures
        r == dec(4, 1),
{
    Dec::new(4, 1)
}

/// An upper-case ASCII letter or a digit.
pub open spec fn is_symbol_char(c: char) -> bool {
    'A' <= c <= 'Z' || '0' <= c <= '9'
}

/// Two to twenty letters or digits, then `USDT`.
pub open spec fn is_usdt_name(s: Seq<char>) -> bool {
    &&& ends(s, "USDT"@)
    &&& 6 <= s.len() <= 24
    &&& forall|i: int| 0 <= i < s.len() - 4 ==> is_symbol_char(#[trigger] s[i])
}

/// The base of an upper-case, trimmed symbol.
pub open spec fn base_name(symbol: Seq<char>) -> Seq<char> {
    without_ending(upper(trimmed(symbol)), "USDT"@)
}

/// Levered 1000x names and the meme tape.
pub open spec fn is_junk(symbol: Seq<char>) -> bool {
    let b = base_name(symbol);
    ||| stands_at(b, "1000"@, 0)
    ||| stands_at(b, "1M"@, 0)
    ||| b == "FARTCOIN"@
    ||| b == "DOGS"@
    ||| b == "BRETT"@
    ||| b == "PEPE"@
    ||| b == "SHIB"@
    ||| b == "FLOKI"@
    ||| b == "NEIRO"@
    ||| b == "MEME"@
    ||| b == "PENGU"@
    ||| b == "ZORA"@
}

/// Levered 1000x names and the meme tape.
pub fn is_junk_symbol(symbol: &str) -> (r: bool)
    ensures
        r == is_junk(symbol@),
{
    let s = trim(symbol).to_ascii_uppercase();
    let b = strip_ending(s.as_str(), "USDT");
    starts_with(b, "1000") || starts_with(b, "1M") || same(b, "FARTCOIN") || same(b, "DOGS") || same(
        b,
        "BRETT",
    ) || same(b, "PEPE") || same(b, "SHIB") || same(b, "FLOKI") || same(b, "NEIRO") || same(
        b,
        "MEME",
    ) || same(b, "PENGU") || same(b, "ZORA")
}

fn is_usdt(symbol: &str) -> (r: bool)
    ensures
        r == is_usdt_name(symbol@),
{
    if !ends_with(symbol, "USDT") {
        return false;
    }
    let v: Vec<char> = to_chars(symbol);
    let n: usize = v.len();
    if n < 6 || n > 24 {
        return false;
    }
    let mut i: usize = 0;
    while i < n - 4
        invariant
            6 <= n <= 24,
            n == v@.len(),
            v@ == symbol@,
            i <= n - 4,
            forall|j: int| 0 <= j < i ==> is_symbol_char(#[trigger] v@[j]),
        decreases n - i,
    {
        let c: char = v[i];
        if !((c >= 'A' && c <= 'Z') || (c >= '0' && c <= '9')) {
            proof {
                assert(!is_symbol_char(v@[i as int]));
            }
            return false;
        }
        i = i + 1;
    }
    true
}

/// Whether a symbol is traded at all.
pub open spec fn is_tradable(symbol: Seq<char>) -> bool {
    is_usdt_name(symbol) && !is_junk(symbol)
}

pub fn is_tradable_symbol(symbol: &str) -> (r: bool)
    ensures
        r == is_tradable(symbol@),
{
    is_usdt(symbol) && !is_junk_symbol(symbol)
}

/// Whether a symbol is on an exclusion list, case and white space aside.
pub open spec fn excluded(exclude: Seq<Seq<char>>, symbol: Seq<char>) -> bool {
    symbol.len() > 0 && exists|i: int|
        0 <= i < exclude.len() && upper(trimmed(#[trigger] exclude[i])) == symbol
}

/// Whether a symbol is on an exclusion list.
pub fn is_excluded(exclude: &[String], symbol: &str) -> (r: bool)
    ensures
        r == excluded(views(exclude@), symbol@),
{
    if symbol.is_empty() {
        return false;
    }
    let mut i: usize = 0;
    while i < exclude.len()
        invariant
            i <= exclude@.len(),
            symbol@.len() > 0,
            forall|j: int|
                0 <= j < i ==> upper(trimmed(#[trigger] views(exclude@)[j])) != symbol@,
        decreases exclude@.len() - i,
    {
        let e = trim(exclude[i].as_str()).to_ascii_uppercase();
        if same(e.as_str(), symbol) {
            proof {
                assert(upper(trimmed(views(exclude@)[i as int])) == symbol@);
            }
            return true;
        }
        i = i + 1;
    }
    false
}

/// What a row must satisfy to be ranked.
#[derive(Debug, Clone, Copy)]
pub struct Eligibility {
    pub min_quote_volume: Dec,
    pub min_price: Dec,
    pub min_change_percent: Option<Dec>,
    pub max_change_percent: Option<Dec>,
}

/// Whether a row may be ranked.
pub open spec fn is_eligible(t: Ticker, e: Eligibility, exclude: Seq<Seq<char>>) -> bool {
    &&& !excluded(exclude, t.symbol@)
    &&& !is_junk(t.symbol@)
    &&& ends(t.symbol@, "USDT"@)
    &&& t.last_price.pos()
    &&& e.min_price.le(t.last_price)
    &&& e.min_quote_volume.le(t.quote_volume)
    &&& e.min_change_percent matches Some(m) ==> m.le(t.price_change_percent)
    &&& e.max_change_percent matches Some(m) ==> t.price_change_percent.le(m)
}

fn row_is_eligible(t: &Ticker, e: &Eligibility, exclude: &[String]) -> (r: bool)
    ensures
        r == is_eligible(*t, *e, views(exclude@)),
{
    if is_excluded(exclude, t.symbol.as_str()) || is_junk_symbol(t.symbol.as_str()) || !ends_with(
        t.symbol.as_str(),
        "USDT",
    ) {
        return false;
    }
    if !t.last_price.is_pos() || t.last_price < e.min_price || t.quote_volume < e.min_quote_volume {
        return false;
    }
    if let Some(m) = e.min_change_percent {
        if t.price_change_percent < m {
            return false;
        }
    }
    if let Some(m) = e.max_change_percent {
        if t.price_change_percent > m {
            return false;
        }
    }
    true
}

/// The rows that may be ranked, in order.
pub open spec fn eligible_rows(tickers: Seq<Ticker>, e: Eligibility, exclude: Seq<Seq<char>>) -> Seq<
    Ticker,
> {
    tickers.filter(|t: Ticker| is_eligible(t, e, exclude))
}

fn eligible(tickers: &[Ticker], e: &Eligibility, exclude: &[String]) -> (r: Vec<Ticker>)
    ensures
        r@ == eligible_rows(tickers@, *e, views(exclude@)),
{
    let ghost test = |t: Ticker| is_eligible(t, *e, views(exclude@));
    let mut out: Vec<Ticker> = Vec::new();
    let mut i: usize = 0;
    proof {
        reveal(Seq::filter);
        assert(tickers@.take(0) =~= Seq::<Ticker>::empty());
        assert(tickers@.take(0).filter(test) =~= Seq::<Ticker>::empty());
    }
    while i < tickers.len()
        invariant
            i <= tickers@.len(),
            test == (|t: Ticker| is_eligible(t, *e, views(exclude@))),
            out@ == tickers@.take(i as int).filter(test),
        decreases tickers@.len() - i,
    {
        proof {
            reveal(Seq::filter);
            assert(tickers@.take(i as int + 1).drop_last() =~= tickers@.take(i as int));
        }
        if row_is_eligible(&tickers[i], e, exclude) {
            out.push(tickers[i].clone());
        }
        i = i + 1;
    }
    proof {
        assert(tickers@.take(i as int) =~= tickers@);
    }
    out
}

/// What rows are ranked by.
#[derive(Debug, Clone, Copy, PartialEq, Eq, Structural)]
pub enum RankBy {
    /// Higher percent, then higher volume, then the later symbol.
    Rise,
    /// Higher volume, then the later symbol.
    Volume,
    /// Higher percent, then higher volume, then the earlier symbol.
    TopRise,
    /// Lower percent, then higher volume, then the earlier symbol.
    TopFall,
}

/// Whether `a` stands strictly before `b` in a ranking.
pub open spec fn ranks_before(by: RankBy, a: Ticker, b: Ticker) -> bool {
    if by != RankBy::Volume && a.price_change_percent.units() != b.price_change_percent.units() {
        if by == RankBy::TopFall {
            a.price_change_percent.lt(b.price_change_percent)
        } else {
            b.price_change_percent.lt(a.price_change_percent)
        }
    } else if a.quote_volume.units() != b.quote_volume.units() {
        b.quote_volume.lt(a.quote_volume)
    } else if by == RankBy::Rise || by == RankBy::Volume {
        text_lt(b.symbol@, a.symbol@)
    } else {
        text_lt(a.symbol@, b.symbol@)
    }
}

fn outranks(by: RankBy, a: &Ticker, b: &Ticker) -> (r: bool)
    ensures
        r == ranks_before(by, *a, *b),
{
    if by != RankBy::Volume && a.price_change_percent != b.price_change_percent {
        if by == RankBy::TopFall {
            a.price_change_percent < b.price_change_percent
        } else {
            a.price_change_percent > b.price_change_percent
        }
    } else if a.quote_volume != b.quote_volume {
        a.quote_volume > b.quote_volume
    } else if by == RankBy::Rise || by == RankBy::Volume {
        before(b.symbol.as_str(), a.symbol.as_str())
    } else {
        before(a.symbol.as_str(), b.symbol.as_str())
    }
}

/// A row put into a ranking, behind its equals.
pub open spec fn ranked_in(by: RankBy, v: Seq<Ticker>, x: Ticker) -> Seq<Ticker>
    decreases v.len(),
{
    if v.len() == 0 || !ranks_before(by, x, v.last()) {
        v.push(x)
    } else {
        ranked_in(by, v.drop_last(), x).push(v.last())
    }
}

/// The rows in ranking order; equals keep their order.
pub open spec fn ranked(by: RankBy, v: Seq<Ticker>) -> Seq<Ticker>
    decreases v.len(),
{
    if v.len() == 0 {
        Seq::empty()
    } else {
        ranked_in(by, ranked(by, v.drop_last()), v.last())
    }
}

proof fn lemma_ranked_in_at(by: RankBy, v: Seq<Ticker>, x: Ticker, p: int)
    requires
        0 <= p <= v.len(),
        p > 0 ==> !ranks_before(by, x, v[p - 1]),
        forall|j: int| p <= j < v.len() ==> ranks_before(by, x, #[trigger] v[j]),
    ensures
        ranked_in(by, v, x) == v.insert(p, x),
    decreases v.len(),
{
    if p < v.len() {
        assert(ranks_before(by, x, v[v.len() - 1]));
        let w = v.drop_last();
        assert forall|j: int| p <= j < w.len() implies ranks_before(by, x, #[trigger] w[j]) by {
            assert(w[j] == v[j]);
        }
        lemma_ranked_in_at(by, w, x, p);
        assert(w.insert(p, x).push(v.last()) =~= v.insert(p, x));
    } else {
        assert(v.insert(p, x) =~= v.push(x));
    }
}

pub fn sort_ranked(by: RankBy, rows: Vec<Ticker>) -> (r: Vec<Ticker>)
    ensures
        r@ == ranked(by, rows@),
{
    let mut out: Vec<Ticker> = Vec::new();
    let mut i: usize = 0;
    while i < rows.len()
        invariant
            i <= rows@.len(),
            out@ == ranked(by, rows@.take(i as int)),
            out@.len() == i,
        decreases rows@.len() - i,
    {
        let x: Ticker = rows[i].clone();
        let mut p: usize = out.len();
        while p > 0 && outranks(by, &x, &out[p - 1])
            invariant
                p <= out@.len(),
                forall|j: int| p <= j < out@.len() ==> ranks_before(by, x, #[trigger] out@[j]),
            decreases p,
        {
            p = p - 1;
        }
        proof {
            lemma_ranked_in_at(by, out@, x, p as int);
            assert(rows@.take(i as int + 1).drop_last() =~= rows@.take(i as int));
        }
        out.insert(p, x);
        i = i + 1;
    }
    proof {
        assert(rows@.take(i as int) =~= rows@);
    }
    out
}

proof fn lemma_ranked_in_members(by: RankBy, v: Seq<Ticker>, x: Ticker)
    ensures
        ranked_in(by, v, x).to_multiset() == v.to_multiset().insert(x),
        ranked_in(by, v, x).len() == v.len() + 1,
    decreases v.len(),
{
    broadcast use vstd::seq_lib::group_to_multiset_ensures;

    if v.len() > 0 && ranks_before(by, x, v.last()) {
        lemma_ranked_in_members(by, v.drop_last(), x);
        let w = ranked_in(by, v.drop_last(), x);
        assert(w.push(v.last()).to_multiset() =~= w.to_multiset().insert(v.last()));
        assert(v.drop_last().push(v.last()) =~= v);
        assert(v.to_multiset() =~= v.drop_last().to_multiset().insert(v.last()));
        assert(w.to_multiset().insert(v.last()) =~= v.to_multiset().insert(x));
    } else {
        assert(v.push(x).to_multiset() =~= v.to_multiset().insert(x));
    }
}

/// A ranking holds exactly the rows it was made from.
pub proof fn law_ranking_keeps_the_rows(by: RankBy, v: Seq<Ticker>)
    ensures
        ranked(by, v).to_multiset() == v.to_multiset(),
        ranked(by, v).len() == v.len(),
    decreases v.len(),
{
    broadcast use vstd::seq_lib::group_to_multiset_ensures;

    if v.len() > 0 {
        law_ranking_keeps_the_rows(by, v.drop_last());
        lemma_ranked_in_members(by, ranked(by, v.drop_last()), v.last());
        assert(v.drop_last().push(v.last()) =~= v);
        assert(v.to_multiset() =~= v.drop_last().to_multiset().insert(v.last()));
    } else {
        assert(ranked(by, v) =~= v);
    }
}

/// Text order is a strict order.
proof fn lemma_text_order(a: Seq<char>, b: Seq<char>, c: Seq<char>)
    ensures
        !(text_lt(a, b) && text_lt(b, a)),
        text_lt(a, b) && text_lt(b, c) ==> text_lt(a, c),
        !text_lt(a, b) && !text_lt(b, c) ==> !text_lt(a, c),
    decreases a.len() + b.len() + c.len(),
{
    if a.len() > 0 && b.len() > 0 && c.len() > 0 {
        lemma_text_order(a.drop_first(), b.drop_first(), c.drop_first());
    } else if a.len() > 0 && b.len() > 0 {
        lemma_text_order(a.drop_first(), b.drop_first(), c);
    }
}

proof fn lemma_rank_order(by: RankBy, a: Ticker, b: Ticker, c: Ticker)
    ensures
        !(ranks_before(by, a, b) && ranks_before(by, b, a)),
        !ranks_before(by, b, a) && !ranks_before(by, c, b) ==> !ranks_before(by, c, a),
{
    lemma_text_order(a.symbol@, b.symbol@, c.symbol@);
    lemma_text_order(b.symbol@, a.symbol@, c.symbol@);
    lemma_text_order(c.symbol@, b.symbol@, a.symbol@);
}

/// Whether no later row outranks an earlier one.
pub open spec fn in_order(by: RankBy, v: Seq<Ticker>) -> bool {
    forall|i: int, j: int|
        0 <= i < j < v.len() ==> !ranks_before(by, #[trigger] v[j], #[trigger] v[i])
}

proof fn lemma_ranked_in_order(by: RankBy, v: Seq<Ticker>, x: Ticker)
    requires
        in_order(by, v),
    ensures
        in_order(by, ranked_in(by, v, x)),
        forall|k: int|
            0 <= k < ranked_in(by, v, x).len() ==> (#[trigger] ranked_in(by, v, x)[k]) == x || v.contains(
                ranked_in(by, v, x)[k],
            ),
    decreases v.len(),
{
    if v.len() > 0 && ranks_before(by, x, v.last()) {
        let d = v.drop_last();
        assert forall|i: int, j: int| 0 <= i < j < d.len() implies !ranks_before(
            by,
            #[trigger] d[j],
            #[trigger] d[i],
        ) by {
            assert(d[i] == v[i] && d[j] == v[j]);
        }
        lemma_ranked_in_order(by, d, x);
        let w = ranked_in(by, d, x);
        let r = w.push(v.last());
        assert forall|i: int, j: int| 0 <= i < j < r.len() implies !ranks_before(
            by,
            #[trigger] r[j],
            #[trigger] r[i],
        ) by {
            if j == w.len() {
                if w[i] == x {
                    lemma_rank_order(by, x, v.last(), x);
                } else {
                    assert(d.contains(w[i]));
                    let k = choose|k: int| 0 <= k < d.len() && d[k] == w[i];
                    assert(!ranks_before(by, v[v.len() - 1], v[k]));
                }
            }
        }
        assert forall|k: int| 0 <= k < r.len() implies (#[trigger] r[k]) == x || v.contains(
            r[k],
        ) by {
            if k < w.len() {
                if w[k] != x {
                    assert(d.contains(w[k]));
                    let m = choose|m: int| 0 <= m < d.len() && d[m] == w[k];
                    assert(v[m] == w[k]);
                }
            } else {
                assert(v[v.len() - 1] == r[k]);
            }
        }
    } else {
        let r = v.push(x);
        assert forall|i: int, j: int| 0 <= i < j < r.len() implies !ranks_before(
            by,
            #[trigger] r[j],
            #[trigger] r[i],
        ) by {
            if j == v.len() && i < v.len() - 1 {
                assert(!ranks_before(by, v[v.len() - 1], v[i]));
                lemma_rank_order(by, v[i], v.last(), x);
            }
        }
        assert forall|k: int| 0 <= k < r.len() implies (#[trigger] r[k]) == x || v.contains(
            r[k],
        ) by {
            if k < v.len() {
                assert(v[k] == r[k]);
            }
        }
    }
}

/// In a ranking no later row outranks an earlier one.
pub proof fn law_ranking_is_in_order(by: RankBy, v: Seq<Ticker>)
    ensures
        in_order(by, ranked(by, v)),
    decreases v.len(),
{
    if v.len() > 0 {
        law_ranking_is_in_order(by, v.drop_last());
        lemma_ranked_in_order(by, ranked(by, v.drop_last()), v.last());
    }
}

/// The row that no other of the first `n` outranks; of equals the last.
pub open spec fn top_row(by: RankBy, v: Seq<Ticker>, n: int) -> Option<Ticker>
    decreases n,
{
    if n <= 0 {
        None
    } else {
        match top_row(by, v, n - 1) {
            Some(m) => if ranks_before(by, m, v[n - 1]) {
                Some(m)
            } else {
                Some(v[n - 1])
            },
            None => Some(v[n - 1]),
        }
    }
}

/// No bounds at all: any positive price.
pub open spec fn any_row() -> Eligibility {
    Eligibility {
        min_quote_volume: dec(0, 0),
        min_price: dec(0, 0),
        min_change_percent: None,
        max_change_percent: None,
    }
}

pub fn rank_most_rising(tickers: &[Ticker], exclude: &[String]) -> (r: Option<Ticker>)
    ensures
        ({
            let rows = eligible_rows(tickers@, any_row(), views(exclude@));
            r == top_row(RankBy::Rise, rows, rows.len() as int)
        }),
{
    let e = Eligibility {
        min_quote_volume: Dec::zero(),
        min_price: Dec::zero(),
        min_change_percent: None,
        max_change_percent: None,
    };
    let rows: Vec<Ticker> = eligible(tickers, &e, exclude);
    let mut best: Option<Ticker> = None;
    let mut i: usize = 0;
    while i < rows.len()
        invariant
            i <= rows@.len(),
            best == top_row(RankBy::Rise, rows@, i as int),
        decreases rows@.len() - i,
    {
        let keep: bool = match &best {
            Some(m) => outranks(RankBy::Rise, m, &rows[i]),
            None => false,
        };
        if !keep {
            best = Some(rows[i].clone());
        }
        i = i + 1;
    }
    best
}

/// The first row of a symbol with a positive price.
pub open spec fn priced_row(v: Seq<Ticker>, symbol: Seq<char>) -> Option<Ticker>
    decreases v.len(),
{
    if v.len() == 0 {
        None
    } else if v[0].symbol@ == symbol && v[0].last_price.pos() {
        Some(v[0])
    } else {
        priced_row(v.drop_first(), symbol)
    }
}

proof fn lemma_priced_skip(v: Seq<Ticker>, symbol: Seq<char>, n: int)
    requires
        0 <= n <= v.len(),
        forall|j: int|
            0 <= j < n ==> !((#[trigger] v[j]).symbol@ == symbol && v[j].last_price.pos()),
    ensures
        priced_row(v, symbol) == priced_row(v.skip(n), symbol),
    decreases n,
{
    if n == 0 {
        assert(v.skip(0) =~= v);
    } else {
        assert(!(v[0].symbol@ == symbol && v[0].last_price.pos()));
        assert forall|j: int| 0 <= j < n - 1 implies !((#[trigger] v.drop_first()[j]).symbol@
            == symbol && v.drop_first()[j].last_price.pos()) by {
            assert(v.drop_first()[j] == v[j + 1]);
        }
        lemma_priced_skip(v.drop_first(), symbol, n - 1);
        assert(v.drop_first().skip(n - 1) =~= v.skip(n));
    }
}

/// The first row of a symbol with a positive price.
pub fn find_priced<'a>(tickers: &'a [Ticker], symbol: &str) -> (r: Option<&'a Ticker>)
    ensures
        match r {
            Some(t) => priced_row(tickers@, symbol@) == Some(*t),
            None => priced_row(tickers@, symbol@) is None,
        },
{
    let mut i: usize = 0;
    while i < tickers.len()
        invariant
            i <= tickers@.len(),
            forall|j: int|
                0 <= j < i ==> !((#[trigger] tickers@[j]).symbol@ == symbol@
                    && tickers@[j].last_price.pos()),
        decreases tickers@.len() - i,
    {
        if same(tickers[i].symbol.as_str(), symbol) && tickers[i].last_price.is_pos() {
            proof {
                lemma_priced_skip(tickers@, symbol@, i as int);
                assert(tickers@.skip(i as int)[0] == tickers@[i as int]);
            }
            return Some(&tickers[i]);
        }
        i = i + 1;
    }
    proof {
        lemma_priced_skip(tickers@, symbol@, tickers@.len() as int);
        assert(tickers@.skip(tickers@.len() as int) =~= Seq::<Ticker>::empty());
    }
    None
}

/// The largest quote volume of the first `n` rows; of equals the last.
pub open spec fn top_volume(v: Seq<Ticker>, n: int) -> Dec
    decreases n,
{
    if n <= 1 {
        v[0].quote_volume
    } else {
        let m = top_volume(v, n - 1);
        if m.le(v[n - 1].quote_volume) {
            v[n - 1].quote_volume
        } else {
            m
        }
    }
}

/// The largest quote volume.
pub fn largest_volume(tickers: &[Ticker]) -> (r: Dec)
    requires
        tickers@.len() > 0,
    ensures
        r == top_volume(tickers@, tickers@.len() as int),
{
    let mut m: Dec = tickers[0].quote_volume;
    let mut i: usize = 1;
    while i < tickers.len()
        invariant
            1 <= i <= tickers@.len(),
            m == top_volume(tickers@, i as int),
        decreases tickers@.len() - i,
    {
        if m <= tickers[i].quote_volume {
            m = tickers[i].quote_volume;
        }
        i = i + 1;
    }
    m
}

/// The rows with at least `min_frac` of the largest volume; all rows where
/// there are fewer than two, no volume, or none would be left.
pub open spec fn liquidity_floor(tickers: Seq<Ticker>, min_frac: Dec) -> Option<Seq<Ticker>> {
    if tickers.len() < 2 {
        Some(tickers)
    } else {
        let top = top_volume(tickers, tickers.len() as int);
        if !top.pos() {
            Some(tickers)
        } else {
            match n_mul(Some(top), Some(min_frac)) {
                Some(floor) => {
                    let kept = tickers.filter(|t: Ticker| floor.le(t.quote_volume));
                    Some(
                        if kept.len() == 0 {
                            tickers
                        } else {
                            kept
                        },
                    )
                },
                None => None,
            }
        }
    }
}

/// A copy of a list of rows.
pub fn copy_tickers(v: &[Ticker]) -> (r: Vec<Ticker>)
    ensures
        r@ == v@,
{
    let mut out: Vec<Ticker> = Vec::new();
    let mut i: usize = 0;
    while i < v.len()
        invariant
            i <= v@.len(),
            out@ == v@.take(i as int),
        decreases v@.len() - i,
    {
        out.push(v[i].clone());
        proof {
            assert(v@.take(i as int + 1) =~= v@.take(i as int).push(v@[i as int]));
        }
        i = i + 1;
    }
    proof {
        assert(v@.take(i as int) =~= v@);
    }
    out
}

pub fn apply_liquidity_floor(tickers: &[Ticker], min_frac: Dec) -> (r: Option<Vec<Ticker>>)
    ensures
        match r {
            Some(v) => liquidity_floor(tickers@, min_frac) == Some(v@),
            None => liquidity_floor(tickers@, min_frac) is None,
        },
{
    if tickers.len() < 2 {
        return Some(copy_tickers(tickers));
    }
    let top: Dec = largest_volume(tickers);
    if !top.is_pos() {
        return Some(copy_tickers(tickers));
    }
    let floor: Dec = match times(Some(top), Some(min_frac)) {
        Some(f) => f,
        None => return None,
    };
    let ghost test = |t: Ticker| floor.le(t.quote_volume);
    let mut out: Vec<Ticker> = Vec::new();
    let mut i: usize = 0;
    proof {
        reveal(Seq::filter);
        assert(tickers@.take(0) =~= Seq::<Ticker>::empty());
        assert(tickers@.take(0).filter(test) =~= Seq::<Ticker>::empty());
    }
    while i < tickers.len()
        invariant
            i <= tickers@.len(),
            test == (|t: Ticker| floor.le(t.quote_volume)),
            out@ == tickers@.take(i as int).filter(test),
        decreases tickers@.len() - i,
    {
        proof {
            reveal(Seq::filter);
            assert(tickers@.take(i as int + 1).drop_last() =~= tickers@.take(i as int));
        }
        if tickers[i].quote_volume >= floor {
            out.push(tickers[i].clone());
        }
        i = i + 1;
    }
    proof {
        assert(tickers@.take(i as int) =~= tickers@);
    }
    if out.len() == 0 {
        Some(copy_tickers(tickers))
    } else {
        Some(out)
    }
}

/// The rows with volume and, where asked, away from the top of their range.
pub open spec fn book_rows(rows: Seq<Ticker>, drop_range_top: bool) -> Seq<Ticker> {
    rows.filter(
        |t: Ticker|
            t.quote_volume.pos() && !(drop_range_top && near_high(t, dec(2, 2)) == Some(true)),
    )
}

/// Whether the test for the top of the range leaves the decimal range somewhere.
pub open spec fn range_test_fails(rows: Seq<Ticker>, drop_range_top: bool) -> bool {
    drop_range_top && exists|i: int|
        0 <= i < rows.len() && (#[trigger] rows[i]).quote_volume.pos() && near_high(
            rows[i],
            dec(2, 2),
        ) is None
}

pub open spec fn first_n<A>(s: Seq<A>, n: int) -> Seq<A> {
    if s.len() <= n {
        s
    } else {
        s.take(n)
    }
}

/// The `n` best rows of a momentum book.
pub open spec fn momentum_book(
    tickers: Seq<Ticker>,
    n: int,
    e: Eligibility,
    exclude: Seq<Seq<char>>,
    drop_range_top: bool,
) -> Option<Seq<Ticker>> {
    if n == 0 {
        Some(Seq::empty())
    } else {
        let rows = eligible_rows(tickers, e, exclude);
        if range_test_fails(rows, drop_range_top) {
            None
        } else {
            Some(first_n(ranked(RankBy::Rise, book_rows(rows, drop_range_top)), n))
        }
    }
}

pub fn pick_momentum_book(
    tickers: &[Ticker],
    n: usize,
    e: &Eligibility,
    exclude: &[String],
    drop_range_top: bool,
) -> (r: Option<Vec<Ticker>>)
    ensures
        match r {
            Some(v) => momentum_book(tickers@, n as int, *e, views(exclude@), drop_range_top) == Some(v@),
            None => momentum_book(tickers@, n as int, *e, views(exclude@), drop_range_top) is None,
        },
{
    if n == 0 {
        return Some(Vec::new());
    }
    let rows: Vec<Ticker> = eligible(tickers, e, exclude);
    let ghost test = |t: Ticker|
        t.quote_volume.pos() && !(drop_range_top && near_high(t, dec(2, 2)) == Some(true));
    let mut kept: Vec<Ticker> = Vec::new();
    let mut i: usize = 0;
    proof {
        reveal(Seq::filter);
        assert(rows@.take(0) =~= Seq::<Ticker>::empty());
        assert(rows@.take(0).filter(test) =~= Seq::<Ticker>::empty());
    }
    while i < rows.len()
        invariant
            n > 0,
            i <= rows@.len(),
            rows@ == eligible_rows(tickers@, *e, views(exclude@)),
            test == (|t: Ticker|
                t.quote_volume.pos() && !(drop_range_top && near_high(t, dec(2, 2)) == Some(true))),
            kept@ == rows@.take(i as int).filter(test),
            drop_range_top ==> forall|j: int|
                0 <= j < i && (#[trigger] rows@[j]).quote_volume.pos() ==> near_high(
                    rows@[j],
                    dec(2, 2),
                ) is Some,
        decreases rows@.len() - i,
    {
        proof {
            reveal(Seq::filter);
            assert(rows@.take(i as int + 1).drop_last() =~= rows@.take(i as int));
        }
        if rows[i].quote_volume.is_pos() {
            let mut keep: bool = true;
            if drop_range_top {
                match near_24h_high(&rows[i], Dec::new(2, 2)) {
                    Some(near) => {
                        keep = !near;
                    },
                    None => {
                        return None;
                    },
                }
            }
            if keep {
                kept.push(rows[i].clone());
            }
        }
        i = i + 1;
    }
    proof {
        assert(rows@.take(i as int) =~= rows@);
    }
    let mut out: Vec<Ticker> = sort_ranked(RankBy::Rise, kept);
    if out.len() > n {
        out.truncate(n);
    }
    Some(out)
}

/// What the strategy-1 book asks of a row: 50 000 volume, +0.4% to +12%.
pub open spec fn strategy1_rows() -> Eligibility {
    Eligibility {
        min_quote_volume: dec(50_000, 0),
        min_price: dec(0, 0),
        min_change_percent: Some(dec(4, 1)),
        max_change_percent: Some(dec(12, 0)),
    }
}

/// Strategy 1 book: top 24h percent among tradable names.
pub fn pick_strategy1_book(tickers: &[Ticker], n: usize, exclude: &[String]) -> (r: Option<
    Vec<Ticker>,
>)
    ensures
        match r {
            Some(v) => momentum_book(tickers@, n as int, strategy1_rows(), views(exclude@), true) == Some(
                v@,
            ),
            None => momentum_book(tickers@, n as int, strategy1_rows(), views(exclude@), true) is None,
        },
{
    let e = Eligibility {
        min_quote_volume: Dec::from_int(50_000),
        min_price: Dec::zero(),
        min_change_percent: Some(momentum_min_change_percent()),
        max_change_percent: Some(Dec::from_int(12)),
    };
    pick_momentum_book(tickers, n, &e, exclude, true)
}

pub open spec fn head<A>(s: Seq<A>) -> Option<A> {
    if s.len() == 0 {
        None
    } else {
        Some(s[0])
    }
}

/// The first row of a list.
pub fn first_ticker(v: &[Ticker]) -> (r: Option<Ticker>)
    ensures
        r == head(v@),
{
    if v.len() == 0 {
        None
    } else {
        Some(v[0].clone())
    }
}

/// The best row; the inner `None` where there is none.
pub fn pick_momentum_ticker(tickers: &[Ticker], e: &Eligibility, exclude: &[String]) -> (r: Option<
    Option<Ticker>,
>)
    ensures
        r == (match momentum_book(tickers@, 1, *e, views(exclude@), false) {
            Some(v) => Some(head(v)),
            None => None,
        }),
{
    match pick_momentum_book(tickers, 1, e, exclude, false) {
        Some(v) => Some(first_ticker(v.as_slice())),
        None => None,
    }
}

/// The majors that may be traded, best first.
pub open spec fn liquid_majors(tickers: Seq<Ticker>, exclude: Seq<Seq<char>>) -> Seq<Ticker> {
    ranked(
        RankBy::Rise,
        tickers.filter(
            |t: Ticker|
                is_liquid_major(t.symbol@) && !excluded(exclude, t.symbol@) && t.last_price.pos(),
        ),
    )
}

pub fn iter_liquid_majors(tickers: &[Ticker], exclude: &[String]) -> (r: Vec<Ticker>)
    ensures
        r@ == liquid_majors(tickers@, views(exclude@)),
{
    let ghost test = |t: Ticker|
        is_liquid_major(t.symbol@) && !excluded(views(exclude@), t.symbol@) && t.last_price.pos();
    let mut out: Vec<Ticker> = Vec::new();
    let mut i: usize = 0;
    proof {
        reveal(Seq::filter);
        assert(tickers@.take(0) =~= Seq::<Ticker>::empty());
        assert(tickers@.take(0).filter(test) =~= Seq::<Ticker>::empty());
    }
    while i < tickers.len()
        invariant
            i <= tickers@.len(),
            test == (|t: Ticker|
                is_liquid_major(t.symbol@) && !excluded(views(exclude@), t.symbol@) && t.last_price.pos()),
            out@ == tickers@.take(i as int).filter(test),
        decreases tickers@.len() - i,
    {
        proof {
            reveal(Seq::filter);
            assert(tickers@.take(i as int + 1).drop_last() =~= tickers@.take(i as int));
        }
        let t: &Ticker = &tickers[i];
        if is_major_symbol(t.symbol.as_str()) && !is_excluded(exclude, t.symbol.as_str())
            && t.last_price.is_pos() {
            out.push(t.clone());
        }
        i = i + 1;
    }
    proof {
        assert(tickers@.take(i as int) =~= tickers@);
    }
    sort_ranked(RankBy::Rise, out)
}

/// The best major, else bitcoin where it has a price.
pub open spec fn liquid_major(tickers: Seq<Ticker>, exclude: Seq<Seq<char>>) -> Option<Ticker> {
    let m = liquid_majors(tickers, exclude);
    if m.len() > 0 {
        Some(m[0])
    } else {
        priced_row(tickers, "BTCUSDT"@)
    }
}

pub fn pick_liquid_major(tickers: &[Ticker], exclude: &[String]) -> (r: Option<Ticker>)
    ensures
        r == liquid_major(tickers@, views(exclude@)),
{
    let majors: Vec<Ticker> = iter_liquid_majors(tickers, exclude);
    if majors.len() > 0 {
        return Some(majors[0].clone());
    }
    match find_priced(tickers, "BTCUSDT") {
        Some(t) => Some(t.clone()),
        None => None,
    }
}

pub fn pick_scalp_ticker(tickers: &[Ticker], exclude: &[String]) -> (r: Option<Ticker>)
    ensures
        r == liquid_major(tickers@, views(exclude@)),
{
    pick_liquid_major(tickers, exclude)
}

pub fn pick_trend_ticker(tickers: &[Ticker], exclude: &[String]) -> (r: Option<Ticker>)
    ensures
        r == liquid_major(tickers@, views(exclude@)),
{
    pick_liquid_major(tickers, exclude)
}

/// The row that a strategy charts; the inner `None` where there is none.
pub open spec fn chart_row(tickers: Seq<Ticker>, strategy_id: i32, exclude: Seq<Seq<char>>) -> Option<
    Option<Ticker>,
> {
    if strategy_id == 1 {
        match momentum_book(tickers, 1, strategy1_rows(), exclude, true) {
            Some(v) => Some(head(v)),
            None => None,
        }
    } else {
        Some(liquid_major(tickers, exclude))
    }
}

pub fn pick_chart_ticker(tickers: &[Ticker], strategy_id: i32, exclude: &[String]) -> (r: Option<
    Option<Ticker>,
>)
    ensures
        r == chart_row(tickers@, strategy_id, views(exclude@)),
{
    if strategy_id == 1 {
        match pick_strategy1_book(tickers, 1, exclude) {
            Some(v) => Some(first_ticker(v.as_slice())),
            None => None,
        }
    } else if strategy_id == 2 {
        Some(pick_scalp_ticker(tickers, exclude))
    } else {
        Some(pick_trend_ticker(tickers, exclude))
    }
}

/// The first row of a symbol, case aside.
pub open spec fn row_ignoring_case(v: Seq<Ticker>, symbol: Seq<char>) -> Option<Ticker>
    decreases v.len(),
{
    if v.len() == 0 {
        None
    } else if lower(v[0].symbol@) == lower(symbol) {
        Some(v[0])
    } else {
        row_ignoring_case(v.drop_first(), symbol)
    }
}

proof fn lemma_row_skip(v: Seq<Ticker>, symbol: Seq<char>, n: int)
    requires
        0 <= n <= v.len(),
        forall|j: int| 0 <= j < n ==> lower((#[trigger] v[j]).symbol@) != lower(symbol),
    ensures
        row_ignoring_case(v, symbol) == row_ignoring_case(v.skip(n), symbol),
    decreases n,
{
    if n == 0 {
        assert(v.skip(0) =~= v);
    } else {
        assert(lower(v[0].symbol@) != lower(symbol));
        assert forall|j: int| 0 <= j < n - 1 implies lower((#[trigger] v.drop_first()[j]).symbol@)
            != lower(symbol) by {
            assert(v.drop_first()[j] == v[j + 1]);
        }
        lemma_row_skip(v.drop_first(), symbol, n - 1);
        assert(v.drop_first().skip(n - 1) =~= v.skip(n));
    }
}

/// The first row of a symbol, case aside.
pub fn find_ignoring_case<'a>(tickers: &'a [Ticker], symbol: &str) -> (r: Option<&'a Ticker>)
    ensures
        match r {
            Some(t) => row_ignoring_case(tickers@, symbol@) == Some(*t),
            None => row_ignoring_case(tickers@, symbol@) is None,
        },
{
    let mut i: usize = 0;
    while i < tickers.len()
        invariant
            i <= tickers@.len(),
            forall|j: int| 0 <= j < i ==> lower((#[trigger] tickers@[j]).symbol@) != lower(symbol@),
        decreases tickers@.len() - i,
    {
        if tickers[i].symbol.as_str().eq_ignore_ascii_case(symbol) {
            proof {
                lemma_row_skip(tickers@, symbol@, i as int);
                assert(tickers@.skip(i as int)[0] == tickers@[i as int]);
            }
            return Some(&tickers[i]);
        }
        i = i + 1;
    }
    proof {
        lemma_row_skip(tickers@, symbol@, tickers@.len() as int);
        assert(tickers@.skip(tickers@.len() as int) =~= Seq::<Ticker>::empty());
    }
    None
}

/// Whether a market row is kept: it can be read, has a price, and is tradable.
pub open spec fn keeps_row(item: Json) -> bool {
    &&& row_error(item) is None
    &&& amount_in(item.field("lastPrice"@))->0.pos()
    &&& is_tradable(row_symbol(item))
}

/// Whether tickers say what the kept rows say, in order.
pub open spec fn read_rows(v: Seq<Ticker>, rows: Seq<Json>) -> bool {
    let kept = rows.filter(|j: Json| keeps_row(j));
    &&& v.len() == kept.len()
    &&& forall|i: int| 0 <= i < v.len() ==> reads_row(#[trigger] v[i], kept[i])
}

/// Whether tickers say what a document says; one that is no list says nothing.
pub open spec fn reads_tickers(v: Seq<Ticker>, raw: Json) -> bool {
    match raw {
        Json::List(rows) => read_rows(v, rows@),
        _ => v.len() == 0,
    }
}

/// Reads the market rows of a document; rows that cannot be read or traded are
/// left out.
pub fn parse_tickers(raw: &Json) -> (r: Vec<Ticker>)
    ensures
        reads_tickers(r@, *raw),
{
    let mut out: Vec<Ticker> = Vec::new();
    if let Json::List(rows) = raw {
        let ghost test = |j: Json| keeps_row(j);
        let mut i: usize = 0;
        proof {
            reveal(Seq::filter);
            assert(rows@.take(0).filter(test) =~= Seq::<Json>::empty());
        }
        while i < rows.len()
            invariant
                i <= rows@.len(),
                test == (|j: Json| keeps_row(j)),
                read_rows(out@, rows@.take(i as int)),
            decreases rows@.len() - i,
        {
            proof {
                reveal(Seq::filter);
                assert(rows@.take(i as int + 1).drop_last() =~= rows@.take(i as int));
            }
            if let Ok(t) = ticker_from_mapping(&rows[i]) {
                if t.last_price.is_pos() && is_tradable_symbol(t.symbol.as_str()) {
                    out.push(t);
                }
            }
            i = i + 1;
        }
        proof {
            assert(rows@.take(i as int) =~= rows@);
        }
    }
    out
}

/// What ranks before what: by rise the larger change, by fall the smaller one, by
/// volume the larger volume; equal changes are told apart by the larger volume.
pub proof fn law_ranking_order(a: Ticker, b: Ticker)
    ensures
        b.price_change_percent.lt(a.price_change_percent) ==> ranks_before(RankBy::Rise, a, b)
            && !ranks_before(RankBy::Rise, b, a) && ranks_before(RankBy::TopRise, a, b) && ranks_before(
            RankBy::TopFall,
            b,
            a,
        ),
        b.quote_volume.lt(a.quote_volume) ==> ranks_before(RankBy::Volume, a, b) && !ranks_before(
            RankBy::Volume,
            b,
            a,
        ),
        a.price_change_percent.same(b.price_change_percent) && b.quote_volume.lt(a.quote_volume)
            ==> ranks_before(RankBy::Rise, a, b) && ranks_before(RankBy::TopRise, a, b) && ranks_before(
            RankBy::TopFall,
            a,
            b,
        ),
{
}

/// Which rows may be ranked, told by their figures.
pub proof fn law_eligible_rows(t: Ticker, e: Eligibility, exclude: Seq<Seq<char>>)
    requires
        !excluded(exclude, t.symbol@),
        !is_junk(t.symbol@),
        ends(t.symbol@, "USDT"@),
    ensures
        is_eligible(t, e, exclude) <==> {
            &&& t.last_price.pos()
            &&& e.min_price.le(t.last_price)
            &&& e.min_quote_volume.le(t.quote_volume)
            &&& e.min_change_percent is Some ==> e.min_change_percent->0.le(t.price_change_percent)
            &&& e.max_change_percent is Some ==> t.price_change_percent.le(e.max_change_percent->0)
        },
{
}

/// Above a floor of volume every row trades at least that share of the largest
/// volume, unless none would be left.
pub proof fn law_liquidity_floor(tickers: Seq<Ticker>, share: Dec, floor: Dec, i: int)
    requires
        tickers.len() >= 2,
        top_volume(tickers, tickers.len() as int).pos(),
        n_mul(Some(top_volume(tickers, tickers.len() as int)), Some(share)) == Some(floor),
        liquidity_floor(tickers, share) is Some,
        0 <= i < liquidity_floor(tickers, share)->0.len(),
    ensures
        floor.le(liquidity_floor(tickers, share)->0[i].quote_volume) || liquidity_floor(tickers, share)->0
            == tickers,
{
    let test = |t: Ticker| floor.le(t.quote_volume);
    let kept = tickers.filter(test);
    let r = liquidity_floor(tickers, share)->0;
    if r != tickers {
        assert(r == kept);
        assert(kept.contains(kept[i]));
        crate::models::lemma_filter_member(tickers, test, kept[i]);
    }
}

/// The largest volume of a tape is at least that of every row and is that of one of
/// them.
pub proof fn law_top_volume(v: Seq<Ticker>, n: int, i: int)
    requires
        0 < n <= v.len(),
        0 <= i < n,
    ensures
        v[i].quote_volume.le(top_volume(v, n)),
    decreases n,
{
    if n > 1 && i < n - 1 {
        law_top_volume(v, n - 1, i);
    }
    if n > 1 {
        law_top_volume(v, n - 1, 0);
    }
}

} // verus!

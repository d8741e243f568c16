//! The candles of a snapshot, by symbol.
use crate::config::TradeInterval;
use crate::engine::tick::{find_like, first_like};
use crate::errors::{describe_exchange_error, described};
use crate::exchange::ExchangeError;
use crate::models::{closed_bar, last_closed_bar, opt_view, Bar, Position};
use crate::symbols::{lookup, SymMap};
use crate::text::{same, views};
use crate::trend::{CHART_INTERVAL, CHART_LIMIT};
use crate::wire::{ask, bars, explains, Call, Exchange, Feed, Run, SnapshotClient, World};
use vstd::prelude::*;

verus! {

/// Candles by symbol.
pub open spec fn series_map(m: Map<Seq<char>, Vec<Bar>>) -> Map<Seq<char>, Seq<Bar>> {
    m.map_values(|v: Vec<Bar>| v@)
}

/// What entries say: the first of a key counts.
spec fn entries_map<V>(e: Seq<(String, V)>) -> Map<Seq<char>, V> {
    Map::new(|k: Seq<char>| lookup(e, k) is Some, |k: Seq<char>| lookup(e, k)->0)
}

proof fn lemma_entries<V>(m: SymMap<V>)
    ensures
        m@ == entries_map(m.list()),
{
    assert forall|k: Seq<char>| #[trigger] m@.contains_key(k) <==> entries_map(m.list()).contains_key(
        k,
    ) by {
        m.lemma_view(k);
    }
    assert forall|k: Seq<char>| m@.contains_key(k) implies #[trigger] m@[k] == entries_map(
        m.list(),
    )[k] by {
        m.lemma_view(k);
    }
    assert(m@ =~= entries_map(m.list()));
}

proof fn lemma_entries_skip<V>(e: Seq<(String, V)>, i: int)
    requires
        0 <= i < e.len(),
    ensures
        entries_map(e.skip(i)) == entries_map(e.skip(i + 1)).insert(e[i].0@, e[i].1),
{
    assert(e.skip(i)[0] == e[i]);
    assert(e.skip(i).drop_first() =~= e.skip(i + 1));
    assert(entries_map(e.skip(i)) =~= entries_map(e.skip(i + 1)).insert(e[i].0@, e[i].1));
}

proof fn lemma_entries_none<V>(e: Seq<(String, V)>)
    ensures
        entries_map(e.skip(e.len() as int)) == Map::<Seq<char>, V>::empty(),
{
    let rest = e.skip(e.len() as int);
    assert(rest =~= Seq::<(String, V)>::empty());
    assert(entries_map(rest) =~= Map::<Seq<char>, V>::empty());
}

/// Puts all candles of one map into another.
pub fn extend_bars(into: &mut SymMap<Bar>, from: &SymMap<Bar>)
    ensures
        final(into)@ == old(into)@.union_prefer_right(from@),
{
    let ghost start = into@;
    let ghost e = from.list();
    let mut i: usize = from.len();
    proof {
        lemma_entries(*from);
        lemma_entries_none(e);
        assert(start =~= start.union_prefer_right(entries_map(e.skip(i as int))));
    }
    while i > 0
        invariant
            i <= e.len(),
            e == from.list(),
            into@ == start.union_prefer_right(entries_map(e.skip(i as int))),
        decreases i,
    {
        i = i - 1;
        into.insert(from.key_at(i), *from.value_at(i));
        proof {
            lemma_entries_skip(e, i as int);
            assert(into@ =~= start.union_prefer_right(entries_map(e.skip(i as int))));
        }
    }
    proof {
        assert(e.skip(0) =~= e);
    }
}

/// A copy of a list of candles.
pub fn copy_bars(v: &[Bar]) -> (r: Vec<Bar>)
    ensures
        r@ == v@,
{
    let mut out: Vec<Bar> = Vec::new();
    let mut i: usize = 0;
    while i < v.len()
        invariant
            i <= v@.len(),
            out@ == v@.take(i as int),
        decreases v@.len() - i,
    {
        out.push(v[i]);
        proof {
            assert(v@.take(i as int + 1) =~= v@.take(i as int).push(v@[i as int]));
        }
        i = i + 1;
    }
    proof {
        assert(v@.take(i as int) =~= v@);
    }
    out
}

/// Puts all series of one map into another.
pub fn extend_series(into: &mut SymMap<Vec<Bar>>, from: &SymMap<Vec<Bar>>)
    ensures
        series_map(final(into)@) == series_map(old(into)@).union_prefer_right(series_map(from@)),
{
    let ghost start = series_map(into@);
    let ghost e = from.list();
    let mut i: usize = from.len();
    proof {
        lemma_entries(*from);
        lemma_entries_none(e);
        assert(start =~= start.union_prefer_right(series_map(entries_map(e.skip(i as int)))));
    }
    while i > 0
        invariant
            i <= e.len(),
            e == from.list(),
            series_map(into@) == start.union_prefer_right(series_map(entries_map(e.skip(i as int)))),
        decreases i,
    {
        i = i - 1;
        let ghost before = series_map(into@);
        let v: Vec<Bar> = copy_bars(from.value_at(i).as_slice());
        insert_series(into, from.key_at(i), v);
        proof {
            lemma_entries_skip(e, i as int);
            assert(series_map(entries_map(e.skip(i as int))) =~= series_map(
                entries_map(e.skip(i as int + 1)),
            ).insert(e[i as int].0@, e[i as int].1@));
            assert(series_map(into@) =~= start.union_prefer_right(
                series_map(entries_map(e.skip(i as int))),
            ));
        }
    }
    proof {
        assert(e.skip(0) =~= e);
    }
}

/// Puts a series into a map.
pub fn insert_series(into: &mut SymMap<Vec<Bar>>, key: &str, v: Vec<Bar>)
    ensures
        series_map(final(into)@) == series_map(old(into)@).insert(key@, v@),
{
    let ghost before = series_map(into@);
    let ghost sv = v@;
    into.insert(key, v);
    proof {
        assert(series_map(into@) =~= before.insert(key@, sv));
    }
}

/// The closed candles of an answer: the last one is still open.
pub open spec fn closed_series(raw: Seq<Bar>) -> Seq<Bar> {
    if raw.len() >= 2 {
        raw.drop_last()
    } else {
        raw
    }
}

/// Asks for closed candles.
pub open spec fn klines_run(
    w: World,
    log: Seq<Exchange>,
    symbol: Seq<char>,
    interval: Seq<char>,
    limit: usize,
) -> Run<Result<Seq<Bar>, Seq<char>>> {
    let a = ask(w, log, Call::Klines { symbol, interval, limit });
    Run {
        log: a.log,
        out: match bars(a.out) {
            Ok(raw) => Ok(closed_series(raw)),
            Err(e) => Err(e),
        },
    }
}

pub fn closed_klines<C: SnapshotClient>(
    feed: &mut Feed<C>,
    symbol: &str,
    interval: &str,
    limit: usize,
) -> (r: Result<Vec<Bar>, ExchangeError>)
    ensures
        forall|w: World| #[trigger]
            explains(w, final(feed).log()) ==> explains(w, old(feed).log()) && klines_run(
                w,
                old(feed).log(),
                symbol@,
                interval@,
                limit,
            ) == (Run { log: final(feed).log(), out: crate::wire::listing(r) }),
{
    match feed.klines(symbol, interval, limit) {
        Ok(raw) => {
            let mut raw = raw;
            if raw.len() >= 2 {
                let ghost all = raw@;
                raw.pop();
                proof {
                    assert(raw@ =~= all.drop_last());
                }
            }
            Ok(raw)
        },
        Err(e) => Err(e),
    }
}

/// The interval that a strategy charts.
pub open spec fn chart_interval(strategy_id: i32, s4: TradeInterval) -> Seq<char> {
    if strategy_id == 3 {
        CHART_INTERVAL@
    } else if strategy_id == 4 {
        s4.name()
    } else {
        "5m"@
    }
}

/// How many candles a strategy charts.
pub open spec fn chart_count(strategy_id: i32) -> usize {
    if strategy_id == 3 {
        CHART_LIMIT
    } else {
        121
    }
}

/// What a strategy charts.
pub fn chart_spec(strategy_id: i32, s4: TradeInterval) -> (r: (&'static str, usize))
    ensures
        r.0@ == chart_interval(strategy_id, s4),
        r.1 == chart_count(strategy_id),
{
    if strategy_id == 3 {
        (CHART_INTERVAL, CHART_LIMIT)
    } else if strategy_id == 4 {
        (s4.as_binance(), s4.chart_limit())
    } else {
        ("5m", 121)
    }
}

/// How many candles are asked for: few where only a held name is followed.
pub open spec fn wanted_count(held: Seq<Position>, scan_due: bool, symbol: Seq<char>) -> usize {
    if first_like(held, symbol) is Some && !scan_due {
        6
    } else {
        50
    }
}

/// Collects the series of the first `n` names that are not known yet.
pub open spec fn gather_run(
    w: World,
    log: Seq<Exchange>,
    known: Map<Seq<char>, Seq<Bar>>,
    names: Seq<Seq<char>>,
    n: int,
    interval: Seq<char>,
    held: Seq<Position>,
    scan_due: bool,
) -> Run<Map<Seq<char>, Seq<Bar>>>
    decreases n,
{
    if n <= 0 {
        Run { log, out: known }
    } else {
        let a = gather_run(w, log, known, names, n - 1, interval, held, scan_due);
        let name = names[n - 1];
        if a.out.contains_key(name) {
            a
        } else {
            let b = klines_run(w, a.log, name, interval, wanted_count(held, scan_due, name));
            Run {
                log: b.log,
                out: match b.out {
                    Ok(v) => if v.len() > 0 {
                        a.out.insert(name, v)
                    } else {
                        a.out
                    },
                    Err(_) => a.out,
                },
            }
        }
    }
}

pub fn gather<C: SnapshotClient>(
    feed: &mut Feed<C>,
    series: &mut SymMap<Vec<Bar>>,
    names: &[String],
    interval: &str,
    held: &[Position],
    scan_due: bool,
)
    ensures
        forall|w: World| #[trigger]
            explains(w, final(feed).log()) ==> explains(w, old(feed).log()) && gather_run(
                w,
                old(feed).log(),
                series_map(old(series)@),
                views(names@),
                names@.len() as int,
                interval@,
                held@,
                scan_due,
            ) == (Run { log: final(feed).log(), out: series_map(final(series)@) }),
{
    let ghost start = feed.log();
    let ghost known = series_map(series@);
    let ghost all = views(names@);
    let mut i: usize = 0;
    while i < names.len()
        invariant
            i <= names@.len(),
            all == views(names@),
            forall|w: World| #[trigger]
                explains(w, feed.log()) ==> explains(w, start) && gather_run(
                    w,
                    start,
                    known,
                    all,
                    i as int,
                    interval@,
                    held@,
                    scan_due,
                ) == (Run { log: feed.log(), out: series_map(series@) }),
        decreases names@.len() - i,
    {
        let name: &str = names[i].as_str();
        proof {
            assert(all[i as int] == name@);
        }
        if !series.contains_key(name) {
            let limit: usize = if find_like(held, name).is_some() && !scan_due {
                6
            } else {
                50
            };
            match closed_klines(feed, name, interval, limit) {
                Ok(v) => {
                    if v.len() > 0 {
                        insert_series(series, name, v);
                    }
                },
                Err(_) => {},
            }
        }
        i = i + 1;
    }
}

/// Collects the long series of the first `n` names, each anew.
pub open spec fn higher_run(w: World, log: Seq<Exchange>, names: Seq<Seq<char>>, n: int) -> Run<
    Map<Seq<char>, Seq<Bar>>,
>
    decreases n,
{
    if n <= 0 {
        Run { log, out: Map::empty() }
    } else {
        let a = higher_run(w, log, names, n - 1);
        let b = klines_run(w, a.log, names[n - 1], "4h"@, 50);
        Run {
            log: b.log,
            out: match b.out {
                Ok(v) => if v.len() > 0 {
                    a.out.insert(names[n - 1], v)
                } else {
                    a.out
                },
                Err(_) => a.out,
            },
        }
    }
}

pub fn gather_higher<C: SnapshotClient>(feed: &mut Feed<C>, names: &[String]) -> (r: SymMap<Vec<Bar>>)
    ensures
        forall|w: World| #[trigger]
            explains(w, final(feed).log()) ==> explains(w, old(feed).log()) && higher_run(
                w,
                old(feed).log(),
                views(names@),
                names@.len() as int,
            ) == (Run { log: final(feed).log(), out: series_map(r@) }),
{
    let ghost start = feed.log();
    let ghost all = views(names@);
    let mut out: SymMap<Vec<Bar>> = SymMap::new();
    let mut i: usize = 0;
    proof {
        assert(series_map(out@) =~= Map::<Seq<char>, Seq<Bar>>::empty());
    }
    while i < names.len()
        invariant
            i <= names@.len(),
            all == views(names@),
            forall|w: World| #[trigger]
                explains(w, feed.log()) ==> explains(w, start) && higher_run(
                    w,
                    start,
                    all,
                    i as int,
                ) == (Run { log: feed.log(), out: series_map(out@) }),
        decreases names@.len() - i,
    {
        let name: &str = names[i].as_str();
        proof {
            assert(all[i as int] == name@);
        }
        match closed_klines(feed, name, "4h", 50) {
            Ok(v) => {
                if v.len() > 0 {
                    insert_series(&mut out, name, v);
                }
            },
            Err(_) => {},
        }
        i = i + 1;
    }
    out
}

/// The last candle of every series.
pub open spec fn last_candles(m: Map<Seq<char>, Seq<Bar>>) -> Map<Seq<char>, Bar> {
    Map::new(
        |k: Seq<char>| m.contains_key(k) && m[k].len() > 0,
        |k: Seq<char>| m[k].last(),
    )
}

/// The last candle of every series.
pub fn list_last_candles(m: &SymMap<Vec<Bar>>) -> (r: SymMap<Bar>)
    ensures
        r@ == last_candles(series_map(m@)),
{
    let ghost e = m.list();
    let mut out: SymMap<Bar> = SymMap::new();
    let mut i: usize = m.len();
    proof {
        lemma_entries(*m);
        lemma_entries_none(e);
        assert(out@ =~= last_candles(series_map(entries_map(e.skip(i as int)))));
    }
    while i > 0
        invariant
            i <= e.len(),
            e == m.list(),
            out@ == last_candles(series_map(entries_map(e.skip(i as int)))),
        decreases i,
    {
        i = i - 1;
        let v: &Vec<Bar> = m.value_at(i);
        proof {
            lemma_entries_skip(e, i as int);
        }
        if v.len() > 0 {
            out.insert(m.key_at(i), v[v.len() - 1]);
        } else {
            out.remove(m.key_at(i));
        }
        proof {
            assert(out@ =~= last_candles(series_map(entries_map(e.skip(i as int)))));
        }
    }
    proof {
        assert(e.skip(0) =~= e);
    }
    out
}

/// Collects the last closed candles of the first `n` names that have none yet.
pub open spec fn candles_run(
    w: World,
    log: Seq<Exchange>,
    known: Map<Seq<char>, Bar>,
    names: Seq<Seq<char>>,
    n: int,
) -> Run<Map<Seq<char>, Bar>>
    decreases n,
{
    if n <= 0 {
        Run { log, out: known }
    } else {
        let a = candles_run(w, log, known, names, n - 1);
        let name = names[n - 1];
        if a.out.contains_key(name) {
            a
        } else {
            let b = ask(w, a.log, Call::Klines { symbol: name, interval: "5m"@, limit: 3 });
            Run {
                log: b.log,
                out: match bars(b.out) {
                    Ok(v) => match closed_bar(v) {
                        Some(c) => a.out.insert(name, c),
                        None => a.out,
                    },
                    Err(_) => a.out,
                },
            }
        }
    }
}

pub fn gather_candles<C: SnapshotClient>(feed: &mut Feed<C>, known: &mut SymMap<Bar>, names: &[String])
    ensures
        forall|w: World| #[trigger]
            explains(w, final(feed).log()) ==> explains(w, old(feed).log()) && candles_run(
                w,
                old(feed).log(),
                old(known)@,
                views(names@),
                names@.len() as int,
            ) == (Run { log: final(feed).log(), out: final(known)@ }),
{
    let ghost start = feed.log();
    let ghost first = known@;
    let ghost all = views(names@);
    let mut i: usize = 0;
    while i < names.len()
        invariant
            i <= names@.len(),
            all == views(names@),
            forall|w: World| #[trigger]
                explains(w, feed.log()) ==> explains(w, start) && candles_run(
                    w,
                    start,
                    first,
                    all,
                    i as int,
                ) == (Run { log: feed.log(), out: known@ }),
        decreases names@.len() - i,
    {
        let name: &str = names[i].as_str();
        proof {
            assert(all[i as int] == name@);
        }
        if !known.contains_key(name) {
            if let Ok(v) = feed.klines(name, "5m", 3) {
                if let Some(c) = last_closed_bar(v.as_slice()) {
                    known.insert(name, c);
                }
            }
        }
        i = i + 1;
    }
}

/// Series, and what went wrong first.
pub struct Gathered {
    pub series: Map<Seq<char>, Seq<Bar>>,
    pub error: Option<Seq<char>>,
}

/// The error that is kept: the first.
pub open spec fn first_error(error: Option<Seq<char>>, e: Seq<char>) -> Option<Seq<char>> {
    if error is Some {
        error
    } else {
        Some(described(e))
    }
}

/// Keeps the first error.
pub fn note_error(error: &mut Option<String>, e: &ExchangeError)
    ensures
        opt_view(*final(error)) == first_error(opt_view(*old(error)), e@),
{
    if error.is_none() {
        *error = Some(describe_exchange_error(e.0.as_str()));
    }
}

/// Collects the series of the first `n` names; the chart's are there already.
pub open spec fn majors_run(
    w: World,
    log: Seq<Exchange>,
    error: Option<Seq<char>>,
    names: Seq<Seq<char>>,
    n: int,
    chart: Seq<char>,
    chart_bars: Seq<Bar>,
    interval: Seq<char>,
    limit: usize,
) -> Run<Gathered>
    decreases n,
{
    if n <= 0 {
        Run { log, out: Gathered { series: Map::empty(), error } }
    } else {
        let a = majors_run(w, log, error, names, n - 1, chart, chart_bars, interval, limit);
        let name = names[n - 1];
        if name == chart {
            Run { log: a.log, out: Gathered { series: a.out.series.insert(name, chart_bars), ..a.out } }
        } else {
            let b = klines_run(w, a.log, name, interval, limit);
            Run {
                log: b.log,
                out: match b.out {
                    Ok(v) => if v.len() > 0 {
                        Gathered { series: a.out.series.insert(name, v), ..a.out }
                    } else {
                        a.out
                    },
                    Err(e) => Gathered { error: first_error(a.out.error, e), ..a.out },
                },
            }
        }
    }
}

pub fn gather_majors<C: SnapshotClient>(
    feed: &mut Feed<C>,
    error: &mut Option<String>,
    names: &[String],
    chart: &str,
    chart_bars: &[Bar],
    interval: &str,
    limit: usize,
) -> (r: SymMap<Vec<Bar>>)
    ensures
        forall|w: World| #[trigger]
            explains(w, final(feed).log()) ==> explains(w, old(feed).log()) && majors_run(
                w,
                old(feed).log(),
                opt_view(*old(error)),
                views(names@),
                names@.len() as int,
                chart@,
                chart_bars@,
                interval@,
                limit,
            ) == (Run {
                log: final(feed).log(),
                out: Gathered { series: series_map(r@), error: opt_view(*final(error)) },
            }),
{
    let ghost start = feed.log();
    let ghost first = opt_view(*error);
    let ghost all = views(names@);
    let mut out: SymMap<Vec<Bar>> = SymMap::new();
    let mut i: usize = 0;
    proof {
        assert(series_map(out@) =~= Map::<Seq<char>, Seq<Bar>>::empty());
    }
    while i < names.len()
        invariant
            i <= names@.len(),
            all == views(names@),
            forall|w: World| #[trigger]
                explains(w, feed.log()) ==> explains(w, start) && majors_run(
                    w,
                    start,
                    first,
                    all,
                    i as int,
                    chart@,
                    chart_bars@,
                    interval@,
                    limit,
                ) == (Run {
                    log: feed.log(),
                    out: Gathered { series: series_map(out@), error: opt_view(*error) },
                }),
        decreases names@.len() - i,
    {
        let name: &str = names[i].as_str();
        proof {
            assert(all[i as int] == name@);
        }
        if same(name, chart) {
            insert_series(&mut out, name, copy_bars(chart_bars));
        } else {
            match closed_klines(feed, name, interval, limit) {
                Ok(v) => {
                    if v.len() > 0 {
                        insert_series(&mut out, name, v);
                    }
                },
                Err(e) => {
                    note_error(error, &e);
                },
            }
        }
        i = i + 1;
    }
    out
}

/// Candles are taken without the one that still forms: of two or more the last one
/// is left out, and every other stays.
pub proof fn law_forming_candle_is_left_out(raw: Seq<Bar>, i: int)
    ensures
        raw.len() >= 2 ==> closed_series(raw).len() == raw.len() - 1,
        raw.len() < 2 ==> closed_series(raw) == raw,
        0 <= i < raw.len() - 1 ==> closed_series(raw)[i] == raw[i],
{
}

/// The last candle of a series is the newest one that is kept; a name without
/// candles has none.
pub proof fn law_last_candles(m: Map<Seq<char>, Seq<Bar>>, k: Seq<char>)
    ensures
        last_candles(m).contains_key(k) <==> m.contains_key(k) && m[k].len() > 0,
        m.contains_key(k) && m[k].len() > 0 ==> last_candles(m)[k] == m[k][m[k].len() - 1],
{
}

/// What is asked for the higher timeframe: fifty candles of 4h for each name, in
/// order, and nothing else.
pub proof fn law_higher_timeframe_is_asked_by_name(w: World, log: Seq<Exchange>, names: Seq<Seq<char>>, n: int, i: int)
    requires
        0 <= i < n <= names.len(),
    ensures
        ({
            let r = higher_run(w, log, names, n);
            &&& r.log.len() == log.len() + n
            &&& r.log[log.len() + i].call == (Call::Klines {
                symbol: names[i],
                interval: "4h"@,
                limit: 50,
            })
        }),
    decreases n,
{
    lemma_higher_len(w, log, names, n - 1);
    if i < n - 1 {
        law_higher_timeframe_is_asked_by_name(w, log, names, n - 1, i);
    }
}

proof fn lemma_higher_len(w: World, log: Seq<Exchange>, names: Seq<Seq<char>>, n: int)
    requires
        0 <= n <= names.len(),
    ensures
        higher_run(w, log, names, n).log.len() == log.len() + n,
    decreases n,
{
    if n > 0 {
        lemma_higher_len(w, log, names, n - 1);
    }
}

} // verus!

//! What holds of every snapshot.
use super::bars::{candles_run, gather_run, higher_run, majors_run};
use super::{
    at_least_one, book_run, candles_of, chart_run, chart_series, charted, distinct_keys, fetch_run,
    filled_row, fourth_book, fourth_knobs, held_from, is_scan_due, load_run, major_names, outage,
    pinned, shown_rows, skips_merged, ticker_names, with_held, with_name, FetchInput, SnapView,
};
use crate::continuation::SkipRow;
use crate::dec::Dec;
use crate::models::{
    last_with_symbol, lemma_filter_member, managed_longs, open_longs, Account, Bar, EngineStateView,
    Position, Side, Ticker,
};
use crate::ranking::{momentum_book, strategy1_rows};
use crate::text::{in_text_order, law_ordering_keeps_the_texts, upper};
use crate::wire::{ask, book, Call, Exchange, World};
use vstd::prelude::*;

verus! {

/// When the market cannot be read, the account, the book and the chart are those
/// of the snapshot before.
pub proof fn law_outage_keeps_the_book(
    st: EngineStateView,
    prior: SnapView,
    account: Option<Account>,
    positions: Seq<Position>,
    e: Seq<char>,
)
    requires
        prior.account_ok,
    ensures
        ({
            let held = held_from(Some(prior), account, positions, st.position);
            let s = outage(st, Some(prior), held, e);
            &&& s.account == prior.account
            &&& s.open_positions == prior.open_positions
            &&& s.position == prior.position
            &&& s.tickers == prior.tickers
            &&& s.chart_symbol == prior.chart_symbol
            &&& !s.fetched
        }),
{
}

/// A book that the exchange does not list is not taken for a flat one: what a
/// live snapshot showed before stays.
pub proof fn law_unlisted_book_is_not_flat(
    w: World,
    log: Seq<Exchange>,
    st: EngineStateView,
    prior: SnapView,
    account: Option<Account>,
    positions: Seq<Position>,
    known: Seq<Position>,
    journal: Seq<Position>,
    baseline: Option<Dec>,
)
    requires
        prior.live_book,
        prior.open_positions.len() > 0,
        book(w(load_run(w, log, baseline).log.len() as int)) is Err,
    ensures
        ({
            let held = held_from(Some(prior), account, positions, st.position);
            let r = book_run(w, log, st, Some(prior), held, known, journal, baseline);
            r.out is Some ==> r.out->0.live_book && r.out->0.open_positions.len() > 0
        }),
{
}

/// A snapshot says that it was fetched exactly where it names no error.
pub proof fn law_fetched_means_no_error(
    w: World,
    log: Seq<Exchange>,
    i: FetchInput,
    tally: Seq<SkipRow>,
)
    requires
        fetch_run(w, log, i, tally).out is Some,
    ensures
        ({
            let s = (fetch_run(w, log, i, tally).out->0).0;
            s.fetched <==> s.last_error is None
        }),
{
}

/// The equity that was pinned first stays pinned.
pub proof fn law_pinned_equity_stays(pin: Option<Dec>, a: SnapView, b: SnapView)
    ensures
        pin is Some ==> pinned(pin, a) == pin,
        pinned(pin, a) is Some ==> pinned(pinned(pin, a), b) == pinned(pin, a),
{
}

/// The journal fills what is missing and changes nothing that is there.
pub proof fn law_journal_only_fills(p: Position, j: Position)
    ensures
        p.stop_loss is Some ==> filled_row(p, j).stop_loss == p.stop_loss,
        p.take_profit is Some ==> filled_row(p, j).take_profit == p.take_profit,
        filled_row(p, j).qty == p.qty && filled_row(p, j).symbol == p.symbol && filled_row(
            p,
            j,
        ).entry_price == p.entry_price,
{
}

proof fn lemma_distinct_keys(v: Seq<Seq<char>>, n: int, k: int)
    requires
        0 <= k < n <= v.len(),
    ensures
        distinct_keys(v, n).contains(upper(v[k])),
    decreases n,
{
    let rest = distinct_keys(v, n - 1);
    let all = distinct_keys(v, n);
    if k < n - 1 {
        lemma_distinct_keys(v, n - 1, k);
        let i = choose|i: int| 0 <= i < rest.len() && rest[i] == upper(v[k]);
        assert(all[i] == upper(v[k]));
    } else if !rest.contains(upper(v[k])) {
        assert(all[rest.len() as int] == upper(v[k]));
    }
}

/// Names that are to be skipped are skipped, and so are those that were before.
pub proof fn law_skipped_names_stay_skipped(st: EngineStateView, extra: Seq<Seq<char>>, k: int)
    requires
        0 <= k < (st.skip_symbols + extra).len(),
    ensures
        skips_merged(st, extra).skip_symbols.contains(upper((st.skip_symbols + extra)[k])),
{
    let all = st.skip_symbols + extra;
    let keys = distinct_keys(all, all.len() as int);
    lemma_distinct_keys(all, all.len() as int, k);
    law_ordering_keeps_the_texts(keys);
    let key = upper(all[k]);
    keys.to_multiset_ensures();
    in_text_order(keys).to_multiset_ensures();
    assert(keys.to_multiset().count(key) > 0);
}

/// Whether only market data was asked for past an index.
pub open spec fn market_only_from(log: Seq<Exchange>, from: int) -> bool {
    &&& 0 <= from <= log.len()
    &&& forall|i: int|
        from <= i < log.len() ==> (#[trigger] log[i]).call is Klines || log[i].call is Tickers
}

proof fn lemma_gather(
    w: World,
    log: Seq<Exchange>,
    known: Map<Seq<char>, Seq<Bar>>,
    names: Seq<Seq<char>>,
    n: int,
    interval: Seq<char>,
    held: Seq<Position>,
    scan_due: bool,
    from: int,
)
    requires
        market_only_from(log, from),
    ensures
        market_only_from(
            gather_run(w, log, known, names, n, interval, held, scan_due).log,
            from,
        ),
    decreases n,
{
    if n > 0 {
        lemma_gather(w, log, known, names, n - 1, interval, held, scan_due, from);
    }
}

proof fn lemma_higher(w: World, log: Seq<Exchange>, names: Seq<Seq<char>>, n: int, from: int)
    requires
        market_only_from(log, from),
    ensures
        market_only_from(higher_run(w, log, names, n).log, from),
    decreases n,
{
    if n > 0 {
        lemma_higher(w, log, names, n - 1, from);
    }
}

proof fn lemma_candles(
    w: World,
    log: Seq<Exchange>,
    known: Map<Seq<char>, Bar>,
    names: Seq<Seq<char>>,
    n: int,
    from: int,
)
    requires
        market_only_from(log, from),
    ensures
        market_only_from(candles_run(w, log, known, names, n).log, from),
    decreases n,
{
    if n > 0 {
        lemma_candles(w, log, known, names, n - 1, from);
    }
}

proof fn lemma_majors(
    w: World,
    log: Seq<Exchange>,
    error: Option<Seq<char>>,
    names: Seq<Seq<char>>,
    n: int,
    chart: Seq<char>,
    chart_bars: Seq<Bar>,
    interval: Seq<char>,
    limit: usize,
    from: int,
)
    requires
        market_only_from(log, from),
    ensures
        market_only_from(
            majors_run(w, log, error, names, n, chart, chart_bars, interval, limit).log,
            from,
        ),
    decreases n,
{
    if n > 0 {
        lemma_majors(w, log, error, names, n - 1, chart, chart_bars, interval, limit, from);
    }
}

proof fn lemma_candles_of(
    w: World,
    log: Seq<Exchange>,
    i: FetchInput,
    tickers: Seq<Ticker>,
    chart: Seq<char>,
    chart_bars: Seq<Bar>,
    error: Option<Seq<char>>,
    tally: Seq<SkipRow>,
    from: int,
)
    requires
        market_only_from(log, from),
    ensures
        market_only_from(
            candles_of(w, log, i, tickers, chart, chart_bars, error, tally).log,
            from,
        ),
{
    if i.st.strategy_id == 4 {
        let due = is_scan_due(i.st.last_scan_ts as int, i.now);
        let picked = if due {
            fourth_book(
                tickers,
                i.st.skip_symbols,
                fourth_knobs(i.cfg, at_least_one(i.cfg.s4_max_positions)),
                tally,
            )
        } else {
            Some((Seq::<Ticker>::empty(), tally))
        };
        if let Some((rows, _)) = picked {
            let want = with_held(ticker_names(rows), i.known, i.known.len() as int);
            let higher = with_name(want, chart);
            let known = chart_series(chart, chart_bars);
            let n: int = want.len() as int;
            lemma_gather(w, log, known, want, n, i.cfg.s4_interval.name(), i.known, due, from);
            let a = gather_run(
                w,
                log,
                known,
                want,
                n,
                i.cfg.s4_interval.name(),
                i.known,
                due,
            );
            lemma_higher(w, a.log, higher, higher.len() as int, from);
        }
    } else {
        let names = major_names(tickers, i.st.skip_symbols, chart);
        let interval = super::bars::chart_interval(i.st.strategy_id, i.cfg.s4_interval);
        let limit = super::bars::chart_count(i.st.strategy_id);
        let n: int = names.len() as int;
        lemma_majors(w, log, error, names, n, chart, chart_bars, interval, limit, from);
        let wide = (i.st.strategy_id == 2 || i.st.strategy_id == 3) && i.known.len() == 0;
        let mid = if wide {
            majors_run(w, log, error, names, n, chart, chart_bars, interval, limit).log
        } else {
            log
        };
        if let Some(rows) = momentum_book(
            tickers,
            at_least_one(i.cfg.max_positions) as int,
            strategy1_rows(),
            i.st.skip_symbols,
            true,
        ) {
            let v = ticker_names(rows);
            lemma_candles(
                w,
                mid,
                super::chart_candle(chart, chart_bars),
                v,
                v.len() as int,
                from,
            );
        }
    }
}

/// Without keys a snapshot asks for market data only: never for the account or
/// the positions.
pub proof fn law_without_keys_only_the_market_is_asked(
    w: World,
    log: Seq<Exchange>,
    i: FetchInput,
    tally: Seq<SkipRow>,
)
    requires
        i.cfg.credentials is None,
    ensures
        market_only_from(fetch_run(w, log, i, tally).log, log.len() as int),
{
    let a = ask(w, log, Call::Tickers);
    if let Ok(rows) = crate::wire::tickers(a.out) {
        if let Some((chart, t1)) = charted(i.cfg, i.st, rows, i.known, tally) {
            let b = chart_run(w, a.log, i.cfg, i.st, chart, None);
            let (chart_bars, error) = b.out;
            lemma_candles_of(
                w,
                b.log,
                i,
                rows,
                chart,
                chart_bars,
                error,
                t1,
                log.len() as int,
            );
        }
    }
}

/// How the exchange's rows are shown: as many as it has, each of its name and side;
/// a short as it is, a long completed from what the desk remembers, with the
/// quantity that the exchange states.
pub proof fn law_rows_are_shown_as_listed(rows: Seq<Position>, known: Seq<Position>, i: int)
    requires
        0 <= i < rows.len(),
        rows[i].qty.pos(),
    ensures
        ({
            let v = shown_rows(rows, managed_longs(rows, known));
            &&& v.len() == rows.len()
            &&& v[i].symbol@ == rows[i].symbol@
            &&& v[i].side == rows[i].side
            &&& v[i].qty.pos()
            &&& rows[i].side == Side::Short ==> v[i] == rows[i]
        }),
{
    let managed = managed_longs(rows, known);
    assert(managed.take(managed.len() as int) =~= managed);
    if rows[i].side == Side::Long {
        lemma_managed(rows, known, rows[i].symbol@, managed.len() as int);
    }
}

proof fn lemma_managed(rows: Seq<Position>, known: Seq<Position>, symbol: Seq<char>, n: int)
    requires
        0 <= n <= managed_longs(rows, known).len(),
    ensures
        last_with_symbol(managed_longs(rows, known).take(n), symbol) matches Some(p) ==> p.symbol@ == symbol
            && p.side == Side::Long && p.qty.pos(),
    decreases n,
{
    let all = managed_longs(rows, known);
    let v = all.take(n);
    if n == all.len() {
        assert(v =~= all);
    }
    if n > 0 {
        assert(v.drop_last() =~= all.take(n - 1));
        lemma_managed(rows, known, symbol, n - 1);
        let longs = open_longs(rows);
        assert(longs.contains(longs[n - 1]));
        lemma_filter_member(rows, |p: Position| p.is_open_long(), longs[n - 1]);
        assert(v.last() == all[n - 1]);
    }
}

/// A missing stop is filled in for a long only, a missing take-profit for any row,
/// and what is there stays.
pub proof fn law_missing_lines_are_filled(p: Position, j: Position)
    ensures
        p.stop_loss is None && p.side == Side::Long ==> filled_row(p, j).stop_loss == j.stop_loss,
        p.stop_loss is None && p.side == Side::Short ==> filled_row(p, j).stop_loss is None,
        p.take_profit is None ==> filled_row(p, j).take_profit == j.take_profit,
        filled_row(p, j).side == p.side,
{
}

} // verus!

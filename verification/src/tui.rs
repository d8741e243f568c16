//! What the terminal session decides: when to pull, what a scan does, what a key
//! does. The loop that reads keys and paints is not here.
use crate::config::load::{Config, ConfigView};
use crate::continuation::{noted_all, SkipTally};
use crate::dayrisk::{apply_day_risk, state_day_risk, with_day_risk, DayLimits};
use crate::dec::Dec;
use crate::desk_orchestrator::HeatLimits;
use crate::engine::tick::{desk_knobs, tick_decisions, tick_result, DeskKnobs, TickView};
use crate::journal::{Ledger, LedgerView, Stamp, StampView};
use crate::keys::{handle_key, key_action, KeyAction};
use crate::live::adopt::{apply_paper_decision, on_paper, Book};
use crate::live::reconcile::{reconcile_live, reconcile_run};
use crate::live::{apply_decision, decision_run, no_apply, LiveApplyResult};
use crate::models::{
    decision_views, opt_view, Decision, DecisionView, EngineState, EngineStateView, MarketSnapshot, Position,
};
use crate::momentum::{default_momentum, MomentumParams, MomentumView};
use crate::profit::{current_equity, equity_of};
use crate::sessions::copy_windows;
use crate::signals::{decision_kind, kind_for_decision, reason_suggests_win, suggests_win, TradeSignal};
use crate::text::{lower, own, same};
use crate::wire::{explains, Exchange, LiveClient, Run, Wire, World};
use vstd::prelude::*;

verus! {

/// How often the market is pulled, in milliseconds.
pub const SNAPSHOT_INTERVAL_MS: i64 = 5_000;

/// After how long without a pull the footer warns, in milliseconds.
pub const SNAPSHOT_STALE_MS: i64 = 30_000;

/// Whether the market must be pulled again.
pub fn snapshot_due(now: i64, last_at: i64) -> (r: bool)
    ensures
        r == (now - last_at >= SNAPSHOT_INTERVAL_MS),
{
    (now as i128) - (last_at as i128) >= SNAPSHOT_INTERVAL_MS as i128
}

/// Whether pulls have stopped coming.
pub fn snapshot_stale(now: i64, last_at: i64) -> (r: bool)
    ensures
        r == (now - last_at >= SNAPSHOT_STALE_MS),
{
    (now as i128) - (last_at as i128) >= SNAPSHOT_STALE_MS as i128
}

pub open spec fn stale_text() -> Seq<char> {
    "сеть: снимок рынка завис"@
}

/// A pull came: the warning that none came is taken back.
pub fn note_pulled(state: &mut EngineState)
    ensures
        final(state)@ == (EngineStateView {
            last_error: if opt_view(old(state).last_error) == Some(stale_text()) {
                None
            } else {
                opt_view(old(state).last_error)
            },
            ..old(state)@
        }),
{
    let stale: bool = match &state.last_error {
        Some(e) => same(e.as_str(), "сеть: снимок рынка завис"),
        None => false,
    };
    if stale {
        state.last_error = None;
    }
}

/// No pull came: where they have stopped, the footer says so, unless it says
/// something else.
pub fn note_waiting(state: &mut EngineState, now: i64, last_at: i64)
    ensures
        final(state)@ == (EngineStateView {
            last_error: if now - last_at >= SNAPSHOT_STALE_MS && old(state).last_error is None {
                Some(stale_text())
            } else {
                opt_view(old(state).last_error)
            },
            ..old(state)@
        }),
{
    if snapshot_stale(now, last_at) && state.last_error.is_none() {
        state.last_error = Some(own("сеть: снимок рынка завис"));
    }
}

/// The knobs of the desk under settings.
pub fn desk_momentum(cfg: &Config) -> (r: MomentumParams)
    ensures
        r@ == (MomentumView {
            poll_seconds: cfg.poll_seconds,
            tp_pct: cfg.tp_pct,
            trail_pct: cfg.trail_pct,
            entry_windows: cfg.entry_windows@,
            always_enter: cfg.always_enter,
            s4_entry_windows: cfg.s4_entry_windows@,
            s4_always_enter: cfg.s4_always_enter,
            s4_interval: cfg.s4_interval,
            s4_max_positions: cfg.s4_max_positions,
            max_positions: cfg.max_positions,
            daily_loss_usdt: cfg.daily_loss_usdt,
            daily_loss_r: cfg.daily_loss_r,
            risk_pct: cfg.risk_pct,
            ..default_momentum()
        }),
{
    let mut p: MomentumParams = MomentumParams::default();
    p.poll_seconds = cfg.poll_seconds;
    p.tp_pct = cfg.tp_pct;
    p.trail_pct = cfg.trail_pct;
    p.entry_windows = copy_windows(cfg.entry_windows.as_slice());
    p.always_enter = cfg.always_enter;
    p.s4_entry_windows = copy_windows(cfg.s4_entry_windows.as_slice());
    p.s4_always_enter = cfg.s4_always_enter;
    p.s4_interval = cfg.s4_interval;
    p.s4_max_positions = cfg.s4_max_positions;
    p.max_positions = cfg.max_positions;
    p.daily_loss_usdt = cfg.daily_loss_usdt;
    p.daily_loss_r = cfg.daily_loss_r;
    p.risk_pct = cfg.risk_pct;
    p
}

/// The day's limits under settings.
pub open spec fn limits_of(cfg: Config) -> DayLimits {
    DayLimits { usdt_limit: cfg.daily_loss_usdt, loss_r: cfg.daily_loss_r, risk_pct: cfg.risk_pct }
}

/// Brings the day's account up to date. `None` where a figure leaves its range.
pub fn refresh_day_risk(cfg: &Config, state: &mut EngineState, snapshot: &MarketSnapshot, now: i64) -> (r:
    Option<()>)
    ensures
        match equity_of(snapshot.account.wallet_balance, snapshot.account.unrealized_pnl) {
            None => r is None && final(state)@ == old(state)@,
            Some(equity) => match state_day_risk(old(state)@, now as int, equity, limits_of(*cfg)) {
                None => r is None && final(state)@ == old(state)@,
                Some(d) => r is Some && final(state)@ == with_day_risk(old(state)@, d),
            },
        },
{
    let equity: Dec = current_equity(
        snapshot.account.wallet_balance,
        snapshot.account.unrealized_pnl,
    )?;
    let limits: DayLimits = DayLimits {
        usdt_limit: cfg.daily_loss_usdt,
        loss_r: cfg.daily_loss_r,
        risk_pct: cfg.risk_pct,
    };
    match apply_day_risk(state, now, equity, limits) {
        Some(_) => Some(()),
        None => None,
    }
}

/// What a key makes of the desk, and whether a flatten is armed after it.
pub open spec fn pressed(s: EngineStateView, armed: bool, ch: char) -> (EngineStateView, bool) {
    match key_action(ch, armed) {
        KeyAction::Strategy(id) => (EngineStateView { strategy_id: id, ..s }, false),
        KeyAction::Refresh => (EngineStateView { entries_paused: false, last_error: None, ..s }, false),
        KeyAction::FlattenArm => (s, true),
        KeyAction::FlattenConfirm => (s, false),
        KeyAction::FlattenCancel => (s, false),
        KeyAction::Quit => (s, armed),
        KeyAction::Ignore => (s, armed),
    }
}

/// A key: it changes the desk, and says what is left to do.
pub fn press_key(state: &mut EngineState, armed: bool, ch: char) -> (r: (KeyAction, bool))
    ensures
        r.0 == key_action(ch, armed),
        (final(state)@, r.1) == pressed(old(state)@, armed, ch),
{
    let action: KeyAction = handle_key(ch, armed);
    let mut next: bool = armed;
    match action {
        KeyAction::Strategy(id) => {
            state.strategy_id = id;
            next = false;
        },
        KeyAction::Refresh => {
            state.entries_paused = false;
            state.last_error = None;
            next = false;
        },
        KeyAction::FlattenArm => {
            next = true;
        },
        KeyAction::FlattenConfirm => {
            next = false;
        },
        KeyAction::FlattenCancel => {
            next = false;
        },
        KeyAction::Quit => {},
        KeyAction::Ignore => {},
    }
    (action, next)
}

/// What a scan came to.
#[derive(Debug)]
pub struct ScanResult {
    pub decisions: Vec<Decision>,
    /// What the screen says was decided.
    pub text: String,
    pub chimes: Vec<TradeSignal>,
    /// Whether what is remembered of the open trades changed.
    pub persist: bool,
}

/// What the screen says was decided.
pub open spec fn scan_text(ds: Seq<DecisionView>) -> Seq<char> {
    if ds.len() > 0 {
        ds[0].reason()
    } else {
        "—"@
    }
}

fn first_reason(ds: &[Decision]) -> (r: String)
    ensures
        r@ == scan_text(decision_views(ds@)),
{
    proof {
        assert(decision_views(ds@).len() == ds@.len());
    }
    if ds.len() > 0 {
        own(ds[0].reason())
    } else {
        own("—")
    }
}

/// The chimes with one more, where there is one.
pub open spec fn with_chime(v: Seq<TradeSignal>, kind: Option<TradeSignal>) -> Seq<TradeSignal> {
    match kind {
        Some(k) => v.push(k),
        None => v,
    }
}

/// A desk with its book and what is to sound.
pub struct Sounded {
    pub book: Book,
    pub chimes: Seq<TradeSignal>,
}

/// Carrying the first `n` decisions out, one after the other.
pub open spec fn carried_run(
    w: World,
    log: Seq<Exchange>,
    cfg: ConfigView,
    s: MarketSnapshot,
    start: Sounded,
    ds: Seq<Decision>,
    n: int,
    at: StampView,
) -> Run<Option<Sounded>>
    decreases n,
{
    if n <= 0 {
        Run { log, out: Some(start) }
    } else {
        let before = carried_run(w, log, cfg, s, start, ds, n - 1, at);
        match before.out {
            None => before,
            Some(x) => {
                let a = decision_run(w, before.log, cfg, s, x.book, ds[n - 1], at);
                Run {
                    log: a.log,
                    out: match a.out {
                        None => None,
                        Some((book, _, kind)) => Some(
                            Sounded { book, chimes: with_chime(x.chimes, kind) },
                        ),
                    },
                }
            },
        }
    }
}

proof fn lemma_carried_none(
    w: World,
    log: Seq<Exchange>,
    cfg: ConfigView,
    s: MarketSnapshot,
    start: Sounded,
    ds: Seq<Decision>,
    n: int,
    m: int,
    at: StampView,
)
    requires
        0 <= n <= m,
        carried_run(w, log, cfg, s, start, ds, n, at).out is None,
    ensures
        carried_run(w, log, cfg, s, start, ds, m, at) == carried_run(w, log, cfg, s, start, ds, n, at),
    decreases m - n,
{
    if n < m {
        lemma_carried_none(w, log, cfg, s, start, ds, n, m - 1, at);
    }
}

fn carry_all<C: LiveClient>(
    cfg: &Config,
    wire: &mut Wire<C>,
    state: &mut EngineState,
    snapshot: &MarketSnapshot,
    decisions: &[Decision],
    ledger: &mut Ledger,
    chimes: &mut Vec<TradeSignal>,
    at: &Stamp,
) -> (r: Option<()>)
    ensures
        forall|w: World| #[trigger]
            explains(w, final(wire).log()) ==> explains(w, old(wire).log()) && carried_run(
                w,
                old(wire).log(),
                cfg@,
                *snapshot,
                Sounded {
                    book: Book { state: old(state)@, ledger: old(ledger)@ },
                    chimes: old(chimes)@,
                },
                decisions@,
                decisions@.len() as int,
                at@,
            ) == (Run {
                log: final(wire).log(),
                out: match r {
                    Some(_) => Some(
                        Sounded {
                            book: Book { state: final(state)@, ledger: final(ledger)@ },
                            chimes: final(chimes)@,
                        },
                    ),
                    None => None,
                },
            }),
{
    let ghost log0 = wire.log();
    let ghost start = Sounded {
        book: Book { state: state@, ledger: ledger@ },
        chimes: chimes@,
    };
    let mut i: usize = 0;
    while i < decisions.len()
        invariant
            i <= decisions@.len(),
            log0 == old(wire).log(),
            start == (Sounded {
                book: Book { state: old(state)@, ledger: old(ledger)@ },
                chimes: old(chimes)@,
            }),
            forall|w: World| #[trigger]
                explains(w, wire.log()) ==> explains(w, log0) && carried_run(
                    w,
                    log0,
                    cfg@,
                    *snapshot,
                    start,
                    decisions@,
                    i as int,
                    at@,
                ) == (Run {
                    log: wire.log(),
                    out: Some(
                        Sounded {
                            book: Book { state: state@, ledger: ledger@ },
                            chimes: chimes@,
                        },
                    ),
                }),
        decreases decisions@.len() - i,
    {
        let ghost mid = wire.log();
        match apply_decision(cfg, wire, state, snapshot, &decisions[i], ledger, at) {
            Some((_, kind)) => {
                if let Some(k) = kind {
                    chimes.push(k);
                }
            },
            None => {
                proof {
                    assert forall|w: World| #[trigger] explains(w, wire.log()) implies explains(
                        w,
                        log0,
                    ) && carried_run(
                        w,
                        log0,
                        cfg@,
                        *snapshot,
                        start,
                        decisions@,
                        decisions@.len() as int,
                        at@,
                    ) == (Run { log: wire.log(), out: None::<Sounded> }) by {
                        assert(explains(w, mid));
                        lemma_carried_none(
                            w,
                            log0,
                            cfg@,
                            *snapshot,
                            start,
                            decisions@,
                            i as int + 1,
                            decisions@.len() as int,
                            at@,
                        );
                    }
                }
                return None;
            },
        }
        proof {
            assert forall|w: World| #[trigger] explains(w, wire.log()) implies explains(w, log0)
                && carried_run(
                w,
                log0,
                cfg@,
                *snapshot,
                start,
                decisions@,
                i as int + 1,
                at@,
            ) == (Run {
                log: wire.log(),
                out: Some(
                    Sounded { book: Book { state: state@, ledger: ledger@ }, chimes: chimes@ },
                ),
            }) by {
                assert(explains(w, mid));
            }
        }
        i = i + 1;
    }
    Some(())
}

/// What the desk decides on, besides its book.
pub struct TickInput {
    pub snapshot: MarketSnapshot,
    pub knobs: DeskKnobs,
    pub pending: Option<Seq<char>>,
    pub orchestrated: bool,
    pub heat: HeatLimits,
    pub now: i64,
}

/// What a scan starts from, besides the exchange.
pub struct ScanInput {
    pub cfg: ConfigView,
    pub book: Book,
    pub tick: TickInput,
    pub at: StampView,
}

/// What a scan leaves.
pub struct Scanned {
    pub book: Book,
    pub chimes: Seq<TradeSignal>,
    pub skips: Seq<Seq<char>>,
    pub persist: bool,
}

/// The tick of a scan.
#[verifier::opaque]
pub open spec fn scan_tick(i: TickInput, book: Book) -> Option<TickView> {
    tick_result(
        book.state,
        i.snapshot,
        i.knobs,
        book.ledger.meta,
        i.pending,
        i.orchestrated,
        i.heat,
        i.now,
    )
}

/// The book after a tick.
pub open spec fn ticked_book(book: Book, t: TickView) -> Book {
    Book { state: t.state, ledger: LedgerView { meta: t.meta, ..book.ledger } }
}

/// The desk decides, and its book follows.
fn decide_scan(
    state: &mut EngineState,
    snapshot: &MarketSnapshot,
    momentum: &MomentumParams,
    ledger: &mut Ledger,
    tally: &mut SkipTally,
    pending_error: Option<String>,
    orchestrated: bool,
    heat: HeatLimits,
    now: i64,
    inp: Ghost<TickInput>,
) -> (r: Option<(Vec<Decision>, bool)>)
    requires
        inp@.snapshot == *snapshot,
        inp@.knobs == desk_knobs(Some(momentum), None, None),
        inp@.pending == opt_view(pending_error),
        inp@.orchestrated == orchestrated,
        inp@.heat == heat,
        inp@.now == now,
    ensures
        match (r, scan_tick(inp@, Book { state: old(state)@, ledger: old(ledger)@ })) {
            (Some((ds, persist)), Some(t)) => {
                &&& decision_views(ds@) == t.decisions
                &&& persist == t.persist
                &&& final(tally)@ == noted_all(old(tally)@, t.skips)
                &&& (Book { state: final(state)@, ledger: final(ledger)@ }) == ticked_book(
                    Book { state: old(state)@, ledger: old(ledger)@ },
                    t,
                )
            },
            (None, None) => true,
            _ => false,
        },
{
    proof {
        reveal(scan_tick);
    }
    let (next, decisions, persist) = tick_decisions(
        state,
        snapshot,
        now,
        Some(momentum),
        None,
        None,
        None,
        &mut ledger.meta,
        tally,
        pending_error,
        orchestrated,
        heat,
    )?;
    *state = next;
    Some((decisions, persist))
}

/// A live scan with the decisions that it came to: things are put right, the desk
/// decides, and each decision is carried out. The outer `None` says that the desk
/// decides otherwise, the inner one that a figure leaves the range of decimals.
pub open spec fn scan_run(w: World, log: Seq<Exchange>, i: ScanInput, ds: Seq<Decision>) -> Run<
    Option<Option<Scanned>>,
> {
    let rec = reconcile_run(w, log, i.cfg, i.tick.snapshot, i.book, i.at);
    match rec.out {
        None => Run { log: rec.log, out: Some(None) },
        Some(x) => match scan_tick(i.tick, x.book) {
            None => Run { log: rec.log, out: Some(None) },
            Some(t) => if t.decisions != decision_views(ds) {
                Run { log: rec.log, out: None }
            } else {
                let done = carried_run(
                    w,
                    rec.log,
                    i.cfg,
                    i.tick.snapshot,
                    Sounded {
                        book: ticked_book(x.book, t),
                        chimes: with_chime(Seq::empty(), x.kind),
                    },
                    ds,
                    ds.len() as int,
                    i.at,
                );
                Run {
                    log: done.log,
                    out: match done.out {
                        None => Some(None),
                        Some(y) => Some(
                            Some(
                                Scanned {
                                    book: y.book,
                                    chimes: y.chimes,
                                    skips: t.skips,
                                    persist: t.persist,
                                },
                            ),
                        ),
                    },
                }
            },
        },
    }
}

/// Whether a live scan leads from one log to another.
pub open spec fn scans(
    before: Seq<Exchange>,
    after: Seq<Exchange>,
    i: ScanInput,
    ds: Seq<Decision>,
    out: Option<Scanned>,
) -> bool {
    forall|w: World| #[trigger]
        explains(w, after) ==> explains(w, before) && scan_run(w, before, i, ds) == (Run {
            log: after,
            out: Some(out),
        })
}

/// One live scan: things are put right with the exchange, the desk decides on the
/// snapshot, and each decision is carried out.
pub fn scan_live<C: LiveClient>(
    cfg: &Config,
    wire: &mut Wire<C>,
    state: &mut EngineState,
    snapshot: &MarketSnapshot,
    momentum: &MomentumParams,
    ledger: &mut Ledger,
    tally: &mut SkipTally,
    pending_error: Option<String>,
    orchestrated: bool,
    heat: HeatLimits,
    at: &Stamp,
) -> (r: Option<ScanResult>)
    ensures
        ({
            let i = ScanInput {
                cfg: cfg@,
                book: Book { state: old(state)@, ledger: old(ledger)@ },
                tick: TickInput {
                    snapshot: *snapshot,
                    knobs: desk_knobs(Some(momentum), None, None),
                    pending: opt_view(pending_error),
                    orchestrated,
                    heat,
                    now: at.now,
                },
                at: at@,
            };
            match r {
                Some(x) => {
                    &&& x.text@ == scan_text(decision_views(x.decisions@))
                    &&& exists|skips: Seq<Seq<char>>|
                        final(tally)@ == #[trigger] noted_all(old(tally)@, skips) && scans(
                            old(wire).log(),
                            final(wire).log(),
                            i,
                            x.decisions@,
                            Some(
                                Scanned {
                                    book: Book { state: final(state)@, ledger: final(ledger)@ },
                                    chimes: x.chimes@,
                                    skips,
                                    persist: x.persist,
                                },
                            ),
                        )
                },
                None => exists|ds: Seq<Decision>| #[trigger]
                    scans(old(wire).log(), final(wire).log(), i, ds, None),
            }
        }),
{
    let ghost log0 = wire.log();
    let ghost inp = ScanInput {
        cfg: cfg@,
        book: Book { state: state@, ledger: ledger@ },
        tick: TickInput {
            snapshot: *snapshot,
            knobs: desk_knobs(Some(momentum), None, None),
            pending: opt_view(pending_error),
            orchestrated,
            heat,
            now: at.now,
        },
        at: at@,
    };
    let ghost none: Seq<Decision> = Seq::empty();
    let (_, first) = match reconcile_live(cfg, wire, state, ledger, snapshot, at) {
        Some(x) => x,
        None => {
            proof {
                assert(scans(log0, wire.log(), inp, none, None));
            }
            return None;
        },
    };
    let ghost log1 = wire.log();
    let ghost book1 = Book { state: state@, ledger: ledger@ };
    let (decisions, persist) = match decide_scan(
        state,
        snapshot,
        momentum,
        ledger,
        tally,
        pending_error,
        orchestrated,
        heat,
        at.now,
        Ghost(inp.tick),
    ) {
        Some(x) => x,
        None => {
            proof {
                assert(scans(log0, wire.log(), inp, none, None));
            }
            return None;
        },
    };
    let ghost t = scan_tick(inp.tick, book1)->0;
    let mut chimes: Vec<TradeSignal> = Vec::new();
    if let Some(k) = first {
        chimes.push(k);
    }
    proof {
        assert(chimes@ =~= with_chime(Seq::empty(), first));
    }
    let ghost cv = chimes@;
    if carry_all(
        cfg,
        wire,
        state,
        snapshot,
        decisions.as_slice(),
        ledger,
        &mut chimes,
        at,
    ).is_none() {
        proof {
            assert forall|w: World| #[trigger] explains(w, wire.log()) implies explains(w, log0)
                && scan_run(w, log0, inp, decisions@) == (Run {
                log: wire.log(),
                out: Some(None::<Scanned>),
            }) by {
                assert(explains(w, log1));
            }
            assert(scans(log0, wire.log(), inp, decisions@, None));
        }
        return None;
    }
    let text: String = first_reason(decisions.as_slice());
    proof {
        assert forall|w: World| #[trigger] explains(w, wire.log()) implies explains(w, log0)
            && scan_run(w, log0, inp, decisions@) == (Run {
            log: wire.log(),
            out: Some(
                Some(
                    Scanned {
                        book: Book { state: state@, ledger: ledger@ },
                        chimes: chimes@,
                        skips: t.skips,
                        persist,
                    },
                ),
            ),
        }) by {
            assert(explains(w, log1));
        }
        assert(tally@ == noted_all(old(tally)@, t.skips));
    }
    Some(ScanResult { decisions, text, chimes, persist })
}

/// The first open row of a symbol, letter case aside, from an index on.
pub open spec fn open_row(v: Seq<Position>, symbol: Seq<char>, i: int) -> Option<Position>
    decreases v.len() - i,
{
    if i < 0 || i >= v.len() {
        None
    } else if lower(v[i].symbol@) == lower(symbol) && v[i].qty.pos() {
        Some(v[i])
    } else {
        open_row(v, symbol, i + 1)
    }
}

fn find_open<'a>(v: &'a [Position], symbol: &str) -> (r: Option<&'a Position>)
    ensures
        match (r, open_row(v@, symbol@, 0)) {
            (Some(p), Some(q)) => *p == q,
            (None, None) => true,
            _ => false,
        },
{
    let mut i: usize = 0;
    while i < v.len()
        invariant
            i <= v@.len(),
            open_row(v@, symbol@, 0) == open_row(v@, symbol@, i as int),
        decreases v@.len() - i,
    {
        if v[i].symbol.as_str().eq_ignore_ascii_case(symbol) && v[i].qty.is_pos() {
            return Some(&v[i]);
        }
        i = i + 1;
    }
    None
}

/// What is known of a symbol's position: the book's row, the one position, else the
/// desk's own row.
pub open spec fn known_row(s: MarketSnapshot, own_rows: Seq<Position>, symbol: Seq<char>) -> Option<Position> {
    match open_row(s.open_positions@, symbol, 0) {
        Some(p) => Some(p),
        None => if s.position is Some && lower(s.position->0.symbol@) == lower(symbol)
            && s.position->0.qty.pos() {
            s.position
        } else {
            open_row(own_rows, symbol, 0)
        },
    }
}

/// Whether an exit sells at a profit, where that is known.
pub open spec fn exit_won(d: DecisionView, s: MarketSnapshot, own_rows: Seq<Position>) -> Option<bool> {
    match d {
        DecisionView::ExitPosition { reason, symbol } => if suggests_win(reason) {
            Some(true)
        } else {
            match known_row(s, own_rows, symbol) {
                Some(p) => Some(p.unrealized_pnl.pos()),
                None => None,
            }
        },
        _ => None,
    }
}

fn sold_at_profit(d: &Decision, snapshot: &MarketSnapshot, own_rows: &[Position]) -> (r: Option<bool>)
    ensures
        r == exit_won(d@, *snapshot, own_rows@),
{
    match d {
        Decision::ExitPosition { reason, symbol } => {
            if reason_suggests_win(reason.as_str()) {
                return Some(true);
            }
            if let Some(p) = find_open(snapshot.open_positions.as_slice(), symbol.as_str()) {
                return Some(p.unrealized_pnl.is_pos());
            }
            if let Some(p) = &snapshot.position {
                if p.symbol.as_str().eq_ignore_ascii_case(symbol.as_str()) && p.qty.is_pos() {
                    return Some(p.unrealized_pnl.is_pos());
                }
            }
            match find_open(own_rows, symbol.as_str()) {
                Some(p) => Some(p.unrealized_pnl.is_pos()),
                None => None,
            }
        },
        _ => None,
    }
}

/// Whether a position is open anywhere.
pub open spec fn holds_any(s: MarketSnapshot, own_rows: Seq<Position>) -> bool {
    s.position is Some || own_rows.len() > 0 || exists|i: int|
        0 <= i < s.open_positions@.len() && (#[trigger] s.open_positions@[i]).qty.pos()
}

fn has_position(snapshot: &MarketSnapshot, own_rows: &[Position]) -> (r: bool)
    ensures
        r == holds_any(*snapshot, own_rows@),
{
    if snapshot.position.is_some() || own_rows.len() > 0 {
        return true;
    }
    let mut i: usize = 0;
    while i < snapshot.open_positions.len()
        invariant
            i <= snapshot.open_positions@.len(),
            forall|j: int| 0 <= j < i ==> !(#[trigger] snapshot.open_positions@[j]).qty.pos(),
        decreases snapshot.open_positions@.len() - i,
    {
        if snapshot.open_positions[i].qty.is_pos() {
            return true;
        }
        i = i + 1;
    }
    false
}

/// The chimes of the first `n` decisions on paper.
pub open spec fn paper_chimes(
    ds: Seq<DecisionView>,
    n: int,
    s: MarketSnapshot,
    own_rows: Seq<Position>,
) -> Seq<TradeSignal>
    decreases n,
{
    if n <= 0 {
        Seq::empty()
    } else {
        with_chime(
            paper_chimes(ds, n - 1, s, own_rows),
            decision_kind(
                ds[n - 1],
                no_apply(),
                false,
                holds_any(s, own_rows),
                exit_won(ds[n - 1], s, own_rows),
            ),
        )
    }
}

/// The book after the first `n` decisions on paper.
pub open spec fn papered(b: Book, s: MarketSnapshot, ds: Seq<Decision>, n: int, at: StampView) -> Option<Book>
    decreases n,
{
    if n <= 0 {
        Some(b)
    } else {
        match papered(b, s, ds, n - 1, at) {
            None => None,
            Some(x) => on_paper(x, s, ds[n - 1], at),
        }
    }
}

proof fn lemma_papered_none(b: Book, s: MarketSnapshot, ds: Seq<Decision>, n: int, m: int, at: StampView)
    requires
        0 <= n <= m,
        papered(b, s, ds, n, at) is None,
    ensures
        papered(b, s, ds, m, at) is None,
    decreases m,
{
    if n < m {
        lemma_papered_none(b, s, ds, n, m - 1, at);
    }
}

fn paper_all(
    state: &mut EngineState,
    snapshot: &MarketSnapshot,
    decisions: &[Decision],
    ledger: &mut Ledger,
    at: &Stamp,
) -> (r: Option<()>)
    ensures
        match papered(
            Book { state: old(state)@, ledger: old(ledger)@ },
            *snapshot,
            decisions@,
            decisions@.len() as int,
            at@,
        ) {
            Some(b) => r is Some && b == (Book { state: final(state)@, ledger: final(ledger)@ }),
            None => r is None,
        },
{
    let ghost start = Book { state: state@, ledger: ledger@ };
    let mut i: usize = 0;
    while i < decisions.len()
        invariant
            i <= decisions@.len(),
            start == (Book { state: old(state)@, ledger: old(ledger)@ }),
            papered(start, *snapshot, decisions@, i as int, at@) == Some(
                Book { state: state@, ledger: ledger@ },
            ),
        decreases decisions@.len() - i,
    {
        let ghost here = Book { state: state@, ledger: ledger@ };
        let done: Option<()> = apply_paper_decision(state, snapshot, &decisions[i], ledger, at);
        proof {
            assert(papered(start, *snapshot, decisions@, i as int + 1, at@) == on_paper(
                here,
                *snapshot,
                decisions@[i as int],
                at@,
            ));
        }
        if done.is_none() {
            proof {
                lemma_papered_none(
                    start,
                    *snapshot,
                    decisions@,
                    i as int + 1,
                    decisions@.len() as int,
                    at@,
                );
            }
            return None;
        }
        i = i + 1;
    }
    Some(())
}

fn paper_sounds(decisions: &[Decision], snapshot: &MarketSnapshot, own_rows: &[Position]) -> (r: Vec<
    TradeSignal,
>)
    ensures
        r@ == paper_chimes(
            decision_views(decisions@),
            decisions@.len() as int,
            *snapshot,
            own_rows@,
        ),
{
    let ghost dv = decision_views(decisions@);
    let any: bool = has_position(snapshot, own_rows);
    let done: LiveApplyResult = LiveApplyResult::default();
    let mut chimes: Vec<TradeSignal> = Vec::new();
    let mut i: usize = 0;
    proof {
        assert(dv.len() == decisions@.len());
    }
    while i < decisions.len()
        invariant
            i <= decisions@.len(),
            dv == decision_views(decisions@),
            done@ == no_apply(),
            any == holds_any(*snapshot, own_rows@),
            chimes@ == paper_chimes(dv, i as int, *snapshot, own_rows@),
        decreases decisions@.len() - i,
    {
        proof {
            assert(dv[i as int] == decisions@[i as int]@);
        }
        let won: Option<bool> = sold_at_profit(&decisions[i], snapshot, own_rows);
        if let Some(k) = kind_for_decision(&decisions[i], &done, false, any, won) {
            chimes.push(k);
        }
        i = i + 1;
    }
    chimes
}

/// One scan without orders: the desk decides on the snapshot, and where the
/// decisions are carried out at all, they are on paper.
pub fn scan_paper(
    state: &mut EngineState,
    snapshot: &MarketSnapshot,
    momentum: &MomentumParams,
    carry_out: bool,
    ledger: &mut Ledger,
    tally: &mut SkipTally,
    pending_error: Option<String>,
    orchestrated: bool,
    heat: HeatLimits,
    at: &Stamp,
) -> (r: Option<ScanResult>)
    ensures
        match (
            r,
            scan_tick(
                (TickInput {
                    snapshot: *snapshot,
                    knobs: desk_knobs(Some(momentum), None, None),
                    pending: opt_view(pending_error),
                    orchestrated,
                    heat,
                    now: at.now,
                }),
                Book { state: old(state)@, ledger: old(ledger)@ },
            ),
        ) {
            (Some(x), Some(t)) => {
                &&& decision_views(x.decisions@) == t.decisions
                &&& x.text@ == scan_text(t.decisions)
                &&& x.persist == t.persist
                &&& final(tally)@ == noted_all(old(tally)@, t.skips)
                &&& papered(
                    ticked_book(Book { state: old(state)@, ledger: old(ledger)@ }, t),
                    *snapshot,
                    x.decisions@,
                    if carry_out {
                        x.decisions@.len() as int
                    } else {
                        0
                    },
                    at@,
                ) == Some(Book { state: final(state)@, ledger: final(ledger)@ })
                &&& x.chimes@ == paper_chimes(
                    t.decisions,
                    t.decisions.len() as int,
                    *snapshot,
                    final(state)@.positions,
                )
            },
            (None, Some(t)) => carry_out && exists|ds: Seq<Decision>|
                #![trigger decision_views(ds)]
                decision_views(ds) == t.decisions && papered(
                    ticked_book(Book { state: old(state)@, ledger: old(ledger)@ }, t),
                    *snapshot,
                    ds,
                    ds.len() as int,
                    at@,
                ) is None,
            (None, None) => true,
            (Some(_), None) => false,
        },
{
    let ghost inp = TickInput {
        snapshot: *snapshot,
        knobs: desk_knobs(Some(momentum), None, None),
        pending: opt_view(pending_error),
        orchestrated,
        heat,
        now: at.now,
    };
    let (decisions, persist) = decide_scan(
        state,
        snapshot,
        momentum,
        ledger,
        tally,
        pending_error,
        orchestrated,
        heat,
        at.now,
        Ghost(inp),
    )?;
    if carry_out {
        if paper_all(state, snapshot, decisions.as_slice(), ledger, at).is_none() {
            proof {
                assert(decision_views(decisions@) == decision_views(decisions@));
            }
            return None;
        }
    }
    let chimes: Vec<TradeSignal> = paper_sounds(
        decisions.as_slice(),
        snapshot,
        state.positions.as_slice(),
    );
    proof {
        assert(decision_views(decisions@).len() == decisions@.len());
    }
    let text: String = first_reason(decisions.as_slice());
    Some(ScanResult { decisions, text, chimes, persist })
}

/// A refresh takes back the pause after a flatten and the shown error, and nothing
/// else of the desk; every key but the flatten key leaves no flatten armed that was
/// not armed before.
pub proof fn law_refresh_lifts_the_pause(s: EngineStateView, armed: bool, ch: char)
    ensures
        key_action(ch, armed) == KeyAction::Refresh ==> !pressed(s, armed, ch).0.entries_paused
            && pressed(s, armed, ch).0 == (EngineStateView {
            entries_paused: false,
            last_error: None,
            ..s
        }),
        pressed(s, armed, ch).1 && !armed ==> crate::keys::is_flatten_key(ch),
        pressed(s, armed, ch).0.daily_halt == s.daily_halt,
{
}

} // verus!

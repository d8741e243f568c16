//! The text of the watch screen.
use super::closed::ClosedRow;
use super::{MonitorView, WaitKind, WaitRow};
use crate::dec::{
    dec, decimal_normal, decimal_text, n_div, n_mul, over, rounded, times, Dec,
};
use crate::engine::{strategy_title, title_of};
use crate::errorlog::{format_ui_error, ui_error};
use crate::models::{opt_view, Position, Ticker};
use crate::profit::{current_equity, equity_of};
use crate::render::frame::{line_if, opt_views};
use crate::render::{
    cooldown_lines, dash_shows, fmt_money, fmt_price, fmt_price_or_dash, mark_at, money, money_shows,
    one_r_line, one_r_text, pause_lines, position_mark, price, price_or_dash, price_shows,
};
use crate::sessions::{clock_text, format_windows, format_windows_text, utc_clock};
use crate::text::{
    add_text, extend_texts, int_text, join, joined, left_in, lower, own, pad_left, pad_right, print_i64,
    print_u64, right_in, views,
};
use vstd::prelude::*;
use vstd::string::StringExecFns;

verus! {

/// An amount with four places and its sign.
pub open spec fn signed(d: Dec) -> Seq<char> {
    let n = rounded(d, 4);
    if n.pos() {
        "+"@ + money(n)
    } else {
        money(n)
    }
}

/// Whether an amount can be shown with its sign.
pub open spec fn signed_shows(d: Dec) -> bool {
    money_shows(rounded(d, 4))
}

fn fmt_signed(d: Dec) -> (r: Option<String>)
    ensures
        opt_view(r) == (if signed_shows(d) {
            Some(signed(d))
        } else {
            None
        }),
{
    let n: Dec = d.round_dp(4);
    if n.is_pos() {
        let mut t = own("+");
        t.append(fmt_money(n)?.as_str());
        Some(t)
    } else {
        fmt_money(n)
    }
}

/// A percentage with its sign.
pub open spec fn percent(d: Dec) -> Seq<char> {
    let n = rounded(d, 3);
    if n.pos() {
        "+"@ + decimal_text(n) + "%"@
    } else {
        decimal_text(n) + "%"@
    }
}

fn fmt_pct(d: Dec) -> (r: String)
    ensures
        r@ == percent(d),
{
    let n: Dec = d.round_dp(3);
    if n.is_pos() {
        let mut t = own("+");
        t.append(n.text().as_str());
        t.append("%");
        t
    } else {
        let mut t = n.text();
        t.append("%");
        t
    }
}

/// A volume, in thousands or millions where it is large.
pub open spec fn volume_text(d: Dec) -> Option<Seq<char>> {
    if dec(1_000_000, 0).le(d) {
        match n_div(Some(d), Some(dec(1_000_000, 0))) {
            Some(q) => Some(decimal_text(decimal_normal(rounded(q, 1))) + "M"@),
            None => None,
        }
    } else if dec(1000, 0).le(d) {
        match n_div(Some(d), Some(dec(1000, 0))) {
            Some(q) => Some(decimal_text(decimal_normal(rounded(q, 0))) + "k"@),
            None => None,
        }
    } else {
        Some(decimal_text(decimal_normal(rounded(d, 0))))
    }
}

fn fmt_vol(d: Dec) -> (r: Option<String>)
    ensures
        opt_view(r) == volume_text(d),
{
    if d >= Dec::from_int(1_000_000) {
        let q: Dec = over(Some(d), Some(Dec::from_int(1_000_000)))?;
        let mut t = q.round_dp(1).normalize().text();
        t.append("M");
        Some(t)
    } else if d >= Dec::from_int(1000) {
        let q: Dec = over(Some(d), Some(Dec::from_int(1000)))?;
        let mut t = q.round_dp(0).normalize().text();
        t.append("k");
        Some(t)
    } else {
        Some(d.round_dp(0).normalize().text())
    }
}

/// How a profit is called.
pub open spec fn profit_word(d: Dec) -> Seq<char> {
    if d.pos() {
        "в плюсе"@
    } else if d.units() < 0 {
        "в минусе"@
    } else {
        "в нуле"@
    }
}

fn pnl_tag(d: Dec) -> (r: &'static str)
    ensures
        r@ == profit_word(d),
{
    if d.is_pos() {
        "в плюсе"
    } else if d.is_neg() {
        "в минусе"
    } else {
        "в нуле"
    }
}

/// The first open position of a symbol, letter case aside, from an index on.
pub open spec fn open_from(positions: Seq<Position>, symbol: Seq<char>, i: int) -> Option<Position>
    decreases positions.len() - i,
{
    if i < 0 || i >= positions.len() {
        None
    } else if lower(positions[i].symbol@) == lower(symbol) && positions[i].qty.pos() {
        Some(positions[i])
    } else {
        open_from(positions, symbol, i + 1)
    }
}

/// The first waiting row of a symbol, letter case aside, from an index on.
pub open spec fn waiting_from(waiting: Seq<WaitRow>, symbol: Seq<char>, i: int) -> Option<WaitRow>
    decreases waiting.len() - i,
{
    if i < 0 || i >= waiting.len() {
        None
    } else if lower(waiting[i].symbol@) == lower(symbol) {
        Some(waiting[i])
    } else {
        waiting_from(waiting, symbol, i + 1)
    }
}

/// What is known of a name on the tape: how its position stands, else why it waits.
pub open spec fn growth_text(symbol: Seq<char>, positions: Seq<Position>, waiting: Seq<WaitRow>) -> Seq<char> {
    match open_from(positions, symbol, 0) {
        Some(p) => "["@ + profit_word(p.unrealized_pnl) + "]"@,
        None => match waiting_from(waiting, symbol, 0) {
            Some(w) => "["@ + w.kind.word() + "]"@,
            None => Seq::empty(),
        },
    }
}

fn growth_tag(symbol: &str, positions: &[Position], waiting: &[WaitRow]) -> (r: String)
    ensures
        r@ == growth_text(symbol@, positions@, waiting@),
{
    let mut i: usize = 0;
    while i < positions.len()
        invariant
            i <= positions@.len(),
            open_from(positions@, symbol@, 0) == open_from(positions@, symbol@, i as int),
        decreases positions@.len() - i,
    {
        if positions[i].symbol.as_str().eq_ignore_ascii_case(symbol) && positions[i].qty.is_pos() {
            let mut t = own("[");
            t.append(pnl_tag(positions[i].unrealized_pnl));
            t.append("]");
            return t;
        }
        i = i + 1;
    }
    let mut k: usize = 0;
    while k < waiting.len()
        invariant
            k <= waiting@.len(),
            open_from(positions@, symbol@, 0) is None,
            waiting_from(waiting@, symbol@, 0) == waiting_from(waiting@, symbol@, k as int),
        decreases waiting@.len() - k,
    {
        if waiting[k].symbol.as_str().eq_ignore_ascii_case(symbol) {
            let mut t = own("[");
            t.append(waiting[k].kind.tag());
            t.append("]");
            return t;
        }
        k = k + 1;
    }
    let none = String::new();
    proof {
        assert(none@ =~= Seq::<char>::empty());
    }
    none
}

pub open spec fn block_heading(label: Seq<char>, shown: int, total: int) -> Seq<char> {
    if total == 0 {
        "=== "@ + label + " ==="@
    } else {
        "=== "@ + label + " ("@ + int_text(shown) + " из "@ + int_text(total) + ") ==="@
    }
}

fn top_heading(label: &str, shown: usize, total: usize) -> (r: String)
    ensures
        r@ == block_heading(label@, shown as int, total as int),
{
    let mut t = own("=== ");
    t.append(label);
    if total == 0 {
        t.append(" ===");
    } else {
        t.append(" (");
        t.append(print_u64(shown as u64).as_str());
        t.append(" из ");
        t.append(print_u64(total as u64).as_str());
        t.append(") ===");
    }
    t
}

pub open spec fn wait_title(strategy_id: i32) -> Seq<char> {
    if strategy_id == 4 {
        "=== В ожидании входа (книга ликвид, не топ 24h) ==="@
    } else if strategy_id == 1 {
        "=== В ожидании входа (книга momentum) ==="@
    } else {
        "=== В ожидании входа ==="@
    }
}

fn wait_heading(strategy_id: i32) -> (r: &'static str)
    ensures
        r@ == wait_title(strategy_id),
{
    if strategy_id == 4 {
        "=== В ожидании входа (книга ликвид, не топ 24h) ==="
    } else if strategy_id == 1 {
        "=== В ожидании входа (книга momentum) ==="
    } else {
        "=== В ожидании входа ==="
    }
}

pub open spec fn hint_text(strategy_id: i32) -> Seq<char> {
    if strategy_id == 4 {
        "  кого стратегия 4 реально берёт: ликвидный откат, не догон 24h %"@
    } else if strategy_id == 1 {
        "  кого momentum берёт из растущих (не вся лента)"@
    } else if strategy_id == 2 {
        "  BTC/ETH/SOL — скальп VWAP/EMA9"@
    } else if strategy_id == 3 {
        "  BTC/ETH/SOL — тренд Donchian"@
    } else {
        "  кандидаты текущей стратегии"@
    }
}

fn wait_hint(strategy_id: i32) -> (r: &'static str)
    ensures
        r@ == hint_text(strategy_id),
{
    if strategy_id == 4 {
        "  кого стратегия 4 реально берёт: ликвидный откат, не догон 24h %"
    } else if strategy_id == 1 {
        "  кого momentum берёт из растущих (не вся лента)"
    } else if strategy_id == 2 {
        "  BTC/ETH/SOL — скальп VWAP/EMA9"
    } else if strategy_id == 3 {
        "  BTC/ETH/SOL — тренд Donchian"
    } else {
        "  кандидаты текущей стратегии"
    }
}

pub open spec fn head_text(v: MonitorView) -> Seq<char> {
    "home-economic  |  MONITOR  |  Binance USDT-M Futures TestNet  |  WATCH  |  "@ + (if v.has_credentials {
        "keys=env"@
    } else {
        "keys=missing"@
    })
}

fn write_head(v: &MonitorView) -> (r: String)
    ensures
        r@ == head_text(*v),
{
    let mut t = own("home-economic  |  MONITOR  |  Binance USDT-M Futures TestNet  |  WATCH  |  ");
    t.append(if v.has_credentials { "keys=env" } else { "keys=missing" });
    t
}

/// The line on the strategy and its hours.
pub open spec fn lens_text(v: MonitorView) -> Seq<char> {
    let hours = if v.always_enter {
        "круглосуточно"@
    } else {
        format_windows_text(v.entry_windows@)
    };
    let candles = if v.strategy_id == 4 {
        "  |  свечи "@ + v.s4_interval.ru() + "  |  "@ + v.s4_interval.geometry()
    } else {
        Seq::empty()
    };
    let next = if !v.session_open && v.next_open_clock is Some {
        "  |  следующий старт "@ + v.next_open_clock->0@ + " UTC"@
    } else {
        Seq::empty()
    };
    let label = if v.always_enter {
        Seq::empty()
    } else {
        "  |  "@ + v.session_label@
    };
    "Текущая: "@ + int_text(v.strategy_id as int) + " — "@ + title_of(v.strategy_id) + "  |  сейчас "@
        + clock_text(v.now_ts as int) + " UTC  |  входы "@ + hours + candles + next + label
}

fn write_lens(v: &MonitorView) -> (r: String)
    ensures
        r@ == lens_text(*v),
{
    let mut t = own("Текущая: ");
    t.append(print_i64(v.strategy_id as i64).as_str());
    t.append(" — ");
    t.append(strategy_title(v.strategy_id));
    t.append("  |  сейчас ");
    t.append(utc_clock(v.now_ts).as_str());
    t.append(" UTC  |  входы ");
    if v.always_enter {
        t.append("круглосуточно");
    } else {
        t.append(format_windows(v.entry_windows.as_slice()).as_str());
    }
    let mut candles = String::new();
    if v.strategy_id == 4 {
        candles.append("  |  свечи ");
        candles.append(v.s4_interval.as_ru());
        candles.append("  |  ");
        candles.append(v.s4_interval.geometry_ru().as_str());
        proof {
            assert(candles@ =~= "  |  свечи "@ + v.s4_interval.ru() + "  |  "@
                + v.s4_interval.geometry());
        }
    }
    t.append(candles.as_str());
    let mut next = String::new();
    if !v.session_open {
        if let Some(c) = &v.next_open_clock {
            next.append("  |  следующий старт ");
            next.append(c.as_str());
            next.append(" UTC");
            proof {
                assert(next@ =~= "  |  следующий старт "@ + c@ + " UTC"@);
            }
        }
    }
    t.append(next.as_str());
    let mut label = String::new();
    if !v.always_enter {
        label.append("  |  ");
        label.append(v.session_label.as_str());
        proof {
            assert(label@ =~= "  |  "@ + v.session_label@);
        }
    }
    t.append(label.as_str());
    t
}

/// How many of the first `n` positions are open, in profit and in loss.
pub open spec fn tallied(positions: Seq<Position>, n: int) -> (int, int, int)
    decreases n,
{
    if n <= 0 {
        (0, 0, 0)
    } else {
        let (open, up, down) = tallied(positions, n - 1);
        let p = positions[n - 1];
        if !p.qty.pos() {
            (open, up, down)
        } else {
            (
                open + 1,
                if p.unrealized_pnl.pos() {
                    up + 1
                } else {
                    up
                },
                if p.unrealized_pnl.units() < 0 {
                    down + 1
                } else {
                    down
                },
            )
        }
    }
}

fn tally_positions(positions: &[Position]) -> (r: (usize, usize, usize))
    ensures
        (r.0 as int, r.1 as int, r.2 as int) == tallied(positions@, positions@.len() as int),
{
    let mut open: usize = 0;
    let mut up: usize = 0;
    let mut down: usize = 0;
    let mut i: usize = 0;
    while i < positions.len()
        invariant
            i <= positions@.len(),
            open <= i && up <= i && down <= i,
            (open as int, up as int, down as int) == tallied(positions@, i as int),
        decreases positions@.len() - i,
    {
        let p: &Position = &positions[i];
        if p.qty.is_pos() {
            open = open + 1;
            if p.unrealized_pnl.is_pos() {
                up = up + 1;
            }
            if p.unrealized_pnl.is_neg() {
                down = down + 1;
            }
        }
        i = i + 1;
    }
    (open, up, down)
}

/// How many of the first `n` names are ready.
pub open spec fn ready_count(waiting: Seq<WaitRow>, n: int) -> int
    decreases n,
{
    if n <= 0 {
        0
    } else {
        ready_count(waiting, n - 1) + if waiting[n - 1].kind == WaitKind::Ready {
            1int
        } else {
            0
        }
    }
}

fn count_ready(waiting: &[WaitRow]) -> (r: usize)
    ensures
        r == ready_count(waiting@, waiting@.len() as int),
{
    let mut n: usize = 0;
    let mut i: usize = 0;
    while i < waiting.len()
        invariant
            i <= waiting@.len(),
            n <= i,
            n == ready_count(waiting@, i as int),
        decreases waiting@.len() - i,
    {
        if waiting[i].kind == WaitKind::Ready {
            n = n + 1;
        }
        i = i + 1;
    }
    n
}

/// Whether the figures of the summary can be shown.
pub open spec fn summary_shows(v: MonitorView, equity: Dec) -> bool {
    &&& money_shows(equity)
    &&& signed_shows(v.unrealized_pnl)
    &&& signed_shows(v.account_profit)
    &&& v.day_pnl is Some ==> signed_shows(v.day_pnl->0)
}

/// The block with the summary.
pub open spec fn summary_lines(v: MonitorView) -> Option<Seq<Seq<char>>> {
    let (open, up, down) = tallied(v.positions@, v.positions@.len() as int);
    let day = match v.day_pnl {
        Some(d) => signed(d) + " USDT"@,
        None => "—"@,
    };
    let most = if v.max_positions < 1 {
        1
    } else {
        v.max_positions as int
    };
    match equity_of(v.wallet_balance, v.unrealized_pnl) {
        None => None,
        Some(equity) => if !summary_shows(v, equity) {
            None
        } else {
            Some(
                seq![
                    "=== Сводка ==="@,
                    lens_text(v),
                    "Счёт: "@ + money(equity) + " USDT  |  Нереализованный PnL: "@ + signed(
                        v.unrealized_pnl,
                    ) + " USDT  |  Прибыль счета: "@ + signed(v.account_profit) + " USDT"@,
                    "день: "@ + day + "  |  открыто "@ + int_text(open) + "/"@ + int_text(most) + " ("@
                        + int_text(up) + " в плюсе / "@ + int_text(down) + " в минусе)  |  готовы "@
                        + int_text(ready_count(v.waiting@, v.waiting@.len() as int)) + "  |  ждут "@
                        + int_text(v.waiting@.len() as int),
                ] + line_if(
                    if v.daily_halt {
                        Some("Стоп дня: новых входов нет до 00:00 UTC."@)
                    } else {
                        None
                    },
                ),
            )
        },
    }
}

fn write_day(v: &MonitorView) -> (r: Option<String>)
    ensures
        (r is Some) == (v.day_pnl is Some ==> signed_shows(v.day_pnl->0)),
        r is Some ==> r->0@ == ({
            let (open, up, down) = tallied(v.positions@, v.positions@.len() as int);
            let day = match v.day_pnl {
                Some(d) => signed(d) + " USDT"@,
                None => "—"@,
            };
            let most = if v.max_positions < 1 {
                1
            } else {
                v.max_positions as int
            };
            "день: "@ + day + "  |  открыто "@ + int_text(open) + "/"@ + int_text(most) + " ("@
                + int_text(up) + " в плюсе / "@ + int_text(down) + " в минусе)  |  готовы "@
                + int_text(ready_count(v.waiting@, v.waiting@.len() as int)) + "  |  ждут "@
                + int_text(v.waiting@.len() as int)
        }),
{
    let (open, up, down) = tally_positions(v.positions.as_slice());
    let most: i32 = if v.max_positions < 1 {
        1
    } else {
        v.max_positions
    };
    let day: String = match v.day_pnl {
        Some(d) => {
            let mut t = fmt_signed(d)?;
            t.append(" USDT");
            t
        },
        None => own("—"),
    };
    let mut t = own("день: ");
    t.append(day.as_str());
    t.append("  |  открыто ");
    t.append(print_u64(open as u64).as_str());
    t.append("/");
    t.append(print_i64(most as i64).as_str());
    t.append(" (");
    t.append(print_u64(up as u64).as_str());
    t.append(" в плюсе / ");
    t.append(print_u64(down as u64).as_str());
    t.append(" в минусе)  |  готовы ");
    t.append(print_u64(count_ready(v.waiting.as_slice()) as u64).as_str());
    t.append("  |  ждут ");
    t.append(print_u64(v.waiting.len() as u64).as_str());
    Some(t)
}

fn write_summary(v: &MonitorView) -> (r: Option<Vec<String>>)
    ensures
        opt_views(r) == summary_lines(*v),
{
    let equity: Dec = current_equity(v.wallet_balance, v.unrealized_pnl)?;
    let mut out: Vec<String> = Vec::new();
    add_text(&mut out, own("=== Сводка ==="));
    add_text(&mut out, write_lens(v));
    let mut t = own("Счёт: ");
    t.append(fmt_money(equity)?.as_str());
    t.append(" USDT  |  Нереализованный PnL: ");
    t.append(fmt_signed(v.unrealized_pnl)?.as_str());
    t.append(" USDT  |  Прибыль счета: ");
    t.append(fmt_signed(v.account_profit)?.as_str());
    t.append(" USDT");
    add_text(&mut out, t);
    add_text(&mut out, write_day(v)?);
    if v.daily_halt {
        add_text(&mut out, own("Стоп дня: новых входов нет до 00:00 UTC."));
    }
    proof {
        assert(views(out@) =~= summary_lines(*v)->0);
    }
    Some(out)
}

/// What a position has gained, as a share of what it cost.
pub open spec fn gained(p: Position) -> Option<Dec> {
    match n_mul(Some(p.qty), Some(p.entry_price)) {
        None => None,
        Some(cost) => if cost.pos() {
            n_mul(n_div(Some(p.unrealized_pnl), Some(cost)), Some(dec(100, 0)))
        } else {
            Some(dec(0, 0))
        },
    }
}

fn gain_percent(p: &Position) -> (r: Option<Dec>)
    ensures
        r == gained(*p),
{
    let cost: Dec = times(Some(p.qty), Some(p.entry_price))?;
    if cost.is_pos() {
        times(over(Some(p.unrealized_pnl), Some(cost)), Some(Dec::from_int(100)))
    } else {
        Some(Dec::zero())
    }
}

/// The line on a position.
pub open spec fn held_text(p: Position, mark: Dec, pct: Dec) -> Seq<char> {
    p.symbol@ + " "@ + p.side.text() + " qty="@ + money(p.qty) + " entry="@ + price(p.entry_price) + " last="@
        + price(mark) + " uPnL="@ + signed(p.unrealized_pnl) + " ("@ + percent(pct) + ")  SL="@
        + price_or_dash(p.stop_loss) + " TP="@ + price_or_dash(p.take_profit) + "  ["@ + profit_word(
        p.unrealized_pnl,
    ) + "]"@
}

/// Whether the figures of a position can be shown.
pub open spec fn held_shows(p: Position, mark: Dec) -> bool {
    &&& money_shows(p.qty)
    &&& price_shows(p.entry_price)
    &&& price_shows(mark)
    &&& signed_shows(p.unrealized_pnl)
    &&& dash_shows(p.stop_loss)
    &&& dash_shows(p.take_profit)
}

fn write_held(p: &Position, mark: Dec, pct: Dec) -> (r: Option<String>)
    ensures
        opt_view(r) == (if held_shows(*p, mark) {
            Some(held_text(*p, mark, pct))
        } else {
            None
        }),
{
    let mut t = own(p.symbol.as_str());
    t.append(" ");
    t.append(p.side.as_str());
    t.append(" qty=");
    t.append(fmt_money(p.qty)?.as_str());
    t.append(" entry=");
    t.append(fmt_price(p.entry_price)?.as_str());
    t.append(" last=");
    t.append(fmt_price(mark)?.as_str());
    t.append(" uPnL=");
    t.append(fmt_signed(p.unrealized_pnl)?.as_str());
    t.append(" (");
    t.append(fmt_pct(pct).as_str());
    t.append(")  SL=");
    t.append(fmt_price_or_dash(p.stop_loss)?.as_str());
    t.append(" TP=");
    t.append(fmt_price_or_dash(p.take_profit)?.as_str());
    t.append("  [");
    t.append(pnl_tag(p.unrealized_pnl));
    t.append("]");
    Some(t)
}

/// The lines on a position.
pub open spec fn held_rows(p: Position, tickers: Seq<Ticker>) -> Option<Seq<Seq<char>>> {
    match (mark_at(p, tickers), gained(p)) {
        (Some(mark), Some(pct)) => match one_r_text(p, mark) {
            None => None,
            Some(line) => if held_shows(p, mark) {
                Some(seq![held_text(p, mark, pct)] + line_if(line))
            } else {
                None
            },
        },
        _ => None,
    }
}

/// The lines on the first `n` positions.
pub open spec fn held_lines(v: MonitorView, n: int) -> Option<Seq<Seq<char>>>
    decreases n,
{
    if n <= 0 {
        Some(Seq::empty())
    } else {
        match (held_lines(v, n - 1), held_rows(v.positions@[n - 1], v.tickers@)) {
            (Some(a), Some(b)) => Some(a + b),
            _ => None,
        }
    }
}

proof fn lemma_held_lines_none(v: MonitorView, n: int, m: int)
    requires
        n <= m,
        held_lines(v, n) is None,
    ensures
        held_lines(v, m) is None,
    decreases m,
{
    if n < m && m > 0 {
        lemma_held_lines_none(v, n, m - 1);
    }
}

/// The block on open positions.
pub open spec fn position_block(v: MonitorView) -> Option<Seq<Seq<char>>> {
    match held_lines(v, v.positions@.len() as int) {
        None => None,
        Some(rows) => Some(
            seq!["=== Открытые позиции (прибыль / убыток) ==="@] + (if v.positions@.len() == 0 {
                seq!["(нет открытых позиций)"@]
            } else {
                rows
            }),
        ),
    }
}

fn write_positions(v: &MonitorView) -> (r: Option<Vec<String>>)
    ensures
        opt_views(r) == position_block(*v),
{
    let mut out: Vec<String> = Vec::new();
    let ghost head = seq!["=== Открытые позиции (прибыль / убыток) ==="@];
    add_text(&mut out, own("=== Открытые позиции (прибыль / убыток) ==="));
    proof {
        assert(views(out@) =~= head + Seq::<Seq<char>>::empty());
    }
    let mut i: usize = 0;
    let ghost mut rows: Seq<Seq<char>> = Seq::empty();
    while i < v.positions.len()
        invariant
            i <= v.positions@.len(),
            held_lines(*v, i as int) == Some(rows),
            views(out@) == head + rows,
        decreases v.positions@.len() - i,
    {
        let p: &Position = &v.positions[i];
        proof {
            if held_lines(*v, i as int + 1) is None {
                lemma_held_lines_none(*v, i as int + 1, v.positions@.len() as int);
            }
        }
        let mark: Dec = position_mark(p, v.tickers.as_slice())?;
        let pct: Dec = gain_percent(p)?;
        let line: Option<String> = one_r_line(p, mark)?;
        let ghost more = held_rows(*p, v.tickers@)->0;
        let row: String = write_held(p, mark, pct)?;
        add_text(&mut out, row);
        if let Some(l) = line {
            add_text(&mut out, l);
        }
        proof {
            assert(views(out@) =~= head + (rows + more));
            rows = rows + more;
        }
        i = i + 1;
    }
    if v.positions.len() == 0 {
        add_text(&mut out, own("(нет открытых позиций)"));
        proof {
            assert(views(out@) =~= head + seq!["(нет открытых позиций)"@]);
        }
    }
    Some(out)
}

/// The start of a row on a name: its change, price and volume.
pub open spec fn name_text(symbol: Seq<char>, change: Dec, last: Dec, volume: Dec) -> Option<Seq<char>> {
    match volume_text(volume) {
        None => None,
        Some(vol) => if price_shows(last) {
            Some(
                "  "@ + left_in(symbol, 12) + " "@ + right_in(percent(change), 9) + "  last="@ + price(last)
                    + "  vol="@ + left_in(vol, 6) + "  "@,
            )
        } else {
            None
        },
    }
}

fn write_name(symbol: &str, change: Dec, last: Dec, volume: Dec) -> (r: Option<String>)
    ensures
        opt_view(r) == name_text(symbol@, change, last, volume),
{
    let vol: String = fmt_vol(volume)?;
    let mut t = own("  ");
    t.append(pad_right(symbol, 12).as_str());
    t.append(" ");
    t.append(pad_left(fmt_pct(change).as_str(), 9).as_str());
    t.append("  last=");
    t.append(fmt_price(last)?.as_str());
    t.append("  vol=");
    t.append(pad_right(vol.as_str(), 6).as_str());
    t.append("  ");
    Some(t)
}

/// The lines on a name that waits.
pub open spec fn wait_pair(w: WaitRow) -> Option<Seq<Seq<char>>> {
    match name_text(w.symbol@, w.change_pct, w.last, w.volume) {
        None => None,
        Some(t) => Some(
            seq![t + "["@ + w.kind.word() + "]  "@ + w.reason@, "    до входа: "@ + w.until@],
        ),
    }
}

/// The lines on the first `n` names that wait.
pub open spec fn wait_lines(waiting: Seq<WaitRow>, n: int) -> Option<Seq<Seq<char>>>
    decreases n,
{
    if n <= 0 {
        Some(Seq::empty())
    } else {
        match (wait_lines(waiting, n - 1), wait_pair(waiting[n - 1])) {
            (Some(a), Some(b)) => Some(a + b),
            _ => None,
        }
    }
}

proof fn lemma_wait_lines_none(waiting: Seq<WaitRow>, n: int, m: int)
    requires
        n <= m,
        wait_lines(waiting, n) is None,
    ensures
        wait_lines(waiting, m) is None,
    decreases m,
{
    if n < m && m > 0 {
        lemma_wait_lines_none(waiting, n, m - 1);
    }
}

/// The block on names that wait.
pub open spec fn wait_block(v: MonitorView) -> Option<Seq<Seq<char>>> {
    match wait_lines(v.waiting@, v.waiting@.len() as int) {
        None => None,
        Some(rows) => Some(
            seq![wait_title(v.strategy_id), hint_text(v.strategy_id)] + (if v.waiting@.len() == 0 {
                seq!["(нет кандидатов на вход)"@]
            } else {
                rows
            }),
        ),
    }
}

fn write_waiting(v: &MonitorView) -> (r: Option<Vec<String>>)
    ensures
        opt_views(r) == wait_block(*v),
{
    let mut out: Vec<String> = Vec::new();
    let ghost head = seq![wait_title(v.strategy_id), hint_text(v.strategy_id)];
    add_text(&mut out, own(wait_heading(v.strategy_id)));
    add_text(&mut out, own(wait_hint(v.strategy_id)));
    proof {
        assert(views(out@) =~= head + Seq::<Seq<char>>::empty());
    }
    let mut i: usize = 0;
    let ghost mut rows: Seq<Seq<char>> = Seq::empty();
    while i < v.waiting.len()
        invariant
            i <= v.waiting@.len(),
            wait_lines(v.waiting@, i as int) == Some(rows),
            views(out@) == head + rows,
        decreases v.waiting@.len() - i,
    {
        let w: &WaitRow = &v.waiting[i];
        proof {
            if wait_lines(v.waiting@, i as int + 1) is None {
                lemma_wait_lines_none(v.waiting@, i as int + 1, v.waiting@.len() as int);
            }
        }
        let mut t: String = write_name(w.symbol.as_str(), w.change_pct, w.last, w.volume)?;
        t.append("[");
        t.append(w.kind.tag());
        t.append("]  ");
        t.append(w.reason.as_str());
        let ghost more = wait_pair(*w)->0;
        add_text(&mut out, t);
        let mut t = own("    до входа: ");
        t.append(w.until.as_str());
        add_text(&mut out, t);
        proof {
            assert(views(out@) =~= head + (rows + more));
            rows = rows + more;
        }
        i = i + 1;
    }
    if v.waiting.len() == 0 {
        add_text(&mut out, own("(нет кандидатов на вход)"));
        proof {
            assert(views(out@) =~= head + seq!["(нет кандидатов на вход)"@]);
        }
    }
    Some(out)
}

/// The line on a name of the tape.
pub open spec fn tape_text(v: MonitorView, t: Ticker) -> Option<Seq<char>> {
    match name_text(t.symbol@, t.price_change_percent, t.last_price, t.quote_volume) {
        None => None,
        Some(s) => Some(s + growth_text(t.symbol@, v.positions@, v.waiting@)),
    }
}

/// The lines on the first `n` names of a tape.
pub open spec fn tape_lines(v: MonitorView, rows: Seq<Ticker>, n: int) -> Option<Seq<Seq<char>>>
    decreases n,
{
    if n <= 0 {
        Some(Seq::empty())
    } else {
        match (tape_lines(v, rows, n - 1), tape_text(v, rows[n - 1])) {
            (Some(a), Some(b)) => Some(a.push(b)),
            _ => None,
        }
    }
}

proof fn lemma_tape_lines_none(v: MonitorView, rows: Seq<Ticker>, n: int, m: int)
    requires
        n <= m,
        tape_lines(v, rows, n) is None,
    ensures
        tape_lines(v, rows, m) is None,
    decreases m,
{
    if n < m && m > 0 {
        lemma_tape_lines_none(v, rows, n, m - 1);
    }
}

/// The lines on a tape, or that there is none.
pub open spec fn tape_rows(v: MonitorView, rows: Seq<Ticker>) -> Option<Seq<Seq<char>>> {
    if rows.len() == 0 {
        Some(seq!["  (нет тикеров)"@])
    } else {
        tape_lines(v, rows, rows.len() as int)
    }
}

fn write_tape_rows(v: &MonitorView, rows: &[Ticker]) -> (r: Option<Vec<String>>)
    ensures
        opt_views(r) == tape_rows(*v, rows@),
{
    let mut out: Vec<String> = Vec::new();
    proof {
        assert(views(out@) =~= Seq::<Seq<char>>::empty());
    }
    if rows.len() == 0 {
        add_text(&mut out, own("  (нет тикеров)"));
        proof {
            assert(views(out@) =~= seq!["  (нет тикеров)"@]);
        }
        return Some(out);
    }
    let mut i: usize = 0;
    while i < rows.len()
        invariant
            i <= rows@.len(),
            rows@.len() > 0,
            tape_lines(*v, rows@, i as int) == Some(views(out@)),
        decreases rows@.len() - i,
    {
        let x: &Ticker = &rows[i];
        proof {
            if tape_lines(*v, rows@, i as int + 1) is None {
                lemma_tape_lines_none(*v, rows@, i as int + 1, rows@.len() as int);
            }
        }
        let mut t: String = write_name(
            x.symbol.as_str(),
            x.price_change_percent,
            x.last_price,
            x.quote_volume,
        )?;
        t.append(
            growth_tag(x.symbol.as_str(), v.positions.as_slice(), v.waiting.as_slice()).as_str(),
        );
        add_text(&mut out, t);
        i = i + 1;
    }
    Some(out)
}

/// The block on the tape.
pub open spec fn tape_block(v: MonitorView) -> Option<Seq<Seq<char>>> {
    match (tape_rows(v, v.rising@), tape_rows(v, v.falling@)) {
        (Some(up), Some(down)) => Some(
            seq![
                block_heading("Топ роста 24h"@, v.rising@.len() as int, v.tape_n as int),
                "  лента рынка — не список покупок"@,
            ] + up + seq![
                ""@,
                block_heading("Топ падения"@, v.falling@.len() as int, v.tape_n as int),
            ] + down,
        ),
        _ => None,
    }
}

fn write_tape(v: &MonitorView) -> (r: Option<Vec<String>>)
    ensures
        opt_views(r) == tape_block(*v),
{
    let up: Vec<String> = write_tape_rows(v, v.rising.as_slice())?;
    let down: Vec<String> = write_tape_rows(v, v.falling.as_slice())?;
    let mut out: Vec<String> = Vec::new();
    add_text(&mut out, top_heading("Топ роста 24h", v.rising.len(), v.tape_n));
    add_text(&mut out, own("  лента рынка — не список покупок"));
    proof {
        assert(views(out@) =~= seq![
            block_heading("Топ роста 24h"@, v.rising@.len() as int, v.tape_n as int),
            "  лента рынка — не список покупок"@,
        ]);
    }
    extend_texts(&mut out, up.as_slice());
    let ghost before = views(out@);
    add_text(&mut out, own(""));
    add_text(&mut out, top_heading("Топ падения", v.falling.len(), v.tape_n));
    proof {
        assert(views(out@) =~= before + seq![
            ""@,
            block_heading("Топ падения"@, v.falling@.len() as int, v.tape_n as int),
        ]);
    }
    extend_texts(&mut out, down.as_slice());
    Some(out)
}

/// The line on a trade that was closed.
pub open spec fn closed_text(c: ClosedRow) -> Seq<char> {
    "  "@ + c.clock@ + "  "@ + left_in(c.symbol@, 12) + "  нетто="@ + signed(c.pnl) + "  ("@ + c.reason@
        + ")"@
}

/// Whether the figures of the trades that were closed can be shown.
pub open spec fn closed_shows(v: MonitorView) -> bool {
    &&& signed_shows(v.closed_net)
    &&& forall|i: int|
        0 <= i < v.closed_today@.len() ==> signed_shows((#[trigger] v.closed_today@[i]).pnl)
}

/// The block on trades that were closed.
pub open spec fn closed_block(v: MonitorView) -> Seq<Seq<char>> {
    seq![
        "=== Закрытые сегодня ("@ + int_text(v.closed_wins as int) + "W/"@ + int_text(
            v.closed_losses as int,
        ) + "L  нетто="@ + signed(v.closed_net) + ") ==="@,
    ] + (if v.closed_today@.len() == 0 {
        seq!["  (сегодня закрытий нет)"@]
    } else {
        Seq::new(v.closed_today@.len(), |i: int| closed_text(v.closed_today@[i]))
    })
}

fn write_closed(v: &MonitorView) -> (r: Option<Vec<String>>)
    ensures
        opt_views(r) == (if closed_shows(*v) {
            Some(closed_block(*v))
        } else {
            None
        }),
{
    let mut t = own("=== Закрытые сегодня (");
    t.append(print_u64(v.closed_wins as u64).as_str());
    t.append("W/");
    t.append(print_u64(v.closed_losses as u64).as_str());
    t.append("L  нетто=");
    t.append(fmt_signed(v.closed_net)?.as_str());
    t.append(") ===");
    let ghost head = seq![t@];
    let mut out: Vec<String> = Vec::new();
    add_text(&mut out, t);
    if v.closed_today.len() == 0 {
        add_text(&mut out, own("  (сегодня закрытий нет)"));
        proof {
            assert(views(out@) =~= closed_block(*v));
        }
        return Some(out);
    }
    let ghost body = Seq::new(v.closed_today@.len(), |i: int| closed_text(v.closed_today@[i]));
    let mut i: usize = 0;
    proof {
        assert(views(out@) =~= head + body.take(0));
    }
    while i < v.closed_today.len()
        invariant
            i <= v.closed_today@.len(),
            body == Seq::new(v.closed_today@.len(), |i: int| closed_text(v.closed_today@[i])),
            views(out@) == head + body.take(i as int),
            forall|j: int| 0 <= j < i ==> signed_shows((#[trigger] v.closed_today@[j]).pnl),
        decreases v.closed_today@.len() - i,
    {
        let c: &ClosedRow = &v.closed_today[i];
        let mut t = own("  ");
        t.append(c.clock.as_str());
        t.append("  ");
        t.append(pad_right(c.symbol.as_str(), 12).as_str());
        t.append("  нетто=");
        t.append(fmt_signed(c.pnl)?.as_str());
        t.append("  (");
        t.append(c.reason.as_str());
        t.append(")");
        add_text(&mut out, t);
        proof {
            assert(views(out@) =~= head + body.take(i as int + 1));
        }
        i = i + 1;
    }
    proof {
        assert(body.take(i as int) =~= body);
    }
    Some(out)
}

/// The block on what keeps entries out.
pub open spec fn stop_block(v: MonitorView) -> Seq<Seq<char>> {
    let cool = pause_lines(v.now_ts as int, v.cooldown_until as int, v.cooldowns@);
    seq!["=== Блоки ==="@] + (if cool.len() == 0 && !v.daily_halt && v.session_open {
        seq!["  (нет пауз)"@]
    } else {
        cool + line_if(
            if v.daily_halt {
                Some("  • стоп дня"@)
            } else {
                None
            },
        ) + line_if(
            if v.session_open {
                None
            } else {
                Some("  • "@ + v.session_label@)
            },
        )
    })
}

fn write_stops(v: &MonitorView) -> (r: Vec<String>)
    ensures
        views(r@) == stop_block(*v),
{
    let cool: Vec<String> = cooldown_lines(v.now_ts, v.cooldown_until, &v.cooldowns);
    let mut out: Vec<String> = Vec::new();
    add_text(&mut out, own("=== Блоки ==="));
    proof {
        assert(views(cool@).len() == cool@.len());
        assert(views(out@) =~= seq!["=== Блоки ==="@]);
    }
    if cool.len() == 0 && !v.daily_halt && v.session_open {
        add_text(&mut out, own("  (нет пауз)"));
    } else {
        extend_texts(&mut out, cool.as_slice());
        if v.daily_halt {
            add_text(&mut out, own("  • стоп дня"));
        }
        if !v.session_open {
            let mut t = own("  • ");
            t.append(v.session_label.as_str());
            add_text(&mut out, t);
        }
    }
    proof {
        assert(views(out@) =~= stop_block(*v));
    }
    out
}

/// The lines at the end.
pub open spec fn end_lines(v: MonitorView) -> Seq<Seq<char>> {
    seq![
        "MONITOR: ордера не отправляются (можно держать рядом с --live)."@,
        "Клавиши: 1/2/3/4 линза стратегии  |  r обновить  |  q выход"@,
        "Логи сделок: .state/trades.jsonl"@,
    ] + line_if(
        match v.last_error {
            Some(e) => Some(ui_error(e@)),
            None => None,
        },
    )
}

fn write_end(v: &MonitorView) -> (r: Vec<String>)
    ensures
        views(r@) == end_lines(*v),
{
    let mut out: Vec<String> = Vec::new();
    add_text(&mut out, own("MONITOR: ордера не отправляются (можно держать рядом с --live)."));
    add_text(&mut out, own("Клавиши: 1/2/3/4 линза стратегии  |  r обновить  |  q выход"));
    add_text(&mut out, own("Логи сделок: .state/trades.jsonl"));
    if let Some(e) = &v.last_error {
        add_text(&mut out, format_ui_error(e.as_str()));
    }
    proof {
        assert(views(out@) =~= end_lines(*v));
    }
    out
}

/// The whole screen.
pub open spec fn screen_text(v: MonitorView) -> Option<Seq<char>> {
    match (summary_lines(v), position_block(v), wait_block(v), tape_block(v)) {
        (Some(summary), Some(positions), Some(waiting), Some(tape)) => if closed_shows(v) {
            Some(
                joined(
                    seq![head_text(v), ""@] + summary + seq![""@] + positions + seq![""@] + waiting
                        + seq![""@] + tape + seq![""@] + closed_block(v) + seq![""@] + stop_block(v)
                        + seq![""@] + end_lines(v),
                    "\n"@,
                ) + "\n"@,
            )
        } else {
            None
        },
        _ => None,
    }
}

fn add_block(out: &mut Vec<String>, block: &[String])
    ensures
        views(final(out)@) == views(old(out)@) + views(block@) + seq![""@],
{
    extend_texts(out, block);
    let ghost before = views(out@);
    add_text(out, own(""));
    proof {
        assert(views(out@) =~= before + seq![""@]);
    }
}

/// The text of the watch screen. `None` where a figure leaves the range of
/// decimals or is too large to be shown.
pub fn render_monitor(view: &MonitorView) -> (r: Option<String>)
    ensures
        opt_view(r) == screen_text(*view),
{
    let summary: Vec<String> = write_summary(view)?;
    let positions: Vec<String> = write_positions(view)?;
    let waiting: Vec<String> = write_waiting(view)?;
    let tape: Vec<String> = write_tape(view)?;
    let closed: Vec<String> = write_closed(view)?;
    let mut out: Vec<String> = Vec::new();
    add_text(&mut out, write_head(view));
    add_text(&mut out, own(""));
    proof {
        assert(views(out@) =~= seq![head_text(*view), ""@]);
    }
    add_block(&mut out, summary.as_slice());
    add_block(&mut out, positions.as_slice());
    add_block(&mut out, waiting.as_slice());
    add_block(&mut out, tape.as_slice());
    add_block(&mut out, closed.as_slice());
    add_block(&mut out, write_stops(view).as_slice());
    extend_texts(&mut out, write_end(view).as_slice());
    let mut t = join(out.as_slice(), "\n");
    t.append("\n");
    Some(t)
}

/// What a position has gained, as a share of its cost, in per cent.
pub proof fn law_gain_is_a_share_of_the_cost(p: Position, cost: Dec)
    requires
        crate::dec::decimal_product(p.qty, p.entry_price) == Some(cost),
        cost.pos(),
    ensures
        gained(p) == n_mul(crate::dec::decimal_quotient(p.unrealized_pnl, cost), Some(dec(100, 0))),
{
}

/// How open positions are counted: one more for each with a quantity, in profit
/// above zero and in loss below it.
pub proof fn law_open_positions_are_counted(positions: Seq<Position>, n: int)
    requires
        0 < n <= positions.len(),
    ensures
        ({
            let (open, up, down) = tallied(positions, n - 1);
            let (more, more_up, more_down) = tallied(positions, n);
            let p = positions[n - 1];
            &&& more == open + (if p.qty.pos() {
                1int
            } else {
                0
            })
            &&& more_up == up + (if p.qty.pos() && p.unrealized_pnl.units() > 0 {
                1int
            } else {
                0
            })
            &&& more_down == down + (if p.qty.pos() && p.unrealized_pnl.units() < 0 {
                1int
            } else {
                0
            })
        }),
        tallied(positions, 0) == (0int, 0int, 0int),
{
}

/// A profit is called by its sign.
pub proof fn law_profit_words(d: Dec)
    ensures
        d.units() > 0 ==> profit_word(d) == "в плюсе"@,
        d.units() < 0 ==> profit_word(d) == "в минусе"@,
        d.units() == 0 ==> profit_word(d) == "в нуле"@,
{
}

} // verus!

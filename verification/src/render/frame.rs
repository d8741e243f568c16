//! The text frame.
use super::{
    account_profit_figure, banner_of, cooldown_lines, dash_shows, fmt_money, fmt_price, fmt_price_or_dash,
    mark_at, money, money_shows, one_r_line, one_r_text, opt_line, pause_lines, position_mark, price,
    price_or_dash, price_shows, top_movers, ViewModel, TOP_MOVERS_N,
};
use crate::config::{pct_label, pct_text};
use crate::dec::{
    dec, decimal_normal, decimal_text, decimal_text_signed, minus, n_mul, n_sub, prints, rounded, times,
    Dec,
};
use crate::engine::{strategy_title, title_of};
use crate::errorlog::{format_ui_error, ui_error};
use crate::exchange::{risk_notional, risk_position_notional};
use crate::models::{opt_view, Position, RecentAction, Side, Ticker};
use crate::profit::{current_equity, equity_of, profit_of};
use crate::ranking::{first_n, ranked, RankBy};
use crate::sessions::{clock_text_seconds, status_at, utc_clock_seconds, SessionStatus, StatusView};
use crate::text::{
    add_text, extend_texts, int_text, join, joined, left_in, own, pad_right, print_i64, print_u64, same,
    upper, views,
};
use vstd::prelude::*;
use vstd::string::StringExecFns;

verus! {

pub open spec fn opt_views(r: Option<Vec<String>>) -> Option<Seq<Seq<char>>> {
    match r {
        Some(v) => Some(views(v@)),
        None => None,
    }
}

/// How the fourth strategy sizes its trades: by the share of the equity that it
/// risks, and what that comes to at the tightest stop.
pub open spec fn risk_size(v: ViewModel) -> Option<Seq<char>> {
    let stop = v.s4_interval.min_stop();
    match (
        pct_text(v.risk_pct),
        equity_of(v.wallet_balance, v.unrealized_pnl),
        n_mul(Some(dec(100, 0)), n_sub(Some(dec(1, 0)), Some(stop))),
    ) {
        (Some(pct), Some(equity), Some(sl)) => match risk_notional(equity, v.risk_pct, dec(100, 0), sl) {
            None => None,
            Some(None) => Some("риск "@ + pct + "% счета / стоп"@),
            Some(Some(notional)) => match pct_text(stop) {
                None => None,
                Some(stop_pct) => Some(
                    "риск "@ + pct + "% счета / стоп (до "@ + decimal_text(
                        decimal_normal(rounded(notional, 1)),
                    ) + " USDT при SL "@ + stop_pct + "%)"@,
                ),
            },
        },
        _ => None,
    }
}

fn write_risk_size(v: &ViewModel) -> (r: Option<String>)
    ensures
        opt_view(r) == risk_size(*v),
{
    let stop: Dec = v.s4_interval.min_stop_pct();
    let pct: String = pct_label(v.risk_pct)?;
    let equity: Dec = current_equity(v.wallet_balance, v.unrealized_pnl)?;
    let entry: Dec = Dec::from_int(100);
    let sl: Dec = times(Some(entry), minus(Some(Dec::one()), Some(stop)))?;
    let plan: Option<Dec> = risk_position_notional(equity, v.risk_pct, entry, sl)?;
    let mut t = own("риск ");
    t.append(pct.as_str());
    match plan {
        Some(notional) => {
            let stop_pct: String = pct_label(stop)?;
            t.append("% счета / стоп (до ");
            t.append(notional.round_dp(1).normalize().text().as_str());
            t.append(" USDT при SL ");
            t.append(stop_pct.as_str());
            t.append("%)");
        },
        None => {
            t.append("% счета / стоп");
        },
    }
    Some(t)
}

pub open spec fn leverage_text(leverage: Option<i32>) -> Seq<char> {
    match leverage {
        Some(l) => "плечо "@ + int_text(l as int) + "x"@,
        None => "плечо как на Binance"@,
    }
}

/// How large a trade is.
pub open spec fn size_text(v: ViewModel) -> Option<Seq<char>> {
    if v.strategy_id == 4 && v.risk_pct.pos() {
        risk_size(v)
    } else if v.notional_from_exchange {
        Some("сумма = minNotional биржи"@)
    } else {
        Some("сумма "@ + decimal_text(v.order_notional) + " USDT"@)
    }
}

/// The line on leverage, size and symbols.
pub open spec fn book_text(v: ViewModel) -> Option<Seq<char>> {
    let basket = if v.basket_symbols@.len() == 0 {
        "—"@
    } else {
        joined(views(v.basket_symbols@), ", "@)
    };
    match size_text(v) {
        None => None,
        Some(size) => Some(
            leverage_text(v.leverage) + "  |  "@ + size + if v.strategy_id == 1 || v.strategy_id == 4 {
                "  |  корзина до "@ + int_text(v.max_positions as int) + ": "@ + basket
            } else {
                "  |  скан: "@ + basket
            },
        ),
    }
}

fn book_line(v: &ViewModel) -> (r: Option<String>)
    ensures
        opt_view(r) == book_text(*v),
{
    let size: String = if v.strategy_id == 4 && v.risk_pct.is_pos() {
        write_risk_size(v)?
    } else if v.notional_from_exchange {
        own("сумма = minNotional биржи")
    } else {
        let mut t = own("сумма ");
        t.append(v.order_notional.text().as_str());
        t.append(" USDT");
        t
    };
    let basket: String = if v.basket_symbols.len() == 0 {
        own("—")
    } else {
        join(v.basket_symbols.as_slice(), ", ")
    };
    let mut t = match v.leverage {
        Some(l) => {
            let mut t = own("плечо ");
            t.append(print_i64(l as i64).as_str());
            t.append("x");
            t
        },
        None => own("плечо как на Binance"),
    };
    t.append("  |  ");
    t.append(size.as_str());
    if v.strategy_id == 1 || v.strategy_id == 4 {
        let mut tail = own("  |  корзина до ");
        tail.append(print_i64(v.max_positions as i64).as_str());
        tail.append(": ");
        tail.append(basket.as_str());
        t.append(tail.as_str());
    } else {
        let mut tail = own("  |  скан: ");
        tail.append(basket.as_str());
        t.append(tail.as_str());
    }
    Some(t)
}

/// The line on entry hours; only the first and the fourth strategy have one.
pub open spec fn session_text(v: ViewModel) -> Option<Seq<char>> {
    if v.strategy_id != 1 && v.strategy_id != 4 {
        None
    } else {
        let s = status_at(v.now_ts as int, v.entry_windows@, v.always_enter);
        let tag = if v.strategy_id == 4 {
            "Continuation"@
        } else {
            "Momentum"@
        };
        let tf = if v.strategy_id == 4 {
            "  |  свечи "@ + v.s4_interval.ru() + "  |  "@ + v.s4_interval.geometry()
        } else {
            Seq::empty()
        };
        let next = if !s.open && s.next_open_clock is Some {
            "  |  следующий старт "@ + s.next_open_clock->0 + " UTC"@
        } else {
            Seq::empty()
        };
        Some(
            tag + ": "@ + s.label + "  |  сейчас "@ + s.utc_clock + " UTC  |  входы "@ + s.windows_text + tf
                + next,
        )
    }
}

fn session_line(v: &ViewModel) -> (r: Option<String>)
    ensures
        opt_view(r) == session_text(*v),
{
    if v.strategy_id != 1 && v.strategy_id != 4 {
        return None;
    }
    let s: SessionStatus = v.session();
    let ghost sv: StatusView = s@;
    let mut t = if v.strategy_id == 4 {
        own("Continuation")
    } else {
        own("Momentum")
    };
    t.append(": ");
    t.append(s.label.as_str());
    t.append("  |  сейчас ");
    t.append(s.utc_clock.as_str());
    t.append(" UTC  |  входы ");
    t.append(s.windows_text.as_str());
    let mut tf = String::new();
    if v.strategy_id == 4 {
        tf.append("  |  свечи ");
        tf.append(v.s4_interval.as_ru());
        tf.append("  |  ");
        tf.append(v.s4_interval.geometry_ru().as_str());
        proof {
            assert(tf@ =~= "  |  свечи "@ + v.s4_interval.ru() + "  |  "@ + v.s4_interval.geometry());
        }
    }
    t.append(tf.as_str());
    let mut next = String::new();
    if !s.open {
        if let Some(c) = &s.next_open_clock {
            next.append("  |  следующий старт ");
            next.append(c.as_str());
            next.append(" UTC");
            proof {
                assert(next@ =~= "  |  следующий старт "@ + c@ + " UTC"@);
            }
        }
    }
    t.append(next.as_str());
    Some(t)
}

/// How many positions, in the case that the number asks for.
pub open spec fn positions_text(n: int) -> Seq<char> {
    let a = n % 10;
    let b = n % 100;
    if a == 1 && b != 11 {
        int_text(n) + " позицию"@
    } else if 2 <= a <= 4 && !(12 <= b <= 14) {
        int_text(n) + " позиции"@
    } else {
        int_text(n) + " позиций"@
    }
}

fn ru_positions(n: usize) -> (r: String)
    ensures
        r@ == positions_text(n as int),
{
    let a: usize = n % 10;
    let b: usize = n % 100;
    let mut t = print_u64(n as u64);
    if a == 1 && b != 11 {
        t.append(" позицию");
    } else if 2 <= a && a <= 4 && !(12 <= b && b <= 14) {
        t.append(" позиции");
    } else {
        t.append(" позиций");
    }
    t
}

pub open spec fn heading(label: Seq<char>, shown: int, total: int) -> Seq<char> {
    if total == 0 {
        label + ":"@
    } else {
        label + " ("@ + int_text(shown) + " из "@ + int_text(total) + "):"@
    }
}

fn top_heading(label: &str, shown: usize, total: usize) -> (r: String)
    ensures
        r@ == heading(label@, shown as int, total as int),
{
    let mut t = own(label);
    if total == 0 {
        t.append(":");
    } else {
        t.append(" (");
        t.append(print_u64(shown as u64).as_str());
        t.append(" из ");
        t.append(print_u64(total as u64).as_str());
        t.append("):");
    }
    t
}

pub open spec fn header_text(v: ViewModel) -> Seq<char> {
    "home-economic  |  Binance USDT-M Futures TestNet  |  "@ + (if v.live {
        "LIVE"@
    } else {
        "WATCH"@
    }) + "  |  "@ + (if v.has_credentials {
        "keys=env"@
    } else {
        "keys=missing"@
    })
}

fn write_header(v: &ViewModel) -> (r: String)
    ensures
        r@ == header_text(*v),
{
    let mut t = own("home-economic  |  Binance USDT-M Futures TestNet  |  ");
    t.append(if v.live { "LIVE" } else { "WATCH" });
    t.append("  |  ");
    t.append(if v.has_credentials { "keys=env" } else { "keys=missing" });
    t
}

/// A label and an amount of USDT.
pub open spec fn amount_text(label: Seq<char>, d: Dec) -> Seq<char> {
    label + money(d) + " USDT"@
}

fn write_amount(label: &str, d: Dec) -> (r: Option<String>)
    ensures
        opt_view(r) == (if money_shows(d) {
            Some(amount_text(label@, d))
        } else {
            None
        }),
{
    let mut t = own(label);
    t.append(fmt_money(d)?.as_str());
    t.append(" USDT");
    Some(t)
}

/// Whether the figures of the account can be shown.
pub open spec fn account_shows(v: ViewModel, equity: Dec, profit: Dec) -> bool {
    &&& money_shows(v.wallet_balance)
    &&& money_shows(v.unrealized_pnl)
    &&& money_shows(equity)
    &&& money_shows(v.available_balance)
    &&& money_shows(profit)
}

/// The block on the account.
pub open spec fn account_lines(v: ViewModel) -> Option<Seq<Seq<char>>> {
    match (
        equity_of(v.wallet_balance, v.unrealized_pnl),
        profit_of(v.wallet_balance, v.unrealized_pnl, v.starting_equity),
    ) {
        (Some(equity), Some(profit)) => if account_shows(v, equity, profit) {
            Some(
                seq![
                    "=== Счёт ==="@,
                    amount_text("Баланс кошелька:     "@, v.wallet_balance),
                    amount_text("Нереализованный PnL: "@, v.unrealized_pnl),
                    amount_text("Сумма счета:         "@, equity),
                    amount_text("Доступно:            "@, v.available_balance),
                    amount_text("Прибыль счета:       "@, profit),
                ],
            )
        } else {
            None
        },
        _ => None,
    }
}

fn write_account(v: &ViewModel) -> (r: Option<Vec<String>>)
    ensures
        opt_views(r) == account_lines(*v),
{
    let profit: Dec = account_profit_figure(v)?;
    let equity: Dec = current_equity(v.wallet_balance, v.unrealized_pnl)?;
    let mut out: Vec<String> = Vec::new();
    add_text(&mut out, own("=== Счёт ==="));
    add_text(&mut out, write_amount("Баланс кошелька:     ", v.wallet_balance)?);
    add_text(&mut out, write_amount("Нереализованный PnL: ", v.unrealized_pnl)?);
    add_text(&mut out, write_amount("Сумма счета:         ", equity)?);
    add_text(&mut out, write_amount("Доступно:            ", v.available_balance)?);
    add_text(&mut out, write_amount("Прибыль счета:       ", profit)?);
    proof {
        assert(views(out@) =~= account_lines(*v)->0);
    }
    Some(out)
}

/// Whether a list holds a text, letter case aside.
pub open spec fn holds_upper(list: Seq<Seq<char>>, s: Seq<char>) -> bool {
    exists|i: int| 0 <= i < list.len() && upper(#[trigger] list[i]) == upper(s)
}

fn listed_upper(list: &[String], s: &str) -> (r: bool)
    ensures
        r == holds_upper(views(list@), s@),
{
    let key: String = s.to_ascii_uppercase();
    let mut i: usize = 0;
    while i < list.len()
        invariant
            i <= list@.len(),
            key@ == upper(s@),
            forall|j: int| 0 <= j < i ==> upper(#[trigger] views(list@)[j]) != upper(s@),
        decreases list@.len() - i,
    {
        if same(list[i].as_str().to_ascii_uppercase().as_str(), key.as_str()) {
            proof {
                assert(upper(views(list@)[i as int]) == upper(s@));
            }
            return true;
        }
        i = i + 1;
    }
    false
}

/// Who manages a position.
pub open spec fn tag_text(v: ViewModel, p: Position) -> Seq<char> {
    if p.side != Side::Long {
        "шорт, не ведём"@
    } else if holds_upper(views(v.unmanaged_symbols@), p.symbol@) {
        "не ведём"@
    } else {
        "ведём"@
    }
}

/// The line on a position.
pub open spec fn position_text(v: ViewModel, p: Position) -> Seq<char> {
    p.symbol@ + " "@ + p.side.text() + " qty="@ + money(p.qty) + " entry="@ + price(p.entry_price) + " SL="@
        + price_or_dash(p.stop_loss) + " TP="@ + price_or_dash(p.take_profit) + " uPnL="@ + money(
        p.unrealized_pnl,
    ) + "  ["@ + tag_text(v, p) + "]"@
}

/// Whether the figures of a position can be shown.
pub open spec fn position_shows(p: Position) -> bool {
    &&& money_shows(p.qty)
    &&& price_shows(p.entry_price)
    &&& dash_shows(p.stop_loss)
    &&& dash_shows(p.take_profit)
    &&& money_shows(p.unrealized_pnl)
}

fn write_position(v: &ViewModel, p: &Position) -> (r: Option<String>)
    ensures
        opt_view(r) == (if position_shows(*p) {
            Some(position_text(*v, *p))
        } else {
            None
        }),
{
    let mut t = own(p.symbol.as_str());
    t.append(" ");
    t.append(p.side.as_str());
    t.append(" qty=");
    t.append(fmt_money(p.qty)?.as_str());
    t.append(" entry=");
    t.append(fmt_price(p.entry_price)?.as_str());
    t.append(" SL=");
    t.append(fmt_price_or_dash(p.stop_loss)?.as_str());
    t.append(" TP=");
    t.append(fmt_price_or_dash(p.take_profit)?.as_str());
    t.append(" uPnL=");
    t.append(fmt_money(p.unrealized_pnl)?.as_str());
    t.append("  [");
    let tag: &str = if p.side != Side::Long {
        "шорт, не ведём"
    } else if listed_upper(v.unmanaged_symbols.as_slice(), p.symbol.as_str()) {
        "не ведём"
    } else {
        "ведём"
    };
    t.append(tag);
    t.append("]");
    Some(t)
}

/// The lines on a position: the position, and for a long how far a gain of its
/// risk is.
pub open spec fn position_rows(v: ViewModel, p: Position) -> Option<Seq<Seq<char>>> {
    match mark_at(p, v.tickers@) {
        None => None,
        Some(mark) => match one_r_text(p, mark) {
            None => None,
            Some(line) => if position_shows(p) {
                Some(seq![position_text(v, p)] + line_if(line))
            } else {
                None
            },
        },
    }
}

/// The lines on the first `n` positions.
pub open spec fn position_lines(v: ViewModel, n: int) -> Option<Seq<Seq<char>>>
    decreases n,
{
    if n <= 0 {
        Some(Seq::empty())
    } else {
        match (position_lines(v, n - 1), position_rows(v, v.positions@[n - 1])) {
            (Some(a), Some(b)) => Some(a + b),
            _ => None,
        }
    }
}

proof fn lemma_position_lines_none(v: ViewModel, n: int, m: int)
    requires
        n <= m,
        position_lines(v, n) is None,
    ensures
        position_lines(v, m) is None,
    decreases m,
{
    if n < m && m > 0 {
        lemma_position_lines_none(v, n, m - 1);
    }
}

fn write_positions(v: &ViewModel) -> (r: Option<Vec<String>>)
    ensures
        opt_views(r) == position_lines(*v, v.positions@.len() as int),
{
    let mut out: Vec<String> = Vec::new();
    let mut i: usize = 0;
    proof {
        assert(views(out@) =~= Seq::<Seq<char>>::empty());
    }
    while i < v.positions.len()
        invariant
            i <= v.positions@.len(),
            position_lines(*v, i as int) == Some(views(out@)),
        decreases v.positions@.len() - i,
    {
        let p: &Position = &v.positions[i];
        let ghost before = views(out@);
        proof {
            if position_lines(*v, i as int + 1) is None {
                lemma_position_lines_none(*v, i as int + 1, v.positions@.len() as int);
            }
        }
        let mark: Dec = position_mark(p, v.tickers.as_slice())?;
        let line: Option<String> = one_r_line(p, mark)?;
        let row: String = write_position(v, p)?;
        add_text(&mut out, row);
        if let Some(line) = line {
            add_text(&mut out, line);
        }
        proof {
            assert(views(out@) =~= before + position_rows(*v, v.positions@[i as int])->0);
        }
        i = i + 1;
    }
    Some(out)
}

/// The line on a decision.
pub open spec fn action_text(a: RecentAction) -> Seq<char> {
    "  • "@ + clock_text_seconds(a.at as int) + " UTC  "@ + a.text@
}

/// The last five decisions; where there are none, what was decided last.
pub open spec fn action_lines(v: ViewModel) -> Seq<Seq<char>> {
    let n = v.recent_actions@.len() as int;
    let from = if n > 5 {
        n - 5
    } else {
        0
    };
    if n > 0 {
        seq!["Последние решения:"@] + Seq::new(
            (n - from) as nat,
            |i: int| action_text(v.recent_actions@[from + i]),
        )
    } else {
        seq!["Последнее решение: "@ + v.last_decision@]
    }
}

fn write_actions(v: &ViewModel) -> (r: Vec<String>)
    ensures
        views(r@) == action_lines(*v),
{
    let mut out: Vec<String> = Vec::new();
    let n: usize = v.recent_actions.len();
    proof {
        assert(views(out@) =~= Seq::<Seq<char>>::empty());
    }
    if n == 0 {
        let mut t = own("Последнее решение: ");
        t.append(v.last_decision.as_str());
        add_text(&mut out, t);
        proof {
            assert(views(out@) =~= action_lines(*v));
        }
        return out;
    }
    let from: usize = if n > 5 {
        n - 5
    } else {
        0
    };
    let ghost body = Seq::new(
        (n - from) as nat,
        |i: int| action_text(v.recent_actions@[from + i]),
    );
    add_text(&mut out, own("Последние решения:"));
    let mut i: usize = from;
    proof {
        assert(views(out@) =~= seq!["Последние решения:"@] + body.take(0));
    }
    while i < n
        invariant
            from <= i <= n,
            n == v.recent_actions@.len(),
            body == Seq::new(
                (n - from) as nat,
                |i: int| action_text(v.recent_actions@[from + i]),
            ),
            views(out@) == seq!["Последние решения:"@] + body.take(i - from),
        decreases n - i,
    {
        let a: &RecentAction = &v.recent_actions[i];
        let mut t = own("  • ");
        t.append(utc_clock_seconds(a.at).as_str());
        t.append(" UTC  ");
        t.append(a.text.as_str());
        add_text(&mut out, t);
        proof {
            assert(views(out@) =~= seq!["Последние решения:"@] + body.take(i + 1 - from));
        }
        i = i + 1;
    }
    proof {
        assert(body.take(i - from) =~= body);
    }
    out
}

/// The lines of the journal.
pub open spec fn journal_block(lines: Seq<Seq<char>>) -> Seq<Seq<char>> {
    if lines.len() == 0 {
        Seq::empty()
    } else {
        seq!["Журнал сделок:"@] + Seq::new(lines.len(), |i: int| "  • "@ + lines[i])
    }
}

fn write_journal(lines: &[String]) -> (r: Vec<String>)
    ensures
        views(r@) == journal_block(views(lines@)),
{
    let mut out: Vec<String> = Vec::new();
    let ghost lv = views(lines@);
    proof {
        assert(lv.len() == lines@.len());
        assert(views(out@) =~= Seq::<Seq<char>>::empty());
    }
    if lines.len() == 0 {
        return out;
    }
    let ghost body = Seq::new(lv.len(), |i: int| "  • "@ + lv[i]);
    add_text(&mut out, own("Журнал сделок:"));
    let mut i: usize = 0;
    proof {
        assert(views(out@) =~= seq!["Журнал сделок:"@] + body.take(0));
    }
    while i < lines.len()
        invariant
            i <= lines@.len(),
            lv == views(lines@),
            body == Seq::new(lv.len(), |i: int| "  • "@ + lv[i]),
            views(out@) == seq!["Журнал сделок:"@] + body.take(i as int),
        decreases lines@.len() - i,
    {
        proof {
            assert(lv[i as int] == lines@[i as int]@);
        }
        let mut t = own("  • ");
        t.append(lines[i].as_str());
        add_text(&mut out, t);
        proof {
            assert(views(out@) =~= seq!["Журнал сделок:"@] + body.take(i as int + 1));
        }
        i = i + 1;
    }
    proof {
        assert(body.take(i as int) =~= body);
    }
    out
}

/// What is said of positions that no strategy manages.
pub open spec fn leftover_lines(v: ViewModel) -> Seq<Seq<char>> {
    if v.unmanaged_symbols@.len() > 0 && banner_of(v) != "confirm"@ {
        seq![
            "На бирже есть то, чем стратегия не управляет: "@ + joined(
                views(v.unmanaged_symbols@),
                ", "@,
            ) + ". x x закроет только этот хвост."@,
        ]
    } else {
        Seq::empty()
    }
}

/// The block on positions and decisions.
pub open spec fn book_lines(v: ViewModel) -> Option<Seq<Seq<char>>> {
    match position_lines(v, v.positions@.len() as int) {
        None => None,
        Some(rows) => Some(
            seq!["=== Позиции / сделки ==="@] + (if v.positions@.len() == 0 {
                seq!["(нет открытых позиций)"@]
            } else {
                rows
            }) + action_lines(v) + journal_block(views(v.journal_lines@)) + pause_lines(
                v.now_ts as int,
                v.cooldown_until as int,
                v.cooldowns@,
            ) + leftover_lines(v),
        ),
    }
}

fn write_book(v: &ViewModel) -> (r: Option<Vec<String>>)
    ensures
        opt_views(r) == book_lines(*v),
{
    let rows: Vec<String> = write_positions(v)?;
    let mut out: Vec<String> = Vec::new();
    proof {
        assert(views(out@) =~= Seq::<Seq<char>>::empty());
    }
    add_text(&mut out, own("=== Позиции / сделки ==="));
    proof {
        assert(views(out@) =~= seq!["=== Позиции / сделки ==="@]);
    }
    if v.positions.len() == 0 {
        add_text(&mut out, own("(нет открытых позиций)"));
        proof {
            assert(views(out@) =~= seq!["=== Позиции / сделки ==="@] + seq!["(нет открытых позиций)"@]);
        }
    } else {
        extend_texts(&mut out, rows.as_slice());
    }
    extend_texts(&mut out, write_actions(v).as_slice());
    extend_texts(&mut out, write_journal(v.journal_lines.as_slice()).as_slice());
    extend_texts(&mut out, cooldown_lines(v.now_ts, v.cooldown_until, &v.cooldowns).as_slice());
    let ghost before = views(out@);
    if v.unmanaged_symbols.len() > 0 && !same(v.banner(), "confirm") {
        let mut t = own("На бирже есть то, чем стратегия не управляет: ");
        t.append(join(v.unmanaged_symbols.as_slice(), ", ").as_str());
        t.append(". x x закроет только этот хвост.");
        add_text(&mut out, t);
    }
    proof {
        assert(views(out@) =~= before + leftover_lines(*v));
    }
    Some(out)
}

/// The line on a symbol that rises or falls.
pub open spec fn mover_text(t: Ticker) -> Seq<char> {
    "  "@ + left_in(t.symbol@, 12) + " "@ + decimal_text_signed(t.price_change_percent, 3) + "%  last="@
        + price(t.last_price)
}

/// Whether the figures of a symbol can be shown.
pub open spec fn mover_shows(t: Ticker) -> bool {
    prints(t.price_change_percent, 3) && price_shows(t.last_price)
}

/// The lines on symbols that rise or fall, where their figures can be shown.
pub open spec fn mover_lines(tickers: Seq<Ticker>) -> Option<Seq<Seq<char>>> {
    if tickers.len() == 0 {
        Some(seq!["  (нет тикеров)"@])
    } else if exists|i: int| 0 <= i < tickers.len() && !mover_shows(#[trigger] tickers[i]) {
        None
    } else {
        Some(Seq::new(tickers.len(), |i: int| mover_text(tickers[i])))
    }
}

fn write_movers(tickers: &[Ticker]) -> (r: Option<Vec<String>>)
    ensures
        opt_views(r) == mover_lines(tickers@),
{
    let mut out: Vec<String> = Vec::new();
    proof {
        assert(views(out@) =~= Seq::<Seq<char>>::empty());
    }
    if tickers.len() == 0 {
        add_text(&mut out, own("  (нет тикеров)"));
        proof {
            assert(views(out@) =~= seq!["  (нет тикеров)"@]);
        }
        return Some(out);
    }
    let ghost body = Seq::new(tickers@.len(), |i: int| mover_text(tickers@[i]));
    let mut i: usize = 0;
    proof {
        assert(views(out@) =~= body.take(0));
    }
    while i < tickers.len()
        invariant
            i <= tickers@.len(),
            tickers@.len() > 0,
            body == Seq::new(tickers@.len(), |i: int| mover_text(tickers@[i])),
            views(out@) == body.take(i as int),
            forall|j: int| 0 <= j < i ==> mover_shows(#[trigger] tickers@[j]),
        decreases tickers@.len() - i,
    {
        let t: &Ticker = &tickers[i];
        let mut s = own("  ");
        s.append(pad_right(t.symbol.as_str(), 12).as_str());
        s.append(" ");
        s.append(t.price_change_percent.text_signed(3)?.as_str());
        s.append("%  last=");
        s.append(fmt_price(t.last_price)?.as_str());
        add_text(&mut out, s);
        proof {
            assert(views(out@) =~= body.take(i as int + 1));
        }
        i = i + 1;
    }
    proof {
        assert(body.take(i as int) =~= body);
    }
    Some(out)
}

/// The symbol that the chart shows: the one asked for, else the strongest riser.
pub open spec fn chart_name(v: ViewModel) -> Seq<char> {
    let rising = first_n(ranked(RankBy::TopRise, v.tickers@), TOP_MOVERS_N as int);
    if v.chart_symbol@.len() > 0 {
        v.chart_symbol@
    } else if rising.len() > 0 {
        rising[0].symbol@
    } else {
        "—"@
    }
}

/// The block on the market, round a chart of the closes.
pub open spec fn market_lines(v: ViewModel, spark: Seq<char>) -> Option<Seq<Seq<char>>> {
    let rising = first_n(ranked(RankBy::TopRise, v.tickers@), TOP_MOVERS_N as int);
    let falling = first_n(ranked(RankBy::TopFall, v.tickers@), TOP_MOVERS_N as int);
    let n = v.tickers@.len() as int;
    match (mover_lines(rising), mover_lines(falling)) {
        (Some(up), Some(down)) => Some(
            seq![
                "=== Аналитика / график ==="@,
                "Символ графика: "@ + chart_name(v),
                spark,
                heading("Топ роста"@, rising.len() as int, n),
            ] + up + seq![heading("Топ падения"@, falling.len() as int, n)] + down,
        ),
        _ => None,
    }
}

fn write_market(v: &ViewModel, spark: &str) -> (r: Option<Vec<String>>)
    ensures
        opt_views(r) == market_lines(*v, spark@),
{
    let (rising, falling) = top_movers(v.tickers.as_slice(), TOP_MOVERS_N);
    let n: usize = v.tickers.len();
    let mut chart = own("Символ графика: ");
    if v.chart_symbol.as_str().unicode_len() > 0 {
        chart.append(v.chart_symbol.as_str());
    } else if rising.len() > 0 {
        chart.append(rising[0].symbol.as_str());
    } else {
        chart.append("—");
    }
    let mut out: Vec<String> = Vec::new();
    add_text(&mut out, own("=== Аналитика / график ==="));
    add_text(&mut out, chart);
    add_text(&mut out, own(spark));
    add_text(&mut out, top_heading("Топ роста", rising.len(), n));
    proof {
        assert(views(out@) =~= seq![
            "=== Аналитика / график ==="@,
            "Символ графика: "@ + chart_name(*v),
            spark@,
            heading("Топ роста"@, rising@.len() as int, n as int),
        ]);
    }
    let up: Vec<String> = write_movers(rising.as_slice())?;
    extend_texts(&mut out, up.as_slice());
    let ghost before = views(out@);
    add_text(&mut out, top_heading("Топ падения", falling.len(), n));
    proof {
        assert(views(out@) =~= before + seq![
            heading("Топ падения"@, falling@.len() as int, n as int),
        ]);
    }
    let down: Vec<String> = write_movers(falling.as_slice())?;
    extend_texts(&mut out, down.as_slice());
    Some(out)
}

/// What the keys do now.
pub open spec fn keys_text(v: ViewModel) -> Seq<char> {
    if v.flatten_armed {
        "Клавиши: x — да, закрыть   |   любая другая — отмена"@
    } else if v.entries_paused {
        "Клавиши: 1/2/3/4 выбор стратегии  |  x закрыть все (дважды)  |  q выход  |  r разрешить входы"@
    } else if v.daily_halt {
        "Клавиши: 1/2/3/4 выбор стратегии  |  x закрыть все (дважды)  |  q выход"@
    } else {
        "Клавиши: 1/2/3/4 выбор стратегии  |  x закрыть все (дважды)  |  q выход  |  r обновить"@
    }
}

/// Whether what the footer says of the state can be shown.
pub open spec fn status_shows(v: ViewModel) -> bool {
    !v.flatten_armed && !v.entries_paused && v.daily_halt && v.day_pnl is Some ==> money_shows(
        v.day_pnl->0,
    )
}

/// What the footer says of the state.
pub open spec fn status_text(v: ViewModel) -> Option<Seq<char>> {
    if v.flatten_armed {
        Some(
            if v.flatten_leftovers && v.unmanaged_symbols@.len() > 0 {
                "Подтверждение: ещё раз x закроет хвосты, которыми стратегия не управляет ("@ + joined(
                    views(v.unmanaged_symbols@),
                    ", "@,
                ) + "). Стратегические лонги не трогает."@
            } else if v.positions@.len() > 0 {
                "Подтверждение: ещё раз x закроет "@ + positions_text(v.positions@.len() as int)
                    + " рыночным ордером (лонги и шорты)."@
            } else {
                "Подтверждение: открытых позиций нет, закрывать нечего. Другая клавиша — назад."@
            },
        )
    } else if v.entries_paused {
        Some(
            "Автопокупки выключены: только что закрывали все. r — снова разрешить стратегии покупать."@,
        )
    } else if v.daily_halt {
        Some(
            "Стоп дня: прибыль дня "@ + (match v.day_pnl {
                Some(d) => money(d),
                None => "—"@,
            }) + " USDT (лимиты −"@ + decimal_text(v.daily_loss_usdt) + " USDT / −"@ + decimal_text(
                v.daily_loss_r,
            ) + "R). Новых входов нет до 00:00 UTC. r это не снимает."@,
        )
    } else if v.signals_on {
        Some("Звуки: покупка — два высоких; плюс — три вверх; минус — три вниз."@)
    } else {
        None
    }
}

fn write_keys(v: &ViewModel) -> (r: &'static str)
    ensures
        r@ == keys_text(*v),
{
    if v.flatten_armed {
        "Клавиши: x — да, закрыть   |   любая другая — отмена"
    } else if v.entries_paused {
        "Клавиши: 1/2/3/4 выбор стратегии  |  x закрыть все (дважды)  |  q выход  |  r разрешить входы"
    } else if v.daily_halt {
        "Клавиши: 1/2/3/4 выбор стратегии  |  x закрыть все (дважды)  |  q выход"
    } else {
        "Клавиши: 1/2/3/4 выбор стратегии  |  x закрыть все (дважды)  |  q выход  |  r обновить"
    }
}

/// What the footer says of the state; the outer `None` where a figure cannot be shown.
fn write_status(v: &ViewModel) -> (r: Option<Option<String>>)
    ensures
        opt_line(r) == (if status_shows(*v) {
            Some(status_text(*v))
        } else {
            None
        }),
{
    Some(if v.flatten_armed {
        if v.flatten_leftovers && v.unmanaged_symbols.len() > 0 {
            let mut t = own(
                "Подтверждение: ещё раз x закроет хвосты, которыми стратегия не управляет (",
            );
            t.append(join(v.unmanaged_symbols.as_slice(), ", ").as_str());
            t.append("). Стратегические лонги не трогает.");
            Some(t)
        } else if v.positions.len() > 0 {
            let mut t = own("Подтверждение: ещё раз x закроет ");
            t.append(ru_positions(v.positions.len()).as_str());
            t.append(" рыночным ордером (лонги и шорты).");
            Some(t)
        } else {
            Some(
                own(
                    "Подтверждение: открытых позиций нет, закрывать нечего. Другая клавиша — назад.",
                ),
            )
        }
    } else if v.entries_paused {
        Some(
            own(
                "Автопокупки выключены: только что закрывали все. r — снова разрешить стратегии покупать.",
            ),
        )
    } else if v.daily_halt {
        let mut t = own("Стоп дня: прибыль дня ");
        match v.day_pnl {
            Some(d) => t.append(fmt_money(d)?.as_str()),
            None => t.append("—"),
        }
        t.append(" USDT (лимиты −");
        t.append(v.daily_loss_usdt.text().as_str());
        t.append(" USDT / −");
        t.append(v.daily_loss_r.text().as_str());
        t.append("R). Новых входов нет до 00:00 UTC. r это не снимает.");
        Some(t)
    } else if v.signals_on {
        Some(own("Звуки: покупка — два высоких; плюс — три вверх; минус — три вниз."))
    } else {
        None
    })
}

/// The line on a strategy that can be chosen.
pub open spec fn choice_text(id: i32, chosen: i32) -> Seq<char> {
    "  ["@ + int_text(id as int) + (if id == chosen {
        "*"@
    } else {
        " "@
    }) + "] "@ + title_of(id)
}

fn write_choice(id: i32, chosen: i32) -> (r: String)
    ensures
        r@ == choice_text(id, chosen),
{
    let mut t = own("  [");
    t.append(print_i64(id as i64).as_str());
    t.append(if id == chosen { "*" } else { " " });
    t.append("] ");
    t.append(strategy_title(id));
    t
}

/// A line, where there is one.
pub open spec fn line_if(t: Option<Seq<char>>) -> Seq<Seq<char>> {
    match t {
        Some(s) => seq![s],
        None => Seq::empty(),
    }
}

fn add_if(out: &mut Vec<String>, t: Option<String>)
    ensures
        views(final(out)@) == views(old(out)@) + line_if(opt_view(t)),
{
    let ghost before = views(out@);
    let ghost tv = opt_view(t);
    if let Some(s) = t {
        add_text(out, s);
    }
    proof {
        assert(views(out@) =~= before + line_if(tv));
    }
}

/// The head of the footer.
pub open spec fn choice_lines(v: ViewModel, book: Seq<char>) -> Seq<Seq<char>> {
    seq![
        "Стратегия (выбор 1/2/3/4):"@,
        choice_text(1, v.strategy_id),
        choice_text(2, v.strategy_id),
        choice_text(3, v.strategy_id),
        choice_text(4, v.strategy_id),
        choice_text(5, v.strategy_id),
        "Текущая: "@ + int_text(v.strategy_id as int) + " — "@ + title_of(v.strategy_id),
        "Каденс стратегии 1: "@ + int_text(v.poll_seconds as int) + " с (1 или 2 минуты)"@,
        book,
    ]
}

fn write_choices(v: &ViewModel, book: String) -> (r: Vec<String>)
    ensures
        views(r@) == choice_lines(*v, book@),
{
    let ghost bv = book@;
    let mut out: Vec<String> = Vec::new();
    add_text(&mut out, own("Стратегия (выбор 1/2/3/4):"));
    add_text(&mut out, write_choice(1, v.strategy_id));
    add_text(&mut out, write_choice(2, v.strategy_id));
    add_text(&mut out, write_choice(3, v.strategy_id));
    add_text(&mut out, write_choice(4, v.strategy_id));
    add_text(&mut out, write_choice(5, v.strategy_id));
    let mut t = own("Текущая: ");
    t.append(print_i64(v.strategy_id as i64).as_str());
    t.append(" — ");
    t.append(strategy_title(v.strategy_id));
    add_text(&mut out, t);
    let mut t = own("Каденс стратегии 1: ");
    t.append(print_i64(v.poll_seconds as i64).as_str());
    t.append(" с (1 или 2 минуты)");
    add_text(&mut out, t);
    add_text(&mut out, book);
    proof {
        assert(views(out@) =~= choice_lines(*v, bv));
    }
    out
}

/// The footer.
pub open spec fn footer_lines(v: ViewModel) -> Option<Seq<Seq<char>>> {
    match book_text(v) {
        None => None,
        Some(book) => if !status_shows(v) {
            None
        } else {
            Some(
                choice_lines(v, book) + line_if(session_text(v)) + seq![keys_text(v)] + line_if(
                    status_text(v),
                ) + seq!["Логи сделок: .state/trades.jsonl"@, "Логи ошибок: .state/errors.jsonl"@] + line_if(
                    if v.mode_note@.len() > 0 {
                        Some(v.mode_note@)
                    } else {
                        None
                    },
                ) + line_if(
                    match v.last_error {
                        Some(e) => Some(ui_error(e@)),
                        None => None,
                    },
                ),
            )
        },
    }
}

fn write_footer(v: &ViewModel) -> (r: Option<Vec<String>>)
    ensures
        opt_views(r) == footer_lines(*v),
{
    let book: String = book_line(v)?;
    let mut out: Vec<String> = write_choices(v, book);
    add_if(&mut out, session_line(v));
    let ghost before = views(out@);
    add_text(&mut out, own(write_keys(v)));
    proof {
        assert(views(out@) =~= before + seq![keys_text(*v)]);
    }
    let status: Option<String> = write_status(v)?;
    add_if(&mut out, status);
    let ghost before = views(out@);
    add_text(&mut out, own("Логи сделок: .state/trades.jsonl"));
    add_text(&mut out, own("Логи ошибок: .state/errors.jsonl"));
    proof {
        assert(views(out@) =~= before + seq![
            "Логи сделок: .state/trades.jsonl"@,
            "Логи ошибок: .state/errors.jsonl"@,
        ]);
    }
    if v.mode_note.as_str().unicode_len() > 0 {
        add_if(&mut out, Some(own(v.mode_note.as_str())));
    } else {
        add_if(&mut out, None);
    }
    match &v.last_error {
        Some(e) => add_if(&mut out, Some(format_ui_error(e.as_str()))),
        None => add_if(&mut out, None),
    }
    Some(out)
}

/// The whole frame; `spark` is the chart of the closes.
pub open spec fn frame_text(v: ViewModel, spark: Seq<char>) -> Option<Seq<char>> {
    match (account_lines(v), book_lines(v), market_lines(v, spark), footer_lines(v)) {
        (Some(account), Some(book), Some(market), Some(footer)) => Some(
            joined(
                seq![header_text(v), ""@] + account + seq![""@] + book + seq![""@] + market + seq![""@]
                    + footer,
                "\n"@,
            ) + "\n"@,
        ),
        _ => None,
    }
}

fn add_gap(out: &mut Vec<String>)
    ensures
        views(final(out)@) == views(old(out)@) + seq![""@],
{
    let ghost before = views(out@);
    add_text(out, own(""));
    proof {
        assert(views(out@) =~= before + seq![""@]);
    }
}

/// The text frame of a view. `None` where a figure leaves the range of decimals
/// or is too large to be shown.
pub fn render_frame(view: &ViewModel, spark: &str) -> (r: Option<String>)
    ensures
        opt_view(r) == frame_text(*view, spark@),
{
    let account: Vec<String> = write_account(view)?;
    let book: Vec<String> = write_book(view)?;
    let market: Vec<String> = write_market(view, spark)?;
    let footer: Vec<String> = write_footer(view)?;
    let mut out: Vec<String> = Vec::new();
    add_text(&mut out, write_header(view));
    add_text(&mut out, own(""));
    proof {
        assert(views(out@) =~= seq![header_text(*view), ""@]);
    }
    extend_texts(&mut out, account.as_slice());
    add_gap(&mut out);
    extend_texts(&mut out, book.as_slice());
    add_gap(&mut out);
    extend_texts(&mut out, market.as_slice());
    add_gap(&mut out);
    extend_texts(&mut out, footer.as_slice());
    let mut t = join(out.as_slice(), "\n");
    t.append("\n");
    Some(t)
}

} // verus!

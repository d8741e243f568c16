use tui_bot::config::load::{load_config, Config};
use tui_bot::dec::Dec;
use tui_bot::exchange::client::{
    http_error, parse_filters, protective_orders, transport_fault, BinanceFutures, Method, Transport,
};
use tui_bot::exchange::{
    account_with_position_upnl, parse_account, parse_balances, parse_positions,
    prepare_algo_params, risk_position_notional, sell_protectives_are_sized, size_market_order,
    size_risk_market_order, sized_long_protectives, start_account, ExchangeError, SymbolFilters,
};
use tui_bot::flatten::{close_all_positions, flatten_open_book, flatten_targets, FlattenResult};
use tui_bot::json::Json;
use tui_bot::models::{Account, Position, Side};
use tui_bot::ranking::parse_tickers;
use tui_bot::signing::Params;
use tui_bot::symbols::SymMap;
use tui_bot::wire::{FlattenClient, LiveClient, SnapshotClient, Wire};

fn d(s: &str) -> Dec {
    Dec::parse(s).unwrap()
}

fn text(s: &str) -> Json {
    Json::Text(s.into())
}

fn obj(rows: &[(&str, Json)]) -> Json {
    Json::Object(rows.iter().map(|(k, v)| (k.to_string(), copy(v))).collect())
}

fn copy(v: &Json) -> Json {
    match v {
        Json::Null => Json::Null,
        Json::Bool(b) => Json::Bool(*b),
        Json::Text(s) => Json::Text(s.clone()),
        Json::List(l) => Json::List(l.iter().map(copy).collect()),
        Json::Object(o) => Json::Object(o.iter().map(|(k, v)| (k.clone(), copy(v))).collect()),
        Json::Number(_) => panic!("numbers are not copied here"),
    }
}

fn filters() -> SymbolFilters {
    SymbolFilters {
        tick_size: d("0.1"),
        step_size: d("0.001"),
        min_qty: d("0.001"),
        min_notional: d("5"),
    }
}

fn position(symbol: &str, amt: &str) -> Json {
    obj(&[
        ("symbol", text(symbol)),
        ("positionAmt", text(amt)),
        ("entryPrice", text("100")),
        ("unRealizedProfit", text("1.5")),
        ("leverage", text("10")),
    ])
}

#[test]
fn market_orders_are_sized() {
    let f = filters();
    assert_eq!(size_market_order(d("20"), d("3"), &f).unwrap().ok(), Some(d("6.666")));
    assert_eq!(size_market_order(d("1"), d("3"), &f).unwrap().ok(), Some(d("1.667")));
    assert_eq!(
        size_market_order(d("20"), d("0"), &f).unwrap().err().unwrap().0,
        "cannot size order at non-positive price"
    );
    assert_eq!(
        size_market_order(d("0"), d("3"), &f).unwrap().err().unwrap().0,
        "cannot size order at non-positive notional"
    );
    let odd = SymbolFilters { step_size: d("0"), ..f };
    assert_eq!(
        size_market_order(d("20"), d("3"), &odd).unwrap().err().unwrap().0,
        "step must be positive"
    );
}

#[test]
fn risk_orders_stay_within_the_budget() {
    let f = filters();
    let q = size_risk_market_order(Some(d("1000")), d("0.01"), d("100"), d("98"), &f).unwrap();
    assert_eq!(q.ok().unwrap(), Some(d("5")));
    assert_eq!(risk_position_notional(d("1000"), d("0.01"), d("100"), d("98")), Some(Some(d("500"))));
    let small = size_risk_market_order(Some(d("1")), d("0.01"), d("100"), d("98"), &f).unwrap();
    assert_eq!(small.ok().unwrap(), None);
}

#[test]
fn algo_orders_are_prepared() {
    let mut p = Params::new();
    p.insert("stopPrice", "5");
    prepare_algo_params(&mut p);
    assert_eq!(p.get("algoType"), Some("CONDITIONAL"));
    assert_eq!(p.get("triggerPrice"), Some("5"));
    assert_eq!(p.get("stopPrice"), None);
    let mut q = Params::new();
    q.insert("stopPrice", "5");
    q.insert("triggerPrice", "7");
    q.insert("algoType", "X");
    prepare_algo_params(&mut q);
    assert_eq!(q.get("algoType"), Some("X"));
    assert_eq!(q.get("triggerPrice"), Some("7"));
    assert_eq!(q.get("stopPrice"), None);
}

#[test]
fn protection_is_sized_to_the_long() {
    let v = sized_long_protectives(d("2"), d("98"), d("110")).ok().unwrap();
    assert_eq!(v.len(), 2);
    assert_eq!((v[0].side, v[0].order_type, v[0].trigger_price), ("SELL", "STOP_MARKET", d("98")));
    assert_eq!((v[1].order_type, v[1].quantity), ("TAKE_PROFIT_MARKET", d("2")));
    assert!(v.iter().all(|o| o.reduce_only && !o.close_position));
    assert_eq!(
        sized_long_protectives(d("0"), d("98"), d("110")).err().unwrap().0,
        "protective qty must be positive"
    );
    assert_eq!(
        sized_long_protectives(d("1"), d("110"), d("98")).err().unwrap().0,
        "protective prices invalid"
    );
}

#[test]
fn sized_protection_is_recognised() {
    let stop = obj(&[("side", text("SELL")), ("type", text("STOP_MARKET")), ("quantity", text("1"))]);
    let tp = obj(&[
        ("side", text("sell")),
        ("orderType", text("TAKE_PROFIT_MARKET")),
        ("quantity", text("1")),
    ]);
    assert!(sell_protectives_are_sized(&[copy(&stop), copy(&tp)]));
    assert!(!sell_protectives_are_sized(&[copy(&stop)]));
    assert!(!sell_protectives_are_sized(&[copy(&stop), copy(&stop)]));
    let naked = obj(&[
        ("side", text("SELL")),
        ("type", text("TAKE_PROFIT")),
        ("quantity", text("1")),
        ("closePosition", text("TRUE")),
    ]);
    assert!(!sell_protectives_are_sized(&[copy(&stop), copy(&naked)]));
    let empty = obj(&[("side", text("SELL")), ("type", text("TAKE_PROFIT")), ("quantity", text("0"))]);
    assert!(!sell_protectives_are_sized(&[stop, empty]));
}

#[test]
fn books_are_parsed() {
    let raw = Json::List(vec![
        position("btcusdt", "0.5"),
        position("ETHUSDT", "-2"),
        position("SOLUSDT", "0"),
        position("PEPEUSDT", "3"),
        Json::Null,
    ]);
    let v = parse_positions(&raw).ok().unwrap();
    assert_eq!(v.len(), 2);
    assert_eq!((v[0].symbol.as_str(), v[0].side, v[0].qty), ("BTCUSDT", Side::Long, d("0.5")));
    assert_eq!((v[1].side, v[1].qty, v[1].leverage), (Side::Short, d("2"), 10));
    assert_eq!(v[1].entry_price, d("100"));
    assert_eq!(parse_positions(&Json::Null).err().unwrap().0, "position payload is not a list");
}

#[test]
fn accounts_are_parsed() {
    let raw = obj(&[
        ("totalWalletBalance", text("1000")),
        ("totalUnrealizedProfit", text("-5")),
        ("availableBalance", text("900")),
    ]);
    let a = parse_account(&raw, d("990")).ok().unwrap();
    assert_eq!(a.equity(), Some(d("995")));
    assert_eq!(a.starting_equity, d("990"));
    assert_eq!(
        parse_account(&obj(&[]), d("0")).err().unwrap().0,
        "account fields invalid: missing numeric value"
    );
    assert_eq!(parse_account(&Json::Null, d("0")).err().unwrap().0, "account payload is not an object");
    let rows = Json::List(vec![obj(&[("asset", text("usdt")), ("balance", text("7"))])]);
    let b = parse_balances(&rows, d("1")).ok().unwrap();
    assert_eq!((b.wallet_balance, b.available_balance, b.unrealized_pnl), (d("7"), d("7"), d("0")));
    assert_eq!(parse_balances(&Json::List(vec![]), d("1")).err().unwrap().0, "USDT balance missing");
    assert_eq!(start_account(a, None).unwrap().starting_equity, d("995"));
    assert_eq!(start_account(a, Some(d("3"))).unwrap().starting_equity, d("990"));
}

#[test]
fn a_silent_account_takes_the_books_profit() {
    let a = Account {
        wallet_balance: d("10"),
        unrealized_pnl: d("0"),
        available_balance: d("10"),
        starting_equity: d("10"),
    };
    let mut p = Position::long("BTCUSDT", d("1"), d("1"), None, None);
    p.unrealized_pnl = d("2.5");
    let b = account_with_position_upnl(a, &[p.clone()]).unwrap();
    assert_eq!(b.unrealized_pnl, d("2.5"));
    let told = Account { unrealized_pnl: d("-1"), ..a };
    assert_eq!(account_with_position_upnl(told, &[p]).unwrap().unrealized_pnl, d("-1"));
}

#[test]
fn tickers_are_parsed() {
    let row = |s: &str, p: &str| {
        obj(&[
            ("symbol", text(s)),
            ("lastPrice", text(p)),
            ("priceChangePercent", text("1.5")),
            ("quoteVolume", text("1000")),
        ])
    };
    let raw = Json::List(vec![row("BTCUSDT", "10"), row("SHIBUSDT", "1"), row("ETHUSDT", "0")]);
    let v = parse_tickers(&raw);
    assert_eq!(v.len(), 1);
    assert_eq!((v[0].symbol.as_str(), v[0].last_price), ("BTCUSDT", d("10")));
    assert!(parse_tickers(&Json::Null).is_empty());
}

fn exchange_info() -> Json {
    obj(&[(
        "symbols",
        Json::List(vec![obj(&[
            ("symbol", text("BTCUSDT")),
            (
                "filters",
                Json::List(vec![
                    obj(&[("filterType", text("PRICE_FILTER")), ("tickSize", text("0.1"))]),
                    obj(&[
                        ("filterType", text("LOT_SIZE")),
                        ("stepSize", text("0.001")),
                        ("minQty", text("0.001")),
                    ]),
                    obj(&[("filterType", text("MIN_NOTIONAL")), ("notional", text("5"))]),
                ]),
            ),
        ])]),
    )])
}

#[test]
fn filters_are_found() {
    let f = parse_filters(&exchange_info(), "BTCUSDT").ok().unwrap();
    assert_eq!((f.tick_size, f.step_size), (d("0.1"), d("0.001")));
    assert_eq!((f.min_qty, f.min_notional), (d("0.001"), d("5")));
    assert!(parse_filters(&exchange_info(), "ETHUSDT").is_err());
}

#[test]
fn protection_brackets_the_position() {
    let p = protective_orders(&filters(), d("110.07"), d("98.04"), Some(d("1.2345"))).ok().unwrap();
    assert!(p.stop_loss < p.take_profit);
    assert_eq!(p.qty, d("1.234"));
    assert!(protective_orders(&filters(), d("110"), d("98"), None).is_err());
}

struct Script {
    replies: Vec<Result<Json, ExchangeError>>,
    seen: Vec<(String, String, String)>,
}

impl Script {
    fn new(mut replies: Vec<Result<Json, ExchangeError>>) -> Self {
        replies.reverse();
        Script { replies, seen: Vec::new() }
    }

    fn answer(&mut self, method: &str, url: &str, key: &str) -> Result<Json, ExchangeError> {
        self.seen.push((method.into(), url.into(), key.into()));
        self.replies.pop().unwrap_or_else(|| Err(ExchangeError("no more replies".into())))
    }
}

impl Transport for &mut Script {
    fn local_ms(&mut self) -> i64 {
        1_000
    }

    fn get(&mut self, url: &str, _path: &str) -> Result<Json, ExchangeError> {
        self.answer("GET", url, "")
    }

    fn send(&mut self, method: Method, url: &str, _path: &str, key: &str) -> Result<Json, ExchangeError> {
        let name = match method {
            Method::Get => "GET",
            Method::Post => "POST",
            Method::Delete => "DELETE",
        };
        self.answer(name, url, key)
    }
}

fn config(live: bool) -> Config {
    let mut env: SymMap<String> = SymMap::new();
    env.insert("BINANCE_API_KEY", "abcdefghijklmnop".into());
    env.insert("BINANCE_API_SECRET", "ponmlkjihgfedcba".into());
    load_config(live, &env, Ok(10_000_000_000)).ok().unwrap()
}

fn server_time(ms: i64) -> Json {
    Json::Object(vec![(
        "serverTime".into(),
        Json::Number(tui_bot::json::JsonNumber {
            text: ms.to_string(),
            plain: Some(ms.to_string()),
            exact: Some(ms),
            natural: None,
            cut: Some(ms),
        }),
    )])
}

#[test]
fn signed_requests_carry_the_servers_time() {
    let mut script = Script::new(vec![Ok(server_time(5_000)), Ok(Json::List(vec![]))]);
    let mut client = BinanceFutures::from_config(&config(true), &mut script);
    assert!(client.position_risk().is_ok());
    drop(client);
    assert_eq!(script.seen.len(), 2);
    assert!(script.seen[0].1.ends_with("/fapi/v1/time"));
    let (method, url, key) = &script.seen[1];
    assert_eq!(method, "GET");
    assert!(url.contains("/fapi/v2/positionRisk?"), "{url}");
    assert!(url.contains("timestamp=5000"), "{url}");
    assert!(url.contains("&signature="), "{url}");
    assert!(!url.contains("ponmlkjihgfedcba"));
    assert_eq!(key, "abcdefghijklmnop");
}

#[test]
fn a_clock_fault_is_tried_once_more() {
    let mut script = Script::new(vec![
        Ok(server_time(5_000)),
        Err(ExchangeError("HTTP 400 /x: {\"code\":-1021}".into())),
        Ok(server_time(9_000)),
        Ok(Json::List(vec![])),
    ]);
    let mut client = BinanceFutures::from_config(&config(true), &mut script);
    assert!(client.balances().is_ok());
    drop(client);
    assert_eq!(script.seen.len(), 4);
    assert!(script.seen[3].1.contains("timestamp=9000"));
}

#[test]
fn nothing_is_signed_without_a_secret() {
    let cfg = load_config(false, &SymMap::new(), Ok(10_000_000_000)).ok().unwrap();
    let mut script = Script::new(vec![]);
    let mut client = BinanceFutures::from_config(&cfg, &mut script);
    assert!(client.account().is_err());
    assert!(client.market_buy("BTCUSDT", d("1")).is_err());
    drop(client);
    assert!(script.seen.iter().all(|(_, url, _)| !url.contains("signature")));
}

#[test]
fn orders_are_sent() {
    let mut script = Script::new(vec![Ok(server_time(5_000)), Ok(Json::Null), Ok(Json::Null)]);
    let mut client = BinanceFutures::from_config(&config(true), &mut script);
    assert!(client.market_buy("BTCUSDT", d("0.50")).is_ok());
    assert!(client.market_close("BTCUSDT", "LONG", d("0.5")).is_ok());
    drop(client);
    let buy = &script.seen[1];
    assert_eq!(buy.0, "POST");
    assert!(buy.1.contains("/fapi/v1/order?"), "{}", buy.1);
    assert!(buy.1.contains("side=BUY"), "{}", buy.1);
    assert!(buy.1.contains("symbol=BTCUSDT"), "{}", buy.1);
    assert!(script.seen[2].1.contains("side=SELL"));
    assert!(script.seen[2].1.contains("reduceOnly=true"));
}

#[test]
fn public_requests_need_no_key() {
    let mut script = Script::new(vec![Ok(Json::List(vec![]))]);
    let mut client = BinanceFutures::from_config(&config(false), &mut script);
    assert_eq!(client.klines("BTCUSDT", "5m", 12).ok().unwrap().len(), 0);
    drop(client);
    assert_eq!(
        script.seen[0].1,
        "https://testnet.binancefuture.com/fapi/v1/klines?symbol=BTCUSDT&interval=5m&limit=12"
    );
    assert_eq!(http_error(404, "/x", "gone").0, "HTTP 404 /x: gone");
    assert_eq!(transport_fault("/x", "broken").0, "HTTP /x: broken");
}

struct Book {
    reads: Vec<Result<Json, ExchangeError>>,
    fail: Option<&'static str>,
    calls: Vec<String>,
}

impl Book {
    fn new(mut reads: Vec<Result<Json, ExchangeError>>) -> Self {
        reads.reverse();
        Book { reads, fail: None, calls: Vec::new() }
    }
}

impl FlattenClient for Book {
    fn cancel_protectives(&mut self, symbol: &str) -> Result<(), ExchangeError> {
        self.calls.push(format!("cancel {symbol}"));
        Ok(())
    }

    fn market_close(&mut self, symbol: &str, side: &str, qty: Dec) -> Result<(), ExchangeError> {
        self.calls.push(format!("close {symbol} {side} {}", qty.text()));
        match self.fail {
            Some(s) if s == symbol => Err(ExchangeError("no".into())),
            _ => Ok(()),
        }
    }

    fn position_risk(&mut self) -> Result<Json, ExchangeError> {
        self.calls.push("read".into());
        self.reads.pop().unwrap_or(Ok(Json::List(vec![])))
    }
}

fn long(symbol: &str, qty: &str) -> Position {
    Position::long(symbol, d(qty), d("100"), None, None)
}

#[test]
fn every_open_row_is_a_target_once() {
    let rows = [long("btcusdt", "1"), long("BTCUSDT", "2"), long("ETHUSDT", "0"), long("SOLUSDT", "3")];
    let v = flatten_targets(&rows);
    assert_eq!(v.len(), 2);
    assert_eq!((v[0].symbol.as_str(), v[0].qty), ("BTCUSDT", d("2")));
    assert_eq!(v[1].symbol, "SOLUSDT");
}

#[test]
fn a_flatten_accounts_for_every_target() {
    let mut book = Book::new(vec![]);
    book.fail = Some("SOLUSDT");
    let mut wire = Wire::new(book);
    let r = close_all_positions(true, true, &mut wire, &[long("BTCUSDT", "1"), long("SOLUSDT", "3")]);
    assert_eq!(r.closed, vec!["LONG BTCUSDT"]);
    assert_eq!(r.errors, vec!["SOLUSDT: no"]);
    assert_eq!(r.error(), Some("SOLUSDT: no".to_string()));
    assert_eq!(r.symbols(), vec!["BTCUSDT"]);
    assert_eq!(
        wire.client().calls,
        vec![
            "cancel BTCUSDT",
            "close BTCUSDT LONG 1",
            "cancel BTCUSDT",
            "cancel SOLUSDT",
            "close SOLUSDT LONG 3"
        ]
    );
}

#[test]
fn a_flatten_is_refused_on_paper() {
    let mut wire = Wire::new(Book::new(vec![]));
    let r = close_all_positions(false, true, &mut wire, &[long("BTCUSDT", "1")]);
    assert_eq!(r.error(), Some("flatten refused: not live".to_string()));
    let r = close_all_positions(true, false, &mut wire, &[long("BTCUSDT", "1")]);
    assert_eq!(r.error(), Some("flatten refused: no credentials".to_string()));
    assert!(wire.client().calls.is_empty());
    assert_eq!(FlattenResult::default().error(), None);
}

#[test]
fn the_open_book_is_flattened_and_looked_at_again() {
    let open = || Ok(Json::List(vec![position("BTCUSDT", "1")]));
    let mut wire = Wire::new(Book::new(vec![open(), open()]));
    let r = flatten_open_book(&mut wire);
    assert_eq!(r.closed, vec!["LONG BTCUSDT"]);
    assert_eq!(r.errors, vec!["ещё открыты: LONG BTCUSDT"]);
    let mut wire = Wire::new(Book::new(vec![Err(ExchangeError("net".into()))]));
    let r = flatten_open_book(&mut wire);
    assert_eq!(r.errors, vec!["не удалось прочитать позиции: net"]);
    let mut wire = Wire::new(Book::new(vec![Ok(Json::List(vec![]))]));
    assert!(flatten_open_book(&mut wire).closed.is_empty());
}

struct Market {
    down: bool,
    asked: Vec<String>,
}

impl SnapshotClient for Market {
    fn ticker_24h(&mut self) -> Result<Vec<tui_bot::models::Ticker>, ExchangeError> {
        self.asked.push("tickers".into());
        if self.down {
            return Err(ExchangeError("HTTP 503 /t: down".into()));
        }
        Ok(vec![tui_bot::models::Ticker::new("BTCUSDT", d("100"), d("2"), d("1000000"))])
    }

    fn klines(&mut self, s: &str, i: &str, _n: usize) -> Result<Vec<tui_bot::models::Bar>, ExchangeError> {
        self.asked.push(format!("klines {s} {i}"));
        Ok(Vec::new())
    }

    fn account(&mut self) -> Result<Json, ExchangeError> {
        self.asked.push("account".into());
        Ok(obj(&[
            ("totalWalletBalance", text("1000")),
            ("totalUnrealizedProfit", text("0")),
            ("availableBalance", text("900")),
        ]))
    }

    fn position_risk(&mut self) -> Result<Json, ExchangeError> {
        self.asked.push("positions".into());
        Ok(Json::List(vec![position("BTCUSDT", "1")]))
    }
}

fn pull(cfg: &Config, market: Market, offline: bool) -> (tui_bot::models::MarketSnapshot, Vec<String>) {
    let mut feed = tui_bot::wire::Feed::new(market);
    let mut state = tui_bot::models::EngineState::new(1);
    let mut pin = tui_bot::profit::EquityPin::from_config(None, None);
    let mut tally = tui_bot::continuation::SkipTally::new();
    let (snap, _) = tui_bot::snapshot::pull_snapshot(
        cfg, &mut feed, &mut state, &mut pin, offline, None, &[], 1_704_078_000_000, &mut tally,
    )
    .unwrap();
    (snap, feed.client().asked.clone())
}

#[test]
fn a_pull_reads_the_market_and_the_book() {
    let (snap, asked) = pull(&config(true), Market { down: false, asked: vec![] }, false);
    assert!(snap.fetched);
    assert!(snap.live_book);
    assert!(snap.account_ok);
    assert_eq!(snap.account.starting_equity, d("1000"));
    assert_eq!(snap.open_positions.len(), 1);
    assert_eq!(snap.last_error, None);
    assert!(asked.contains(&"positions".to_string()));
}

#[test]
fn an_outage_is_told() {
    let (snap, _) = pull(&config(true), Market { down: true, asked: vec![] }, false);
    assert!(!snap.fetched);
    assert!(snap.last_error.is_some());
}

#[test]
fn offline_asks_nothing() {
    let (snap, asked) = pull(&config(true), Market { down: false, asked: vec![] }, true);
    assert!(asked.is_empty());
    assert!(snap.tickers.is_empty());
}

#[test]
fn without_keys_only_the_market_is_asked() {
    let cfg = load_config(false, &SymMap::new(), Ok(10_000_000_000)).ok().unwrap();
    let (snap, asked) = pull(&cfg, Market { down: false, asked: vec![] }, false);
    assert!(!snap.live_book);
    assert!(asked.iter().all(|a| a == "tickers" || a.starts_with("klines")));
}

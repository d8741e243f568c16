use tui_bot::config::load::{
    dotenv_settings, fapi_base_allowed, fapi_host, is_identifier, load_config, strip_quotes,
    Credentials,
};
use tui_bot::config::TradeInterval;
use tui_bot::dec::Dec;
use tui_bot::errorlog::{extract_code, format_ui_error, guess_source, set_active, ErrorLog};
use tui_bot::errors::{
    classify, describe_exchange_error, extract_int_code, is_retry_error, parse_binance_error,
    redact_secrets, retry_backoff_ms, ErrorAction,
};
use tui_bot::journal::TradeEvent;
use tui_bot::json::{Json, JsonNumber};
use tui_bot::keys::{apply_flatten_key, handle_key, KeyAction};
use tui_bot::pidlock::{lock_holder, lock_refusal};
use tui_bot::sessions::{
    format_windows, in_entry_window, make_utc_ts, next_window_start, parse_entry_windows,
    pause_until_after_loss, read_instant, session_status, utc_clock, utc_date, utc_hour,
    window_end_ts, WindowError,
};
use tui_bot::signing::{
    canonical_query, form_encode, sign_query, signed_query_string, Params, SignError,
};
use tui_bot::symbols::{SymMap, SymSet};
use tui_bot::telegram::{
    format_message, reply_fault, should_notify, status_fault, Telegram, TelegramDest,
};

fn d(s: &str) -> Dec {
    Dec::parse(s).unwrap()
}

fn env(rows: &[(&str, &str)]) -> SymMap<String> {
    let mut m = SymMap::new();
    for (k, v) in rows {
        m.insert(k, v.to_string());
    }
    m
}

const TIMEOUT: i64 = 10_000_000_000;

#[test]
fn maps_keep_the_last_value() {
    let mut m: SymMap<i64> = SymMap::new();
    m.insert("A", 1);
    m.insert("B", 2);
    m.insert("A", 3);
    assert_eq!(m.get("A"), Some(&3));
    assert_eq!(m.len(), 2);
    m.remove("A");
    assert!(!m.contains_key("A"));
    let mut s = SymSet::new();
    s.insert("btcusdt");
    s.insert("btcusdt");
    assert!(s.contains("btcusdt"));
    assert!(!s.contains("BTCUSDT"));
    assert!(s.contains_ignoring_case("BTCUSDT"));
    assert_eq!(s.items().len(), 1);
    s.remove("btcusdt");
    assert!(!s.contains("btcusdt"));
}

#[test]
fn keys_act() {
    assert_eq!(handle_key('q', false), KeyAction::Quit);
    assert_eq!(handle_key('3', false), KeyAction::Strategy(3));
    assert_eq!(handle_key('5', false), KeyAction::Ignore);
    assert_eq!(handle_key('R', true), KeyAction::Refresh);
    assert_eq!(handle_key('x', false), KeyAction::FlattenArm);
    assert_eq!(handle_key('X', true), KeyAction::FlattenConfirm);
    assert_eq!(handle_key('z', true), KeyAction::FlattenCancel);
    assert_eq!(handle_key('z', false), KeyAction::Ignore);
    assert_eq!(apply_flatten_key(false, 'x'), (true, false));
    assert_eq!(apply_flatten_key(true, 'x'), (false, true));
    assert_eq!(apply_flatten_key(true, '2'), (false, false));
}

#[test]
fn a_live_lock_bars_a_second_session() {
    assert_eq!(lock_holder(" 4242\n"), 4242);
    assert_eq!(lock_holder("nobody"), 0);
    assert_eq!(lock_holder("99999999999"), 0);
    assert_eq!(
        lock_refusal(4242, true).unwrap(),
        "уже запущен другой --live (pid 4242). Сначала q в том TUI."
    );
    assert_eq!(lock_refusal(4242, false), None);
    assert_eq!(lock_refusal(0, true), None);
}

#[test]
fn queries_are_encoded() {
    assert_eq!(form_encode("a b&c=~é"), "a+b%26c%3D~%C3%A9");
    let mut p = Params::new();
    p.insert("symbol", "BTCUSDT");
    p.insert("side", "BUY");
    p.insert("side", "SELL");
    assert_eq!(p.get("side"), Some("SELL"));
    assert_eq!(canonical_query(&p), "side=SELL&symbol=BTCUSDT");
    p.remove("side");
    assert_eq!(p.get("side"), None);
}

#[test]
fn queries_are_signed() {
    let secret = "NhqPtmdSJYdKjVHjA7PZj4Mge3R5YNiP";
    assert_eq!(
        sign_query(secret, "symbol=LTCBTC&side=BUY").ok().unwrap(),
        "913bcbbeba24cff947bc118e7c6b6ee01ef6f4cd0ba3f058405ea8afa4ad0ecc"
    );
    let mut p = Params::new();
    p.insert("symbol", "BTCUSDT");
    p.insert("side", "BUY");
    let q = signed_query_string(&p, secret, 1499827319559, 5000).ok().unwrap();
    assert_eq!(
        q,
        "recvWindow=5000&side=BUY&symbol=BTCUSDT&timestamp=1499827319559&signature=e91b75c72aa813da8b823dd86ad4ba9dc3609b20c682fbd8900bc4b4ccf88cde"
    );
    assert!(!q.contains(secret));
    assert_eq!(sign_query("", "a=b"), Err(SignError::EmptySecret));
    assert_eq!(SignError::EmptySecret.message(), "empty signing secret");
    assert_eq!(SignError::InvalidKey.message(), "HMAC key rejected");
}

#[test]
fn exchange_errors_are_parsed() {
    assert_eq!(
        parse_binance_error("HTTP 400 /x: {\"code\":-2019,\"msg\":\"Margin is insufficient.\"}"),
        Some((-2019, "Margin is insufficient.".to_string()))
    );
    assert_eq!(parse_binance_error("{\"code\":-1,\"msg\":\"\"}"), None);
    assert_eq!(parse_binance_error("plain"), None);
    assert_eq!(extract_int_code("oops −4411 x"), Some(-4411));
    assert_eq!(extract_int_code("a-12 b-123456"), None);
}

#[test]
fn exchange_errors_ask_for_an_action() {
    let c = classify("HTTP 400 /fapi: {\"code\":-2019,\"msg\":\"Margin is insufficient.\"}");
    assert_eq!(c.action, ErrorAction::Cooldown);
    assert_eq!(c.message, "margin");
    assert_eq!(c.exchange_msg, "Margin is insufficient.");
    assert_eq!(classify("boom HTTP 429").action, ErrorAction::Retry);
    assert_eq!(classify("-4130").action, ErrorAction::Ignore);
    assert_eq!(classify("-2015").action, ErrorAction::Operator);
    assert_eq!(classify("tradfi-perps").action, ErrorAction::Skip);
    assert_eq!(classify("что-то").action, ErrorAction::Keep);
    assert_eq!(classify("что-то").message, "что-то");
    assert_eq!(ErrorAction::Skip.as_str(), "skip_symbol");
    assert!(is_retry_error(Some("request timed out")));
    assert!(!is_retry_error(Some("")));
    assert!(!is_retry_error(None));
    assert_eq!(
        classify("HTTP 400 x: {\"code\":-9999,\"msg\":\"Odd\"}").message,
        "Биржа отказала (-9999): Odd"
    );
}

#[test]
fn backoff_grows_to_its_cap() {
    assert_eq!(retry_backoff_ms(0), 20_000);
    assert_eq!(retry_backoff_ms(1), 20_000);
    assert_eq!(retry_backoff_ms(2), 40_000);
    assert_eq!(retry_backoff_ms(3), 60_000);
    assert_eq!(retry_backoff_ms(200), 60_000);
}

#[test]
fn secrets_are_struck_out() {
    assert_eq!(
        redact_secrets("GET /x?a=1&signature=abc123&API_KEY=zz 'secret=q'"),
        "GET /x?a=1&signature=***&API_KEY=*** 'secret=***'"
    );
    assert!(!describe_exchange_error("fail signature=deadbeef").contains("deadbeef"));
    assert_eq!(format_ui_error("-1007"), "Ошибка: TestNet не ответил вовремя (−1007).");
}

#[test]
fn error_codes_and_sources_are_guessed() {
    assert_eq!(extract_code("x -2019"), "-2019");
    assert_eq!(extract_code("http 503 y"), "HTTP 503");
    assert_eq!(extract_code("none"), "");
    assert_eq!(guess_source("flatten failed", "poll"), "flatten");
    assert_eq!(guess_source("POST /order", "poll"), "live");
    assert_eq!(guess_source("other", "poll"), "poll");
}

#[test]
fn errors_are_logged_once_and_closed() {
    let mut log = ErrorLog::new();
    let first = log.observe(Some("A"), "raw signature=k", "", 1, true, "BTCUSDT", "t0", 1_000);
    assert_eq!(first.len(), 1);
    assert_eq!(first[0].event, "shown");
    assert_eq!(first[0].raw, "raw signature=***");
    assert_eq!(first[0].source, "poll");
    for _ in 0..11 {
        assert!(log.observe(Some("A"), "raw", "", 1, true, "BTCUSDT", "t1", 2_000).is_empty());
    }
    let still = log.observe(Some("A"), "raw", "", 1, true, "BTCUSDT", "t2", 13_500);
    assert_eq!(still[0].event, "still");
    assert_eq!(still[0].count, 13);
    assert_eq!(still[0].duration_sec, 12);
    let next = log.observe(Some("B"), "raw", "x", 1, true, "BTCUSDT", "t3", 14_000);
    assert_eq!(next.iter().map(|e| e.event.as_str()).collect::<Vec<_>>(), vec!["cleared", "shown"]);
    let done = log.observe(None, "", "", 1, true, "BTCUSDT", "t4", 15_000);
    assert_eq!(done[0].event, "cleared");
    assert!(log.observe(None, "", "", 1, true, "BTCUSDT", "t5", 15_000).is_empty());
    let mut slot = Some(ErrorLog::new());
    assert!(tui_bot::errorlog::note_frame(&mut slot, Some("-1007"), 2, false, "", "", "t", 0).len() == 1);
    assert_eq!(set_active(&mut slot, None, "t", 10)[0].event, "cleared");
    assert!(slot.is_none());
}

#[test]
fn windows_are_parsed_or_refused() {
    assert_eq!(parse_entry_windows("0-2, 7-10").ok().unwrap(), vec![(0, 2), (7, 10)]);
    assert!(matches!(parse_entry_windows("5"), Err(WindowError::Shape(_))));
    assert!(matches!(parse_entry_windows("a-b"), Err(WindowError::NotIntegers(_))));
    assert!(matches!(parse_entry_windows("24-25"), Err(WindowError::StartRange)));
    assert!(matches!(parse_entry_windows("1-25"), Err(WindowError::EndRange)));
    assert!(matches!(parse_entry_windows("3-3"), Err(WindowError::Empty)));
    assert_eq!(
        parse_entry_windows("3-3").err().unwrap().message(),
        "entry window start and end must differ"
    );
    assert_eq!(parse_entry_windows(" , ").ok().unwrap(), vec![]);
    assert_eq!(parse_entry_windows("always").ok().unwrap(), vec![]);
    assert_eq!(format_windows(&[(0, 2), (13, 16)]), "00–02, 13–16 UTC");
}

#[test]
fn instants_have_clocks() {
    let ts = make_utc_ts(2024, 1, 1, 3, 5, 7).unwrap();
    assert_eq!(ts, 1_704_078_307_000);
    assert_eq!(make_utc_ts(2024, 2, 30, 0, 0, 0), None);
    assert_eq!(utc_hour(ts), 3);
    assert_eq!(utc_clock(ts), "03:05");
    assert_eq!(utc_date(ts), Some("2024-01-01".to_string()));
    assert_eq!(read_instant("2024-01-01T03:05:07Z"), Some(ts));
    assert_eq!(read_instant("soon"), None);
}

#[test]
fn entry_windows_open_and_close() {
    let windows = [(0u8, 2u8), (22, 24)];
    let at = |h: u32| make_utc_ts(2024, 1, 1, h, 0, 0).unwrap();
    assert!(in_entry_window(at(1), Some(&windows), false));
    assert!(!in_entry_window(at(2), Some(&windows), false));
    assert!(in_entry_window(at(5), Some(&windows), true));
    assert_eq!(window_end_ts(at(1), &windows), Some(at(2)));
    assert_eq!(window_end_ts(at(5), &windows), None);
    assert_eq!(next_window_start(at(5), &windows), Some(at(22)));
    assert_eq!(pause_until_after_loss(at(1), &windows, 1_000), at(2));
    assert_eq!(pause_until_after_loss(at(5), &windows, 1_000), at(5) + 1_000);
    let open = session_status(at(1), Some(&windows), false);
    assert!(open.open);
    let shut = session_status(at(5), Some(&windows), false);
    assert!(!shut.open);
    assert_eq!(shut.next_open_clock, Some("22:00".to_string()));
}

#[test]
fn intervals_are_read() {
    assert_eq!(TradeInterval::parse("15M").unwrap().as_binance(), "15m");
    assert_eq!(TradeInterval::parse("1h").unwrap().duration_ms(), 3_600_000);
    assert!(TradeInterval::parse("2h").is_err());
}

#[test]
fn dotenv_lines_become_settings() {
    let m = dotenv_settings("# c\nexport A='x y'\nB = \"2\"\nbad-key=1\nnoeq\nC=3\nC=4\n");
    assert_eq!(m.get("A").unwrap(), "x y");
    assert_eq!(m.get("B").unwrap(), "2");
    assert_eq!(m.get("C").unwrap(), "4");
    assert_eq!(m.len(), 3);
    assert_eq!(strip_quotes(" 'a' "), "a");
    assert_eq!(strip_quotes("'a\""), "'a\"");
    assert!(is_identifier("_A1"));
    assert!(!is_identifier("1A"));
}

#[test]
fn a_plain_environment_gives_the_defaults() {
    let cfg = load_config(false, &env(&[]), Ok(TIMEOUT)).ok().unwrap();
    assert!(cfg.credentials.is_none());
    assert_eq!(cfg.base_url, "https://testnet.binancefuture.com");
    assert_eq!(cfg.order_notional, d("20"));
    assert_eq!(cfg.tp_pct, d("0.025"));
    assert_eq!(cfg.trail_pct, d("0.020"));
    assert_eq!(cfg.max_positions, 1);
    assert_eq!(cfg.s4_max_positions, 5);
    assert_eq!(cfg.s4_interval.as_binance(), "5m");
    assert_eq!(cfg.entry_windows, vec![(0, 2), (7, 10), (13, 16)]);
    assert_eq!(cfg.daily_loss_usdt, d("20"));
}

#[test]
fn wrong_settings_are_refused() {
    let why = |rows: &[(&str, &str)]| load_config(false, &env(rows), Ok(TIMEOUT)).err().unwrap().0;
    assert_eq!(
        why(&[("BINANCE_API_KEY", "k")]),
        "both BINANCE_API_KEY and BINANCE_API_SECRET are required"
    );
    assert_eq!(
        why(&[("BINANCE_API_KEY", "k"), ("BINANCE_API_SECRET", "s")]),
        "BINANCE_API_KEY / BINANCE_API_SECRET look truncated"
    );
    assert_eq!(why(&[("BINANCE_FAPI_BASE", "http://x")]), "BINANCE_FAPI_BASE must be https");
    assert!(why(&[("TRAIL_PCT", "abc")]).contains("invalid numeric config"));
    let mainnet = why(&[("BINANCE_FAPI_BASE", "https://fapi.binance.com")]);
    assert!(mainnet.contains("BINANCE_ALLOW_MAINNET"), "{mainnet}");
    let live = load_config(true, &env(&[]), Ok(TIMEOUT)).err().unwrap().0;
    assert!(live.contains("BINANCE_API_KEY"), "{live}");
    let slow = load_config(false, &env(&[]), Ok(0)).err().unwrap().0;
    assert_eq!(slow, "HTTP_TIMEOUT out of range");
    let bad = load_config(false, &env(&[]), Err("invalid float literal".into())).err().unwrap().0;
    assert_eq!(bad, "invalid numeric config: invalid float literal");
}

#[test]
fn mainnet_needs_leave() {
    assert_eq!(fapi_host("https://FAPI.binance.com/x"), "fapi.binance.com");
    assert!(!fapi_base_allowed("https://fapi.binance.com", false));
    assert!(fapi_base_allowed("https://fapi.binance.com", true));
    assert!(fapi_base_allowed("https://testnet.binancefuture.com", false));
    assert!(!fapi_base_allowed("https://evil.example", true));
}

#[test]
fn shown_credentials_hide_the_secret() {
    let c = Credentials { api_key: "abcdefghijklmnop".into(), api_secret: "qrstuvwxyzqrstuv".into() };
    assert!(!c.show().contains("qrstuvwxyzqrstuv"));
}

fn token() -> String {
    format!("123456789:{}", "a".repeat(35))
}

#[test]
fn telegram_destinations_are_checked() {
    let dest = TelegramDest::parse(&token(), " -100200300 ").ok().unwrap();
    assert_eq!(dest.chat_id(), "-100200300");
    assert!(!dest.show().contains("aaaa"));
    assert_eq!(dest.send_url(), format!("https://api.telegram.org/bot{}/sendMessage", token()));
    assert_eq!(TelegramDest::parse("x", "12345").err().unwrap(), "TELEGRAM_BOT_TOKEN looks invalid");
    assert_eq!(
        TelegramDest::parse(&token(), "12a45").err().unwrap(),
        "TELEGRAM_CHAT_ID must be an integer"
    );
}

fn event(kind: &str, live: bool) -> TradeEvent {
    let mut e = TradeEvent::default();
    e.event = kind.into();
    e.live = live;
    e.symbol = "BTCUSDT".into();
    e.strategy_id = 4;
    e.price = "100".into();
    e.qty = "2".into();
    e.reason = " why ".into();
    e
}

#[test]
fn live_trades_are_told() {
    assert!(should_notify(&event("open", true)));
    assert!(!should_notify(&event("open", false)));
    assert!(!should_notify(&event("amend", true)));
    assert_eq!(
        format_message(&event("open", true)).unwrap(),
        "LIVE S4 Continuation · LONG BTCUSDT\nвход  100\nqty   2\nSL    —   TP —\nпричина: why"
    );
    let mut close = event("close", true);
    close.pnl = Some("1.5".into());
    close.final_r = Some("0.7".into());
    assert_eq!(
        format_message(&close).unwrap(),
        "LIVE S4 Continuation · CLOSE BTCUSDT\nвыход 100   PnL +1.5 USDT  (0.7R)\nпричина: why"
    );
    assert_eq!(
        format_message(&event("flatten", true)).unwrap(),
        "LIVE S4 Continuation · FLATTEN BTCUSDT\nпричина: why"
    );
}

#[test]
fn messages_wait_in_a_bounded_queue() {
    let mut t = Telegram::new();
    t.notify_event(&event("open", true));
    assert_eq!(t.take_next(), None);
    t.install(TelegramDest::parse(&token(), "12345").ok());
    assert!(t.is_configured());
    for _ in 0..9 {
        t.notify_event(&event("flatten", true));
    }
    assert_eq!(t.take_last_error(), Some("telegram queue full".to_string()));
    assert_eq!(t.take_last_error(), None);
    let mut n = 0;
    while t.take_next().is_some() {
        n += 1;
    }
    assert_eq!(n, 8);
    t.begin_capture();
    t.notify_startup(1);
    t.notify_event(&event("open", false));
    let seen = t.take_captured();
    assert_eq!(seen.len(), 1);
    assert!(seen[0].starts_with("TUI_bot LIVE · S1 Momentum\n"));
}

#[test]
fn telegram_replies_are_read() {
    assert_eq!(reply_fault(200, "{\"ok\": true}"), None);
    let bad = "{\"ok\": false, \"description\": \"chat not found\"}";
    assert_eq!(reply_fault(200, bad), Some("telegram HTTP 200: chat not found".into()));
    assert_eq!(reply_fault(201, "{\"ok\":true}"), Some("telegram HTTP 201: {\"ok\":true}".into()));
    assert_eq!(reply_fault(200, "{\"ok\":\"true\"}"), Some("telegram HTTP 200: {\"ok\":\"true\"}".into()));
    assert_eq!(reply_fault(200, "secret=1"), Some("telegram HTTP 200: secret=***".into()));
    assert_eq!(reply_fault(200, "[true]"), Some("telegram HTTP 200: [true]".into()));
    assert_eq!(status_fault(400, "secret=1 x"), "telegram HTTP 400: secret=*** x");
}

#[test]
fn documents_are_searched() {
    let n = JsonNumber { text: "1.50".into(), plain: Some("1.5".into()), exact: None, natural: None, cut: Some(1) };
    assert_eq!(n.whole(), Some(1));
    let doc = Json::Object(vec![
        ("a".into(), Json::Text("x".into())),
        ("b".into(), Json::Number(n)),
    ]);
    assert_eq!(doc.get_text("a"), Some("x"));
    assert_eq!(doc.get_text("b"), None);
    assert!(doc.get("c").is_none());
    assert_eq!(doc.get_or("c", "a").and_then(|v| v.written()), Some("x"));
    assert_eq!(tui_bot::json::read_or_zero(doc.get("c")), d("0"));
}

#[test]
fn interval_names_read_back() {
    for i in [
        TradeInterval::Minute5,
        TradeInterval::Minute15,
        TradeInterval::Minute30,
        TradeInterval::Hour1,
    ] {
        assert_eq!(TradeInterval::parse(i.as_binance()), Ok(i));
        assert_eq!(TradeInterval::parse(i.as_ru()), Ok(i));
    }
    assert_eq!(TradeInterval::parse("\u{2003} 1H\u{a0}\n"), Ok(TradeInterval::Hour1));
    assert_eq!(TradeInterval::parse("30М"), Ok(TradeInterval::Minute30));
}

#[test]
fn white_space_is_cut() {
    for n in 0..0x11_0000u32 {
        let Some(c) = char::from_u32(n) else { continue };
        let white = matches!(
            n,
            0x9..=0xd | 0x20 | 0x85 | 0xa0 | 0x1680 | 0x2000..=0x200a | 0x2028 | 0x2029 | 0x202f | 0x205f | 0x3000
        );
        let mut text = String::new();
        text.push(c);
        text.push_str("30m");
        text.push(c);
        assert_eq!(TradeInterval::parse(&text).is_ok(), white, "{n:x}");
    }
}

#[test]
fn small_letters_stay_small() {
    for n in 0x430..=0x44fu32 {
        let c = char::from_u32(n).unwrap();
        let text: String = [c, 'a', '7'].iter().collect();
        assert_eq!(text.to_lowercase(), text);
    }
    assert_eq!(TradeInterval::parse("15М"), TradeInterval::parse("15м"));
}

#[test]
fn redacting_again_changes_nothing() {
    for text in [
        "signature=abc&apiKey=\"x\" secret=1 listenKey=q",
        "secret=signature=abc&secret=&api-key=a'api_key=b",
        "SECRET=*** \u{17f}ecret=aa xsecret=1 apikey=a=b=c&d",
        "nothing to hide = 5",
        "secret=",
        "",
    ] {
        let once = redact_secrets(text);
        assert_eq!(redact_secrets(&once), once);
        let shown = describe_exchange_error(text);
        assert_eq!(redact_secrets(&shown), shown);
    }
    assert_eq!(redact_secrets("secret=signature=abc&x=1"), "secret=***&x=1");
}

#[test]
fn encoded_texts_can_be_read_back() {
    let text = "a b+c%~/я&=\u{1f600}";
    let mut bytes: Vec<u8> = Vec::new();
    let coded: Vec<char> = form_encode(text).chars().collect();
    let mut i = 0;
    while i < coded.len() {
        if coded[i] == '%' {
            let pair: String = coded[i + 1..i + 3].iter().collect();
            bytes.push(u8::from_str_radix(&pair, 16).unwrap());
            i += 3;
        } else {
            bytes.push(if coded[i] == '+' { 32 } else { coded[i] as u8 });
            i += 1;
        }
    }
    assert_eq!(bytes, text.as_bytes());
}

#[test]
fn each_parameter_stands_once() {
    let mut p = Params::new();
    for (k, v) in [("b", "1"), ("a", "2"), ("c", "3"), ("a", "4"), ("b", "5")] {
        p.insert(k, v);
    }
    assert_eq!(canonical_query(&p), "a=4&b=5&c=3");
    p.remove("b");
    assert_eq!(canonical_query(&p), "a=4&c=3");
    assert_eq!(canonical_query(&p.copy()), "a=4&c=3");
}

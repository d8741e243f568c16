//! The futures exchange over a transport.
//!
//! A transport answers as it likes. So what a call comes to is stated for every
//! way in which it may answer: an `HttpWorld` says the reply to the n-th request.
use super::{algo_params, fault, prepare_algo_params, stepped, ExchangeError, Sized, SymbolFilters};
use crate::config::load::{Config, ConfigView};
use crate::dec::{dec, Dec};
use crate::json::{amount_in, opt_json, Json};
use crate::models::{bars_from_raw, document_bars, opt_view, or_empty, Bar, Ticker};
use crate::money::{
    amount, fixed_text, fmt_fixed, quantize_to_step, quantized, read_amount, MoneyError,
};
use crate::ranking::{parse_tickers, reads_tickers};
use crate::sessions::{add_ms, clamp_ms, sub_ms};
use crate::signing::{
    drop_param, keys_rise, law_params_read_back, param_of, put_param, query_text, signed_params,
    signed_query_string, signed_text, Params,
};
use crate::text::{contains, has, int_text, lower, own, print_i64, print_u64, same, upper};
use crate::wire::{plain, FlattenClient, LiveClient, SnapshotClient};
use vstd::prelude::*;
use vstd::string::StringExecFns;

verus! {

/// How a signed request is sent.
#[derive(Debug, Clone, Copy, PartialEq, Eq, Structural)]
pub enum Method {
    Get,
    Post,
    Delete,
}

/// The way to the exchange: a clock, and requests that are answered by documents.
pub trait Transport {
    fn local_ms(&mut self) -> i64;

    fn get(&mut self, url: &str, path: &str) -> Result<Json, ExchangeError>;

    fn send(&mut self, method: Method, url: &str, path: &str, key: &str) -> Result<Json, ExchangeError>;
}

/// A question to the transport.
#[allow(inconsistent_fields)]
pub enum HttpCall {
    Clock,
    Get { url: Seq<char>, path: Seq<char> },
    Send { method: Method, url: Seq<char>, path: Seq<char>, key: Seq<char> },
}

/// An answer of the transport.
pub enum HttpReply {
    Instant(i64),
    Body(Result<Json, Seq<char>>),
}

pub struct HttpEvent {
    pub call: HttpCall,
    pub reply: HttpReply,
}

/// A way in which the transport answers: the reply to the n-th question.
pub type HttpWorld = spec_fn(int) -> HttpReply;

/// Whether a world gives the answers that were given.
pub closed spec fn answers(w: HttpWorld, log: Seq<HttpEvent>) -> bool {
    forall|i: int| 0 <= i < log.len() ==> w(i) == (#[trigger] log[i]).reply
}

/// Some world gives the answers that were given.
pub proof fn law_some_http_world_answers(log: Seq<HttpEvent>) -> (w: HttpWorld)
    ensures
        answers(w, log),
{
    |i: int| log[i].reply
}

/// The client with its texts as characters, and what it asked.
pub struct ClientView {
    pub base_url: Seq<char>,
    pub api_key: Option<Seq<char>>,
    pub api_secret: Option<Seq<char>>,
    pub recv_window: i32,
    pub offset: i64,
    pub synced: bool,
    pub log: Seq<HttpEvent>,
}

/// What a sequence of requests comes to.
pub struct HttpRun<T> {
    pub c: ClientView,
    pub out: T,
}

pub open spec fn instant(r: HttpReply) -> i64 {
    match r {
        HttpReply::Instant(t) => t,
        _ => 0,
    }
}

pub open spec fn body(r: HttpReply) -> Result<Json, Seq<char>> {
    match r {
        HttpReply::Body(x) => x,
        _ => Err(""@),
    }
}

/// Asks one question in a world.
pub open spec fn put_question(w: HttpWorld, c: ClientView, call: HttpCall) -> HttpRun<HttpReply> {
    let reply = w(c.log.len() as int);
    HttpRun { c: ClientView { log: c.log.push(HttpEvent { call, reply }), ..c }, out: reply }
}

proof fn lemma_answers(w: HttpWorld, before: Seq<HttpEvent>, e: HttpEvent)
    requires
        answers(w, before.push(e)),
    ensures
        answers(w, before),
        w(before.len() as int) == e.reply,
{
    let after = before.push(e);
    assert(after[before.len() as int] == e);
    assert forall|i: int| 0 <= i < before.len() implies w(i) == (#[trigger] before[i]).reply by {
        assert(after[i] == before[i]);
    }
}

/// The futures exchange.
pub struct BinanceFutures<T> {
    pub base_url: String,
    pub api_key: Option<String>,
    pub api_secret: Option<String>,
    pub recv_window: i32,
    transport: T,
    time_offset_ms: i64,
    time_synced: bool,
    log: Ghost<Seq<HttpEvent>>,
}

impl<T> View for BinanceFutures<T> {
    type V = ClientView;

    closed spec fn view(&self) -> ClientView {
        ClientView {
            base_url: self.base_url@,
            api_key: opt_view(self.api_key),
            api_secret: opt_view(self.api_secret),
            recv_window: self.recv_window,
            offset: self.time_offset_ms,
            synced: self.time_synced,
            log: self.log@,
        }
    }
}

/// A client that has asked nothing yet.
pub open spec fn fresh_client(cfg: ConfigView) -> ClientView {
    ClientView {
        base_url: cfg.base_url,
        api_key: match cfg.credentials {
            Some(k) => Some(k.api_key),
            None => None,
        },
        api_secret: match cfg.credentials {
            Some(k) => Some(k.api_secret),
            None => None,
        },
        recv_window: cfg.recv_window,
        offset: 0,
        synced: false,
        log: Seq::empty(),
    }
}

/// Whether two clients are of the same account.
pub open spec fn same_account(a: ClientView, b: ClientView) -> bool {
    a.base_url == b.base_url && a.api_key == b.api_key && a.api_secret == b.api_secret && a.recv_window
        == b.recv_window
}

/// The error of a request that was answered with a status.
pub fn http_error(code: u16, path: &str, body: &str) -> (r: ExchangeError)
    ensures
        r@ == "HTTP "@ + int_text(code as int) + " "@ + path@ + ": "@ + body@,
{
    let mut t = own("HTTP ");
    t.append(print_u64(code as u64).as_str());
    t.append(" ");
    t.append(path);
    t.append(": ");
    t.append(body);
    ExchangeError(t)
}

/// The error of a request that was not answered.
pub fn transport_fault(path: &str, detail: &str) -> (r: ExchangeError)
    ensures
        r@ == "HTTP "@ + path@ + ": "@ + detail@,
{
    let mut t = own("HTTP ");
    t.append(path);
    t.append(": ");
    t.append(detail);
    ExchangeError(t)
}

/// The address of a public request.
pub open spec fn public_url(c: ClientView, path: Seq<char>, query: Seq<char>) -> Seq<char> {
    if query.len() == 0 {
        c.base_url + path
    } else {
        c.base_url + path + "?"@ + query
    }
}

/// A public request.
pub open spec fn get_run(w: HttpWorld, c: ClientView, path: Seq<char>, query: Seq<char>) -> HttpRun<
    Result<Json, Seq<char>>,
> {
    let a = put_question(w, c, HttpCall::Get { url: public_url(c, path, query), path });
    HttpRun { c: a.c, out: body(a.out) }
}

/// The server's time in a document.
pub open spec fn server_time(raw: Json) -> Option<i64> {
    match raw.field("serverTime"@) {
        Some(Json::Number(n)) => n.exact,
        _ => None,
    }
}

/// Learns how far the local clock is off.
pub open spec fn sync_run(w: HttpWorld, c: ClientView) -> HttpRun<Result<(), Seq<char>>> {
    let a = get_run(w, c, "/fapi/v1/time"@, Seq::empty());
    match a.out {
        Err(e) => HttpRun { c: a.c, out: Err(e) },
        Ok(raw) => match server_time(raw) {
            None => HttpRun { c: a.c, out: Err("server time unavailable"@) },
            Some(server) => {
                let b = put_question(w, a.c, HttpCall::Clock);
                HttpRun {
                    c: ClientView {
                        offset: clamp_ms(server - instant(b.out)) as i64,
                        synced: true,
                        ..b.c
                    },
                    out: Ok(()),
                }
            },
        },
    }
}

/// The clock is synchronised once before the first signature; that it failed is
/// not held against the request.
pub open spec fn synced_run(w: HttpWorld, c: ClientView) -> ClientView {
    if c.synced {
        c
    } else {
        sync_run(w, c).c
    }
}

/// Signs parameters.
pub open spec fn sign_run(w: HttpWorld, c: ClientView, p: Seq<(Seq<char>, Seq<char>)>) -> HttpRun<
    Result<Seq<char>, Seq<char>>,
> {
    match c.api_secret {
        None => HttpRun { c, out: Err("no api secret"@) },
        Some(secret) => {
            let a = put_question(w, synced_run(w, c), HttpCall::Clock);
            HttpRun {
                c: a.c,
                out: if secret.len() == 0 {
                    Err(crate::signing::SignError::EmptySecret.text())
                } else {
                    Ok(
                        signed_text(
                            query_text(
                                signed_params(
                                    p,
                                    clamp_ms(instant(a.out) + a.c.offset),
                                    c.recv_window as int,
                                ),
                            ),
                            secret,
                        ),
                    )
                },
            }
        },
    }
}

/// Parameters as a request sends them.
pub open spec fn prepared(method: Method, path: Seq<char>, p: Seq<(Seq<char>, Seq<char>)>) -> Seq<
    (Seq<char>, Seq<char>),
> {
    if method == Method::Post && path == "/fapi/v1/algoOrder"@ {
        algo_params(p)
    } else {
        p
    }
}

/// One attempt of a signed request. Says last whether it went out.
pub open spec fn attempt_run(
    w: HttpWorld,
    c: ClientView,
    method: Method,
    path: Seq<char>,
    p: Seq<(Seq<char>, Seq<char>)>,
) -> HttpRun<(Result<Json, Seq<char>>, bool)> {
    let a = sign_run(w, c, prepared(method, path, p));
    match a.out {
        Err(e) => HttpRun { c: a.c, out: (Err(e), false) },
        Ok(query) => match c.api_key {
            None => HttpRun { c: a.c, out: (Err("no api key"@), false) },
            Some(key) => {
                let b = put_question(
                    w,
                    a.c,
                    HttpCall::Send {
                        method,
                        url: c.base_url + path + "?"@ + query,
                        path,
                        key,
                    },
                );
                HttpRun { c: b.c, out: (body(b.out), true) }
            },
        },
    }
}

/// Whether an answer says that the local clock is off.
pub open spec fn clock_is_off(r: Result<Json, Seq<char>>) -> bool {
    match r {
        Err(e) => has(e, "-1021"@),
        Ok(_) => false,
    }
}

/// A signed request: once more after the clock was set, where it was off.
pub open spec fn request_run(
    w: HttpWorld,
    c: ClientView,
    method: Method,
    path: Seq<char>,
    p: Seq<(Seq<char>, Seq<char>)>,
) -> HttpRun<Result<Json, Seq<char>>> {
    let a = attempt_run(w, c, method, path, p);
    let (first, sent) = a.out;
    if sent && clock_is_off(first) {
        let b = attempt_run(w, sync_run(w, a.c).c, method, path, prepared(method, path, p));
        HttpRun { c: b.c, out: b.out.0 }
    } else {
        HttpRun { c: a.c, out: first }
    }
}

impl<T> BinanceFutures<T> {
    /// A client of the configured exchange.
    pub fn from_config(cfg: &Config, transport: T) -> (r: Self)
        ensures
            r@ == fresh_client(cfg@),
    {
        let (api_key, api_secret): (Option<String>, Option<String>) = match &cfg.credentials {
            Some(k) => (Some(own(k.api_key.as_str())), Some(own(k.api_secret.as_str()))),
            None => (None, None),
        };
        BinanceFutures {
            base_url: own(cfg.base_url.as_str()),
            api_key,
            api_secret,
            recv_window: cfg.recv_window,
            transport,
            time_offset_ms: 0,
            time_synced: false,
            log: Ghost(Seq::empty()),
        }
    }
}

impl<T: Transport> BinanceFutures<T> {
    fn clock(&mut self) -> (r: i64)
        ensures
            same_account(old(self)@, final(self)@),
            forall|w: HttpWorld| #[trigger]
                answers(w, final(self)@.log) ==> answers(w, old(self)@.log) && put_question(
                    w,
                    old(self)@,
                    HttpCall::Clock,
                ) == (HttpRun { c: final(self)@, out: HttpReply::Instant(r) }),
    {
        let r: i64 = self.transport.local_ms();
        let ghost before = self.log@;
        let ghost e = HttpEvent { call: HttpCall::Clock, reply: HttpReply::Instant(r) };
        self.log = Ghost(self.log@.push(e));
        proof {
            assert forall|w: HttpWorld| #[trigger] answers(w, self@.log) implies answers(w, before)
                && w(before.len() as int) == e.reply by {
                lemma_answers(w, before, e);
            }
        }
        r
    }

    fn public_get(&mut self, path: &str, query: &str) -> (r: Result<Json, ExchangeError>)
        ensures
            same_account(old(self)@, final(self)@),
            forall|w: HttpWorld| #[trigger]
                answers(w, final(self)@.log) ==> answers(w, old(self)@.log) && get_run(
                    w,
                    old(self)@,
                    path@,
                    query@,
                ) == (HttpRun { c: final(self)@, out: plain(r) }),
    {
        let mut url = own(self.base_url.as_str());
        url.append(path);
        if !query.is_empty() {
            url.append("?");
            url.append(query);
        }
        let r = self.transport.get(url.as_str(), path);
        let ghost before = self.log@;
        let ghost e = HttpEvent {
            call: HttpCall::Get { url: url@, path: path@ },
            reply: HttpReply::Body(plain(r)),
        };
        self.log = Ghost(self.log@.push(e));
        proof {
            assert forall|w: HttpWorld| #[trigger] answers(w, self@.log) implies answers(w, before)
                && w(before.len() as int) == e.reply by {
                lemma_answers(w, before, e);
            }
        }
        r
    }

    /// Learns how far the local clock is off; the difference is held at the ends of
    /// the range of instants.
    pub fn sync_time(&mut self) -> (r: Result<(), ExchangeError>)
        ensures
            same_account(old(self)@, final(self)@),
            forall|w: HttpWorld| #[trigger]
                answers(w, final(self)@.log) ==> answers(w, old(self)@.log) && sync_run(
                    w,
                    old(self)@,
                ) == (HttpRun { c: final(self)@, out: plain(r) }),
    {
        let none = "";
        proof {
            reveal_strlit("");
            assert(none@ =~= Seq::<char>::empty());
        }
        let raw: Json = match self.public_get("/fapi/v1/time", none) {
            Ok(raw) => raw,
            Err(e) => return Err(e),
        };
        let server: i64 = match raw.get("serverTime") {
            Some(Json::Number(n)) => match n.exact {
                Some(t) => t,
                None => return Err(fault("server time unavailable")),
            },
            _ => return Err(fault("server time unavailable")),
        };
        let local: i64 = self.clock();
        let ghost mid = self@;
        self.time_offset_ms = sub_ms(server, local);
        self.time_synced = true;
        proof {
            assert(self@ == ClientView {
                offset: clamp_ms(server - local) as i64,
                synced: true,
                ..mid
            });
        }
        Ok(())
    }

    fn signed(&mut self, params: &Params) -> (r: Result<String, ExchangeError>)
        ensures
            same_account(old(self)@, final(self)@),
            forall|w: HttpWorld| #[trigger]
                answers(w, final(self)@.log) ==> answers(w, old(self)@.log) && sign_run(
                    w,
                    old(self)@,
                    params@,
                ) == (HttpRun {
                    c: final(self)@,
                    out: match r {
                        Ok(s) => Ok(s@),
                        Err(e) => Err(e@),
                    },
                }),
    {
        let secret: String = match &self.api_secret {
            Some(s) => own(s.as_str()),
            None => return Err(fault("no api secret")),
        };
        if !self.time_synced {
            let _ = self.sync_time();
        }
        let local: i64 = self.clock();
        let ts: i64 = add_ms(local, self.time_offset_ms);
        match signed_query_string(params, secret.as_str(), ts, self.recv_window as i64) {
            Ok(s) => Ok(s),
            Err(e) => Err(fault(e.message())),
        }
    }

    fn send(&mut self, method: Method, url: &str, path: &str, key: &str) -> (r: Result<
        Json,
        ExchangeError,
    >)
        ensures
            forall|w: HttpWorld| #[trigger]
                answers(w, final(self)@.log) ==> answers(w, old(self)@.log) && put_question(
                    w,
                    old(self)@,
                    HttpCall::Send { method, url: url@, path: path@, key: key@ },
                ) == (HttpRun { c: final(self)@, out: HttpReply::Body(plain(r)) }),
    {
        let r = self.transport.send(method, url, path, key);
        let ghost before = self.log@;
        let ghost e = HttpEvent {
            call: HttpCall::Send { method, url: url@, path: path@, key: key@ },
            reply: HttpReply::Body(plain(r)),
        };
        self.log = Ghost(self.log@.push(e));
        proof {
            assert forall|w: HttpWorld| #[trigger] answers(w, self@.log) implies answers(w, before)
                && w(before.len() as int) == e.reply by {
                lemma_answers(w, before, e);
            }
        }
        r
    }

    fn attempt(&mut self, method: Method, path: &str, params: &Params) -> (r: (
        Result<Json, ExchangeError>,
        bool,
    ))
        ensures
            forall|w: HttpWorld| #[trigger]
                answers(w, final(self)@.log) ==> answers(w, old(self)@.log) && attempt_run(
                    w,
                    old(self)@,
                    method,
                    path@,
                    params@,
                ) == (HttpRun { c: final(self)@, out: (plain(r.0), r.1) }),
    {
        let mut p: Params = params.copy();
        if method == Method::Post && same(path, "/fapi/v1/algoOrder") {
            prepare_algo_params(&mut p);
        }
        let query: String = match self.signed(&p) {
            Ok(q) => q,
            Err(e) => return (Err(e), false),
        };
        let key: String = match &self.api_key {
            Some(k) => own(k.as_str()),
            None => return (Err(fault("no api key")), false),
        };
        let mut url = own(self.base_url.as_str());
        url.append(path);
        url.append("?");
        url.append(query.as_str());
        proof {
            assert(url@ =~= old(self)@.base_url + path@ + "?"@ + query@);
        }
        let r = self.send(method, url.as_str(), path, key.as_str());
        (r, true)
    }

    fn signed_request(&mut self, method: Method, path: &str, params: &Params) -> (r: Result<
        Json,
        ExchangeError,
    >)
        ensures
            forall|w: HttpWorld| #[trigger]
                answers(w, final(self)@.log) ==> answers(w, old(self)@.log) && request_run(
                    w,
                    old(self)@,
                    method,
                    path@,
                    params@,
                ) == (HttpRun { c: final(self)@, out: plain(r) }),
    {
        let (first, sent) = self.attempt(method, path, params);
        if !sent {
            return first;
        }
        match first {
            Err(e) => if contains(e.0.as_str(), "-1021") {
                let mut p: Params = params.copy();
                if method == Method::Post && same(path, "/fapi/v1/algoOrder") {
                    prepare_algo_params(&mut p);
                }
                let _ = self.sync_time();
                let (again, _) = self.attempt(method, path, &p);
                again
            } else {
                Err(e)
            },
            Ok(raw) => Ok(raw),
        }
    }
}

/// No parameters.
pub open spec fn no_params() -> Seq<(Seq<char>, Seq<char>)> {
    Seq::empty()
}

/// A symbol as the only parameter.
pub open spec fn symbol_params(symbol: Seq<char>) -> Seq<(Seq<char>, Seq<char>)> {
    put_param(no_params(), "symbol"@, symbol)
}

/// An optional symbol as the only parameter.
pub open spec fn listing_params(symbol: Option<Seq<char>>) -> Seq<(Seq<char>, Seq<char>)> {
    match symbol {
        Some(s) => symbol_params(s),
        None => no_params(),
    }
}

/// A market order.
pub open spec fn market_params(symbol: Seq<char>, side: Seq<char>, qty: Dec) -> Seq<
    (Seq<char>, Seq<char>),
> {
    put_param(
        put_param(
            put_param(put_param(symbol_params(symbol), "side"@, side), "type"@, "MARKET"@),
            "quantity"@,
            fixed_text(qty),
        ),
        "newOrderRespType"@,
        "RESULT"@,
    )
}

/// The side that closes a position.
pub open spec fn closing_side(side: Seq<char>) -> Seq<char> {
    if lower(side) == lower("LONG"@) {
        "SELL"@
    } else {
        "BUY"@
    }
}

/// A market order that may only reduce a position.
pub open spec fn close_params(symbol: Seq<char>, side: Seq<char>, qty: Dec) -> Seq<
    (Seq<char>, Seq<char>),
> {
    put_param(market_params(symbol, closing_side(side), qty), "reduceOnly"@, "true"@)
}

fn market_order(symbol: &str, side: &str, qty: Dec) -> (r: Params)
    ensures
        r@ == market_params(symbol@, side@, qty),
{
    let mut p: Params = Params::new();
    p.insert("symbol", symbol);
    p.insert("side", side);
    p.insert("type", "MARKET");
    p.insert("quantity", fmt_fixed(qty).as_str());
    p.insert("newOrderRespType", "RESULT");
    p
}

/// What is left of an answer of which only its success counts.
pub open spec fn only_done(r: Result<Json, Seq<char>>) -> Result<(), Seq<char>> {
    match r {
        Ok(_) => Ok(()),
        Err(e) => Err(e),
    }
}

fn drop_answer(r: Result<Json, ExchangeError>) -> (x: Result<(), ExchangeError>)
    ensures
        plain(x) == only_done(plain(r)),
{
    match r {
        Ok(_) => Ok(()),
        Err(e) => Err(e),
    }
}

/// Whether an error says that an order may not be sent as one that only reduces.
pub open spec fn reduce_refused(e: Seq<char>) -> bool {
    has(lower(e), "-2022"@) || has(lower(e), "reduceonly"@)
}

/// Takes the orders of a symbol off: both kinds, whatever the exchange says.
pub open spec fn cancel_run(w: HttpWorld, c: ClientView, symbol: Seq<char>) -> HttpRun<
    Result<(), Seq<char>>,
> {
    let a = request_run(w, c, Method::Delete, "/fapi/v1/allOpenOrders"@, symbol_params(symbol));
    let b = request_run(w, a.c, Method::Delete, "/fapi/v1/algoOpenOrders"@, symbol_params(symbol));
    HttpRun { c: b.c, out: Ok(()) }
}

/// Closes at market: as an order that only reduces, and without that where the
/// exchange refuses it.
pub open spec fn market_close_run(
    w: HttpWorld,
    c: ClientView,
    symbol: Seq<char>,
    side: Seq<char>,
    qty: Dec,
) -> HttpRun<Result<(), Seq<char>>> {
    let p = close_params(symbol, side, qty);
    let a = request_run(w, c, Method::Post, "/fapi/v1/order"@, p);
    match a.out {
        Ok(_) => HttpRun { c: a.c, out: Ok(()) },
        Err(e) => if reduce_refused(e) {
            let b = request_run(w, a.c, Method::Post, "/fapi/v1/order"@, drop_param(p, "reduceOnly"@));
            HttpRun { c: b.c, out: only_done(b.out) }
        } else {
            HttpRun { c: a.c, out: Err(e) }
        },
    }
}

fn one_param(symbol: &str) -> (r: Params)
    ensures
        r@ == symbol_params(symbol@),
{
    let mut p: Params = Params::new();
    p.insert("symbol", symbol);
    p
}

impl<T: Transport> FlattenClient for BinanceFutures<T> {
    fn cancel_protectives(&mut self, symbol: &str) -> (r: Result<(), ExchangeError>)
        ensures
            forall|w: HttpWorld| #[trigger]
                answers(w, final(self)@.log) ==> answers(w, old(self)@.log) && cancel_run(
                    w,
                    old(self)@,
                    symbol@,
                ) == (HttpRun { c: final(self)@, out: plain(r) }),
    {
        let p: Params = one_param(symbol);
        let _ = self.signed_request(Method::Delete, "/fapi/v1/allOpenOrders", &p);
        let _ = self.signed_request(Method::Delete, "/fapi/v1/algoOpenOrders", &p);
        Ok(())
    }

    fn market_close(&mut self, symbol: &str, side: &str, qty: Dec) -> (r: Result<(), ExchangeError>)
        ensures
            forall|w: HttpWorld| #[trigger]
                answers(w, final(self)@.log) ==> answers(w, old(self)@.log) && market_close_run(
                    w,
                    old(self)@,
                    symbol@,
                    side@,
                    qty,
                ) == (HttpRun { c: final(self)@, out: plain(r) }),
    {
        let close_side: &str = if side.eq_ignore_ascii_case("LONG") {
            "SELL"
        } else {
            "BUY"
        };
        let mut p: Params = market_order(symbol, close_side, qty);
        p.insert("reduceOnly", "true");
        match self.signed_request(Method::Post, "/fapi/v1/order", &p) {
            Ok(_) => Ok(()),
            Err(e) => {
                let t = e.0.as_str().to_ascii_lowercase();
                if contains(t.as_str(), "-2022") || contains(t.as_str(), "reduceonly") {
                    p.remove("reduceOnly");
                    drop_answer(self.signed_request(Method::Post, "/fapi/v1/order", &p))
                } else {
                    Err(e)
                }
            },
        }
    }

    fn position_risk(&mut self) -> (r: Result<Json, ExchangeError>)
        ensures
            forall|w: HttpWorld| #[trigger]
                answers(w, final(self)@.log) ==> answers(w, old(self)@.log) && request_run(
                    w,
                    old(self)@,
                    Method::Get,
                    "/fapi/v2/positionRisk"@,
                    no_params(),
                ) == (HttpRun { c: final(self)@, out: plain(r) }),
    {
        BinanceFutures::position_risk(self)
    }
}

/// The first row of a symbol, ASCII case aside.
pub open spec fn listed_row(rows: Seq<Json>, symbol: Seq<char>) -> Option<Json>
    decreases rows.len(),
{
    if rows.len() == 0 {
        None
    } else if lower(or_empty(rows[0].text_at("symbol"@))) == lower(symbol) {
        Some(rows[0])
    } else {
        listed_row(rows.drop_first(), symbol)
    }
}

/// The steps and minimums that rows of filters name.
pub struct Found {
    pub tick: Option<Dec>,
    pub step: Option<Dec>,
    pub min_qty: Option<Dec>,
    pub min_notional: Option<Dec>,
}

/// The amount that a field holds as a text.
pub open spec fn text_amount(row: Json, key: Seq<char>) -> Option<Dec> {
    match row.text_at(key) {
        Some(t) => amount(t),
        None => None,
    }
}

/// What the first `n` rows of filters name; a later row of a kind replaces an
/// earlier one.
pub open spec fn found_in(rows: Seq<Json>, n: int) -> Found
    decreases n,
{
    if n <= 0 {
        Found { tick: None, step: None, min_qty: None, min_notional: None }
    } else {
        let f = found_in(rows, n - 1);
        let row = rows[n - 1];
        let kind = or_empty(row.text_at("filterType"@));
        if kind == "PRICE_FILTER"@ {
            Found { tick: text_amount(row, "tickSize"@), ..f }
        } else if kind == "LOT_SIZE"@ {
            Found {
                step: text_amount(row, "stepSize"@),
                min_qty: text_amount(row, "minQty"@),
                ..f
            }
        } else if kind == "MIN_NOTIONAL"@ || kind == "NOTIONAL"@ {
            Found { min_notional: amount_in(row.field_or("notional"@, "minNotional"@)), ..f }
        } else {
            f
        }
    }
}

/// The filters of a symbol in the exchange's description of itself.
pub open spec fn filters_in(raw: Json, symbol: Seq<char>) -> Result<SymbolFilters, Seq<char>> {
    match raw.field("symbols"@) {
        Some(Json::List(rows)) => match listed_row(rows@, upper(symbol)) {
            None => Err("symbol "@ + upper(symbol) + " not listed"@),
            Some(row) => match row.field("filters"@) {
                Some(Json::List(filters)) => {
                    let f = found_in(filters@, filters@.len() as int);
                    if f.tick is Some && f.step is Some && f.min_qty is Some {
                        Ok(
                            SymbolFilters {
                                tick_size: f.tick->0,
                                step_size: f.step->0,
                                min_qty: f.min_qty->0,
                                min_notional: match f.min_notional {
                                    Some(d) => d,
                                    None => dec(5, 0),
                                },
                            },
                        )
                    } else {
                        Err("incomplete filters"@)
                    }
                },
                _ => Err("incomplete filters"@),
            },
        },
        _ => Err("exchangeInfo missing symbols"@),
    }
}

fn find_listed<'a>(rows: &'a Vec<Json>, symbol: &str) -> (r: Option<&'a Json>)
    ensures
        opt_json(r) == listed_row(rows@, symbol@),
{
    let mut i: usize = 0;
    proof {
        assert(rows@.skip(0) =~= rows@);
    }
    while i < rows.len()
        invariant
            i <= rows@.len(),
            listed_row(rows@, symbol@) == listed_row(rows@.skip(i as int), symbol@),
        decreases rows@.len() - i,
    {
        proof {
            assert(rows@.skip(i as int)[0] == rows@[i as int]);
            assert(rows@.skip(i as int).drop_first() =~= rows@.skip(i as int + 1));
        }
        let name: &str = match rows[i].get_text("symbol") {
            Some(t) => t,
            None => "",
        };
        if name.eq_ignore_ascii_case(symbol) {
            return Some(&rows[i]);
        }
        i = i + 1;
    }
    None
}

fn read_text_amount(row: &Json, key: &str) -> (r: Option<Dec>)
    ensures
        r == text_amount(*row, key@),
{
    match row.get_text(key) {
        Some(t) => read_amount(t),
        None => None,
    }
}

fn read_optional_amount(v: Option<&Json>) -> (r: Option<Dec>)
    ensures
        r == amount_in(opt_json(v)),
{
    match v {
        Some(j) => match j.written() {
            Some(t) => read_amount(t),
            None => None,
        },
        None => None,
    }
}

fn read_filters(rows: &Vec<Json>) -> (r: (Option<Dec>, Option<Dec>, Option<Dec>, Option<Dec>))
    ensures
        found_in(rows@, rows@.len() as int) == (Found {
            tick: r.0,
            step: r.1,
            min_qty: r.2,
            min_notional: r.3,
        }),
{
    let mut tick: Option<Dec> = None;
    let mut step: Option<Dec> = None;
    let mut min_qty: Option<Dec> = None;
    let mut min_notional: Option<Dec> = None;
    let mut i: usize = 0;
    while i < rows.len()
        invariant
            i <= rows@.len(),
            found_in(rows@, i as int) == (Found { tick, step, min_qty, min_notional }),
        decreases rows@.len() - i,
    {
        let row: &Json = &rows[i];
        let kind: &str = match row.get_text("filterType") {
            Some(t) => t,
            None => "",
        };
        if same(kind, "PRICE_FILTER") {
            tick = read_text_amount(row, "tickSize");
        } else if same(kind, "LOT_SIZE") {
            step = read_text_amount(row, "stepSize");
            min_qty = read_text_amount(row, "minQty");
        } else if same(kind, "MIN_NOTIONAL") || same(kind, "NOTIONAL") {
            min_notional = read_optional_amount(row.get_or("notional", "minNotional"));
        }
        i = i + 1;
    }
    (tick, step, min_qty, min_notional)
}

/// Reads the filters of a symbol.
pub fn parse_filters(raw: &Json, symbol: &str) -> (r: Result<SymbolFilters, ExchangeError>)
    ensures
        plain(r) == filters_in(*raw, symbol@),
{
    let want = symbol.to_ascii_uppercase();
    let rows: &Vec<Json> = match raw.get("symbols") {
        Some(Json::List(v)) => v,
        _ => return Err(fault("exchangeInfo missing symbols")),
    };
    let row: &Json = match find_listed(rows, want.as_str()) {
        Some(x) => x,
        None => {
            let mut t = own("symbol ");
            t.append(want.as_str());
            t.append(" not listed");
            return Err(ExchangeError(t));
        },
    };
    let filters: &Vec<Json> = match row.get("filters") {
        Some(Json::List(v)) => v,
        _ => return Err(fault("incomplete filters")),
    };
    let (tick, step, min_qty, min_notional) = read_filters(filters);
    match (tick, step, min_qty) {
        (Some(tick_size), Some(step_size), Some(least)) => Ok(
            SymbolFilters {
                tick_size,
                step_size,
                min_qty: least,
                min_notional: match min_notional {
                    Some(d) => d,
                    None => Dec::from_int(5),
                },
            },
        ),
        _ => Err(fault("incomplete filters")),
    }
}

/// Asks for the filters of a symbol.
pub open spec fn filters_run(w: HttpWorld, c: ClientView, symbol: Seq<char>) -> HttpRun<
    Result<SymbolFilters, Seq<char>>,
> {
    let a = get_run(w, c, "/fapi/v1/exchangeInfo"@, Seq::empty());
    HttpRun {
        c: a.c,
        out: match a.out {
            Ok(raw) => filters_in(raw, symbol),
            Err(e) => Err(e),
        },
    }
}

/// The prices and the quantity of protective orders, as the exchange takes them.
pub struct Protection {
    pub stop_loss: Dec,
    pub take_profit: Dec,
    pub qty: Dec,
}

/// Why a number cannot be sent.
pub open spec fn range_error() -> Seq<char> {
    "number out of range"@
}

/// Moves prices and quantity to the exchange's steps. An order without a
/// quantity is refused: it would sell what is not there.
pub open spec fn protection_of(f: SymbolFilters, take_profit: Dec, stop_loss: Dec, qty: Option<Dec>) -> Result<
    Protection,
    Seq<char>,
> {
    match stepped(Some(take_profit), f.tick_size, true) {
        Sized::Refused(e) => Err(e),
        Sized::Overflow => Err(range_error()),
        Sized::Qty(tp) => match stepped(Some(stop_loss), f.tick_size, false) {
            Sized::Refused(e) => Err(e),
            Sized::Overflow => Err(range_error()),
            Sized::Qty(sl) => if !sl.pos() || !tp.pos() || tp.le(sl) {
                Err("protective prices invalid after quantize"@)
            } else if qty is None || !qty->0.pos() {
                Err("refuse closePosition TP/SL (naked SELL opens leftover short)"@)
            } else {
                match stepped(Some(qty->0), f.step_size, false) {
                    Sized::Refused(e) => Err(e),
                    Sized::Overflow => Err(range_error()),
                    Sized::Qty(q) => if q.pos() {
                        Ok(Protection { stop_loss: sl, take_profit: tp, qty: q })
                    } else {
                        Err("protective qty invalid after quantize"@)
                    },
                }
            },
        },
    }
}

fn step_or_error(value: Dec, step: Dec, round_up: bool) -> (r: Result<Dec, ExchangeError>)
    ensures
        match (r, stepped(Some(value), step, round_up)) {
            (Ok(d), Sized::Qty(q)) => d == q,
            (Err(e), Sized::Refused(t)) => e@ == t,
            (Err(e), Sized::Overflow) => e@ == range_error(),
            _ => false,
        },
{
    match quantize_to_step(value, step, round_up) {
        Ok(d) => Ok(d),
        Err(MoneyError::Overflow) => Err(fault("number out of range")),
        Err(_) => Err(fault("step must be positive")),
    }
}

/// Moves prices and quantity of protective orders to the exchange's steps.
pub fn protective_orders(f: &SymbolFilters, take_profit: Dec, stop_loss: Dec, qty: Option<Dec>) -> (r: Result<
    Protection,
    ExchangeError,
>)
    ensures
        plain(r) == protection_of(*f, take_profit, stop_loss, qty),
{
    let tp: Dec = match step_or_error(take_profit, f.tick_size, true) {
        Ok(d) => d,
        Err(e) => return Err(e),
    };
    let sl: Dec = match step_or_error(stop_loss, f.tick_size, false) {
        Ok(d) => d,
        Err(e) => return Err(e),
    };
    if !sl.is_pos() || !tp.is_pos() || tp <= sl {
        return Err(fault("protective prices invalid after quantize"));
    }
    match qty {
        Some(q) => {
            if !q.is_pos() {
                return Err(fault("refuse closePosition TP/SL (naked SELL opens leftover short)"));
            }
            let sized: Dec = match step_or_error(q, f.step_size, false) {
                Ok(d) => d,
                Err(e) => return Err(e),
            };
            if !sized.is_pos() {
                return Err(fault("protective qty invalid after quantize"));
            }
            Ok(Protection { stop_loss: sl, take_profit: tp, qty: sized })
        },
        None => Err(fault("refuse closePosition TP/SL (naked SELL opens leftover short)")),
    }
}

/// A conditional order that sells a quantity.
pub open spec fn conditional_params(symbol: Seq<char>, kind: Seq<char>, trigger: Dec, qty: Dec) -> Seq<
    (Seq<char>, Seq<char>),
> {
    put_param(
        put_param(
            put_param(
                put_param(
                    put_param(
                        put_param(
                            put_param(symbol_params(symbol), "side"@, "SELL"@),
                            "type"@,
                            kind,
                        ),
                        "algoType"@,
                        "CONDITIONAL"@,
                    ),
                    "triggerPrice"@,
                    fixed_text(trigger),
                ),
                "workingType"@,
                "MARK_PRICE"@,
            ),
            "quantity"@,
            fixed_text(qty),
        ),
        "reduceOnly"@,
        "true"@,
    )
}

/// The same order for the plain endpoint.
pub open spec fn plain_params(symbol: Seq<char>, kind: Seq<char>, trigger: Dec, qty: Dec) -> Seq<
    (Seq<char>, Seq<char>),
> {
    put_param(
        put_param(
            put_param(
                put_param(
                    put_param(
                        put_param(symbol_params(symbol), "side"@, "SELL"@),
                        "type"@,
                        kind,
                    ),
                    "stopPrice"@,
                    fixed_text(trigger),
                ),
                "quantity"@,
                fixed_text(qty),
            ),
            "reduceOnly"@,
            "true"@,
        ),
        "workingType"@,
        "MARK_PRICE"@,
    )
}

/// Whether an error says that such an order is there already.
pub open spec fn is_there_already(e: Seq<char>) -> bool {
    has(lower(e), "-4130"@) || has(lower(e), "closeposition in the direction"@)
}

/// Whether an error says that the conditional endpoint does not take the order.
pub open spec fn wants_plain_order(e: Seq<char>) -> bool {
    has(lower(e), "-2026"@) || has(lower(e), "reduceonly order type"@)
}

/// Places one protective order.
pub open spec fn protect_one_run(
    w: HttpWorld,
    c: ClientView,
    symbol: Seq<char>,
    kind: Seq<char>,
    trigger: Dec,
    qty: Dec,
) -> HttpRun<Result<(), Seq<char>>> {
    let a = request_run(
        w,
        c,
        Method::Post,
        "/fapi/v1/algoOrder"@,
        conditional_params(symbol, kind, trigger, qty),
    );
    match a.out {
        Ok(_) => HttpRun { c: a.c, out: Ok(()) },
        Err(e) => if is_there_already(e) {
            HttpRun { c: a.c, out: Ok(()) }
        } else if wants_plain_order(e) {
            let b = request_run(
                w,
                a.c,
                Method::Post,
                "/fapi/v1/order"@,
                plain_params(symbol, kind, trigger, qty),
            );
            HttpRun {
                c: b.c,
                out: match b.out {
                    Ok(_) => Ok(()),
                    Err(again) => if is_there_already(again) {
                        Ok(())
                    } else {
                        Err(again)
                    },
                },
            }
        } else {
            HttpRun { c: a.c, out: Err(e) }
        },
    }
}

/// Places the stop, then the take-profit.
pub open spec fn place_run(
    w: HttpWorld,
    c: ClientView,
    symbol: Seq<char>,
    take_profit: Dec,
    stop_loss: Dec,
    qty: Option<Dec>,
) -> HttpRun<Result<(), Seq<char>>> {
    let a = filters_run(w, c, symbol);
    match a.out {
        Err(e) => HttpRun { c: a.c, out: Err(e) },
        Ok(f) => match protection_of(f, take_profit, stop_loss, qty) {
            Err(e) => HttpRun { c: a.c, out: Err(e) },
            Ok(p) => {
                let b = protect_one_run(w, a.c, symbol, "STOP_MARKET"@, p.stop_loss, p.qty);
                match b.out {
                    Err(e) => HttpRun { c: b.c, out: Err(e) },
                    Ok(_) => protect_one_run(
                        w,
                        b.c,
                        symbol,
                        "TAKE_PROFIT_MARKET"@,
                        p.take_profit,
                        p.qty,
                    ),
                }
            },
        },
    }
}

/// Replaces the stop: refused without a take-profit, which would be lost.
pub open spec fn replace_run(
    w: HttpWorld,
    c: ClientView,
    symbol: Seq<char>,
    stop_loss: Dec,
    take_profit: Option<Dec>,
    qty: Option<Dec>,
) -> HttpRun<Result<(), Seq<char>>> {
    match take_profit {
        None => HttpRun {
            c,
            out: Err("refuse replace_stop without take_profit (would drop TP)"@),
        },
        Some(tp) => place_run(w, cancel_run(w, c, symbol).c, symbol, tp, stop_loss, qty),
    }
}

/// The rows of a document; none where it is no list.
pub open spec fn rows_in(r: Result<Json, Seq<char>>) -> Result<Seq<Json>, Seq<char>> {
    match r {
        Ok(Json::List(v)) => Ok(v@),
        Ok(_) => Ok(Seq::empty()),
        Err(e) => Err(e),
    }
}

fn take_rows(r: Result<Json, ExchangeError>) -> (x: Result<Vec<Json>, ExchangeError>)
    ensures
        crate::wire::listing(x) == rows_in(plain(r)),
{
    match r {
        Ok(Json::List(v)) => Ok(v),
        Ok(_) => {
            let none: Vec<Json> = Vec::new();
            proof {
                assert(none@ =~= Seq::<Json>::empty());
            }
            Ok(none)
        },
        Err(e) => Err(e),
    }
}

impl<T: Transport> BinanceFutures<T> {
    fn place_one(&mut self, symbol: &str, kind: &str, trigger: Dec, qty: Dec) -> (r: Result<
        (),
        ExchangeError,
    >)
        ensures
            forall|w: HttpWorld| #[trigger]
                answers(w, final(self)@.log) ==> answers(w, old(self)@.log) && protect_one_run(
                    w,
                    old(self)@,
                    symbol@,
                    kind@,
                    trigger,
                    qty,
                ) == (HttpRun { c: final(self)@, out: plain(r) }),
    {
        let price = fmt_fixed(trigger);
        let size = fmt_fixed(qty);
        let mut p: Params = one_param(symbol);
        p.insert("side", "SELL");
        p.insert("type", kind);
        p.insert("algoType", "CONDITIONAL");
        p.insert("triggerPrice", price.as_str());
        p.insert("workingType", "MARK_PRICE");
        p.insert("quantity", size.as_str());
        p.insert("reduceOnly", "true");
        let e: ExchangeError = match self.signed_request(Method::Post, "/fapi/v1/algoOrder", &p) {
            Ok(_) => return Ok(()),
            Err(e) => e,
        };
        let t = e.0.as_str().to_ascii_lowercase();
        if contains(t.as_str(), "-4130") || contains(
            t.as_str(),
            "closeposition in the direction",
        ) {
            return Ok(());
        }
        if !(contains(t.as_str(), "-2026") || contains(t.as_str(), "reduceonly order type")) {
            return Err(e);
        }
        let mut q: Params = one_param(symbol);
        q.insert("side", "SELL");
        q.insert("type", kind);
        q.insert("stopPrice", price.as_str());
        q.insert("quantity", size.as_str());
        q.insert("reduceOnly", "true");
        q.insert("workingType", "MARK_PRICE");
        match self.signed_request(Method::Post, "/fapi/v1/order", &q) {
            Ok(_) => Ok(()),
            Err(again) => {
                let u = again.0.as_str().to_ascii_lowercase();
                if contains(u.as_str(), "-4130") || contains(
                    u.as_str(),
                    "closeposition in the direction",
                ) {
                    Ok(())
                } else {
                    Err(again)
                }
            },
        }
    }

    /// The rows of the day.
    pub fn ticker_24h(&mut self) -> (r: Result<Vec<Ticker>, ExchangeError>)
        ensures
            forall|w: HttpWorld| #[trigger]
                answers(w, final(self)@.log) ==> answers(w, old(self)@.log) && ({
                    let a = get_run(w, old(self)@, "/fapi/v1/ticker/24hr"@, Seq::empty());
                    &&& a.c == final(self)@
                    &&& match (r, a.out) {
                        (Ok(v), Ok(raw)) => reads_tickers(v@, raw),
                        (Err(e), Err(t)) => e@ == t,
                        _ => false,
                    }
                }),
    {
        let none = "";
        proof {
            reveal_strlit("");
            assert(none@ =~= Seq::<char>::empty());
        }
        match self.public_get("/fapi/v1/ticker/24hr", none) {
            Ok(raw) => Ok(parse_tickers(&raw)),
            Err(e) => Err(e),
        }
    }

    pub fn account(&mut self) -> (r: Result<Json, ExchangeError>)
        ensures
            forall|w: HttpWorld| #[trigger]
                answers(w, final(self)@.log) ==> answers(w, old(self)@.log) && request_run(
                    w,
                    old(self)@,
                    Method::Get,
                    "/fapi/v2/account"@,
                    no_params(),
                ) == (HttpRun { c: final(self)@, out: plain(r) }),
    {
        self.signed_request(Method::Get, "/fapi/v2/account", &Params::new())
    }

    /// The rows of the open positions.
    pub fn position_risk(&mut self) -> (r: Result<Json, ExchangeError>)
        ensures
            forall|w: HttpWorld| #[trigger]
                answers(w, final(self)@.log) ==> answers(w, old(self)@.log) && request_run(
                    w,
                    old(self)@,
                    Method::Get,
                    "/fapi/v2/positionRisk"@,
                    no_params(),
                ) == (HttpRun { c: final(self)@, out: plain(r) }),
    {
        self.signed_request(Method::Get, "/fapi/v2/positionRisk", &Params::new())
    }

    pub fn balances(&mut self) -> (r: Result<Json, ExchangeError>)
        ensures
            forall|w: HttpWorld| #[trigger]
                answers(w, final(self)@.log) ==> answers(w, old(self)@.log) && request_run(
                    w,
                    old(self)@,
                    Method::Get,
                    "/fapi/v2/balance"@,
                    no_params(),
                ) == (HttpRun { c: final(self)@, out: plain(r) }),
    {
        self.signed_request(Method::Get, "/fapi/v2/balance", &Params::new())
    }

    /// The candles of a symbol that can be read.
    pub fn klines(&mut self, symbol: &str, interval: &str, limit: usize) -> (r: Result<
        Vec<Bar>,
        ExchangeError,
    >)
        ensures
            forall|w: HttpWorld| #[trigger]
                answers(w, final(self)@.log) ==> answers(w, old(self)@.log) && ({
                    let a = get_run(
                        w,
                        old(self)@,
                        "/fapi/v1/klines"@,
                        klines_query(symbol@, interval@, limit as int),
                    );
                    &&& a.c == final(self)@
                    &&& match (r, a.out) {
                        (Ok(v), Ok(raw)) => v@ == document_bars(raw),
                        (Err(e), Err(t)) => e@ == t,
                        _ => false,
                    }
                }),
    {
        let mut q = own("symbol=");
        q.append(symbol);
        q.append("&interval=");
        q.append(interval);
        q.append("&limit=");
        q.append(print_u64(limit as u64).as_str());
        match self.public_get("/fapi/v1/klines", q.as_str()) {
            Ok(raw) => Ok(bars_from_raw(&raw)),
            Err(e) => Err(e),
        }
    }
}

/// The query for candles.
pub open spec fn klines_query(symbol: Seq<char>, interval: Seq<char>, limit: int) -> Seq<char> {
    "symbol="@ + symbol + "&interval="@ + interval + "&limit="@ + int_text(limit)
}

impl<T: Transport> LiveClient for BinanceFutures<T> {
    fn filters_for(&mut self, symbol: &str) -> (r: Result<SymbolFilters, ExchangeError>)
        ensures
            forall|w: HttpWorld| #[trigger]
                answers(w, final(self)@.log) ==> answers(w, old(self)@.log) && filters_run(
                    w,
                    old(self)@,
                    symbol@,
                ) == (HttpRun { c: final(self)@, out: plain(r) }),
    {
        let none = "";
        proof {
            reveal_strlit("");
            assert(none@ =~= Seq::<char>::empty());
        }
        match self.public_get("/fapi/v1/exchangeInfo", none) {
            Ok(raw) => parse_filters(&raw, symbol),
            Err(e) => Err(e),
        }
    }

    fn market_buy(&mut self, symbol: &str, qty: Dec) -> (r: Result<(), ExchangeError>)
        ensures
            forall|w: HttpWorld| #[trigger]
                answers(w, final(self)@.log) ==> answers(w, old(self)@.log) && ({
                    let a = request_run(
                        w,
                        old(self)@,
                        Method::Post,
                        "/fapi/v1/order"@,
                        market_params(symbol@, "BUY"@, qty),
                    );
                    a.c == final(self)@ && only_done(a.out) == plain(r)
                }),
    {
        let p: Params = market_order(symbol, "BUY", qty);
        drop_answer(self.signed_request(Method::Post, "/fapi/v1/order", &p))
    }

    fn place_tp_sl(
        &mut self,
        symbol: &str,
        take_profit: Dec,
        stop_loss: Dec,
        qty: Option<Dec>,
    ) -> (r: Result<(), ExchangeError>)
        ensures
            forall|w: HttpWorld| #[trigger]
                answers(w, final(self)@.log) ==> answers(w, old(self)@.log) && place_run(
                    w,
                    old(self)@,
                    symbol@,
                    take_profit,
                    stop_loss,
                    qty,
                ) == (HttpRun { c: final(self)@, out: plain(r) }),
    {
        let f: SymbolFilters = match self.filters_for(symbol) {
            Ok(f) => f,
            Err(e) => return Err(e),
        };
        let p: Protection = match protective_orders(&f, take_profit, stop_loss, qty) {
            Ok(p) => p,
            Err(e) => return Err(e),
        };
        match self.place_one(symbol, "STOP_MARKET", p.stop_loss, p.qty) {
            Ok(_) => {},
            Err(e) => return Err(e),
        }
        self.place_one(symbol, "TAKE_PROFIT_MARKET", p.take_profit, p.qty)
    }

    fn replace_stop(
        &mut self,
        symbol: &str,
        stop_loss: Dec,
        take_profit: Option<Dec>,
        qty: Option<Dec>,
    ) -> (r: Result<(), ExchangeError>)
        ensures
            forall|w: HttpWorld| #[trigger]
                answers(w, final(self)@.log) ==> answers(w, old(self)@.log) && replace_run(
                    w,
                    old(self)@,
                    symbol@,
                    stop_loss,
                    take_profit,
                    qty,
                ) == (HttpRun { c: final(self)@, out: plain(r) }),
    {
        let tp: Dec = match take_profit {
            Some(d) => d,
            None => return Err(
                fault("refuse replace_stop without take_profit (would drop TP)"),
            ),
        };
        let _ = self.cancel_protectives(symbol);
        self.place_tp_sl(symbol, tp, stop_loss, qty)
    }

    fn set_leverage(&mut self, symbol: &str, leverage: i32) -> (r: Result<(), ExchangeError>)
        ensures
            forall|w: HttpWorld| #[trigger]
                answers(w, final(self)@.log) ==> answers(w, old(self)@.log) && ({
                    let a = request_run(
                        w,
                        old(self)@,
                        Method::Post,
                        "/fapi/v1/leverage"@,
                        put_param(symbol_params(symbol@), "leverage"@, int_text(leverage as int)),
                    );
                    a.c == final(self)@ && only_done(a.out) == plain(r)
                }),
    {
        let mut p: Params = one_param(symbol);
        p.insert("leverage", print_i64(leverage as i64).as_str());
        drop_answer(self.signed_request(Method::Post, "/fapi/v1/leverage", &p))
    }

    fn open_algo_orders(&mut self, symbol: Option<&str>) -> (r: Result<Vec<Json>, ExchangeError>)
        ensures
            forall|w: HttpWorld| #[trigger]
                answers(w, final(self)@.log) ==> answers(w, old(self)@.log) && ({
                    let a = request_run(
                        w,
                        old(self)@,
                        Method::Get,
                        "/fapi/v1/openAlgoOrders"@,
                        listing_params(crate::wire::opt_text(symbol)),
                    );
                    a.c == final(self)@ && rows_in(a.out) == crate::wire::listing(r)
                }),
    {
        let mut p: Params = Params::new();
        if let Some(s) = symbol {
            p.insert("symbol", s);
        }
        take_rows(self.signed_request(Method::Get, "/fapi/v1/openAlgoOrders", &p))
    }

    fn open_orders(&mut self, symbol: Option<&str>) -> (r: Result<Vec<Json>, ExchangeError>)
        ensures
            forall|w: HttpWorld| #[trigger]
                answers(w, final(self)@.log) ==> answers(w, old(self)@.log) && ({
                    let a = request_run(
                        w,
                        old(self)@,
                        Method::Get,
                        "/fapi/v1/openOrders"@,
                        listing_params(crate::wire::opt_text(symbol)),
                    );
                    a.c == final(self)@ && rows_in(a.out) == crate::wire::listing(r)
                }),
    {
        let mut p: Params = Params::new();
        if let Some(s) = symbol {
            p.insert("symbol", s);
        }
        take_rows(self.signed_request(Method::Get, "/fapi/v1/openOrders", &p))
    }
}

impl<T: Transport> SnapshotClient for BinanceFutures<T> {
    fn ticker_24h(&mut self) -> (r: Result<Vec<Ticker>, ExchangeError>)
        ensures
            forall|w: HttpWorld| #[trigger]
                answers(w, final(self)@.log) ==> answers(w, old(self)@.log) && ({
                    let a = get_run(w, old(self)@, "/fapi/v1/ticker/24hr"@, Seq::empty());
                    &&& a.c == final(self)@
                    &&& match (r, a.out) {
                        (Ok(v), Ok(raw)) => reads_tickers(v@, raw),
                        (Err(e), Err(t)) => e@ == t,
                        _ => false,
                    }
                }),
    {
        BinanceFutures::ticker_24h(self)
    }

    fn klines(&mut self, symbol: &str, interval: &str, limit: usize) -> (r: Result<
        Vec<Bar>,
        ExchangeError,
    >)
        ensures
            forall|w: HttpWorld| #[trigger]
                answers(w, final(self)@.log) ==> answers(w, old(self)@.log) && ({
                    let a = get_run(
                        w,
                        old(self)@,
                        "/fapi/v1/klines"@,
                        klines_query(symbol@, interval@, limit as int),
                    );
                    &&& a.c == final(self)@
                    &&& match (r, a.out) {
                        (Ok(v), Ok(raw)) => v@ == document_bars(raw),
                        (Err(e), Err(t)) => e@ == t,
                        _ => false,
                    }
                }),
    {
        BinanceFutures::klines(self, symbol, interval, limit)
    }

    fn account(&mut self) -> (r: Result<Json, ExchangeError>)
        ensures
            forall|w: HttpWorld| #[trigger]
                answers(w, final(self)@.log) ==> answers(w, old(self)@.log) && request_run(
                    w,
                    old(self)@,
                    Method::Get,
                    "/fapi/v2/account"@,
                    no_params(),
                ) == (HttpRun { c: final(self)@, out: plain(r) }),
    {
        BinanceFutures::account(self)
    }

    fn balances(&mut self) -> (r: Result<Json, ExchangeError>)
        ensures
            forall|w: HttpWorld| #[trigger]
                answers(w, final(self)@.log) ==> answers(w, old(self)@.log) && request_run(
                    w,
                    old(self)@,
                    Method::Get,
                    "/fapi/v2/balance"@,
                    no_params(),
                ) == (HttpRun { c: final(self)@, out: plain(r) }),
    {
        BinanceFutures::balances(self)
    }

    fn position_risk(&mut self) -> (r: Result<Json, ExchangeError>)
        ensures
            forall|w: HttpWorld| #[trigger]
                answers(w, final(self)@.log) ==> answers(w, old(self)@.log) && request_run(
                    w,
                    old(self)@,
                    Method::Get,
                    "/fapi/v2/positionRisk"@,
                    no_params(),
                ) == (HttpRun { c: final(self)@, out: plain(r) }),
    {
        BinanceFutures::position_risk(self)
    }
}

/// Without a quantity no protective order is sent: only the filters are asked
/// for, and the call fails.
pub proof fn law_no_protection_without_a_quantity(
    w: HttpWorld,
    c: ClientView,
    symbol: Seq<char>,
    take_profit: Dec,
    stop_loss: Dec,
    qty: Option<Dec>,
)
    requires
        qty is None || !qty->0.pos(),
    ensures
        place_run(w, c, symbol, take_profit, stop_loss, qty).out is Err,
        place_run(w, c, symbol, take_profit, stop_loss, qty).c == get_run(
            w,
            c,
            "/fapi/v1/exchangeInfo"@,
            Seq::empty(),
        ).c,
{
}

/// Without a take-profit a stop is not replaced: nothing is asked at all.
pub proof fn law_replacing_keeps_the_take_profit(
    w: HttpWorld,
    c: ClientView,
    symbol: Seq<char>,
    stop_loss: Dec,
    qty: Option<Dec>,
)
    ensures
        replace_run(w, c, symbol, stop_loss, None, qty).c == c,
        replace_run(w, c, symbol, stop_loss, None, qty).out is Err,
{
}

/// Protective orders that are sent have a positive quantity, and the stop is
/// positive and below the take-profit.
pub proof fn law_protection_brackets_the_position(
    f: SymbolFilters,
    take_profit: Dec,
    stop_loss: Dec,
    qty: Option<Dec>,
)
    ensures
        match protection_of(f, take_profit, stop_loss, qty) {
            Ok(p) => p.qty.pos() && p.stop_loss.pos() && !p.take_profit.le(p.stop_loss),
            Err(_) => true,
        },
{
}

/// Without a secret a signed request asks nothing.
pub proof fn law_nothing_is_signed_without_a_secret(
    w: HttpWorld,
    c: ClientView,
    method: Method,
    path: Seq<char>,
    p: Seq<(Seq<char>, Seq<char>)>,
)
    requires
        c.api_secret is None,
    ensures
        request_run(w, c, method, path, p) == (HttpRun::<Result<Json, Seq<char>>> {
            c,
            out: Err("no api secret"@),
        }),
{
}

proof fn lemma_param_names()
    ensures
        "symbol"@ != "side"@,
        "symbol"@ != "type"@,
        "symbol"@ != "quantity"@,
        "symbol"@ != "newOrderRespType"@,
        "symbol"@ != "reduceOnly"@,
        "symbol"@ != "algoType"@,
        "symbol"@ != "triggerPrice"@,
        "symbol"@ != "workingType"@,
        "symbol"@ != "stopPrice"@,
        "side"@ != "type"@,
        "side"@ != "quantity"@,
        "side"@ != "newOrderRespType"@,
        "side"@ != "reduceOnly"@,
        "side"@ != "algoType"@,
        "side"@ != "triggerPrice"@,
        "side"@ != "workingType"@,
        "side"@ != "stopPrice"@,
        "type"@ != "quantity"@,
        "type"@ != "newOrderRespType"@,
        "type"@ != "reduceOnly"@,
        "type"@ != "algoType"@,
        "type"@ != "triggerPrice"@,
        "type"@ != "workingType"@,
        "type"@ != "stopPrice"@,
        "quantity"@ != "newOrderRespType"@,
        "quantity"@ != "reduceOnly"@,
        "quantity"@ != "workingType"@,
        "triggerPrice"@ != "workingType"@,
        "triggerPrice"@ != "quantity"@,
        "triggerPrice"@ != "reduceOnly"@,
        "stopPrice"@ != "quantity"@,
        "stopPrice"@ != "reduceOnly"@,
        "stopPrice"@ != "workingType"@,
        "reduceOnly"@ != "workingType"@,
        "reduceOnly"@ != "newOrderRespType"@,
{
    reveal_strlit("symbol");
    reveal_strlit("side");
    reveal_strlit("type");
    reveal_strlit("quantity");
    reveal_strlit("newOrderRespType");
    reveal_strlit("reduceOnly");
    reveal_strlit("algoType");
    reveal_strlit("triggerPrice");
    reveal_strlit("workingType");
    reveal_strlit("stopPrice");
    assert("side"@[0] != "type"@[0]);
    assert("quantity"@[0] != "algoType"@[0]);
    assert("workingType"@.len() == 11 && "stopPrice"@.len() == 9 && "triggerPrice"@.len() == 12);
    assert("symbol"@.len() == 6 && "side"@.len() == 4 && "type"@.len() == 4);
    assert("quantity"@.len() == 8 && "newOrderRespType"@.len() == 16 && "reduceOnly"@.len() == 10);
    assert("algoType"@.len() == 8);
}

/// What a market order says: the symbol, the side it is asked for, that it goes to
/// market, and the whole quantity.
pub proof fn law_market_order_params(symbol: Seq<char>, side: Seq<char>, qty: Dec)
    ensures
        ({
            let p = market_params(symbol, side, qty);
            &&& param_of(p, "symbol"@) == Some(symbol)
            &&& param_of(p, "side"@) == Some(side)
            &&& param_of(p, "type"@) == Some("MARKET"@)
            &&& param_of(p, "quantity"@) == Some(fixed_text(qty))
            &&& param_of(p, "reduceOnly"@) is None
            &&& keys_rise(p)
        }),
{
    lemma_param_names();
    let p0 = no_params();
    let p1 = put_param(p0, "symbol"@, symbol);
    let p2 = put_param(p1, "side"@, side);
    let p3 = put_param(p2, "type"@, "MARKET"@);
    let p4 = put_param(p3, "quantity"@, fixed_text(qty));
    assert(p0.len() == 0);
    assert(param_of(p0, "reduceOnly"@) is None);
    law_params_read_back(p0, "symbol"@, symbol, "reduceOnly"@);
    law_params_read_back(p1, "side"@, side, "symbol"@);
    law_params_read_back(p1, "side"@, side, "reduceOnly"@);
    law_params_read_back(p2, "type"@, "MARKET"@, "symbol"@);
    law_params_read_back(p2, "type"@, "MARKET"@, "side"@);
    law_params_read_back(p2, "type"@, "MARKET"@, "reduceOnly"@);
    law_params_read_back(p3, "quantity"@, fixed_text(qty), "symbol"@);
    law_params_read_back(p3, "quantity"@, fixed_text(qty), "side"@);
    law_params_read_back(p3, "quantity"@, fixed_text(qty), "type"@);
    law_params_read_back(p3, "quantity"@, fixed_text(qty), "reduceOnly"@);
    law_params_read_back(p4, "newOrderRespType"@, "RESULT"@, "symbol"@);
    law_params_read_back(p4, "newOrderRespType"@, "RESULT"@, "side"@);
    law_params_read_back(p4, "newOrderRespType"@, "RESULT"@, "type"@);
    law_params_read_back(p4, "newOrderRespType"@, "RESULT"@, "quantity"@);
    law_params_read_back(p4, "newOrderRespType"@, "RESULT"@, "reduceOnly"@);
}

/// What closes a position: a long is sold and a short bought back, at market, for
/// the whole quantity, and the order may only reduce.
pub proof fn law_close_order_params(symbol: Seq<char>, qty: Dec)
    ensures
        ({
            let p = close_params(symbol, "LONG"@, qty);
            &&& param_of(p, "side"@) == Some("SELL"@)
            &&& param_of(p, "symbol"@) == Some(symbol)
            &&& param_of(p, "type"@) == Some("MARKET"@)
            &&& param_of(p, "quantity"@) == Some(fixed_text(qty))
            &&& param_of(p, "reduceOnly"@) == Some("true"@)
        }),
        param_of(close_params(symbol, "SHORT"@, qty), "side"@) == Some("BUY"@),
        param_of(close_params(symbol, "SHORT"@, qty), "reduceOnly"@) == Some("true"@),
{
    lemma_param_names();
    assert(lower("SHORT"@) != lower("LONG"@)) by {
        reveal_strlit("SHORT");
        reveal_strlit("LONG");
        assert(lower("SHORT"@).len() != lower("LONG"@).len());
    }
    let a = market_params(symbol, "SELL"@, qty);
    let b = market_params(symbol, "BUY"@, qty);
    law_market_order_params(symbol, "SELL"@, qty);
    law_market_order_params(symbol, "BUY"@, qty);
    law_params_read_back(a, "reduceOnly"@, "true"@, "side"@);
    law_params_read_back(a, "reduceOnly"@, "true"@, "symbol"@);
    law_params_read_back(a, "reduceOnly"@, "true"@, "type"@);
    law_params_read_back(a, "reduceOnly"@, "true"@, "quantity"@);
    law_params_read_back(b, "reduceOnly"@, "true"@, "side"@);
}

/// What a protective order says: it sells, of the kind it is asked for, for the
/// whole quantity, at its trigger, and may only reduce.
pub proof fn law_protective_order_params(symbol: Seq<char>, kind: Seq<char>, trigger: Dec, qty: Dec)
    ensures
        ({
            let p = conditional_params(symbol, kind, trigger, qty);
            &&& param_of(p, "symbol"@) == Some(symbol)
            &&& param_of(p, "side"@) == Some("SELL"@)
            &&& param_of(p, "type"@) == Some(kind)
            &&& param_of(p, "triggerPrice"@) == Some(fixed_text(trigger))
            &&& param_of(p, "quantity"@) == Some(fixed_text(qty))
            &&& param_of(p, "reduceOnly"@) == Some("true"@)
        }),
        ({
            let p = plain_params(symbol, kind, trigger, qty);
            &&& param_of(p, "symbol"@) == Some(symbol)
            &&& param_of(p, "side"@) == Some("SELL"@)
            &&& param_of(p, "type"@) == Some(kind)
            &&& param_of(p, "stopPrice"@) == Some(fixed_text(trigger))
            &&& param_of(p, "quantity"@) == Some(fixed_text(qty))
            &&& param_of(p, "reduceOnly"@) == Some("true"@)
        }),
{
    lemma_param_names();
    let t = fixed_text(trigger);
    let q = fixed_text(qty);
    let p0 = no_params();
    let p1 = put_param(p0, "symbol"@, symbol);
    let p2 = put_param(p1, "side"@, "SELL"@);
    let p3 = put_param(p2, "type"@, kind);
    law_params_read_back(p0, "symbol"@, symbol, "side"@);
    law_params_read_back(p1, "side"@, "SELL"@, "symbol"@);
    law_params_read_back(p2, "type"@, kind, "symbol"@);
    law_params_read_back(p2, "type"@, kind, "side"@);
    let c4 = put_param(p3, "algoType"@, "CONDITIONAL"@);
    let c5 = put_param(c4, "triggerPrice"@, t);
    let c6 = put_param(c5, "workingType"@, "MARK_PRICE"@);
    let c7 = put_param(c6, "quantity"@, q);
    lemma_keeps_three(p3, "algoType"@, "CONDITIONAL"@);
    lemma_keeps_three(c4, "triggerPrice"@, t);
    lemma_keeps_three(c5, "workingType"@, "MARK_PRICE"@);
    law_params_read_back(c5, "workingType"@, "MARK_PRICE"@, "triggerPrice"@);
    lemma_keeps_three(c6, "quantity"@, q);
    law_params_read_back(c6, "quantity"@, q, "triggerPrice"@);
    lemma_keeps_three(c7, "reduceOnly"@, "true"@);
    law_params_read_back(c7, "reduceOnly"@, "true"@, "triggerPrice"@);
    law_params_read_back(c7, "reduceOnly"@, "true"@, "quantity"@);
    let d4 = put_param(p3, "stopPrice"@, t);
    let d5 = put_param(d4, "quantity"@, q);
    let d6 = put_param(d5, "reduceOnly"@, "true"@);
    lemma_keeps_three(p3, "stopPrice"@, t);
    lemma_keeps_three(d4, "quantity"@, q);
    law_params_read_back(d4, "quantity"@, q, "stopPrice"@);
    lemma_keeps_three(d5, "reduceOnly"@, "true"@);
    law_params_read_back(d5, "reduceOnly"@, "true"@, "stopPrice"@);
    law_params_read_back(d5, "reduceOnly"@, "true"@, "quantity"@);
    lemma_keeps_three(d6, "workingType"@, "MARK_PRICE"@);
    law_params_read_back(d6, "workingType"@, "MARK_PRICE"@, "stopPrice"@);
    law_params_read_back(d6, "workingType"@, "MARK_PRICE"@, "quantity"@);
    law_params_read_back(d6, "workingType"@, "MARK_PRICE"@, "reduceOnly"@);
}

proof fn lemma_keeps_three(p: Seq<(Seq<char>, Seq<char>)>, k: Seq<char>, v: Seq<char>)
    requires
        keys_rise(p),
        k != "symbol"@,
        k != "side"@,
        k != "type"@,
    ensures
        keys_rise(put_param(p, k, v)),
        param_of(put_param(p, k, v), k) == Some(v),
        param_of(put_param(p, k, v), "symbol"@) == param_of(p, "symbol"@),
        param_of(put_param(p, k, v), "side"@) == param_of(p, "side"@),
        param_of(put_param(p, k, v), "type"@) == param_of(p, "type"@),
{
    law_params_read_back(p, k, v, "symbol"@);
    law_params_read_back(p, k, v, "side"@);
    law_params_read_back(p, k, v, "type"@);
}

/// How protective prices are moved to the exchange's steps: the take-profit up, the
/// stop and the quantity down.
pub proof fn law_protection_is_rounded_outwards(
    f: SymbolFilters,
    take_profit: Dec,
    stop_loss: Dec,
    qty: Dec,
)
    requires
        protection_of(f, take_profit, stop_loss, Some(qty)) is Ok,
    ensures
        ({
            let p = protection_of(f, take_profit, stop_loss, Some(qty))->Ok_0;
            &&& Some(p.take_profit) == quantized(take_profit, f.tick_size, true)
            &&& Some(p.stop_loss) == quantized(stop_loss, f.tick_size, false)
            &&& Some(p.qty) == quantized(qty, f.step_size, false)
            &&& qty.pos() && p.qty.pos() && p.stop_loss.pos() && p.stop_loss.lt(p.take_profit)
        }),
{
}

/// Where a long's protection goes: one order of the stop kind at the stop, then one
/// of the take-profit kind at the take-profit, both for the quantity.
pub proof fn law_protection_places_the_stop_first(
    w: HttpWorld,
    c: ClientView,
    symbol: Seq<char>,
    take_profit: Dec,
    stop_loss: Dec,
    qty: Option<Dec>,
    f: SymbolFilters,
    p: Protection,
)
    requires
        filters_run(w, c, symbol).out == Ok::<SymbolFilters, Seq<char>>(f),
        protection_of(f, take_profit, stop_loss, qty) == Ok::<Protection, Seq<char>>(p),
    ensures
        ({
            let a = filters_run(w, c, symbol).c;
            let stop = protect_one_run(w, a, symbol, "STOP_MARKET"@, p.stop_loss, p.qty);
            let r = place_run(w, c, symbol, take_profit, stop_loss, qty);
            &&& stop.out is Err ==> r.out == stop.out && r.c == stop.c
            &&& stop.out is Ok ==> r == protect_one_run(
                w,
                stop.c,
                symbol,
                "TAKE_PROFIT_MARKET"@,
                p.take_profit,
                p.qty,
            )
        }),
{
}

} // verus!

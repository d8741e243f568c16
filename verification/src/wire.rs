//! What the desk asks of an exchange, and a record of what it asked.
//!
//! An exchange answers as it likes. So what a sequence of orders comes to is
//! stated for every way in which the exchange may answer: a `World` says the
//! reply to the n-th question, and a run is what the desk does in that world.
use crate::dec::Dec;
use crate::exchange::{parse_positions, reads_positions, ExchangeError, SymbolFilters};
use crate::json::Json;
use crate::models::{Bar, Position, Ticker};
use crate::text::{own, views};
use vstd::prelude::*;

verus! {

/// Market data and the signed book, as a snapshot needs them.
pub trait SnapshotClient {
    fn ticker_24h(&mut self) -> Result<Vec<Ticker>, ExchangeError>;

    fn klines(&mut self, symbol: &str, interval: &str, limit: usize) -> Result<
        Vec<Bar>,
        ExchangeError,
    >;

    fn account(&mut self) -> Result<Json, ExchangeError>;

    fn balances(&mut self) -> Result<Json, ExchangeError> {
        Err(ExchangeError(own("balances not supported")))
    }

    fn position_risk(&mut self) -> Result<Json, ExchangeError>;

    fn tradfi_symbols(&mut self) -> Result<Vec<String>, ExchangeError> {
        Ok(Vec::new())
    }
}

/// What closing positions needs.
pub trait FlattenClient {
    fn cancel_protectives(&mut self, symbol: &str) -> Result<(), ExchangeError>;

    fn market_close(&mut self, symbol: &str, side: &str, qty: Dec) -> Result<(), ExchangeError>;

    fn position_risk(&mut self) -> Result<Json, ExchangeError>;
}

/// What live trading needs.
pub trait LiveClient: FlattenClient {
    fn filters_for(&mut self, symbol: &str) -> Result<SymbolFilters, ExchangeError>;

    fn market_buy(&mut self, symbol: &str, qty: Dec) -> Result<(), ExchangeError>;

    fn place_tp_sl(
        &mut self,
        symbol: &str,
        take_profit: Dec,
        stop_loss: Dec,
        qty: Option<Dec>,
    ) -> Result<(), ExchangeError>;

    fn replace_stop(
        &mut self,
        symbol: &str,
        stop_loss: Dec,
        take_profit: Option<Dec>,
        qty: Option<Dec>,
    ) -> Result<(), ExchangeError>;

    fn set_leverage(&mut self, _symbol: &str, _leverage: i32) -> Result<(), ExchangeError> {
        Ok(())
    }

    fn max_notional(&mut self, _symbol: &str, _leverage: i32) -> Result<Option<Dec>, ExchangeError> {
        Ok(None)
    }

    fn open_algo_orders(&mut self, _symbol: Option<&str>) -> Result<Vec<Json>, ExchangeError> {
        Ok(Vec::new())
    }

    fn open_orders(&mut self, _symbol: Option<&str>) -> Result<Vec<Json>, ExchangeError> {
        Ok(Vec::new())
    }
}

/// A question to the exchange.
#[allow(inconsistent_fields)]
pub enum Call {
    CancelProtectives { symbol: Seq<char> },
    MarketClose { symbol: Seq<char>, side: Seq<char>, qty: Dec },
    PositionRisk,
    FiltersFor { symbol: Seq<char> },
    MarketBuy { symbol: Seq<char>, qty: Dec },
    PlaceTpSl { symbol: Seq<char>, take_profit: Dec, stop_loss: Dec, qty: Option<Dec> },
    ReplaceStop {
        symbol: Seq<char>,
        stop_loss: Dec,
        take_profit: Option<Dec>,
        qty: Option<Dec>,
    },
    SetLeverage { symbol: Seq<char>, leverage: i32 },
    MaxNotional { symbol: Seq<char>, leverage: i32 },
    OpenAlgoOrders { symbol: Option<Seq<char>> },
    OpenOrders { symbol: Option<Seq<char>> },
    Tickers,
    Klines { symbol: Seq<char>, interval: Seq<char>, limit: usize },
    Account,
    Balances,
    TradfiSymbols,
}

/// An answer of the exchange, errors as texts.
pub enum Reply {
    Done(Result<(), Seq<char>>),
    /// The document of the open positions, and the positions that are read from it.
    Book { raw: Result<Json, Seq<char>>, read: Result<Seq<Position>, Seq<char>> },
    Filters(Result<SymbolFilters, Seq<char>>),
    Cap(Result<Option<Dec>, Seq<char>>),
    Rows(Result<Seq<Json>, Seq<char>>),
    Tickers(Result<Seq<Ticker>, Seq<char>>),
    Bars(Result<Seq<Bar>, Seq<char>>),
    Document(Result<Json, Seq<char>>),
    Names(Result<Seq<Seq<char>>, Seq<char>>),
}

/// A question and its answer.
pub struct Exchange {
    pub call: Call,
    pub reply: Reply,
}

/// A way in which the exchange answers: the reply to the n-th question.
pub type World = spec_fn(int) -> Reply;

/// What a sequence of questions comes to.
pub struct Run<T> {
    pub log: Seq<Exchange>,
    pub out: T,
}

/// Whether a world gives the answers that were given.
pub closed spec fn explains(w: World, log: Seq<Exchange>) -> bool {
    forall|i: int| 0 <= i < log.len() ==> w(i) == (#[trigger] log[i]).reply
}

/// Asks one question in a world.
pub open spec fn ask(w: World, log: Seq<Exchange>, call: Call) -> Run<Reply> {
    let reply = w(log.len() as int);
    Run { log: log.push(Exchange { call, reply }), out: reply }
}

/// Whether one question was asked, and answered so.
pub open spec fn asked(before: Seq<Exchange>, after: Seq<Exchange>, call: Call, reply: Reply) -> bool {
    &&& after == before.push(Exchange { call, reply })
    &&& forall|w: World| #[trigger]
        explains(w, after) ==> explains(w, before) && w(before.len() as int) == reply
}

/// Some world gives the answers that were given.
pub proof fn law_some_world_answers(log: Seq<Exchange>) -> (w: World)
    ensures
        explains(w, log),
{
    |i: int| log[i].reply
}

proof fn lemma_asked(before: Seq<Exchange>, call: Call, reply: Reply)
    ensures
        asked(before, before.push(Exchange { call, reply }), call, reply),
{
    let after = before.push(Exchange { call, reply });
    assert forall|w: World| #[trigger] explains(w, after) implies explains(w, before) && w(
        before.len() as int,
    ) == reply by {
        assert(after[before.len() as int].reply == reply);
        assert forall|i: int| 0 <= i < before.len() implies w(i) == (#[trigger] before[i]).reply by {
            assert(after[i] == before[i]);
        }
    }
}

pub open spec fn done(r: Reply) -> Result<(), Seq<char>> {
    match r {
        Reply::Done(x) => x,
        _ => Err(""@),
    }
}

pub open spec fn book(r: Reply) -> Result<Seq<Position>, Seq<char>> {
    match r {
        Reply::Book { read, .. } => read,
        _ => Err(""@),
    }
}

pub open spec fn filters(r: Reply) -> Result<SymbolFilters, Seq<char>> {
    match r {
        Reply::Filters(x) => x,
        _ => Err(""@),
    }
}

pub open spec fn cap(r: Reply) -> Result<Option<Dec>, Seq<char>> {
    match r {
        Reply::Cap(x) => x,
        _ => Err(""@),
    }
}

pub open spec fn rows(r: Reply) -> Result<Seq<Json>, Seq<char>> {
    match r {
        Reply::Rows(x) => x,
        _ => Err(""@),
    }
}

pub open spec fn tickers(r: Reply) -> Result<Seq<Ticker>, Seq<char>> {
    match r {
        Reply::Tickers(x) => x,
        _ => Err(""@),
    }
}

pub open spec fn bars(r: Reply) -> Result<Seq<Bar>, Seq<char>> {
    match r {
        Reply::Bars(x) => x,
        _ => Err(""@),
    }
}

pub open spec fn document(r: Reply) -> Result<Json, Seq<char>> {
    match r {
        Reply::Document(x) => x,
        _ => Err(""@),
    }
}

pub open spec fn names(r: Reply) -> Result<Seq<Seq<char>>, Seq<char>> {
    match r {
        Reply::Names(x) => x,
        _ => Err(""@),
    }
}

/// A result with its error as a text.
pub open spec fn plain<T>(r: Result<T, ExchangeError>) -> Result<T, Seq<char>> {
    match r {
        Ok(x) => Ok(x),
        Err(e) => Err(e@),
    }
}

/// A result that is a list, with its error as a text.
pub open spec fn listing<T>(r: Result<Vec<T>, ExchangeError>) -> Result<Seq<T>, Seq<char>> {
    match r {
        Ok(v) => Ok(v@),
        Err(e) => Err(e@),
    }
}

/// An optional text as characters.
pub open spec fn opt_text(s: Option<&str>) -> Option<Seq<char>> {
    match s {
        Some(t) => Some(t@),
        None => None,
    }
}

/// Whether the positions that were read are those of the exchange's document.
pub open spec fn read_from(raw: Result<Json, ExchangeError>, r: Result<Vec<Position>, ExchangeError>) -> bool {
    match (raw, r) {
        (Err(a), Err(b)) => a@ == b@,
        (Err(_), Ok(_)) => false,
        (Ok(Json::List(rows)), Ok(v)) => reads_positions(v@, rows@),
        (Ok(Json::List(_)), Err(_)) => false,
        (Ok(_), Ok(_)) => false,
        (Ok(_), Err(e)) => e@ == "position payload is not a list"@,
    }
}

/// Whether the open positions were asked for, and `r` was read from the document that
/// was answered.
pub open spec fn asked_book(
    before: Seq<Exchange>,
    after: Seq<Exchange>,
    r: Result<Vec<Position>, ExchangeError>,
) -> bool {
    exists|raw: Result<Json, ExchangeError>| #[trigger]
        read_from(raw, r) && asked(
            before,
            after,
            Call::PositionRisk,
            Reply::Book { raw: plain(raw), read: listing(r) },
        )
}

fn read_book(raw: Result<Json, ExchangeError>) -> (r: Result<Vec<Position>, ExchangeError>)
    ensures
        read_from(raw, r),
{
    match raw {
        Ok(doc) => parse_positions(&doc),
        Err(e) => Err(e),
    }
}

/// A client, and what was asked of it.
pub struct Wire<C> {
    client: C,
    log: Ghost<Seq<Exchange>>,
}

impl<C> Wire<C> {
    /// What was asked, and what was answered.
    pub closed spec fn log(&self) -> Seq<Exchange> {
        self.log@
    }

    /// The client as it stands.
    pub closed spec fn held(&self) -> C {
        self.client
    }

    /// A client of which nothing was asked yet.
    pub fn new(client: C) -> (r: Self)
        ensures
            r.log() == Seq::<Exchange>::empty(),
            r.held() == client,
    {
        Wire { client, log: Ghost(Seq::empty()) }
    }

    /// The client.
    pub fn client(&self) -> (r: &C)
        ensures
            *r == self.held(),
    {
        &self.client
    }
}

impl<C: FlattenClient> Wire<C> {
    pub fn cancel_protectives(&mut self, symbol: &str) -> (r: Result<(), ExchangeError>)
        ensures
            asked(
                old(self).log(),
                final(self).log(),
                Call::CancelProtectives { symbol: symbol@ },
                Reply::Done(plain(r)),
            ),
    {
        let r = self.client.cancel_protectives(symbol);
        let ghost x = Exchange {
            call: Call::CancelProtectives { symbol: symbol@ },
            reply: Reply::Done(plain(r)),
        };
        proof {
            lemma_asked(self.log@, x.call, x.reply);
        }
        self.log = Ghost(self.log@.push(x));
        r
    }

    pub fn market_close(&mut self, symbol: &str, side: &str, qty: Dec) -> (r: Result<
        (),
        ExchangeError,
    >)
        ensures
            asked(
                old(self).log(),
                final(self).log(),
                Call::MarketClose { symbol: symbol@, side: side@, qty },
                Reply::Done(plain(r)),
            ),
    {
        let r = self.client.market_close(symbol, side, qty);
        let ghost x = Exchange {
            call: Call::MarketClose { symbol: symbol@, side: side@, qty },
            reply: Reply::Done(plain(r)),
        };
        proof {
            lemma_asked(self.log@, x.call, x.reply);
        }
        self.log = Ghost(self.log@.push(x));
        r
    }

    /// The open positions.
    pub fn fetch_book(&mut self) -> (r: Result<Vec<Position>, ExchangeError>)
        ensures
            asked_book(old(self).log(), final(self).log(), r),
    {
        let raw = self.client.position_risk();
        let ghost doc = raw;
        let r = read_book(raw);
        let ghost x = Exchange {
            call: Call::PositionRisk,
            reply: Reply::Book { raw: plain(doc), read: listing(r) },
        };
        proof {
            lemma_asked(self.log@, x.call, x.reply);
            assert(read_from(doc, r));
        }
        self.log = Ghost(self.log@.push(x));
        r
    }
}

impl<C: LiveClient> Wire<C> {
    pub fn filters_for(&mut self, symbol: &str) -> (r: Result<SymbolFilters, ExchangeError>)
        ensures
            asked(
                old(self).log(),
                final(self).log(),
                Call::FiltersFor { symbol: symbol@ },
                Reply::Filters(plain(r)),
            ),
    {
        let r = self.client.filters_for(symbol);
        let ghost x = Exchange {
            call: Call::FiltersFor { symbol: symbol@ },
            reply: Reply::Filters(plain(r)),
        };
        proof {
            lemma_asked(self.log@, x.call, x.reply);
        }
        self.log = Ghost(self.log@.push(x));
        r
    }

    pub fn market_buy(&mut self, symbol: &str, qty: Dec) -> (r: Result<(), ExchangeError>)
        ensures
            asked(
                old(self).log(),
                final(self).log(),
                Call::MarketBuy { symbol: symbol@, qty },
                Reply::Done(plain(r)),
            ),
    {
        let r = self.client.market_buy(symbol, qty);
        let ghost x = Exchange {
            call: Call::MarketBuy { symbol: symbol@, qty },
            reply: Reply::Done(plain(r)),
        };
        proof {
            lemma_asked(self.log@, x.call, x.reply);
        }
        self.log = Ghost(self.log@.push(x));
        r
    }

    pub fn place_tp_sl(
        &mut self,
        symbol: &str,
        take_profit: Dec,
        stop_loss: Dec,
        qty: Option<Dec>,
    ) -> (r: Result<(), ExchangeError>)
        ensures
            asked(
                old(self).log(),
                final(self).log(),
                Call::PlaceTpSl { symbol: symbol@, take_profit, stop_loss, qty },
                Reply::Done(plain(r)),
            ),
    {
        let r = self.client.place_tp_sl(symbol, take_profit, stop_loss, qty);
        let ghost x = Exchange {
            call: Call::PlaceTpSl { symbol: symbol@, take_profit, stop_loss, qty },
            reply: Reply::Done(plain(r)),
        };
        proof {
            lemma_asked(self.log@, x.call, x.reply);
        }
        self.log = Ghost(self.log@.push(x));
        r
    }

    pub fn replace_stop(
        &mut self,
        symbol: &str,
        stop_loss: Dec,
        take_profit: Option<Dec>,
        qty: Option<Dec>,
    ) -> (r: Result<(), ExchangeError>)
        ensures
            asked(
                old(self).log(),
                final(self).log(),
                Call::ReplaceStop { symbol: symbol@, stop_loss, take_profit, qty },
                Reply::Done(plain(r)),
            ),
    {
        let r = self.client.replace_stop(symbol, stop_loss, take_profit, qty);
        let ghost x = Exchange {
            call: Call::ReplaceStop { symbol: symbol@, stop_loss, take_profit, qty },
            reply: Reply::Done(plain(r)),
        };
        proof {
            lemma_asked(self.log@, x.call, x.reply);
        }
        self.log = Ghost(self.log@.push(x));
        r
    }

    pub fn set_leverage(&mut self, symbol: &str, leverage: i32) -> (r: Result<(), ExchangeError>)
        ensures
            asked(
                old(self).log(),
                final(self).log(),
                Call::SetLeverage { symbol: symbol@, leverage },
                Reply::Done(plain(r)),
            ),
    {
        let r = self.client.set_leverage(symbol, leverage);
        let ghost x = Exchange {
            call: Call::SetLeverage { symbol: symbol@, leverage },
            reply: Reply::Done(plain(r)),
        };
        proof {
            lemma_asked(self.log@, x.call, x.reply);
        }
        self.log = Ghost(self.log@.push(x));
        r
    }

    pub fn max_notional(&mut self, symbol: &str, leverage: i32) -> (r: Result<
        Option<Dec>,
        ExchangeError,
    >)
        ensures
            asked(
                old(self).log(),
                final(self).log(),
                Call::MaxNotional { symbol: symbol@, leverage },
                Reply::Cap(plain(r)),
            ),
    {
        let r = self.client.max_notional(symbol, leverage);
        let ghost x = Exchange {
            call: Call::MaxNotional { symbol: symbol@, leverage },
            reply: Reply::Cap(plain(r)),
        };
        proof {
            lemma_asked(self.log@, x.call, x.reply);
        }
        self.log = Ghost(self.log@.push(x));
        r
    }

    pub fn open_algo_orders(&mut self, symbol: Option<&str>) -> (r: Result<
        Vec<Json>,
        ExchangeError,
    >)
        ensures
            asked(
                old(self).log(),
                final(self).log(),
                Call::OpenAlgoOrders { symbol: opt_text(symbol) },
                Reply::Rows(listing(r)),
            ),
    {
        let r = self.client.open_algo_orders(symbol);
        let ghost x = Exchange {
            call: Call::OpenAlgoOrders { symbol: opt_text(symbol) },
            reply: Reply::Rows(listing(r)),
        };
        proof {
            lemma_asked(self.log@, x.call, x.reply);
        }
        self.log = Ghost(self.log@.push(x));
        r
    }

    pub fn open_orders(&mut self, symbol: Option<&str>) -> (r: Result<Vec<Json>, ExchangeError>)
        ensures
            asked(
                old(self).log(),
                final(self).log(),
                Call::OpenOrders { symbol: opt_text(symbol) },
                Reply::Rows(listing(r)),
            ),
    {
        let r = self.client.open_orders(symbol);
        let ghost x = Exchange {
            call: Call::OpenOrders { symbol: opt_text(symbol) },
            reply: Reply::Rows(listing(r)),
        };
        proof {
            lemma_asked(self.log@, x.call, x.reply);
        }
        self.log = Ghost(self.log@.push(x));
        r
    }
}

/// A list of names, with its error as a text.
pub open spec fn name_list(r: Result<Vec<String>, ExchangeError>) -> Result<
    Seq<Seq<char>>,
    Seq<char>,
> {
    match r {
        Ok(v) => Ok(views(v@)),
        Err(e) => Err(e@),
    }
}

/// A source of market data, and what was asked of it.
pub struct Feed<C> {
    client: C,
    log: Ghost<Seq<Exchange>>,
}

impl<C> Feed<C> {
    /// What was asked, and what was answered.
    pub closed spec fn log(&self) -> Seq<Exchange> {
        self.log@
    }

    /// The client as it stands.
    pub closed spec fn held(&self) -> C {
        self.client
    }

    /// A source of which nothing was asked yet.
    pub fn new(client: C) -> (r: Self)
        ensures
            r.log() == Seq::<Exchange>::empty(),
            r.held() == client,
    {
        Feed { client, log: Ghost(Seq::empty()) }
    }

    /// The client.
    pub fn client(&self) -> (r: &C)
        ensures
            *r == self.held(),
    {
        &self.client
    }
}

impl<C: SnapshotClient> Feed<C> {
    pub fn ticker_24h(&mut self) -> (r: Result<Vec<Ticker>, ExchangeError>)
        ensures
            asked(
                old(self).log(),
                final(self).log(),
                Call::Tickers,
                Reply::Tickers(listing(r)),
            ),
    {
        let r = self.client.ticker_24h();
        let ghost x = Exchange { call: Call::Tickers, reply: Reply::Tickers(listing(r)) };
        proof {
            lemma_asked(self.log@, x.call, x.reply);
        }
        self.log = Ghost(self.log@.push(x));
        r
    }

    pub fn klines(&mut self, symbol: &str, interval: &str, limit: usize) -> (r: Result<
        Vec<Bar>,
        ExchangeError,
    >)
        ensures
            asked(
                old(self).log(),
                final(self).log(),
                Call::Klines { symbol: symbol@, interval: interval@, limit },
                Reply::Bars(listing(r)),
            ),
    {
        let r = self.client.klines(symbol, interval, limit);
        let ghost x = Exchange {
            call: Call::Klines { symbol: symbol@, interval: interval@, limit },
            reply: Reply::Bars(listing(r)),
        };
        proof {
            lemma_asked(self.log@, x.call, x.reply);
        }
        self.log = Ghost(self.log@.push(x));
        r
    }

    pub fn account(&mut self) -> (r: Result<Json, ExchangeError>)
        ensures
            asked(
                old(self).log(),
                final(self).log(),
                Call::Account,
                Reply::Document(plain(r)),
            ),
    {
        let r = self.client.account();
        let ghost x = Exchange { call: Call::Account, reply: Reply::Document(plain(r)) };
        proof {
            lemma_asked(self.log@, x.call, x.reply);
        }
        self.log = Ghost(self.log@.push(x));
        r
    }

    pub fn balances(&mut self) -> (r: Result<Json, ExchangeError>)
        ensures
            asked(
                old(self).log(),
                final(self).log(),
                Call::Balances,
                Reply::Document(plain(r)),
            ),
    {
        let r = self.client.balances();
        let ghost x = Exchange { call: Call::Balances, reply: Reply::Document(plain(r)) };
        proof {
            lemma_asked(self.log@, x.call, x.reply);
        }
        self.log = Ghost(self.log@.push(x));
        r
    }

    /// The open positions.
    pub fn fetch_book(&mut self) -> (r: Result<Vec<Position>, ExchangeError>)
        ensures
            asked_book(old(self).log(), final(self).log(), r),
    {
        let raw = self.client.position_risk();
        let ghost doc = raw;
        let r = read_book(raw);
        let ghost x = Exchange {
            call: Call::PositionRisk,
            reply: Reply::Book { raw: plain(doc), read: listing(r) },
        };
        proof {
            lemma_asked(self.log@, x.call, x.reply);
            assert(read_from(doc, r));
        }
        self.log = Ghost(self.log@.push(x));
        r
    }

    pub fn tradfi_symbols(&mut self) -> (r: Result<Vec<String>, ExchangeError>)
        ensures
            asked(
                old(self).log(),
                final(self).log(),
                Call::TradfiSymbols,
                Reply::Names(name_list(r)),
            ),
    {
        let r = self.client.tradfi_symbols();
        let ghost x = Exchange { call: Call::TradfiSymbols, reply: Reply::Names(name_list(r)) };
        proof {
            lemma_asked(self.log@, x.call, x.reply);
        }
        self.log = Ghost(self.log@.push(x));
        r
    }
}

} // verus!

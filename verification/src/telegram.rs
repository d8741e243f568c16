//! Pings of live trades to a chat: which events are sent, how they read, and what
//! waits to be sent. Opens, closes and flattens only.
use crate::errors::{redact_secrets, redacted};
use crate::journal::{journal_symbol, line_symbol, EventView, TradeEvent};
use crate::json::{json_document, read_document, Json};
use crate::models::opt_view;
use crate::money::{amount, read_amount};
use crate::text::{
    from_chars, int_text, is_digit, own, print_u64, same, split, split_on, strip_start, to_chars, trim,
    trimmed, views, without_start,
};
use vstd::prelude::*;
use vstd::string::StringExecFns;

verus! {

/// How many messages may wait.
pub const QUEUE_CAP: usize = 8;

/// How long a message may be, in bytes.
pub const TEXT_MAX: usize = 3900;

/// A bot and the chat that it writes to.
pub struct TelegramDest {
    bot_token: String,
    chat_id: String,
}

/// A bot and its chat, as texts.
pub struct DestView {
    pub token: Seq<char>,
    pub chat: Seq<char>,
}

impl View for TelegramDest {
    type V = DestView;

    closed spec fn view(&self) -> DestView {
        DestView { token: self.bot_token@, chat: self.chat_id@ }
    }
}

/// Whether every character is a digit.
pub open spec fn digits_only(s: Seq<char>) -> bool {
    forall|i: int| 0 <= i < s.len() ==> is_digit(#[trigger] s[i])
}

pub open spec fn is_secret_char(c: char) -> bool {
    is_digit(c) || 'a' <= c <= 'z' || 'A' <= c <= 'Z' || c == '_' || c == '-'
}

pub open spec fn secret_only(s: Seq<char>) -> bool {
    forall|i: int| 0 <= i < s.len() ==> is_secret_char(#[trigger] s[i])
}

/// A token is a number of 8 to 12 digits, a colon, and a secret of 30 to 50
/// characters.
pub open spec fn is_bot_token(t: Seq<char>) -> bool {
    let p = split(t, ':');
    &&& p.len() == 2
    &&& 8 <= p[0].len() <= 12 && digits_only(p[0])
    &&& 30 <= p[1].len() <= 50 && secret_only(p[1])
}

/// A chat is an integer of 5 to 20 digits.
pub open spec fn is_chat_id(t: Seq<char>) -> bool {
    let s = match without_start(t, "-"@) {
        Some(rest) => rest,
        None => t,
    };
    5 <= s.len() <= 20 && digits_only(s)
}

fn all_digit_chars(s: &str) -> (r: bool)
    ensures
        r == digits_only(s@),
{
    let v: Vec<char> = to_chars(s);
    let mut i: usize = 0;
    while i < v.len()
        invariant
            i <= v@.len(),
            v@ == s@,
            forall|j: int| 0 <= j < i ==> is_digit(#[trigger] s@[j]),
        decreases v@.len() - i,
    {
        let c: char = v[i];
        if !('0' <= c && c <= '9') {
            proof {
                assert(!is_digit(s@[i as int]));
            }
            return false;
        }
        i = i + 1;
    }
    true
}

fn all_secret_chars(s: &str) -> (r: bool)
    ensures
        r == secret_only(s@),
{
    let v: Vec<char> = to_chars(s);
    let mut i: usize = 0;
    while i < v.len()
        invariant
            i <= v@.len(),
            v@ == s@,
            forall|j: int| 0 <= j < i ==> is_secret_char(#[trigger] s@[j]),
        decreases v@.len() - i,
    {
        let c: char = v[i];
        if !(('0' <= c && c <= '9') || ('a' <= c && c <= 'z') || ('A' <= c && c <= 'Z') || c == '_'
            || c == '-') {
            proof {
                assert(!is_secret_char(s@[i as int]));
            }
            return false;
        }
        i = i + 1;
    }
    true
}

fn valid_bot_token(token: &str) -> (r: bool)
    ensures
        r == is_bot_token(token@),
{
    let parts: Vec<String> = split_on(token, ':');
    proof {
        assert(views(parts@).len() == parts@.len());
    }
    if parts.len() != 2 {
        return false;
    }
    let id: &str = parts[0].as_str();
    let secret: &str = parts[1].as_str();
    proof {
        assert(views(parts@)[0] == id@);
        assert(views(parts@)[1] == secret@);
    }
    let n: usize = to_chars(id).len();
    let m: usize = to_chars(secret).len();
    8 <= n && n <= 12 && all_digit_chars(id) && 30 <= m && m <= 50 && all_secret_chars(secret)
}

fn valid_chat_id(id: &str) -> (r: bool)
    ensures
        r == is_chat_id(id@),
{
    let s: &str = match strip_start(id, "-") {
        Some(rest) => rest,
        None => id,
    };
    let n: usize = to_chars(s).len();
    5 <= n && n <= 20 && all_digit_chars(s)
}

impl TelegramDest {
    /// Reads a bot and a chat, white space around them aside.
    pub fn parse(token: &str, chat_id: &str) -> (r: Result<Self, String>)
        ensures
            match r {
                Ok(d) => is_bot_token(trimmed(token@)) && is_chat_id(trimmed(chat_id@)) && d@ == (
                DestView { token: trimmed(token@), chat: trimmed(chat_id@) }),
                Err(e) => e@ == (if !is_bot_token(trimmed(token@)) {
                    "TELEGRAM_BOT_TOKEN looks invalid"@
                } else {
                    "TELEGRAM_CHAT_ID must be an integer"@
                }) && !(is_bot_token(trimmed(token@)) && is_chat_id(trimmed(chat_id@))),
            },
    {
        let t: &str = trim(token);
        let c: &str = trim(chat_id);
        if !valid_bot_token(t) {
            return Err(own("TELEGRAM_BOT_TOKEN looks invalid"));
        }
        if !valid_chat_id(c) {
            return Err(own("TELEGRAM_CHAT_ID must be an integer"));
        }
        Ok(TelegramDest { bot_token: own(t), chat_id: own(c) })
    }

    pub fn chat_id(&self) -> (r: &str)
        ensures
            r@ == self@.chat,
    {
        self.chat_id.as_str()
    }

    /// The destination as it is shown: the token stays hidden.
    pub fn show(&self) -> (r: String)
        ensures
            r@ == shown_dest(self@),
    {
        let mut t = own("TelegramDest { bot_token: \"[redacted]\", chat_id: \"");
        t.append(self.chat_id.as_str());
        t.append("\" }");
        t
    }

    /// The address that messages go to.
    pub fn send_url(&self) -> (r: String)
        ensures
            r@ == "https://api.telegram.org/bot"@ + self@.token + "/sendMessage"@,
    {
        let mut t = own("https://api.telegram.org/bot");
        t.append(self.bot_token.as_str());
        t.append("/sendMessage");
        t
    }
}

pub open spec fn shown_dest(d: DestView) -> Seq<char> {
    "TelegramDest { bot_token: \"[redacted]\", chat_id: \""@ + d.chat + "\" }"@
}

/// What is shown of a destination does not depend on its token.
pub proof fn law_shown_destination_hides_the_token(a: DestView, b: DestView)
    requires
        a.chat == b.chat,
    ensures
        shown_dest(a) == shown_dest(b),
{
}

/// Whether an event is worth a message.
pub open spec fn notifies(ev: EventView) -> bool {
    ev.live && (ev.event == "open"@ || ev.event == "close"@ || ev.event == "flatten"@)
}

pub fn should_notify(ev: &TradeEvent) -> (r: bool)
    ensures
        r == notifies(ev@),
{
    let kind: &str = ev.event.as_str();
    ev.live && (same(kind, "open") || same(kind, "close") || same(kind, "flatten"))
}

/// What a strategy is called in messages.
pub open spec fn strategy_name(id: i32) -> Seq<char> {
    if id == 1 {
        "S1 Momentum"@
    } else if id == 2 {
        "S2 Scalp"@
    } else if id == 3 {
        "S3 Trend"@
    } else if id == 4 {
        "S4 Continuation"@
    } else if id == 5 {
        "S5 Verify"@
    } else {
        "S?"@
    }
}

fn strategy_label(id: i32) -> (r: &'static str)
    ensures
        r@ == strategy_name(id),
{
    if id == 1 {
        "S1 Momentum"
    } else if id == 2 {
        "S2 Scalp"
    } else if id == 3 {
        "S3 Trend"
    } else if id == 4 {
        "S4 Continuation"
    } else if id == 5 {
        "S5 Verify"
    } else {
        "S?"
    }
}

/// A text, or a dash.
pub open spec fn or_dash(t: Option<Seq<char>>) -> Seq<char> {
    match t {
        Some(s) => s,
        None => "—"@,
    }
}

fn text_or_dash(t: &Option<String>) -> (r: &str)
    ensures
        r@ == or_dash(opt_view(*t)),
{
    match t {
        Some(s) => s.as_str(),
        None => "—",
    }
}

/// The sign before a gain.
pub open spec fn gain_mark(pnl: Option<Seq<char>>) -> Seq<char> {
    match pnl {
        Some(t) => match amount(t) {
            Some(d) => if d.pos() {
                "+"@
            } else {
                ""@
            },
            None => ""@,
        },
        None => ""@,
    }
}

fn pnl_mark(pnl: &Option<String>) -> (r: &'static str)
    ensures
        r@ == gain_mark(opt_view(*pnl)),
{
    match pnl {
        Some(t) => match read_amount(t.as_str()) {
            Some(d) => if d.is_pos() {
                "+"
            } else {
                ""
            },
            None => "",
        },
        None => "",
    }
}

/// How an event reads, before it is cut.
pub open spec fn message_text(ev: EventView, symbol: Seq<char>) -> Seq<char> {
    let head = "LIVE "@ + strategy_name(ev.strategy_id) + " · "@;
    let why = "причина: "@ + trimmed(ev.reason);
    if ev.event == "open"@ {
        head + "LONG "@ + symbol + "\nвход  "@ + ev.price + "\nqty   "@ + ev.qty + "\nSL    "@ + or_dash(
            ev.stop_loss,
        ) + "   TP "@ + or_dash(ev.take_profit) + "\n"@ + why
    } else if ev.event == "close"@ {
        head + "CLOSE "@ + symbol + "\nвыход "@ + ev.price + "   PnL "@ + gain_mark(ev.pnl) + or_dash(
            ev.pnl,
        ) + " USDT"@ + (match ev.final_r {
            Some(r) => "  ("@ + r + "R)"@,
            None => Seq::empty(),
        }) + "\n"@ + why
    } else {
        head + "FLATTEN "@ + symbol + "\n"@ + why
    }
}

/// How many bytes a character takes.
pub open spec fn char_bytes(c: char) -> int {
    let n = c as int;
    if n < 0x80 {
        1
    } else if n < 0x800 {
        2
    } else if n < 0x10000 {
        3
    } else {
        4
    }
}

/// How many bytes the first `n` characters take.
pub open spec fn text_bytes(s: Seq<char>, n: int) -> int
    decreases n,
{
    if n <= 0 {
        0
    } else {
        text_bytes(s, n - 1) + char_bytes(s[n - 1])
    }
}

/// How many characters fit into a number of bytes.
pub open spec fn fitting(s: Seq<char>, max: int, n: int) -> int
    decreases n,
{
    if n <= 0 || text_bytes(s, n) <= max {
        n
    } else {
        fitting(s, max, n - 1)
    }
}

/// A text that is short enough, or as much of it as fits and an ellipsis.
pub open spec fn cut(s: Seq<char>) -> Seq<char> {
    if text_bytes(s, s.len() as int) <= TEXT_MAX {
        s
    } else {
        s.take(fitting(s, TEXT_MAX as int, s.len() as int)) + "…"@
    }
}

fn bytes_of(c: char) -> (r: usize)
    ensures
        r == char_bytes(c),
{
    let n: u32 = c as u32;
    if n < 0x80 {
        1
    } else if n < 0x800 {
        2
    } else if n < 0x10000 {
        3
    } else {
        4
    }
}

proof fn lemma_bytes_grow(s: Seq<char>, a: int, b: int)
    requires
        0 <= a <= b,
    ensures
        text_bytes(s, a) <= text_bytes(s, b),
        text_bytes(s, a) >= 0,
    decreases b,
{
    if a < b {
        lemma_bytes_grow(s, a, b - 1);
    } else if a > 0 {
        lemma_bytes_grow(s, a - 1, a - 1);
    }
}

proof fn lemma_fitting(s: Seq<char>, max: int, k: int, n: int)
    requires
        0 <= k < n,
        text_bytes(s, k) <= max,
        text_bytes(s, k + 1) > max,
    ensures
        fitting(s, max, n) == k,
    decreases n,
{
    lemma_bytes_grow(s, k + 1, n);
    assert(fitting(s, max, k) == k);
    if n - 1 > k {
        lemma_fitting(s, max, k, n - 1);
    }
}

fn truncate(text: &str) -> (r: String)
    ensures
        r@ == cut(text@),
{
    let v: Vec<char> = to_chars(text);
    let mut total: usize = 0;
    let mut i: usize = 0;
    while i < v.len()
        invariant
            i <= v@.len(),
            v@ == text@,
            total == text_bytes(text@, i as int),
            total <= TEXT_MAX,
        decreases v@.len() - i,
    {
        let width: usize = bytes_of(v[i]);
        if total + width > TEXT_MAX {
            proof {
                lemma_fitting(text@, TEXT_MAX as int, i as int, text@.len() as int);
                lemma_bytes_grow(text@, i as int + 1, text@.len() as int);
            }
            let mut head: Vec<char> = Vec::new();
            let mut j: usize = 0;
            while j < i
                invariant
                    j <= i <= v@.len(),
                    head@ == v@.take(j as int),
                decreases i - j,
            {
                head.push(v[j]);
                proof {
                    assert(v@.take(j as int + 1) =~= v@.take(j as int).push(v@[j as int]));
                }
                j = j + 1;
            }
            let mut out = from_chars(head.as_slice());
            out.append("…");
            return out;
        }
        total = total + width;
        i = i + 1;
    }
    own(text)
}

/// A message is never longer than the limit and an ellipsis.
pub proof fn law_messages_are_short(s: Seq<char>)
    ensures
        cut(s) == s && text_bytes(s, s.len() as int) <= TEXT_MAX || exists|k: int|
            0 <= k < s.len() && #[trigger] text_bytes(s, k) <= TEXT_MAX && cut(s) == s.take(k) + "…"@,
{
    if text_bytes(s, s.len() as int) > TEXT_MAX {
        lemma_fits(s, TEXT_MAX as int, s.len() as int);
        let k = fitting(s, TEXT_MAX as int, s.len() as int);
        assert(text_bytes(s, k) <= TEXT_MAX);
    }
}

proof fn lemma_fits(s: Seq<char>, max: int, n: int)
    requires
        0 <= n,
        0 <= max,
    ensures
        0 <= fitting(s, max, n) <= n,
        text_bytes(s, fitting(s, max, n)) <= max,
        text_bytes(s, n) > max ==> fitting(s, max, n) < n,
    decreases n,
{
    if n > 0 && text_bytes(s, n) > max {
        lemma_fits(s, max, n - 1);
    }
}

/// How an event reads; nothing where it is not worth a message.
pub open spec fn message_of(ev: EventView) -> Option<Seq<char>> {
    let symbol = line_symbol(ev.symbol);
    if !notifies(ev) || symbol.len() == 0 {
        None
    } else {
        Some(cut(message_text(ev, symbol)))
    }
}

pub fn format_message(ev: &TradeEvent) -> (r: Option<String>)
    ensures
        opt_view(r) == message_of(ev@),
{
    if !should_notify(ev) {
        return None;
    }
    let symbol = journal_symbol(ev.symbol.as_str());
    if symbol.as_str().is_empty() {
        return None;
    }
    let kind: &str = ev.event.as_str();
    let mut t = own("LIVE ");
    t.append(strategy_label(ev.strategy_id));
    t.append(" · ");
    let mut why = own("причина: ");
    why.append(trim(ev.reason.as_str()));
    if same(kind, "open") {
        t.append("LONG ");
        t.append(symbol.as_str());
        t.append("\nвход  ");
        t.append(ev.price.as_str());
        t.append("\nqty   ");
        t.append(ev.qty.as_str());
        t.append("\nSL    ");
        t.append(text_or_dash(&ev.stop_loss));
        t.append("   TP ");
        t.append(text_or_dash(&ev.take_profit));
        t.append("\n");
        t.append(why.as_str());
    } else if same(kind, "close") {
        t.append("CLOSE ");
        t.append(symbol.as_str());
        t.append("\nвыход ");
        t.append(ev.price.as_str());
        t.append("   PnL ");
        t.append(pnl_mark(&ev.pnl));
        t.append(text_or_dash(&ev.pnl));
        t.append(" USDT");
        let mut tail = String::new();
        if let Some(r) = &ev.final_r {
            tail.append("  (");
            tail.append(r.as_str());
            tail.append("R)");
            proof {
                assert(tail@ =~= "  ("@ + r@ + "R)"@);
            }
        } else {
            proof {
                assert(tail@ =~= Seq::<char>::empty());
            }
        }
        t.append(tail.as_str());
        t.append("\n");
        t.append(why.as_str());
    } else {
        t.append("FLATTEN ");
        t.append(symbol.as_str());
        t.append("\n");
        t.append(why.as_str());
    }
    proof {
        assert(t@ =~= message_text(ev@, symbol@));
    }
    Some(truncate(t.as_str()))
}

/// The message that a live desk starts with.
pub open spec fn startup_text(strategy_id: i32) -> Seq<char> {
    "TUI_bot LIVE · "@ + strategy_name(strategy_id)
        + "\nсделки open / close / flatten → этот чат\namend (трейл SL) не шлём"@
}

/// Where messages go, what waits, and what went wrong last.
pub struct Telegram {
    dest: Option<TelegramDest>,
    last_error: Option<String>,
    captured: Option<Vec<String>>,
    pending: Vec<String>,
}

/// The messenger with its texts as characters.
pub struct TelegramView {
    pub dest: Option<DestView>,
    pub last_error: Option<Seq<char>>,
    pub captured: Option<Seq<Seq<char>>>,
    pub pending: Seq<Seq<char>>,
}

pub open spec fn dest_view(d: Option<TelegramDest>) -> Option<DestView> {
    match d {
        Some(x) => Some(x@),
        None => None,
    }
}

pub open spec fn list_view(v: Option<Vec<String>>) -> Option<Seq<Seq<char>>> {
    match v {
        Some(x) => Some(views(x@)),
        None => None,
    }
}

impl View for Telegram {
    type V = TelegramView;

    closed spec fn view(&self) -> TelegramView {
        TelegramView {
            dest: dest_view(self.dest),
            last_error: opt_view(self.last_error),
            captured: list_view(self.captured),
            pending: views(self.pending@),
        }
    }
}

/// The messenger once a text was handed to it: kept where texts are captured,
/// dropped where there is no chat, refused where too many wait.
pub open spec fn dispatched(m: TelegramView, text: Seq<char>) -> TelegramView {
    if m.captured is Some {
        TelegramView { captured: Some(m.captured->0.push(text)), ..m }
    } else if m.dest is None {
        m
    } else if m.pending.len() >= QUEUE_CAP {
        TelegramView { last_error: Some(redacted("telegram queue full"@)), ..m }
    } else {
        TelegramView { pending: m.pending.push(text), ..m }
    }
}

impl Telegram {
    /// No chat, and nothing waiting.
    pub fn new() -> (r: Self)
        ensures
            r@ == (TelegramView {
                dest: None,
                last_error: None,
                captured: None,
                pending: Seq::empty(),
            }),
    {
        let r = Telegram { dest: None, last_error: None, captured: None, pending: Vec::new() };
        proof {
            assert(views(r.pending@) =~= Seq::<Seq<char>>::empty());
        }
        r
    }

    pub fn install(&mut self, dest: Option<TelegramDest>)
        ensures
            final(self)@ == (TelegramView { dest: dest_view(dest), ..old(self)@ }),
    {
        self.dest = dest;
    }

    pub fn is_configured(&self) -> (r: bool)
        ensures
            r == (self@.dest is Some),
    {
        self.dest.is_some()
    }

    /// The chat that messages go to.
    pub fn dest(&self) -> (r: Option<&TelegramDest>)
        ensures
            match r {
                Some(d) => self@.dest == Some(d@),
                None => self@.dest is None,
            },
    {
        match &self.dest {
            Some(d) => Some(d),
            None => None,
        }
    }

    pub fn take_last_error(&mut self) -> (r: Option<String>)
        ensures
            opt_view(r) == old(self)@.last_error,
            final(self)@ == (TelegramView { last_error: None, ..old(self)@ }),
    {
        let r: Option<String> = match &self.last_error {
            Some(t) => Some(own(t.as_str())),
            None => None,
        };
        self.last_error = None;
        r
    }

    /// Notes what went wrong, credentials blotted out.
    pub fn note_error(&mut self, text: &str)
        ensures
            final(self)@ == (TelegramView { last_error: Some(redacted(text@)), ..old(self)@ }),
    {
        self.last_error = Some(redact_secrets(text));
    }

    /// Keeps texts in place of sending them.
    pub fn begin_capture(&mut self)
        ensures
            final(self)@ == (TelegramView { captured: Some(Seq::empty()), ..old(self)@ }),
    {
        let none: Vec<String> = Vec::new();
        proof {
            assert(views(none@) =~= Seq::<Seq<char>>::empty());
        }
        self.captured = Some(none);
    }

    /// The texts that were kept; they are no longer kept from here on.
    pub fn take_captured(&mut self) -> (r: Vec<String>)
        ensures
            views(r@) == (match old(self)@.captured {
                Some(v) => v,
                None => Seq::empty(),
            }),
            final(self)@ == (TelegramView { captured: None, ..old(self)@ }),
    {
        let r: Vec<String> = match &self.captured {
            Some(v) => crate::models::copy_texts(v.as_slice()),
            None => {
                let none: Vec<String> = Vec::new();
                proof {
                    assert(views(none@) =~= Seq::<Seq<char>>::empty());
                }
                none
            },
        };
        self.captured = None;
        r
    }

    fn dispatch(&mut self, text: String)
        ensures
            final(self)@ == dispatched(old(self)@, text@),
    {
        let ghost before = self@;
        proof {
            assert(views(self.pending@).len() == self.pending@.len());
        }
        if self.captured.is_some() {
            let mut kept: Vec<String> = match &self.captured {
                Some(v) => crate::models::copy_texts(v.as_slice()),
                None => Vec::new(),
            };
            let ghost k = views(kept@);
            let ghost tv = text@;
            kept.push(text);
            proof {
                assert(views(kept@) =~= k.push(tv));
            }
            self.captured = Some(kept);
        } else if self.dest.is_some() {
            if self.pending.len() >= QUEUE_CAP {
                self.note_error("telegram queue full");
            } else {
                let ghost tv = text@;
                self.pending.push(text);
                proof {
                    assert(views(self.pending@) =~= before.pending.push(tv));
                }
            }
        }
    }

    /// Sends an event that is worth a message.
    pub fn notify_event(&mut self, ev: &TradeEvent)
        ensures
            final(self)@ == (match message_of(ev@) {
                Some(t) => dispatched(old(self)@, t),
                None => old(self)@,
            }),
    {
        if let Some(t) = format_message(ev) {
            self.dispatch(t);
        }
    }

    /// Says that a live desk started.
    pub fn notify_startup(&mut self, strategy_id: i32)
        ensures
            final(self)@ == (if old(self)@.dest is None && old(self)@.captured is None {
                old(self)@
            } else {
                dispatched(old(self)@, startup_text(strategy_id))
            }),
    {
        if self.dest.is_none() && self.captured.is_none() {
            return ;
        }
        let mut t = own("TUI_bot LIVE · ");
        t.append(strategy_label(strategy_id));
        t.append("\nсделки open / close / flatten → этот чат\namend (трейл SL) не шлём");
        self.dispatch(t);
    }

    /// The text that waits longest; it waits no more.
    pub fn take_next(&mut self) -> (r: Option<String>)
        ensures
            match r {
                Some(t) => old(self)@.pending.len() > 0 && t@ == old(self)@.pending[0]
                    && final(self)@ == (TelegramView {
                    pending: old(self)@.pending.drop_first(),
                    ..old(self)@
                }),
                None => old(self)@.pending.len() == 0 && final(self)@ == old(self)@,
            },
    {
        let ghost before = views(self.pending@);
        if self.pending.len() == 0 {
            return None;
        }
        let t: String = self.pending.remove(0);
        proof {
            assert(before[0] == t@);
            assert(views(self.pending@) =~= before.drop_first());
        }
        Some(t)
    }
}

/// No more messages wait than may.
pub proof fn law_queue_is_bounded(m: TelegramView, text: Seq<char>)
    requires
        m.pending.len() <= QUEUE_CAP,
    ensures
        dispatched(m, text).pending.len() <= QUEUE_CAP,
{
}

/// Nothing is queued for a paper trade, and nothing where no chat is set.
pub proof fn law_paper_trades_are_silent(m: TelegramView, ev: EventView, text: Seq<char>)
    ensures
        !ev.live ==> message_of(ev) is None,
        m.dest is None ==> dispatched(m, text).pending == m.pending,
{
}

/// What is wrong with the answer to a message.
pub open spec fn reply_error(status: int, raw: Seq<char>) -> Option<Seq<char>> {
    let doc = json_document(raw);
    if status == 200 && doc is Some && doc->0.true_at("ok"@) {
        None
    } else {
        Some(
            "telegram HTTP "@ + int_text(status) + ": "@ + (match doc {
                Some(d) => match d.text_at("description"@) {
                    Some(t) => t,
                    None => redacted(raw),
                },
                None => redacted(raw),
            }),
        )
    }
}

/// Reads the answer to a message: a document that says `ok`, or what is wrong.
pub fn reply_fault(status: u16, raw: &str) -> (r: Option<String>)
    ensures
        opt_view(r) == reply_error(status as int, raw@),
{
    let doc: Option<Json> = read_document(raw);
    let ok: bool = match &doc {
        Some(d) => d.is_true("ok"),
        None => false,
    };
    if status == 200 && ok {
        return None;
    }
    let mut t = own("telegram HTTP ");
    t.append(print_u64(status as u64).as_str());
    t.append(": ");
    let described: Option<String> = match &doc {
        Some(d) => match d.get_text("description") {
            Some(x) => Some(own(x)),
            None => None,
        },
        None => None,
    };
    match described {
        Some(x) => {
            t.append(x.as_str());
        },
        None => {
            t.append(redact_secrets(raw).as_str());
        },
    }
    Some(t)
}

/// The error of a message that was answered with a status.
pub fn status_fault(code: u16, body: &str) -> (r: String)
    ensures
        r@ == "telegram HTTP "@ + int_text(code as int) + ": "@ + redacted(body@),
{
    let mut t = own("telegram HTTP ");
    t.append(print_u64(code as u64).as_str());
    t.append(": ");
    t.append(redact_secrets(body).as_str());
    t
}

} // verus!

//! Errors in the footer: which lines a log of them holds.
use crate::errors::{describe_exchange_error, described, extract_int_code, redact_secrets, redacted, written_code};
use crate::models::opt_view;
use crate::text::{
    contains, from_chars, has, int_text, is_digit, lower, own, print_i64, same, stands_at, starts_with,
    to_chars, upper,
};
use vstd::prelude::*;
use vstd::string::StringExecFns;

verus! {

/// How often the same error is shown before the log says that it is still there.
pub const STILL_EVERY: i32 = 12;

/// What the footer says of an error.
pub open spec fn ui_error(raw: Seq<char>) -> Seq<char> {
    "Ошибка: "@ + described(raw)
}

pub fn format_ui_error(raw: &str) -> (r: String)
    ensures
        r@ == ui_error(raw@),
{
    let mut t = own("Ошибка: ");
    t.append(describe_exchange_error(raw).as_str());
    t
}

/// A line of the log.
#[derive(Debug)]
pub struct ErrorEvent {
    pub ts: String,
    pub event: String,
    pub shown: String,
    pub raw: String,
    pub source: String,
    pub strategy_id: i32,
    pub live: bool,
    pub symbol: String,
    pub count: i32,
    pub duration_sec: i32,
    pub code: String,
}

/// A line with its texts as characters.
pub struct ErrorLine {
    pub ts: Seq<char>,
    pub event: Seq<char>,
    pub shown: Seq<char>,
    pub raw: Seq<char>,
    pub source: Seq<char>,
    pub strategy_id: i32,
    pub live: bool,
    pub symbol: Seq<char>,
    pub count: i32,
    pub duration_sec: i32,
    pub code: Seq<char>,
}

impl View for ErrorEvent {
    type V = ErrorLine;

    open spec fn view(&self) -> ErrorLine {
        ErrorLine {
            ts: self.ts@,
            event: self.event@,
            shown: self.shown@,
            raw: self.raw@,
            source: self.source@,
            strategy_id: self.strategy_id,
            live: self.live,
            symbol: self.symbol@,
            count: self.count,
            duration_sec: self.duration_sec,
            code: self.code@,
        }
    }
}

pub open spec fn error_lines(v: Seq<ErrorEvent>) -> Seq<ErrorLine> {
    Seq::new(v.len(), |i: int| v[i]@)
}

impl Default for ErrorEvent {
    fn default() -> (r: Self)
        ensures
            r@ == (ErrorLine {
                ts: Seq::empty(),
                event: Seq::empty(),
                shown: Seq::empty(),
                raw: Seq::empty(),
                source: Seq::empty(),
                strategy_id: 0,
                live: false,
                symbol: Seq::empty(),
                count: 0,
                duration_sec: 0,
                code: Seq::empty(),
            }),
    {
        let r = ErrorEvent {
            ts: String::new(),
            event: String::new(),
            shown: String::new(),
            raw: String::new(),
            source: String::new(),
            strategy_id: 0,
            live: false,
            symbol: String::new(),
            count: 0,
            duration_sec: 0,
            code: String::new(),
        };
        proof {
            assert(r.ts@ =~= Seq::<char>::empty());
            assert(r.event@ =~= Seq::<char>::empty());
            assert(r.shown@ =~= Seq::<char>::empty());
            assert(r.raw@ =~= Seq::<char>::empty());
            assert(r.source@ =~= Seq::<char>::empty());
            assert(r.symbol@ =~= Seq::<char>::empty());
            assert(r.code@ =~= Seq::<char>::empty());
        }
        r
    }
}

/// Where a part first stands in a text, from an index on.
pub open spec fn first_at(s: Seq<char>, p: Seq<char>, i: int) -> Option<int>
    decreases s.len() + 1 - i,
{
    if i < 0 || i + p.len() > s.len() {
        None
    } else if stands_at(s, p, i) {
        Some(i)
    } else {
        first_at(s, p, i + 1)
    }
}

/// The code of an error: the exchange's, else three digits behind `HTTP`.
pub open spec fn code_text(s: Seq<char>) -> Seq<char> {
    match written_code(s) {
        Some(c) => int_text(c),
        None => match first_at(upper(s), "HTTP "@, 0) {
            Some(i) => if i + 8 <= s.len() && is_digit(s[i + 5]) && is_digit(s[i + 6]) && is_digit(
                s[i + 7],
            ) {
                "HTTP "@ + s.subrange(i + 5, i + 8)
            } else {
                Seq::empty()
            },
            None => Seq::empty(),
        },
    }
}

fn find_http(v: &[char]) -> (r: Option<usize>)
    ensures
        match r {
            Some(i) => first_at(upper(v@), "HTTP "@, 0) == Some(i as int) && i + 5 <= v@.len(),
            None => first_at(upper(v@), "HTTP "@, 0) is None,
        },
{
    let ghost up = upper(v@);
    let ghost p = "HTTP "@;
    proof {
        reveal_strlit("HTTP ");
        assert(p.len() == 5);
    }
    let mut i: usize = 0;
    while i < v.len() && v.len() - i >= 5
        invariant
            i <= v@.len(),
            up == upper(v@),
            p == "HTTP "@,
            p.len() == 5,
            first_at(up, p, 0) == first_at(up, p, i as int),
        decreases v@.len() - i,
    {
        let a: char = v[i];
        let b: char = v[i + 1];
        let c: char = v[i + 2];
        let d: char = v[i + 3];
        let e: char = v[i + 4];
        proof {
            reveal_strlit("HTTP ");
            assert(stands_at(up, p, i as int) <==> (up[i as int] == 'H' && up[i + 1] == 'T' && up[i + 2]
                == 'T' && up[i + 3] == 'P' && up[i + 4] == ' ')) by {
                if stands_at(up, p, i as int) {
                    assert(up.subrange(i as int, i + 5) == p);
                    assert(up.subrange(i as int, i + 5)[0] == up[i as int]);
                    assert(up.subrange(i as int, i + 5)[1] == up[i + 1]);
                    assert(up.subrange(i as int, i + 5)[2] == up[i + 2]);
                    assert(up.subrange(i as int, i + 5)[3] == up[i + 3]);
                    assert(up.subrange(i as int, i + 5)[4] == up[i + 4]);
                }
                if up[i as int] == 'H' && up[i + 1] == 'T' && up[i + 2] == 'T' && up[i + 3] == 'P' && up[i
                    + 4] == ' ' {
                    assert(up.subrange(i as int, i + 5) =~= p);
                }
            }
        }
        if (a == 'H' || a == 'h') && (b == 'T' || b == 't') && (c == 'T' || c == 't') && (d == 'P' || d
            == 'p') && e == ' ' {
            return Some(i);
        }
        i = i + 1;
    }
    None
}

pub fn extract_code(text: &str) -> (r: String)
    ensures
        r@ == code_text(text@),
{
    if let Some(code) = extract_int_code(text) {
        return print_i64(code as i64);
    }
    let v: Vec<char> = to_chars(text);
    if let Some(i) = find_http(v.as_slice()) {
        if v.len() - i >= 8 {
            let a: char = v[i + 5];
            let b: char = v[i + 6];
            let c: char = v[i + 7];
            if '0' <= a && a <= '9' && '0' <= b && b <= '9' && '0' <= c && c <= '9' {
                let mut t = own("HTTP ");
                let mut three: Vec<char> = Vec::new();
                three.push(a);
                three.push(b);
                three.push(c);
                proof {
                    assert(three@ =~= text@.subrange(i + 5, i + 8));
                }
                t.append(from_chars(three.as_slice()).as_str());
                return t;
            }
        }
    }
    let none = String::new();
    proof {
        assert(none@ =~= Seq::<char>::empty());
    }
    none
}

/// Where an error came from, as far as its text tells.
pub open spec fn guessed_source(raw: Seq<char>, other: Seq<char>) -> Seq<char> {
    let low = lower(raw);
    if has(low, "flatten"@) || has(raw, "нечего закрывать"@) || has(raw, "ещё открыты"@) || has(
        raw,
        "не удалось прочитать позиции"@,
    ) {
        "flatten"@
    } else if stands_at(low, "skip "@, 0) || has(low, "live refused"@) || has(low, "filled but"@) || has(
        low,
        "/order"@,
    ) || has(low, "/algoorder"@) || has(low, "/leverage"@) {
        "live"@
    } else {
        other
    }
}

pub fn guess_source(raw: &str, default: &str) -> (r: String)
    ensures
        r@ == guessed_source(raw@, default@),
{
    let low = raw.to_ascii_lowercase();
    let l: &str = low.as_str();
    if contains(l, "flatten") || contains(raw, "нечего закрывать") || contains(raw, "ещё открыты")
        || contains(raw, "не удалось прочитать позиции") {
        return own("flatten");
    }
    if starts_with(l, "skip ") || contains(l, "live refused") || contains(l, "filled but") || contains(
        l,
        "/order",
    ) || contains(l, "/algoorder") || contains(l, "/leverage") {
        return own("live");
    }
    own(default)
}

/// The error that is shown now, and how much of it is in the log.
pub struct ErrorLog {
    shown: Option<String>,
    raw: String,
    source: String,
    strategy_id: i32,
    live: bool,
    symbol: String,
    code: String,
    count: i32,
    started_ms: i64,
    emitted_count: i32,
}

/// The log's memory with its texts as characters.
pub struct LogView {
    pub shown: Option<Seq<char>>,
    pub raw: Seq<char>,
    pub source: Seq<char>,
    pub strategy_id: i32,
    pub live: bool,
    pub symbol: Seq<char>,
    pub code: Seq<char>,
    pub count: i32,
    pub started_ms: i64,
    pub emitted_count: i32,
}

impl View for ErrorLog {
    type V = LogView;

    closed spec fn view(&self) -> LogView {
        LogView {
            shown: opt_view(self.shown),
            raw: self.raw@,
            source: self.source@,
            strategy_id: self.strategy_id,
            live: self.live,
            symbol: self.symbol@,
            code: self.code@,
            count: self.count,
            started_ms: self.started_ms,
            emitted_count: self.emitted_count,
        }
    }
}

/// A log that shows nothing.
pub open spec fn quiet_log() -> LogView {
    LogView {
        shown: None,
        raw: Seq::empty(),
        source: Seq::empty(),
        strategy_id: 0,
        live: false,
        symbol: Seq::empty(),
        code: Seq::empty(),
        count: 0,
        started_ms: 0,
        emitted_count: 0,
    }
}

/// Whole seconds between two instants; none where the second is not later.
pub open spec fn seconds_since(started: int, now: int) -> i32 {
    let n = (now - started) / 1000;
    if n < 0 {
        0
    } else if n > i32::MAX {
        i32::MAX
    } else {
        n as i32
    }
}

fn elapsed_seconds(started: i64, now: i64) -> (r: i32)
    ensures
        r == seconds_since(started as int, now as int),
{
    if now <= started {
        return 0;
    }
    let n: i128 = ((now as i128) - (started as i128)) / 1000;
    if n > i32::MAX as i128 {
        i32::MAX
    } else {
        n as i32
    }
}

/// A line on the error that is shown.
pub open spec fn line_of(s: LogView, event: Seq<char>, ts: Seq<char>, now: int) -> ErrorLine {
    ErrorLine {
        ts,
        event,
        shown: s.shown->0,
        raw: s.raw,
        source: s.source,
        strategy_id: s.strategy_id,
        live: s.live,
        symbol: s.symbol,
        count: s.count,
        duration_sec: seconds_since(s.started_ms as int, now),
        code: s.code,
    }
}

/// The line that an error leaves when it goes.
pub open spec fn closing_lines(s: LogView, ts: Seq<char>, now: int) -> Seq<ErrorLine> {
    if s.shown is Some {
        seq![line_of(s, "cleared"@, ts, now)]
    } else {
        Seq::empty()
    }
}

/// The log once its error is gone.
pub open spec fn closed_log(s: LogView) -> LogView {
    if s.shown is Some {
        LogView { strategy_id: s.strategy_id, live: s.live, symbol: s.symbol, ..quiet_log() }
    } else {
        s
    }
}

/// What a frame shows.
pub struct Frame {
    pub shown: Option<Seq<char>>,
    pub raw: Seq<char>,
    pub source: Seq<char>,
    pub strategy_id: i32,
    pub live: bool,
    pub symbol: Seq<char>,
}

/// The log's memory of an error that it shows for the first time.
pub open spec fn opened_log(f: Frame, now: i64) -> LogView {
    LogView {
        shown: f.shown,
        raw: redacted(f.raw),
        source: if f.source.len() == 0 {
            guessed_source(f.raw, "poll"@)
        } else {
            f.source
        },
        strategy_id: f.strategy_id,
        live: f.live,
        symbol: f.symbol,
        code: code_text(f.raw + " "@ + f.shown->0),
        count: 1,
        started_ms: now,
        emitted_count: 1,
    }
}

/// How often an error has been shown, one more counted.
pub open spec fn counted(n: i32) -> i32 {
    if n < i32::MAX {
        (n + 1) as i32
    } else {
        n
    }
}

/// The log after a frame.
pub open spec fn log_after(s: LogView, f: Frame, now: i64) -> LogView {
    if f.shown is None {
        closed_log(s)
    } else if s.shown == f.shown {
        let n = counted(s.count);
        LogView {
            count: n,
            emitted_count: if n - s.emitted_count >= STILL_EVERY {
                n
            } else {
                s.emitted_count
            },
            ..s
        }
    } else {
        opened_log(f, now)
    }
}

/// The lines that a frame adds to the log.
pub open spec fn lines_of(s: LogView, f: Frame, ts: Seq<char>, now: i64) -> Seq<ErrorLine> {
    if f.shown is None {
        closing_lines(s, ts, now as int)
    } else if s.shown == f.shown {
        let n = counted(s.count);
        if n - s.emitted_count >= STILL_EVERY {
            seq![line_of(LogView { count: n, ..s }, "still"@, ts, now as int)]
        } else {
            Seq::empty()
        }
    } else {
        closing_lines(s, ts, now as int).push(
            line_of(opened_log(f, now), "shown"@, ts, now as int),
        )
    }
}

/// What a frame shows of an optional error.
pub open spec fn frame_of(
    last_error: Option<Seq<char>>,
    strategy_id: i32,
    live: bool,
    symbol: Seq<char>,
    source: Seq<char>,
) -> Frame {
    Frame {
        shown: match last_error {
            Some(raw) => Some(ui_error(raw)),
            None => None,
        },
        raw: match last_error {
            Some(raw) => raw,
            None => ""@,
        },
        source,
        strategy_id,
        live,
        symbol,
    }
}

impl ErrorLog {
    pub fn new() -> (r: Self)
        ensures
            r@ == quiet_log(),
    {
        let r = ErrorLog {
            shown: None,
            raw: String::new(),
            source: String::new(),
            strategy_id: 0,
            live: false,
            symbol: String::new(),
            code: String::new(),
            count: 0,
            started_ms: 0,
            emitted_count: 0,
        };
        proof {
            assert(r.raw@ =~= Seq::<char>::empty());
            assert(r.source@ =~= Seq::<char>::empty());
            assert(r.symbol@ =~= Seq::<char>::empty());
            assert(r.code@ =~= Seq::<char>::empty());
        }
        r
    }

    fn line(&self, shown: &str, event: &str, ts: &str, now: i64) -> (r: ErrorEvent)
        requires
            self@.shown == Some(shown@),
        ensures
            r@ == line_of(self@, event@, ts@, now as int),
    {
        ErrorEvent {
            ts: own(ts),
            event: own(event),
            shown: own(shown),
            raw: own(self.raw.as_str()),
            source: own(self.source.as_str()),
            strategy_id: self.strategy_id,
            live: self.live,
            symbol: own(self.symbol.as_str()),
            count: self.count,
            duration_sec: elapsed_seconds(self.started_ms, now),
            code: own(self.code.as_str()),
        }
    }

    fn close(&mut self, ts: &str, now: i64) -> (r: Vec<ErrorEvent>)
        ensures
            final(self)@ == closed_log(old(self)@),
            error_lines(r@) == closing_lines(old(self)@, ts@, now as int),
    {
        let mut out: Vec<ErrorEvent> = Vec::new();
        let shown: String = match &self.shown {
            Some(t) => own(t.as_str()),
            None => {
                proof {
                    assert(error_lines(out@) =~= Seq::<ErrorLine>::empty());
                }
                return out;
            },
        };
        let e: ErrorEvent = self.line(shown.as_str(), "cleared", ts, now);
        let ghost ev = e@;
        out.push(e);
        proof {
            assert(error_lines(out@) =~= seq![ev]);
        }
        self.shown = None;
        self.raw = String::new();
        self.source = String::new();
        self.code = String::new();
        self.count = 0;
        self.started_ms = 0;
        self.emitted_count = 0;
        proof {
            assert(self.raw@ =~= Seq::<char>::empty());
            assert(self.source@ =~= Seq::<char>::empty());
            assert(self.code@ =~= Seq::<char>::empty());
        }
        out
    }

    /// Takes a frame in. Gives the lines that it adds to the log.
    pub fn observe(
        &mut self,
        shown: Option<&str>,
        raw: &str,
        source: &str,
        strategy_id: i32,
        live: bool,
        symbol: &str,
        ts: &str,
        now: i64,
    ) -> (r: Vec<ErrorEvent>)
        ensures
            ({
                let f = Frame {
                    shown: crate::wire::opt_text(shown),
                    raw: raw@,
                    source: source@,
                    strategy_id,
                    live,
                    symbol: symbol@,
                };
                &&& final(self)@ == log_after(old(self)@, f, now)
                &&& error_lines(r@) == lines_of(old(self)@, f, ts@, now)
            }),
    {
        let text: &str = match shown {
            Some(t) => t,
            None => return self.close(ts, now),
        };
        let known: bool = match &self.shown {
            Some(t) => same(t.as_str(), text),
            None => false,
        };
        if known {
            let mut out: Vec<ErrorEvent> = Vec::new();
            if self.count < i32::MAX {
                self.count = self.count + 1;
            }
            if (self.count as i64) - (self.emitted_count as i64) >= STILL_EVERY as i64 {
                let e: ErrorEvent = self.line(text, "still", ts, now);
                let ghost ev = e@;
                out.push(e);
                self.emitted_count = self.count;
                proof {
                    assert(error_lines(out@) =~= seq![ev]);
                }
            } else {
                proof {
                    assert(error_lines(out@) =~= Seq::<ErrorLine>::empty());
                }
            }
            return out;
        }
        let mut out: Vec<ErrorEvent> = self.close(ts, now);
        let mut both = own(raw);
        both.append(" ");
        both.append(text);
        self.shown = Some(own(text));
        self.raw = redact_secrets(raw);
        self.source = if source.is_empty() {
            guess_source(raw, "poll")
        } else {
            own(source)
        };
        self.strategy_id = strategy_id;
        self.live = live;
        self.symbol = own(symbol);
        self.code = extract_code(both.as_str());
        self.count = 1;
        self.started_ms = now;
        self.emitted_count = 1;
        let e: ErrorEvent = self.line(text, "shown", ts, now);
        let ghost before = error_lines(out@);
        let ghost ev = e@;
        out.push(e);
        proof {
            assert(error_lines(out@) =~= before.push(ev));
        }
        out
    }

    /// Takes in what a frame shows of an optional error.
    pub fn note_frame(
        &mut self,
        last_error: Option<&str>,
        strategy_id: i32,
        live: bool,
        symbol: &str,
        source: &str,
        ts: &str,
        now: i64,
    ) -> (r: Vec<ErrorEvent>)
        ensures
            ({
                let f = frame_of(
                    crate::wire::opt_text(last_error),
                    strategy_id,
                    live,
                    symbol@,
                    source@,
                );
                &&& final(self)@ == log_after(old(self)@, f, now)
                &&& error_lines(r@) == lines_of(old(self)@, f, ts@, now)
            }),
    {
        match last_error {
            Some(raw) => {
                let shown = format_ui_error(raw);
                self.observe(Some(shown.as_str()), raw, source, strategy_id, live, symbol, ts, now)
            },
            None => self.observe(None, "", source, strategy_id, live, symbol, ts, now),
        }
    }
}

pub open spec fn opt_log(l: Option<ErrorLog>) -> Option<LogView> {
    match l {
        Some(x) => Some(x@),
        None => None,
    }
}

/// Puts a log in the place of another, which is closed first.
pub fn set_active(slot: &mut Option<ErrorLog>, log: Option<ErrorLog>, ts: &str, now: i64) -> (r: Vec<
    ErrorEvent,
>)
    ensures
        *final(slot) == log,
        error_lines(r@) == (match opt_log(*old(slot)) {
            Some(s) => closing_lines(s, ts@, now as int),
            None => Seq::empty(),
        }),
{
    let lines: Vec<ErrorEvent> = match slot {
        Some(l) => l.close(ts, now),
        None => {
            let none: Vec<ErrorEvent> = Vec::new();
            proof {
                assert(error_lines(none@) =~= Seq::<ErrorLine>::empty());
            }
            none
        },
    };
    *slot = log;
    lines
}

/// Takes a frame into the active log, where there is one.
pub fn note_frame(
    slot: &mut Option<ErrorLog>,
    last_error: Option<&str>,
    strategy_id: i32,
    live: bool,
    symbol: &str,
    source: &str,
    ts: &str,
    now: i64,
) -> (r: Vec<ErrorEvent>)
    ensures
        ({
            let f = frame_of(
                crate::wire::opt_text(last_error),
                strategy_id,
                live,
                symbol@,
                source@,
            );
            match opt_log(*old(slot)) {
                Some(s) => opt_log(*final(slot)) == Some(log_after(s, f, now)) && error_lines(r@)
                    == lines_of(s, f, ts@, now),
                None => *final(slot) == *old(slot) && error_lines(r@).len() == 0,
            }
        }),
{
    match slot {
        Some(l) => l.note_frame(last_error, strategy_id, live, symbol, source, ts, now),
        None => Vec::new(),
    }
}

/// Whether the log's counters are in step: what it wrote is not more than what it
/// saw, and less than a full round behind.
pub open spec fn in_step(s: LogView) -> bool {
    s.shown is Some ==> 1 <= s.emitted_count <= s.count && s.count - s.emitted_count < STILL_EVERY
}

/// Every frame keeps the counters in step: an error that stays is written again
/// at least every twelfth time.
pub proof fn law_log_keeps_in_step(s: LogView, f: Frame, now: i64)
    requires
        in_step(s),
    ensures
        in_step(quiet_log()),
        in_step(log_after(s, f, now)),
{
}

/// An error that goes or is replaced is closed by exactly one line, and an error
/// that comes is opened by exactly one.
pub proof fn law_errors_are_opened_and_closed_once(s: LogView, f: Frame, ts: Seq<char>, now: i64)
    ensures
        ({
            let v = lines_of(s, f, ts, now);
            &&& f.shown is None ==> v == closing_lines(s, ts, now as int)
            &&& f.shown is Some && s.shown != f.shown ==> v.len() == closing_lines(
                s,
                ts,
                now as int,
            ).len() + 1 && v.last().event == "shown"@
            &&& f.shown is Some && s.shown == f.shown ==> forall|i: int|
                0 <= i < v.len() ==> (#[trigger] v[i]).event == "still"@
        }),
{
}

/// The log never holds credentials: what it keeps of an error is blotted out
/// first.
pub proof fn law_log_is_redacted(s: LogView, f: Frame, now: i64)
    requires
        f.shown is Some,
        s.shown != f.shown,
    ensures
        log_after(s, f, now).raw == redacted(f.raw),
{
}

} // verus!

//! UTC hours when crypto typically ignites. Pure: no I/O.
//!
//! An instant is a count of milliseconds since the Unix epoch.
use crate::text::{
    int_value, join, joined, lower, own, padded2, parse_i64, print_padded2, print_quoted, quoted,
    same, split, split_on, trim, trimmed, views,
};
use vstd::prelude::*;
use vstd::string::StringExecFns;

verus! {

/// First hour and the hour after the last one.
pub type HourWindow = (u8, u8);

pub const DEFAULT_ENTRY_HOURS: &'static str = "0-2,7-10,13-16";

pub const MS_PER_HOUR: i64 = 3_600_000;

pub const MS_PER_DAY: i64 = 86_400_000;

/// The hours of the default entry windows.
pub open spec fn default_windows() -> Seq<HourWindow> {
    seq![(0u8, 2u8), (7u8, 10u8), (13u8, 16u8)]
}

/// The default entry windows: Asia, London, New York.
pub fn default_entry_windows() -> (r: Vec<HourWindow>)
    ensures
        r@ == default_windows(),
{
    let mut out: Vec<HourWindow> = Vec::new();
    out.push((0, 2));
    out.push((7, 10));
    out.push((13, 16));
    proof {
        assert(out@ =~= default_windows());
    }
    out
}

/// An integer forced into the range of an instant.
pub open spec fn clamp_ms(n: int) -> int {
    if n > i64::MAX {
        i64::MAX as int
    } else if n < i64::MIN {
        i64::MIN as int
    } else {
        n
    }
}

/// `a + b`, held at the ends of the range.
pub fn add_ms(a: i64, b: i64) -> (r: i64)
    ensures
        r == clamp_ms(a + b),
{
    hold_ms(a as i128 + b as i128)
}

/// `a - b`, held at the ends of the range.
pub fn sub_ms(a: i64, b: i64) -> (r: i64)
    ensures
        r == clamp_ms(a - b),
{
    hold_ms(a as i128 - b as i128)
}

fn hold_ms(n: i128) -> (r: i64)
    ensures
        r == clamp_ms(n as int),
{
    if n > i64::MAX as i128 {
        i64::MAX
    } else if n < i64::MIN as i128 {
        i64::MIN
    } else {
        n as i64
    }
}

/// The instant whose calendar fields `ts` shows. Instants before the epoch drop
/// their milliseconds towards the epoch and then count them forward.
pub open spec fn shown_instant(ts: int) -> int {
    if ts >= 0 {
        ts
    } else {
        -((-ts) / 1000) * 1000 + (-ts) % 1000
    }
}

/// Hour of the UTC day.
pub open spec fn hour_at(ts: int) -> int {
    (shown_instant(ts) / MS_PER_HOUR as int) % 24
}

/// Minute of the hour.
pub open spec fn minute_at(ts: int) -> int {
    (shown_instant(ts) / 60_000) % 60
}

/// Second of the minute.
pub open spec fn second_at(ts: int) -> int {
    (shown_instant(ts) / 1000) % 60
}

/// Midnight that starts the UTC day.
pub open spec fn day_start(ts: int) -> int {
    (shown_instant(ts) / MS_PER_DAY as int) * MS_PER_DAY as int
}

fn shown(ts: i64) -> (r: i128)
    ensures
        r == shown_instant(ts as int),
        -9223372036854776000 <= r <= 9223372036854776000,
{
    if ts >= 0 {
        ts as i128
    } else {
        let n: i128 = -(ts as i128);
        let q: i128 = n / 1000;
        let m: i128 = n % 1000;
        -q * 1000 + m
    }
}

/// Floor division of a bounded instant.
fn floor_div(n: i128, d: i128) -> (r: i128)
    requires
        d > 0,
        -9223372036854776000 <= n <= 9223372036854776000,
    ensures
        r == n as int / d as int,
        -9223372036854776000 <= r <= 9223372036854776000,
{
    if n >= 0 {
        let r: i128 = n / d;
        proof {
            assert(0 <= n as int / d as int <= n) by (nonlinear_arith)
                requires
                    n >= 0,
                    d > 0,
            ;
        }
        r
    } else {
        let k: i128 = (-n - 1) / d;
        proof {
            let a = -n - 1;
            assert(0 <= a / d as int <= a) by (nonlinear_arith)
                requires
                    a >= 0,
                    d > 0,
            ;
            assert(n as int / d as int == -(a / d as int) - 1) by (nonlinear_arith)
                requires
                    a == -n - 1,
                    d > 0,
                    n < 0,
            ;
        }
        -k - 1
    }
}

/// Midnight that ends the UTC day, held at the ends of the range.
pub fn next_midnight(ts: i64) -> (r: i64)
    ensures
        r == clamp_ms(day_start(ts as int) + MS_PER_DAY),
{
    let n: i128 = shown(ts);
    let d: i128 = floor_div(n, MS_PER_DAY as i128);
    proof {
        let m = MS_PER_DAY as int;
        let q = n as int / m;
        assert(q * m <= n && n < q * m + m) by (nonlinear_arith)
            requires
                m == 86_400_000,
                q == n as int / m,
        ;
        assert(d * MS_PER_DAY == q * m);
    }
    hold_ms(d * (MS_PER_DAY as i128) + MS_PER_DAY as i128)
}

/// How far into its hour an instant is.
pub fn ms_into_hour(ts: i64) -> (r: i64)
    ensures
        r == ts as int % 3_600_000,
{
    let n: i128 = ts as i128;
    let q: i128 = floor_div(n, 3_600_000);
    (n - 3_600_000 * q) as i64
}

/// Hour of the UTC day that holds the instant.
pub fn utc_hour(ts: i64) -> (r: u8)
    ensures
        r == hour_at(ts as int),
        r < 24,
{
    let h: i128 = floor_div(shown(ts), 3_600_000);
    let d: i128 = floor_div(h, 24);
    (h - 24 * d) as u8
}

fn utc_minute(ts: i64) -> (r: u8)
    ensures
        r == minute_at(ts as int),
        r < 60,
{
    let h: i128 = floor_div(shown(ts), 60_000);
    let d: i128 = floor_div(h, 60);
    (h - 60 * d) as u8
}

fn utc_second(ts: i64) -> (r: u8)
    ensures
        r == second_at(ts as int),
        r < 60,
{
    let h: i128 = floor_div(shown(ts), 1000);
    let d: i128 = floor_div(h, 60);
    (h - 60 * d) as u8
}

fn utc_midnight(ts: i64) -> (r: i128)
    ensures
        r == day_start(ts as int),
        -9223372036941176000 <= r <= 9223372036854776000,
{
    let n: i128 = shown(ts);
    let d: i128 = floor_div(n, 86_400_000);
    d * 86_400_000
}

/// `HH:MM` of an instant.
pub open spec fn clock_text(ts: int) -> Seq<char> {
    padded2(hour_at(ts) as nat) + ":"@ + padded2(minute_at(ts) as nat)
}

/// `HH:MM:SS` of an instant.
pub open spec fn clock_text_seconds(ts: int) -> Seq<char> {
    clock_text(ts) + ":"@ + padded2(second_at(ts) as nat)
}

/// Prints `HH:MM`.
pub fn utc_clock(ts: i64) -> (r: String)
    ensures
        r@ == clock_text(ts as int),
{
    let mut out = print_padded2(utc_hour(ts) as u64);
    out.append(":");
    out.append(print_padded2(utc_minute(ts) as u64).as_str());
    out
}

/// Prints `HH:MM:SS`.
pub fn utc_clock_seconds(ts: i64) -> (r: String)
    ensures
        r@ == clock_text_seconds(ts as int),
{
    let mut out = utc_clock(ts);
    out.append(":");
    out.append(print_padded2(utc_second(ts) as u64).as_str());
    out
}

/// The UTC date of an instant as `chrono` prints it with `%Y-%m-%d`; `None`
/// outside the years that `chrono` knows.
pub uninterp spec fn date_text(secs: i64) -> Option<Seq<char>>;

/// `chrono::DateTime::from_timestamp` and `format("%Y-%m-%d")`; the text is
/// named, not stated.
#[verifier::external_body]
fn print_date(secs: i64) -> (r: Option<String>)
    ensures
        match r {
            Some(t) => date_text(secs) == Some(t@),
            None => date_text(secs) is None,
        },
{
    chrono::DateTime::from_timestamp(secs, 0).map(|d| d.format("%Y-%m-%d").to_string())
}

/// Whole seconds of an instant, towards the epoch.
pub open spec fn seconds_of(ts: int) -> int {
    if ts >= 0 {
        ts / 1000
    } else {
        -((-ts) / 1000)
    }
}

/// The UTC date of an instant.
pub fn utc_date(ts: i64) -> (r: Option<String>)
    ensures
        match r {
            Some(t) => date_text(seconds_of(ts as int) as i64) == Some(t@),
            None => date_text(seconds_of(ts as int) as i64) is None,
        },
{
    let secs: i64 = if ts >= 0 {
        ts / 1000
    } else {
        let q: i128 = -(ts as i128) / 1000;
        (-q) as i64
    };
    print_date(secs)
}

/// The instant of a UTC calendar time as `chrono` computes it, in seconds.
pub uninterp spec fn calendar_seconds(
    year: i32,
    month: u32,
    day: u32,
    hour: u32,
    min: u32,
    sec: u32,
) -> Option<i64>;

/// `chrono::NaiveDate::from_ymd_opt`, `and_hms_opt` and the timestamp of the
/// result in UTC; named, not stated.
#[verifier::external_body]
fn calendar_timestamp(year: i32, month: u32, day: u32, hour: u32, min: u32, sec: u32) -> (r: Option<
    i64,
>)
    ensures
        r == calendar_seconds(year, month, day, hour, min, sec),
{
    let date = chrono::NaiveDate::from_ymd_opt(year, month, day)?;
    Some(date.and_hms_opt(hour, min, sec)?.and_utc().timestamp())
}

/// The instant of a UTC calendar time; `None` where there is no such time.
pub fn make_utc_ts(year: i32, month: u32, day: u32, hour: u32, min: u32, sec: u32) -> (r: Option<
    i64,
>)
    ensures
        match calendar_seconds(year, month, day, hour, min, sec) {
            Some(s) => r == Some(clamp_ms(s * 1000) as i64),
            None => r is None,
        },
{
    match calendar_timestamp(year, month, day, hour, min, sec) {
        Some(s) => Some(hold_ms(s as i128 * 1000)),
        None => None,
    }
}

/// The instant that an RFC 3339 text names, as `chrono` reads it, in seconds.
pub uninterp spec fn rfc3339_seconds(text: Seq<char>) -> Option<i64>;

/// `chrono::DateTime::parse_from_rfc3339` and the timestamp of the result;
/// named, not stated.
#[verifier::external_body]
fn read_rfc3339(text: &str) -> (r: Option<i64>)
    ensures
        r == rfc3339_seconds(text@),
{
    Some(chrono::DateTime::parse_from_rfc3339(text).ok()?.timestamp())
}

/// The instant that an RFC 3339 text names.
pub open spec fn instant_of(text: Seq<char>) -> Option<int> {
    match rfc3339_seconds(text) {
        Some(s) => Some(clamp_ms(s * 1000)),
        None => None,
    }
}

/// The instant that an RFC 3339 text names; `None` where it names none.
pub fn read_instant(text: &str) -> (r: Option<i64>)
    ensures
        match r {
            Some(t) => instant_of(text@) == Some(t as int),
            None => instant_of(text@) is None,
        },
{
    match read_rfc3339(text) {
        Some(s) => Some(hold_ms(s as i128 * 1000)),
        None => None,
    }
}

/// Whether an hour lies in one window, which may wrap over midnight.
pub open spec fn in_window(hour: int, w: HourWindow) -> bool {
    if w.0 < w.1 {
        w.0 <= hour < w.1
    } else {
        hour >= w.0 || hour < w.1
    }
}

/// Whether an hour lies in one of the windows; no window at all is always open.
pub open spec fn hour_open(hour: int, windows: Seq<HourWindow>) -> bool {
    windows.len() == 0 || exists|i: int| 0 <= i < windows.len() && in_window(hour, #[trigger] windows[i])
}

pub fn hour_in_windows(hour: u32, windows: &[HourWindow]) -> (r: bool)
    ensures
        r == hour_open(hour as int, windows@),
{
    if windows.len() == 0 {
        return true;
    }
    match window_at(hour, windows) {
        Some(_) => true,
        None => false,
    }
}

/// The first window that holds the hour.
pub open spec fn first_window(hour: int, windows: Seq<HourWindow>) -> Option<HourWindow>
    decreases windows.len(),
{
    if windows.len() == 0 {
        None
    } else if in_window(hour, windows[0]) {
        Some(windows[0])
    } else {
        first_window(hour, windows.drop_first())
    }
}

proof fn lemma_first_window(hour: int, windows: Seq<HourWindow>, n: int)
    requires
        0 <= n <= windows.len(),
        forall|i: int| 0 <= i < n ==> !in_window(hour, #[trigger] windows[i]),
    ensures
        first_window(hour, windows) == first_window(hour, windows.skip(n)),
    decreases n,
{
    if n > 0 {
        assert(!in_window(hour, windows[0]));
        assert forall|i: int| 0 <= i < n - 1 implies !in_window(
            hour,
            #[trigger] windows.drop_first()[i],
        ) by {
            assert(windows.drop_first()[i] == windows[i + 1]);
        }
        lemma_first_window(hour, windows.drop_first(), n - 1);
        assert(windows.drop_first().skip(n - 1) =~= windows.skip(n));
    } else {
        assert(windows.skip(0) =~= windows);
    }
}

fn window_at(hour: u32, windows: &[HourWindow]) -> (r: Option<HourWindow>)
    ensures
        r == first_window(hour as int, windows@),
        windows@.len() > 0 ==> (r is Some <==> hour_open(hour as int, windows@)),
{
    let mut i: usize = 0;
    while i < windows.len()
        invariant
            i <= windows@.len(),
            forall|j: int| 0 <= j < i ==> !in_window(hour as int, #[trigger] windows@[j]),
        decreases windows@.len() - i,
    {
        let w: HourWindow = windows[i];
        let start: u32 = w.0 as u32;
        let end: u32 = w.1 as u32;
        let inside: bool = if start < end {
            hour >= start && hour < end
        } else {
            hour >= start || hour < end
        };
        if inside {
            proof {
                lemma_first_window(hour as int, windows@, i as int);
                assert(windows@.skip(i as int)[0] == w);
                assert(in_window(hour as int, windows@[i as int]));
            }
            return Some(w);
        }
        i = i + 1;
    }
    proof {
        lemma_first_window(hour as int, windows@, windows@.len() as int);
        assert(windows@.skip(windows@.len() as int) =~= Seq::empty());
    }
    None
}

/// The windows in force: `None` stands for the default ones.
pub open spec fn windows_or_default(windows: Option<Seq<HourWindow>>) -> Seq<HourWindow> {
    match windows {
        Some(w) => w,
        None => default_windows(),
    }
}

pub open spec fn view_windows(windows: Option<&[HourWindow]>) -> Option<Seq<HourWindow>> {
    match windows {
        Some(w) => Some(w@),
        None => None,
    }
}

/// Whether entries are open at an instant.
pub open spec fn entry_open(ts: int, windows: Option<Seq<HourWindow>>, always: bool) -> bool {
    always || hour_open(hour_at(ts), windows_or_default(windows))
}

pub fn in_entry_window(ts: i64, windows: Option<&[HourWindow]>, always: bool) -> (r: bool)
    ensures
        r == entry_open(ts as int, view_windows(windows), always),
{
    if always {
        return true;
    }
    match windows {
        None => {
            let d: Vec<HourWindow> = default_entry_windows();
            hour_in_windows(utc_hour(ts) as u32, d.as_slice())
        },
        Some(w) => hour_in_windows(utc_hour(ts) as u32, w),
    }
}

/// The end of the window that holds the instant: the next time, after `ts`, that
/// the clock shows the window's end hour.
pub open spec fn window_end(ts: int, windows: Seq<HourWindow>) -> Option<int> {
    match first_window(hour_at(ts), windows) {
        Some(w) => {
            let end = day_start(ts) + (w.1 as int % 24) * MS_PER_HOUR as int;
            Some(clamp_ms(if end <= ts { end + MS_PER_DAY as int } else { end }))
        },
        None => None,
    }
}

/// Exclusive end of the UTC window that contains `ts`, or `None` if 24/7 / closed.
pub fn window_end_ts(ts: i64, windows: &[HourWindow]) -> (r: Option<i64>)
    ensures
        match r {
            Some(end) => window_end(ts as int, windows@) == Some(end as int),
            None => window_end(ts as int, windows@) is None,
        },
{
    match window_at(utc_hour(ts) as u32, windows) {
        Some(w) => {
            let end: i128 = utc_midnight(ts) + (w.1 % 24) as i128 * 3_600_000;
            if end <= ts as i128 {
                Some(hold_ms(end + 86_400_000))
            } else {
                Some(hold_ms(end))
            }
        },
        None => None,
    }
}

/// Where a loss at `now` pauses new entries to.
pub open spec fn loss_pause_end(now: int, windows: Seq<HourWindow>, pause_ms: int) -> int {
    let floor = clamp_ms(now + (if pause_ms > 0 { pause_ms } else { 0 }));
    match window_end(now, windows) {
        Some(end) => if end > floor {
            end
        } else {
            floor
        },
        None => floor,
    }
}

/// After a losing stop: sit out until this window ends (or `now + pause_ms` if
/// 24/7).
pub fn pause_until_after_loss(now: i64, windows: &[HourWindow], pause_ms: i64) -> (r: i64)
    ensures
        r == loss_pause_end(now as int, windows@, pause_ms as int),
{
    let floor: i64 = add_ms(now, if pause_ms > 0 { pause_ms } else { 0 });
    match window_end_ts(now, windows) {
        Some(end) => if end > floor {
            end
        } else {
            floor
        },
        None => floor,
    }
}

/// A pause after a loss never ends before the plain pause would.
pub proof fn law_loss_pause_covers_the_plain_pause(
    now: int,
    windows: Seq<HourWindow>,
    pause_ms: int,
)
    requires
        pause_ms >= 0,
    ensures
        loss_pause_end(now, windows, pause_ms) >= clamp_ms(now + pause_ms),
{
}

/// The start of a window on the day `day` days after today's.
pub open spec fn start_on(ts: int, w: HourWindow, day: int) -> int {
    day_start(ts) + day * MS_PER_DAY as int + w.0 as int * MS_PER_HOUR as int
}

/// Whether `t` is the earliest window start after `ts`, looking today and tomorrow.
pub open spec fn is_next_start(ts: int, windows: Seq<HourWindow>, t: int) -> bool {
    &&& t > shown_instant(ts)
    &&& exists|i: int, d: int|
        0 <= i < windows.len() && 0 <= d <= 1 && t == #[trigger] start_on(ts, windows[i], d)
    &&& forall|i: int, d: int|
        0 <= i < windows.len() && 0 <= d <= 1 && #[trigger] start_on(ts, windows[i], d)
            > shown_instant(ts) ==> t <= start_on(ts, windows[i], d)
}

/// The earliest window start after `ts`, held at the ends of the range; `None`
/// without windows or where no start of today or tomorrow lies ahead.
pub fn next_window_start(ts: i64, windows: &[HourWindow]) -> (r: Option<i64>)
    ensures
        match r {
            Some(t) => exists|u: int|
                t == clamp_ms(u) && #[trigger] is_next_start(ts as int, windows@, u),
            None => forall|i: int, d: int|
                0 <= i < windows@.len() && 0 <= d <= 1 ==> #[trigger] start_on(
                    ts as int,
                    windows@[i],
                    d,
                ) <= shown_instant(ts as int),
        },
{
    let now: i128 = shown(ts);
    let midnight: i128 = utc_midnight(ts);
    let mut best: Option<i128> = None;
    let mut i: usize = 0;
    while i < windows.len()
        invariant
            i <= windows@.len(),
            now == shown_instant(ts as int),
            midnight == day_start(ts as int),
            -9223372036941176000 <= midnight <= 9223372036854776000,
            match best {
                Some(b) => {
                    &&& -9223372036941176000 <= b <= 9223372047000000000
                    &&& b > now
                    &&& exists|k: int, d: int|
                        0 <= k < i && 0 <= d <= 1 && b == #[trigger] start_on(
                            ts as int,
                            windows@[k],
                            d,
                        )
                },
                None => true,
            },
            forall|k: int, d: int|
                0 <= k < i && 0 <= d <= 1 && #[trigger] start_on(ts as int, windows@[k], d) > now
                    ==> best is Some && best->0 <= start_on(ts as int, windows@[k], d),
        decreases windows@.len() - i,
    {
        let today: i128 = midnight + windows[i].0 as i128 * 3_600_000;
        let tomorrow: i128 = today + 86_400_000;
        let ghost before = best;
        proof {
            assert(start_on(ts as int, windows@[i as int], 0) == today);
            assert(start_on(ts as int, windows@[i as int], 1) == tomorrow);
        }
        let first: i128 = if today > now {
            today
        } else {
            tomorrow
        };
        if first > now {
            let closer: bool = match best {
                Some(b) => first < b,
                None => true,
            };
            if closer {
                best = Some(first);
            }
        }
        proof {
            assert forall|k: int, d: int|
                0 <= k < i + 1 && 0 <= d <= 1 && #[trigger] start_on(ts as int, windows@[k], d)
                    > now implies best is Some && best->0 <= start_on(
                ts as int,
                windows@[k],
                d,
            ) by {
                if k < i {
                    assert(before is Some && before->0 <= start_on(ts as int, windows@[k], d));
                }
            }
        }
        i = i + 1;
    }
    match best {
        Some(b) => {
            proof {
                assert(is_next_start(ts as int, windows@, b as int));
            }
            Some(hold_ms(b))
        },
        None => None,
    }
}

/// What is wrong with an entry window.
#[derive(Debug)]
pub enum WindowError {
    /// Not of the form `7-10`.
    Shape(String),
    /// An end that is no integer.
    NotIntegers(String),
    StartRange,
    EndRange,
    Empty,
}

impl WindowError {
    pub open spec fn text(self) -> Seq<char> {
        match self {
            WindowError::Shape(p) => "entry hour window must look like 7-10, got "@ + quoted(p@),
            WindowError::NotIntegers(p) => "entry hour window must be integers, got "@ + quoted(p@),
            WindowError::StartRange => "entry window start must be 0–23"@,
            WindowError::EndRange => "entry window end must be 0–24"@,
            WindowError::Empty => "entry window start and end must differ"@,
        }
    }

    pub fn message(&self) -> (r: String)
        ensures
            r@ == self.text(),
    {
        match self {
            WindowError::Shape(p) => {
                let mut out = own("entry hour window must look like 7-10, got ");
                out.append(print_quoted(p.as_str()).as_str());
                out
            },
            WindowError::NotIntegers(p) => {
                let mut out = own("entry hour window must be integers, got ");
                out.append(print_quoted(p.as_str()).as_str());
                out
            },
            WindowError::StartRange => own("entry window start must be 0–23"),
            WindowError::EndRange => own("entry window end must be 0–24"),
            WindowError::Empty => own("entry window start and end must differ"),
        }
    }
}

/// The outcome of reading one window.
pub enum WindowReading {
    Good(HourWindow),
    Shape,
    NotIntegers,
    StartRange,
    EndRange,
    Empty,
}

pub open spec fn is_i32(n: int) -> bool {
    i32::MIN <= n <= i32::MAX
}

/// The integer that a piece of a window stands for.
pub open spec fn hour_number(piece: Seq<char>) -> Option<int> {
    match int_value(trimmed(piece)) {
        Some(n) => if is_i32(n) {
            Some(n)
        } else {
            None
        },
        None => None,
    }
}

/// The position of the first `-`.
pub open spec fn dash(s: Seq<char>) -> Option<int> {
    if s.contains('-') {
        Some(s.index_of_first('-')->0)
    } else {
        None
    }
}

/// One window, as written between two commas.
pub open spec fn read_window(part: Seq<char>) -> WindowReading {
    match dash(part) {
        None => WindowReading::Shape,
        Some(i) => {
            match (hour_number(part.take(i)), hour_number(part.skip(i + 1))) {
                (Some(start), Some(end)) => if !(0 <= start <= 23) {
                    WindowReading::StartRange
                } else if !(0 <= end <= 24) {
                    WindowReading::EndRange
                } else if start == end {
                    WindowReading::Empty
                } else {
                    WindowReading::Good((start as u8, end as u8))
                },
                _ => WindowReading::NotIntegers,
            }
        },
    }
}

/// The pieces between commas, trimmed, without the empty ones.
pub open spec fn window_parts(pieces: Seq<Seq<char>>) -> Seq<Seq<char>>
    decreases pieces.len(),
{
    if pieces.len() == 0 {
        Seq::empty()
    } else {
        let rest = window_parts(pieces.drop_last());
        let p = trimmed(pieces.last());
        if p.len() == 0 {
            rest
        } else {
            rest.push(p)
        }
    }
}

/// Whether a text asks for no windows at all.
pub open spec fn asks_always(text: Seq<char>) -> bool {
    ||| text.len() == 0
    ||| text == "*"@
    ||| text == "24"@
    ||| text == "all"@
    ||| text == "always"@
}

/// The trimmed, lower-case form that is read.
pub open spec fn windows_text(raw: Seq<char>) -> Seq<char> {
    lower(trimmed(raw))
}

/// The window pieces of a setting.
pub open spec fn setting_parts(raw: Seq<char>) -> Seq<Seq<char>> {
    if asks_always(windows_text(raw)) {
        Seq::empty()
    } else {
        window_parts(split(windows_text(raw), ','))
    }
}

/// Whether an error is the one that a piece gives.
pub open spec fn error_of(part: Seq<char>, e: WindowError) -> bool {
    match read_window(part) {
        WindowReading::Good(_) => false,
        WindowReading::Shape => e matches WindowError::Shape(p) && p@ == part,
        WindowReading::NotIntegers => e matches WindowError::NotIntegers(p) && p@ == part,
        WindowReading::StartRange => e is StartRange,
        WindowReading::EndRange => e is EndRange,
        WindowReading::Empty => e is Empty,
    }
}

fn find_dash(v: &[char]) -> (r: Option<usize>)
    ensures
        match r {
            Some(i) => dash(v@) == Some(i as int) && i < v@.len(),
            None => dash(v@) is None,
        },
{
    let mut i: usize = 0;
    while i < v.len()
        invariant
            i <= v@.len(),
            forall|j: int| 0 <= j < i ==> v@[j] != '-',
        decreases v@.len() - i,
    {
        if v[i] == '-' {
            proof {
                v@.index_of_first_ensures('-');
                assert(v@[i as int] == '-');
                assert(v@.contains('-'));
                let k = v@.index_of_first('-')->0;
                assert(k == i);
            }
            return Some(i);
        }
        i = i + 1;
    }
    None
}

fn parse_hour(v: &[char]) -> (r: Option<i64>)
    ensures
        match r {
            Some(n) => hour_number(v@) == Some(n as int),
            None => hour_number(v@) is None,
        },
{
    let s = crate::text::from_chars(v);
    match parse_i64(trim(s.as_str())) {
        Some(n) => if n >= i32::MIN as i64 && n <= i32::MAX as i64 {
            Some(n)
        } else {
            None
        },
        None => None,
    }
}

fn chars_between(v: &Vec<char>, from: usize, to: usize) -> (r: Vec<char>)
    requires
        from <= to <= v@.len(),
    ensures
        r@ == v@.subrange(from as int, to as int),
{
    let mut out: Vec<char> = Vec::new();
    let mut i: usize = from;
    while i < to
        invariant
            from <= i <= to <= v@.len(),
            out@ == v@.subrange(from as int, i as int),
        decreases to - i,
    {
        out.push(v[i]);
        proof {
            assert(v@.subrange(from as int, i as int + 1) =~= v@.subrange(
                from as int,
                i as int,
            ).push(v@[i as int]));
        }
        i = i + 1;
    }
    out
}

fn parse_window(part: &str) -> (r: Result<HourWindow, WindowError>)
    ensures
        match r {
            Ok(w) => read_window(part@) == WindowReading::Good(w),
            Err(e) => error_of(part@, e),
        },
{
    let v: Vec<char> = crate::text::to_chars(part);
    let n: usize = v.len();
    match find_dash(v.as_slice()) {
        None => Err(WindowError::Shape(own(part))),
        Some(i) => {
            let left: Vec<char> = chars_between(&v, 0, i);
            let right: Vec<char> = chars_between(&v, i + 1, n);
            proof {
                assert(left@ =~= part@.take(i as int));
                assert(right@ =~= part@.skip(i + 1));
            }
            match (parse_hour(left.as_slice()), parse_hour(right.as_slice())) {
                (Some(start), Some(end)) => {
                    if start < 0 || start > 23 {
                        Err(WindowError::StartRange)
                    } else if end < 0 || end > 24 {
                        Err(WindowError::EndRange)
                    } else if start == end {
                        Err(WindowError::Empty)
                    } else {
                        Ok((start as u8, end as u8))
                    }
                },
                _ => Err(WindowError::NotIntegers(own(part))),
            }
        },
    }
}

/// Reads entry windows such as `0-2,7-10`. The empty text and the words for
/// "always" give none. The first bad piece decides the error.
pub fn parse_entry_windows(raw: &str) -> (r: Result<Vec<HourWindow>, WindowError>)
    ensures
        ({
            let parts = setting_parts(raw@);
            match r {
                Ok(w) => {
                    &&& w@.len() == parts.len()
                    &&& forall|i: int|
                        0 <= i < parts.len() ==> read_window(parts[i]) == WindowReading::Good(
                            #[trigger] w@[i],
                        )
                },
                Err(e) => exists|k: int|
                    0 <= k < parts.len() && #[trigger] error_of(parts[k], e) && (forall|j: int|
                        0 <= j < k ==> read_window(#[trigger] parts[j]) is Good),
            }
        }),
{
    let text = trim(raw).to_ascii_lowercase();
    let t: &str = text.as_str();
    if t.is_empty() || same(t, "*") || same(t, "24") || same(t, "all") || same(t, "always") {
        return Ok(Vec::new());
    }
    let pieces: Vec<String> = split_on(t, ',');
    let ghost all = views(pieces@);
    let mut windows: Vec<HourWindow> = Vec::new();
    let mut i: usize = 0;
    while i < pieces.len()
        invariant
            i <= pieces@.len(),
            all == views(pieces@),
            setting_parts(raw@) == window_parts(all),
            windows@.len() == window_parts(all.take(i as int)).len(),
            forall|k: int|
                0 <= k < windows@.len() ==> read_window(window_parts(all.take(i as int))[k])
                    == WindowReading::Good(#[trigger] windows@[k]),
        decreases pieces@.len() - i,
    {
        let part: &str = trim(pieces[i].as_str());
        let ghost parts = window_parts(all.take(i as int));
        proof {
            assert(all.take(i as int + 1).drop_last() =~= all.take(i as int));
        }
        if !part.is_empty() {
            match parse_window(part) {
                Ok(w) => {
                    windows.push(w);
                },
                Err(e) => {
                    proof {
                        let k = parts.len() as int;
                        lemma_parts_prefix(all, i as int + 1);
                        let whole = window_parts(all);
                        assert(window_parts(all.take(i as int + 1)) == parts.push(part@));
                        assert(whole.take(k + 1) == parts.push(part@));
                        assert(whole[k] == whole.take(k + 1)[k]);
                        assert forall|j: int| 0 <= j < k implies read_window(
                            #[trigger] whole[j],
                        ) is Good by {
                            assert(whole[j] == whole.take(k + 1)[j]);
                            assert(read_window(parts[j]) == WindowReading::Good(windows@[j]));
                        }
                        assert(error_of(whole[k], e));
                    }
                    return Err(e);
                },
            }
        }
        i = i + 1;
    }
    proof {
        assert(all.take(i as int) =~= all);
    }
    Ok(windows)
}

/// The parts of a prefix are a prefix of the parts.
proof fn lemma_parts_prefix(pieces: Seq<Seq<char>>, n: int)
    requires
        0 <= n <= pieces.len(),
    ensures
        window_parts(pieces.take(n)).len() <= window_parts(pieces).len(),
        window_parts(pieces).take(window_parts(pieces.take(n)).len() as int) == window_parts(
            pieces.take(n),
        ),
    decreases pieces.len(),
{
    if n == pieces.len() {
        assert(pieces.take(n) =~= pieces);
        assert(window_parts(pieces).take(window_parts(pieces).len() as int) =~= window_parts(
            pieces,
        ));
    } else {
        lemma_parts_prefix(pieces.drop_last(), n);
        assert(pieces.drop_last().take(n) =~= pieces.take(n));
        let a = window_parts(pieces.drop_last());
        let k = window_parts(pieces.take(n)).len() as int;
        assert(window_parts(pieces).take(k) =~= a.take(k));
    }
}

/// One window in print, midnight as `00`.
pub open spec fn window_text(w: HourWindow) -> Seq<char> {
    padded2(w.0 as nat) + "–"@ + padded2(if w.1 == 24 { 0 } else { w.1 as nat })
}

/// The windows in print.
pub open spec fn format_windows_text(windows: Seq<HourWindow>) -> Seq<char> {
    if windows.len() == 0 {
        "круглосуточно"@
    } else {
        joined(Seq::new(windows.len(), |i: int| window_text(windows[i])), ", "@) + " UTC"@
    }
}

pub fn format_windows(windows: &[HourWindow]) -> (r: String)
    ensures
        r@ == format_windows_text(windows@),
{
    if windows.len() == 0 {
        return own("круглосуточно");
    }
    let mut bits: Vec<String> = Vec::new();
    let mut i: usize = 0;
    while i < windows.len()
        invariant
            i <= windows@.len(),
            bits@.len() == i,
            forall|j: int| 0 <= j < i ==> (#[trigger] bits@[j])@ == window_text(windows@[j]),
        decreases windows@.len() - i,
    {
        let w: HourWindow = windows[i];
        let mut bit = print_padded2(w.0 as u64);
        bit.append("–");
        bit.append(print_padded2(if w.1 == 24 { 0 } else { w.1 as u64 }).as_str());
        bits.push(bit);
        i = i + 1;
    }
    proof {
        assert(views(bits@) =~= Seq::new(windows@.len(), |i: int| window_text(windows@[i])));
    }
    let mut out = join(bits.as_slice(), ", ");
    out.append(" UTC");
    out
}

/// What an open window is called.
pub open spec fn window_label(w: HourWindow) -> Seq<char> {
    if w == (0u8, 2u8) {
        "старт Азия / дневная свеча"@
    } else if w == (7u8, 10u8) {
        "старт Лондон"@
    } else if w == (13u8, 16u8) {
        "старт Нью-Йорк / пересечение"@
    } else {
        "старт "@ + padded2(w.0 as nat) + "–"@ + padded2((w.1 % 24) as nat) + " UTC"@
    }
}

fn window_label_for(w: HourWindow) -> (r: String)
    ensures
        r@ == window_label(w),
{
    if w.0 == 0 && w.1 == 2 {
        own("старт Азия / дневная свеча")
    } else if w.0 == 7 && w.1 == 10 {
        own("старт Лондон")
    } else if w.0 == 13 && w.1 == 16 {
        own("старт Нью-Йорк / пересечение")
    } else {
        let mut out = own("старт ");
        out.append(print_padded2(w.0 as u64).as_str());
        out.append("–");
        out.append(print_padded2((w.1 % 24) as u64).as_str());
        out.append(" UTC");
        out
    }
}

/// Whether entries are open, and how to say so.
#[derive(Debug)]
pub struct SessionStatus {
    pub open: bool,
    pub utc_clock: String,
    pub label: String,
    pub windows_text: String,
    pub next_open_clock: Option<String>,
}

/// Whether entries are open, and how to say so, with texts as characters.
pub struct StatusView {
    pub open: bool,
    pub utc_clock: Seq<char>,
    pub label: Seq<char>,
    pub windows_text: Seq<char>,
    pub next_open_clock: Option<Seq<char>>,
}

impl View for SessionStatus {
    type V = StatusView;

    open spec fn view(&self) -> StatusView {
        StatusView {
            open: self.open,
            utc_clock: self.utc_clock@,
            label: self.label@,
            windows_text: self.windows_text@,
            next_open_clock: match self.next_open_clock {
                Some(c) => Some(c@),
                None => None,
            },
        }
    }
}

/// Whether entries are open at an instant, and how to say so.
pub open spec fn status_at(ts: int, windows: Seq<HourWindow>, always: bool) -> StatusView {
    if always || windows.len() == 0 {
        StatusView {
            open: true,
            utc_clock: clock_text(ts),
            label: "входы круглосуточно"@,
            windows_text: "круглосуточно"@,
            next_open_clock: None,
        }
    } else {
        let at = first_window(hour_at(ts), windows);
        StatusView {
            open: at is Some,
            utc_clock: clock_text(ts),
            label: match at {
                Some(w) => window_label(w),
                None => "вне часов старта"@,
            },
            windows_text: format_windows_text(windows),
            next_open_clock: if at is Some {
                None
            } else {
                match next_start(ts, windows) {
                    Some(t) => Some(clock_text(clamp_ms(t))),
                    None => None,
                }
            },
        }
    }
}

proof fn lemma_next_clock(ts: int, windows: Seq<HourWindow>, next: Option<i64>)
    requires
        match next {
            Some(t) => exists|u: int| t == clamp_ms(u) && #[trigger] is_next_start(ts, windows, u),
            None => forall|i: int, d: int|
                0 <= i < windows.len() && 0 <= d <= 1 ==> #[trigger] start_on(ts, windows[i], d)
                    <= shown_instant(ts),
        },
    ensures
        match next {
            Some(t) => next_start(ts, windows) is Some && t == clamp_ms(next_start(ts, windows)->0),
            None => next_start(ts, windows) is None,
        },
{
    match next {
        Some(t) => {
            let u = choose|u: int| t == clamp_ms(u) && #[trigger] is_next_start(ts, windows, u);
            lemma_next_start_unique(ts, windows, u, next_start(ts, windows)->0);
        },
        None => {
            if exists|t: int| is_next_start(ts, windows, t) {
                let t = choose|t: int| is_next_start(ts, windows, t);
                let (i, d) = choose|i: int, d: int|
                    0 <= i < windows.len() && 0 <= d <= 1 && t == #[trigger] start_on(
                        ts,
                        windows[i],
                        d,
                    );
                assert(start_on(ts, windows[i], d) <= shown_instant(ts));
            }
        },
    }
}

/// The earliest window start after an instant, as it is looked up.
pub fn next_window(ts: i64, windows: &[HourWindow]) -> (r: Option<i64>)
    ensures
        match r {
            Some(t) => next_start(ts as int, windows@) is Some && t == clamp_ms(
                next_start(ts as int, windows@)->0,
            ),
            None => next_start(ts as int, windows@) is None,
        },
{
    let r: Option<i64> = next_window_start(ts, windows);
    proof {
        lemma_next_clock(ts as int, windows@, r);
    }
    r
}

pub fn session_status(ts: i64, windows: Option<&[HourWindow]>, always: bool) -> (r: SessionStatus)
    ensures
        r@ == status_at(ts as int, windows_or_default(view_windows(windows)), always),
        r.open == entry_open(ts as int, view_windows(windows), always),
        r.utc_clock@ == clock_text(ts as int),
        ({
            let used = windows_or_default(view_windows(windows));
            if always || used.len() == 0 {
                &&& r.label@ == "входы круглосуточно"@
                &&& r.windows_text@ == "круглосуточно"@
                &&& r.next_open_clock is None
            } else {
                &&& r.windows_text@ == format_windows_text(used)
                &&& match first_window(hour_at(ts as int), used) {
                    Some(w) => r.label@ == window_label(w) && r.next_open_clock is None,
                    None => {
                        &&& r.label@ == "вне часов старта"@
                        &&& match r.next_open_clock {
                            Some(c) => exists|u: int|
                                c@ == clock_text(clamp_ms(u)) && #[trigger] is_next_start(
                                    ts as int,
                                    used,
                                    u,
                                ),
                            None => forall|i: int, d: int|
                                0 <= i < used.len() && 0 <= d <= 1 ==> #[trigger] start_on(
                                    ts as int,
                                    used[i],
                                    d,
                                ) <= shown_instant(ts as int),
                        }
                    },
                }
            }
        }),
{
    let clock = utc_clock(ts);
    let default: Vec<HourWindow> = default_entry_windows();
    let used: &[HourWindow] = match windows {
        Some(w) => w,
        None => default.as_slice(),
    };
    if always || used.len() == 0 {
        return SessionStatus {
            open: true,
            utc_clock: clock,
            label: own("входы круглосуточно"),
            windows_text: own("круглосуточно"),
            next_open_clock: None,
        };
    }
    match window_at(utc_hour(ts) as u32, used) {
        Some(w) => SessionStatus {
            open: true,
            utc_clock: clock,
            label: window_label_for(w),
            windows_text: format_windows(used),
            next_open_clock: None,
        },
        None => {
            let start: Option<i64> = next_window_start(ts, used);
            proof {
                lemma_next_clock(ts as int, used@, start);
            }
            let next: Option<String> = match start {
                Some(t) => Some(utc_clock(t)),
                None => None,
            };
            SessionStatus {
                open: false,
                utc_clock: clock,
                label: own("вне часов старта"),
                windows_text: format_windows(used),
                next_open_clock: next,
            }
        },
    }
}

/// Why nothing is entered outside the hours.
pub open spec fn outside_reason(status: SessionStatus) -> Seq<char> {
    let next = match status.next_open_clock {
        Some(c) => "; следующий старт "@ + c@ + " UTC"@,
        None => ""@,
    };
    "вне часов старта (сейчас "@ + status.utc_clock@ + " UTC, входы "@ + status.windows_text@ + next
        + ")"@
}

pub fn outside_entry_reason(status: &SessionStatus) -> (r: String)
    ensures
        r@ == outside_reason(*status),
{
    let mut next = own("");
    if let Some(c) = &status.next_open_clock {
        next = own("; следующий старт ");
        next.append(c.as_str());
        next.append(" UTC");
    }
    let mut out = own("вне часов старта (сейчас ");
    out.append(status.utc_clock.as_str());
    out.append(" UTC, входы ");
    out.append(status.windows_text.as_str());
    out.append(next.as_str());
    out.append(")");
    out
}

/// The earliest window start after `ts`, if there is one.
pub open spec fn next_start(ts: int, windows: Seq<HourWindow>) -> Option<int> {
    if exists|t: int| is_next_start(ts, windows, t) {
        Some(choose|t: int| is_next_start(ts, windows, t))
    } else {
        None
    }
}

/// Why nothing is entered at an instant outside the hours.
pub open spec fn outside_note(ts: int, windows: Seq<HourWindow>) -> Seq<char> {
    let next = match next_start(ts, windows) {
        Some(t) => "; следующий старт "@ + clock_text(clamp_ms(t)) + " UTC"@,
        None => ""@,
    };
    "вне часов старта (сейчас "@ + clock_text(ts) + " UTC, входы "@ + format_windows_text(windows)
        + next + ")"@
}

/// Two instants that are both the next start are one.
proof fn lemma_next_start_unique(ts: int, windows: Seq<HourWindow>, t: int, u: int)
    requires
        is_next_start(ts, windows, t),
        is_next_start(ts, windows, u),
    ensures
        t == u,
{
    let (i, d) = choose|i: int, d: int|
        0 <= i < windows.len() && 0 <= d <= 1 && t == #[trigger] start_on(ts, windows[i], d);
    let (j, e) = choose|j: int, e: int|
        0 <= j < windows.len() && 0 <= e <= 1 && u == #[trigger] start_on(ts, windows[j], e);
    assert(start_on(ts, windows[i], d) == t);
    assert(start_on(ts, windows[j], e) == u);
}

/// Why nothing is entered at an instant outside the hours.
pub fn outside_hours_note(ts: i64, windows: &[HourWindow]) -> (r: String)
    requires
        !entry_open(ts as int, Some(windows@), false),
    ensures
        r@ == outside_note(ts as int, windows@),
{
    let status: SessionStatus = session_status(ts, Some(windows), false);
    proof {
        let now = ts as int;
        lemma_first_window(hour_at(now), windows@, windows@.len() as int);
        assert(windows@.skip(windows@.len() as int) =~= Seq::empty());
        match &status.next_open_clock {
            Some(c) => {
                let u = choose|u: int|
                    c@ == clock_text(clamp_ms(u)) && #[trigger] is_next_start(now, windows@, u);
                lemma_next_start_unique(now, windows@, u, next_start(now, windows@)->0);
            },
            None => {
                if exists|t: int| is_next_start(now, windows@, t) {
                    let t = choose|t: int| is_next_start(now, windows@, t);
                    let (i, d) = choose|i: int, d: int|
                        0 <= i < windows@.len() && 0 <= d <= 1 && t == #[trigger] start_on(
                            now,
                            windows@[i],
                            d,
                        );
                    assert(start_on(now, windows@[i], d) <= shown_instant(now));
                }
            },
        }
    }
    outside_entry_reason(&status)
}

/// A copy of a list of windows.
pub fn copy_windows(v: &[HourWindow]) -> (r: Vec<HourWindow>)
    ensures
        r@ == v@,
{
    let mut out: Vec<HourWindow> = Vec::new();
    let mut i: usize = 0;
    while i < v.len()
        invariant
            i <= v@.len(),
            out@ == v@.take(i as int),
        decreases v@.len() - i,
    {
        out.push(v[i]);
        proof {
            assert(v@.take(i as int + 1) =~= v@.take(i as int).push(v@[i as int]));
        }
        i = i + 1;
    }
    proof {
        assert(v@.take(i as int) =~= v@);
    }
    out
}

/// A window opens at its first hour and has closed by its last. The window from its
/// end back to its start is open exactly while it is closed.
pub proof fn law_windows_split_the_day(hour: int, w: HourWindow)
    requires
        0 <= hour < 24,
        w.0 < 24 && w.1 < 24,
        w.0 != w.1,
    ensures
        in_window(w.0 as int, w),
        !in_window(w.1 as int, w),
        in_window(hour, w) <==> !in_window(hour, (w.1, w.0)),
        in_window(hour, w) && hour + 1 < 24 && hour + 1 != w.1 ==> in_window(hour + 1, w),
        in_window(23, w) && w.1 != 0 ==> in_window(0, w),
{
}

/// Entries are open exactly where the desk is always open, has no windows, or the
/// hour lies in one of them.
pub proof fn law_entries_open_in_their_windows(ts: int, windows: Seq<HourWindow>, always: bool, i: int)
    ensures
        always ==> entry_open(ts, Some(windows), always),
        windows.len() == 0 ==> entry_open(ts, Some(windows), always),
        0 <= i < windows.len() && in_window(hour_at(ts), windows[i]) ==> entry_open(
            ts,
            Some(windows),
            always,
        ),
        !always && windows.len() > 0 && entry_open(ts, Some(windows), always) ==> exists|k: int|
            0 <= k < windows.len() && in_window(hour_at(ts), #[trigger] windows[k]),
{
    if 0 <= i < windows.len() && in_window(hour_at(ts), windows[i]) {
        assert(hour_open(hour_at(ts), windows));
    }
}

/// A pause after a loss lasts at least the pause, and to the end of the window that
/// it fell in.
pub proof fn law_loss_pause_covers_the_window(now: int, windows: Seq<HourWindow>, pause_ms: int)
    requires
        pause_ms >= 0,
    ensures
        loss_pause_end(now, windows, pause_ms) >= clamp_ms(now + pause_ms),
        window_end(now, windows) matches Some(end) ==> loss_pause_end(now, windows, pause_ms) >= end,
        loss_pause_end(now, windows, pause_ms) == clamp_ms(now + pause_ms) || window_end(now, windows)
            == Some(loss_pause_end(now, windows, pause_ms)),
{
}

} // verus!

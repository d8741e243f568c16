//! Exchange error catalog: which code means what, and what to do about it.
use crate::json::{json_document, read_document, Json};
use crate::text::{
    clip_chars, clipped, contains, has, int_text, is_digit, lower, own, print_i64, to_chars,
};
use vstd::prelude::*;
use vstd::string::{StrSliceExecFns, StringExecFns};

verus! {

/// What an error asks for.
#[derive(Debug, Clone, Copy, PartialEq, Eq, Structural)]
pub enum ErrorAction {
    Retry,
    Skip,
    Cooldown,
    Ignore,
    Operator,
    Keep,
}

impl ErrorAction {
    pub open spec fn text(self) -> Seq<char> {
        match self {
            ErrorAction::Retry => "retry"@,
            ErrorAction::Skip => "skip_symbol"@,
            ErrorAction::Cooldown => "cooldown"@,
            ErrorAction::Ignore => "ignore"@,
            ErrorAction::Operator => "operator"@,
            ErrorAction::Keep => "keep"@,
        }
    }

    pub fn as_str(self) -> (r: &'static str)
        ensures
            r@ == self.text(),
    {
        match self {
            ErrorAction::Retry => "retry",
            ErrorAction::Skip => "skip_symbol",
            ErrorAction::Cooldown => "cooldown",
            ErrorAction::Ignore => "ignore",
            ErrorAction::Operator => "operator",
            ErrorAction::Keep => "keep",
        }
    }
}

/// Pause after a fault or a loss, in milliseconds: 1800 s.
pub const COOLDOWN_MS: i64 = 1_800_000;

/// First pause after a retryable transport fault.
pub const RETRY_BACKOFF_MS: i64 = 20_000;

/// Cap of the retry pauses.
pub const RETRY_BACKOFF_CAP_MS: i64 = 60_000;

/// After a losing close the symbol stays off the buy list for 12 hours, so that
/// it skips the next session window.
pub const LOSS_SYMBOL_COOLDOWN_MS: i64 = 43_200_000;

/// How long a symbol stays off the buy list after a losing close: 24 hours on
/// the 1h desk, else 12.
pub open spec fn loss_cooldown(strategy_id: int) -> int {
    if strategy_id == 5 {
        86_400_000
    } else {
        LOSS_SYMBOL_COOLDOWN_MS as int
    }
}

/// How long a symbol stays off the buy list after a losing close.
pub fn loss_symbol_cooldown_ms(strategy_id: i32) -> (r: i64)
    ensures
        r == loss_cooldown(strategy_id as int),
{
    if strategy_id == 5 {
        86_400_000
    } else {
        LOSS_SYMBOL_COOLDOWN_MS
    }
}

/// Consecutive retryable faults: 20 s, 40 s, then 60 s.
pub open spec fn retry_backoff(strikes: int) -> int {
    if strikes <= 1 {
        20_000
    } else if strikes == 2 {
        40_000
    } else {
        60_000
    }
}

/// Consecutive retryable faults: 20 s, 40 s, then 60 s. In milliseconds.
pub fn retry_backoff_ms(strikes: u8) -> (r: i64)
    ensures
        r == retry_backoff(strikes as int),
{
    if strikes <= 1 {
        RETRY_BACKOFF_MS
    } else if strikes == 2 {
        2 * RETRY_BACKOFF_MS
    } else {
        RETRY_BACKOFF_CAP_MS
    }
}

/// Pauses never shrink with further strikes, start at the base and end at the cap.
pub proof fn law_backoff_grows_to_its_cap(a: int, b: int)
    requires
        0 <= a <= b,
    ensures
        RETRY_BACKOFF_MS <= retry_backoff(a) <= retry_backoff(b) <= RETRY_BACKOFF_CAP_MS,
{
}

/// An error as the desk understands it.
#[derive(Debug)]
pub struct ClassifiedError {
    pub code: Option<i32>,
    pub action: ErrorAction,
    pub message: String,
    pub exchange_msg: String,
}

/// What to do about a code.
pub open spec fn code_action(code: int) -> Option<ErrorAction> {
    if code == -1001 || code == -1006 || code == -1007 || code == -1008 || code == -1016 || code
        == -1021 {
        Some(ErrorAction::Retry)
    } else if code == -2011 || code == -2013 || code == -4130 {
        Some(ErrorAction::Ignore)
    } else if code == -2014 || code == -2015 || code == -1022 || code == -2023 || code == -1002
        || code == -1003 || code == -1099 {
        Some(ErrorAction::Operator)
    } else if code == -2018 || code == -2019 {
        Some(ErrorAction::Cooldown)
    } else if code == -2022 || code == -2026 || code == -2021 || code == -4087 || code == -2024
        || code == -1102 {
        Some(ErrorAction::Keep)
    } else if code == -2027 || code == -4411 || code == -1121 || code == -4164 || code == -1013
        || code == -1111 || code == -2010 {
        Some(ErrorAction::Skip)
    } else {
        None
    }
}

/// What to say about a code that is known.
pub open spec fn code_message(code: int) -> Seq<char> {
    if code == -1007 {
        "TestNet не ответил вовремя (−1007)."@
    } else if code == -1008 {
        "TestNet перегружен (−1008/429)."@
    } else if code == -1001 {
        "TestNet оборвал соединение (−1001)."@
    } else if code == -1021 {
        "Часы рассинхронизированы (−1021). Подстрою время."@
    } else if code == -2027 {
        "Лимит позиции при этом плече (−2027). Этот символ не берём."@
    } else if code == -4411 {
        "Биржа отказала (−4411): TradFi-Perps (золото/акции). Этот символ больше не берём."@
    } else if code == -4130 {
        "TP/SL уже стоят на бирже (−4130). Не дублирую."@
    } else if code == -2022 {
        "reduceOnly отклонён (−2022). Книга уже плоская — не открываю шорт."@
    } else if code == -1102 {
        "Биржа отказала (−1102): обязательный параметр ордера (algoType)."@
    } else if code == -2015 {
        "Ключ отклонён (−2015). Права или IP-белый список."@
    } else {
        match code_action(code) {
            Some(ErrorAction::Retry) => "TestNet retry"@,
            Some(ErrorAction::Ignore) => "ignore"@,
            Some(ErrorAction::Operator) => "operator"@,
            Some(ErrorAction::Cooldown) => "margin"@,
            Some(ErrorAction::Keep) => "keep"@,
            Some(ErrorAction::Skip) => "skip"@,
            None => ""@,
        }
    }
}

fn policy(code: i32) -> (r: Option<ErrorAction>)
    ensures
        r == code_action(code as int),
{
    match code {
        -1001 | -1006 | -1007 | -1008 | -1016 | -1021 => Some(ErrorAction::Retry),
        -2011 | -2013 | -4130 => Some(ErrorAction::Ignore),
        -2014 | -2015 | -1022 | -2023 | -1002 | -1003 | -1099 => Some(ErrorAction::Operator),
        -2018 | -2019 => Some(ErrorAction::Cooldown),
        -2022 | -2026 | -2021 | -4087 | -2024 | -1102 => Some(ErrorAction::Keep),
        -2027 | -4411 | -1121 | -4164 | -1013 | -1111 | -2010 => Some(ErrorAction::Skip),
        _ => None,
    }
}

fn policy_message(code: i32) -> (r: Option<(ErrorAction, &'static str)>)
    ensures
        match r {
            Some((a, m)) => code_action(code as int) == Some(a) && m@ == code_message(code as int),
            None => code_action(code as int) is None,
        },
{
    match policy(code) {
        None => None,
        Some(a) => {
            let m: &'static str = match code {
                -1007 => "TestNet не ответил вовремя (−1007).",
                -1008 => "TestNet перегружен (−1008/429).",
                -1001 => "TestNet оборвал соединение (−1001).",
                -1021 => "Часы рассинхронизированы (−1021). Подстрою время.",
                -2027 => "Лимит позиции при этом плече (−2027). Этот символ не берём.",
                -4411 => {
                    "Биржа отказала (−4411): TradFi-Perps (золото/акции). Этот символ больше не берём."
                },
                -4130 => "TP/SL уже стоят на бирже (−4130). Не дублирую.",
                -2022 => "reduceOnly отклонён (−2022). Книга уже плоская — не открываю шорт.",
                -1102 => "Биржа отказала (−1102): обязательный параметр ордера (algoType).",
                -2015 => "Ключ отклонён (−2015). Права или IP-белый список.",
                _ => match a {
                    ErrorAction::Retry => "TestNet retry",
                    ErrorAction::Ignore => "ignore",
                    ErrorAction::Operator => "operator",
                    ErrorAction::Cooldown => "margin",
                    ErrorAction::Keep => "keep",
                    ErrorAction::Skip => "skip",
                },
            };
            Some((a, m))
        },
    }
}

/// The code and the message that a document holds.
pub open spec fn code_and_note(body: Seq<char>) -> Option<(i64, Seq<char>)> {
    match json_document(body) {
        Some(doc) => match (doc.int_at("code"@), doc.text_at("msg"@)) {
            (Some(n), Some(t)) => Some((n, t)),
            _ => None,
        },
        None => None,
    }
}

fn read_code_and_note(body: &str) -> (r: Option<(i64, String)>)
    ensures
        match r {
            Some((n, t)) => code_and_note(body@) == Some((n, t@)),
            None => code_and_note(body@) is None,
        },
{
    let doc: Json = read_document(body)?;
    match (doc.get_int("code"), doc.get_text("msg")) {
        (Some(n), Some(t)) => Some((n, own(t))),
        _ => None,
    }
}

/// The part of a text from its first `{` to its last `}`.
pub open spec fn braces(s: Seq<char>) -> Option<Seq<char>> {
    if s.contains('{') && s.contains('}') {
        let a = s.index_of_first('{')->0;
        let b = s.index_of_last('}')->0;
        if b <= a {
            None
        } else {
            Some(s.subrange(a, b + 1))
        }
    } else {
        None
    }
}

/// The code and message of an exchange error body, where the text holds one.
pub open spec fn exchange_body(s: Seq<char>) -> Option<(i32, Seq<char>)> {
    match braces(s) {
        Some(body) => match code_and_note(body) {
            Some((code, msg)) => if msg.len() == 0 {
                None
            } else {
                Some((code as i32, msg))
            },
            None => None,
        },
        None => None,
    }
}

fn find_first(v: &Vec<char>, c: char) -> (r: Option<usize>)
    ensures
        match r {
            Some(i) => v@.contains(c) && v@.index_of_first(c) == Some(i as int) && i < v@.len(),
            None => !v@.contains(c),
        },
{
    let mut i: usize = 0;
    while i < v.len()
        invariant
            i <= v@.len(),
            forall|j: int| 0 <= j < i ==> v@[j] != c,
        decreases v@.len() - i,
    {
        if v[i] == c {
            proof {
                v@.index_of_first_ensures(c);
                assert(v@[i as int] == c);
                assert(v@.index_of_first(c)->0 == i);
            }
            return Some(i);
        }
        i = i + 1;
    }
    None
}

fn find_last(v: &Vec<char>, c: char) -> (r: Option<usize>)
    ensures
        match r {
            Some(i) => v@.contains(c) && v@.index_of_last(c) == Some(i as int) && i < v@.len(),
            None => !v@.contains(c),
        },
{
    let mut i: usize = v.len();
    while i > 0
        invariant
            i <= v@.len(),
            forall|j: int| i <= j < v@.len() ==> v@[j] != c,
        decreases i,
    {
        if v[i - 1] == c {
            proof {
                v@.index_of_last_ensures(c);
                assert(v@[i - 1] == c);
                assert(v@.index_of_last(c)->0 == i - 1);
            }
            return Some(i - 1);
        }
        i = i - 1;
    }
    None
}

pub fn parse_binance_error(text: &str) -> (r: Option<(i32, String)>)
    ensures
        match r {
            Some((code, msg)) => exchange_body(text@) == Some((code, msg@)),
            None => exchange_body(text@) is None,
        },
{
    let v: Vec<char> = to_chars(text);
    let n: usize = v.len();
    match (find_first(&v, '{'), find_last(&v, '}')) {
        (Some(a), Some(b)) => {
            if b <= a || b >= n {
                return None;
            }
            let body = text.substring_char(a, b + 1);
            match read_code_and_note(body) {
                Some((code, msg)) => {
                    if msg.as_str().is_empty() {
                        None
                    } else {
                        Some((code as i32, msg))
                    }
                },
                None => None,
            }
        },
        _ => None,
    }
}

/// Hyphen or minus sign.
pub open spec fn is_dash(c: char) -> bool {
    c == '-' || c == '−'
}

/// How many digits stand from position `i` on.
pub open spec fn digit_run(s: Seq<char>, i: int) -> int
    decreases s.len() - i,
{
    if 0 <= i < s.len() && is_digit(s[i]) {
        1 + digit_run(s, i + 1)
    } else {
        0
    }
}

/// The first run of three to five digits behind a dash at or after `i`, negated.
pub open spec fn dashed_code(s: Seq<char>, i: int) -> Option<int>
    decreases s.len() - i,
{
    if i < 0 || i >= s.len() {
        None
    } else if is_dash(s[i]) && 3 <= digit_run(s, i + 1) <= 5 {
        Some(-(run_value(s, i + 1, digit_run(s, i + 1))))
    } else {
        dashed_code(s, i + 1)
    }
}

/// The number that `n` digits from position `i` stand for.
pub open spec fn run_value(s: Seq<char>, i: int, n: int) -> int
    decreases n,
{
    if n <= 0 {
        0
    } else {
        10 * run_value(s, i, n - 1) + (s[i + n - 1] as int - 48)
    }
}

proof fn lemma_run(s: Seq<char>, i: int, n: int)
    requires
        0 <= i,
        0 <= n,
        i + n <= s.len(),
        forall|j: int| i <= j < i + n ==> is_digit(#[trigger] s[j]),
    ensures
        digit_run(s, i) == n + digit_run(s, i + n),
    decreases n,
{
    if n > 0 {
        assert(is_digit(s[i]));
        lemma_run(s, i + 1, n - 1);
    }
}

proof fn lemma_run_counts(s: Seq<char>, i: int)
    ensures
        digit_run(s, i) >= 0,
    decreases s.len() - i,
{
    if 0 <= i < s.len() && is_digit(s[i]) {
        lemma_run_counts(s, i + 1);
    }
}

fn run_at(v: &Vec<char>, from: usize) -> (r: (usize, i32))
    requires
        from <= v@.len(),
    ensures
        r.0 <= 5 ==> r.0 == digit_run(v@, from as int) && r.1 == run_value(
            v@,
            from as int,
            r.0 as int,
        ),
        r.0 > 5 ==> digit_run(v@, from as int) > 5,
{
    let mut n: usize = 0;
    let mut value: i32 = 0;
    let end: usize = v.len();
    while from + n < end && n <= 5 && v[from + n] >= '0' && v[from + n] <= '9'
        invariant
            end == v@.len(),
            from + n <= v@.len(),
            n <= 6,
            forall|j: int| from <= j < from + n ==> is_digit(#[trigger] v@[j]),
            value == run_value(v@, from as int, n as int),
            0 <= value,
            n == 0 ==> value == 0,
            n == 1 ==> value <= 9,
            n == 2 ==> value <= 99,
            n == 3 ==> value <= 999,
            n == 4 ==> value <= 9999,
            n == 5 ==> value <= 99999,
            n == 6 ==> value <= 999999,
        decreases 6 - n,
    {
        value = 10 * value + (v[from + n] as u32 - 48) as i32;
        n = n + 1;
    }
    proof {
        lemma_run(v@, from as int, n as int);
        lemma_run_counts(v@, from + n);
    }
    (n, value)
}

/// The code that a text holds: of its body, else the first dashed one.
pub open spec fn written_code(s: Seq<char>) -> Option<int> {
    match exchange_body(s) {
        Some((code, _)) => Some(code as int),
        None => dashed_code(s, 0),
    }
}

fn scan_dashed(v: &Vec<char>) -> (r: Option<i32>)
    ensures
        match r {
            Some(n) => dashed_code(v@, 0) == Some(n as int),
            None => dashed_code(v@, 0) is None,
        },
{
    let mut i: usize = 0;
    while i < v.len()
        invariant
            i <= v@.len(),
            dashed_code(v@, 0) == dashed_code(v@, i as int),
        decreases v@.len() - i,
    {
        if v[i] == '-' || v[i] == '−' {
            let run: (usize, i32) = run_at(v, i + 1);
            if run.0 >= 3 && run.0 <= 5 {
                proof {
                    lemma_value_bound(v@, i + 1, run.0 as int);
                }
                return Some(-run.1);
            }
        }
        i = i + 1;
    }
    None
}

proof fn lemma_value_bound(s: Seq<char>, i: int, n: int)
    requires
        0 <= i,
        0 <= n <= digit_run(s, i),
        n <= 5,
    ensures
        0 <= run_value(s, i, n) <= 99999,
{
    lemma_digit_at(s, i, n);
    reveal_with_fuel(run_value, 6);
    assert forall|k: int| 0 <= k < n implies is_digit(#[trigger] s[i + k]) by {
        lemma_digit_at(s, i, n);
    }
    if n >= 1 {
        assert(is_digit(s[i + 0]));
    }
    if n >= 2 {
        assert(is_digit(s[i + 1]));
    }
    if n >= 3 {
        assert(is_digit(s[i + 2]));
    }
    if n >= 4 {
        assert(is_digit(s[i + 3]));
    }
    if n >= 5 {
        assert(is_digit(s[i + 4]));
    }
}

proof fn lemma_digit_at(s: Seq<char>, i: int, n: int)
    requires
        0 <= i,
        0 <= n <= digit_run(s, i),
    ensures
        forall|k: int| 0 <= k < n ==> is_digit(#[trigger] s[i + k]),
    decreases n,
{
    if n > 0 {
        lemma_digit_at(s, i + 1, n - 1);
        assert forall|k: int| 0 <= k < n implies is_digit(#[trigger] s[i + k]) by {
            if k > 0 {
                assert(is_digit(s[(i + 1) + (k - 1)]));
            }
        }
    }
}

pub fn extract_int_code(text: &str) -> (r: Option<i32>)
    ensures
        match r {
            Some(n) => written_code(text@) == Some(n as int),
            None => written_code(text@) is None,
        },
{
    match parse_binance_error(text) {
        Some((code, _)) => Some(code),
        None => {
            let v: Vec<char> = to_chars(text);
            scan_dashed(&v)
        },
    }
}

/// The code that the wording of a text stands for.
pub open spec fn hinted_code(s: Seq<char>) -> Option<int> {
    let low = lower(s);
    if has(low, "timeout waiting"@) {
        Some(-1007)
    } else if has(low, "tradfi-perps"@) || has(low, "sign tradfi"@) || has(
        low,
        "agreement contract"@,
    ) {
        Some(-4411)
    } else if has(low, "maximum allowable position"@) || has(low, "maximum allowable quantity"@)
        || has(low, "leverage cap"@) {
        Some(-2027)
    } else if has(low, "margin is insufficient"@) {
        Some(-2019)
    } else if has(low, "balance is insufficient"@) {
        Some(-2018)
    } else if has(low, "reduceonly"@) {
        Some(-2022)
    } else if has(low, "order would immediately trigger"@) {
        Some(-2021)
    } else if has(low, "closeposition in the direction"@) {
        Some(-4130)
    } else if has(low, "notional below exchange minimum"@) {
        Some(-4164)
    } else if has(low, "qty below minqty"@) {
        Some(-1013)
    } else if has(low, "order does not exist"@) {
        Some(-2013)
    } else if has(low, "unknown order sent"@) {
        Some(-2011)
    } else if has(low, "timestamp"@) {
        Some(-1021)
    } else if has(low, "invalid api-key"@) {
        Some(-2015)
    } else if has(low, "api-key format invalid"@) {
        Some(-2014)
    } else if has(s, "HTTP 408"@) {
        Some(-1007)
    } else if has(s, "HTTP 429"@) {
        Some(-1008)
    } else {
        None
    }
}

fn hint_code(text: &str) -> (r: Option<i32>)
    ensures
        match r {
            Some(n) => hinted_code(text@) == Some(n as int),
            None => hinted_code(text@) is None,
        },
{
    let lowered = text.to_ascii_lowercase();
    let low: &str = lowered.as_str();
    if contains(low, "timeout waiting") {
        Some(-1007)
    } else if contains(low, "tradfi-perps") || contains(low, "sign tradfi") || contains(
        low,
        "agreement contract",
    ) {
        Some(-4411)
    } else if contains(low, "maximum allowable position") || contains(
        low,
        "maximum allowable quantity",
    ) || contains(low, "leverage cap") {
        Some(-2027)
    } else if contains(low, "margin is insufficient") {
        Some(-2019)
    } else if contains(low, "balance is insufficient") {
        Some(-2018)
    } else if contains(low, "reduceonly") {
        Some(-2022)
    } else if contains(low, "order would immediately trigger") {
        Some(-2021)
    } else if contains(low, "closeposition in the direction") {
        Some(-4130)
    } else if contains(low, "notional below exchange minimum") {
        Some(-4164)
    } else if contains(low, "qty below minqty") {
        Some(-1013)
    } else if contains(low, "order does not exist") {
        Some(-2013)
    } else if contains(low, "unknown order sent") {
        Some(-2011)
    } else if contains(low, "timestamp") {
        Some(-1021)
    } else if contains(low, "invalid api-key") {
        Some(-2015)
    } else if contains(low, "api-key format invalid") {
        Some(-2014)
    } else if contains(text, "HTTP 408") {
        Some(-1007)
    } else if contains(text, "HTTP 429") {
        Some(-1008)
    } else {
        None
    }
}

/// What to do about a text whose code is unknown or missing, and what to say.
pub open spec fn fallback(s: Seq<char>, body: Option<(i32, Seq<char>)>) -> (ErrorAction, Seq<char>) {
    let low = lower(s);
    if has(low, "inflates risk"@) || has(s, "раздувает риск"@) {
        (ErrorAction::Skip, "minNotional раздувает риск — символ пропускаю."@)
    } else if has(low, "timeout "@) || has(low, "timed out"@) {
        (ErrorAction::Retry, "Сеть: таймаут запроса."@)
    } else if has(s, "HTTP 408"@) {
        (ErrorAction::Retry, "TestNet не ответил вовремя (−1007)."@)
    } else if has(s, "HTTP 429"@) {
        (ErrorAction::Retry, "TestNet перегружен (−1008/429)."@)
    } else if has(s, "HTTP 502"@) || has(s, "HTTP 503"@) || has(s, "HTTP 504"@) {
        (ErrorAction::Retry, "TestNet 5xx."@)
    } else if has(s, "HTTP 401"@) || has(s, "HTTP 403"@) {
        (ErrorAction::Operator, "Доступ к API запрещён. Проверьте ключи."@)
    } else {
        match body {
            Some((code, msg)) => (
                ErrorAction::Skip,
                "Биржа отказала ("@ + int_text(code as int) + "): "@ + clipped(msg, 120),
            ),
            None => (ErrorAction::Keep, clipped(s, 160)),
        }
    }
}

pub open spec fn body_view(b: Option<(i32, String)>) -> Option<(i32, Seq<char>)> {
    match b {
        Some((c, m)) => Some((c, m@)),
        None => None,
    }
}

fn fallback_policy(text: &str, parsed: &Option<(i32, String)>) -> (r: (ErrorAction, String))
    ensures
        (r.0, r.1@) == fallback(text@, body_view(*parsed)),
{
    let lowered = text.to_ascii_lowercase();
    let low: &str = lowered.as_str();
    if contains(low, "inflates risk") || contains(text, "раздувает риск") {
        return (ErrorAction::Skip, own("minNotional раздувает риск — символ пропускаю."));
    }
    if contains(low, "timeout ") || contains(low, "timed out") {
        return (ErrorAction::Retry, own("Сеть: таймаут запроса."));
    }
    if contains(text, "HTTP 408") {
        return (ErrorAction::Retry, own("TestNet не ответил вовремя (−1007)."));
    }
    if contains(text, "HTTP 429") {
        return (ErrorAction::Retry, own("TestNet перегружен (−1008/429)."));
    }
    if contains(text, "HTTP 502") || contains(text, "HTTP 503") || contains(text, "HTTP 504") {
        return (ErrorAction::Retry, own("TestNet 5xx."));
    }
    if contains(text, "HTTP 401") || contains(text, "HTTP 403") {
        return (ErrorAction::Operator, own("Доступ к API запрещён. Проверьте ключи."));
    }
    match parsed {
        Some((code, msg)) => {
            let mut out = own("Биржа отказала (");
            out.append(print_i64(*code as i64).as_str());
            out.append("): ");
            out.append(clip_chars(msg.as_str(), 120).as_str());
            (ErrorAction::Skip, out)
        },
        None => (ErrorAction::Keep, clip_chars(text, 160)),
    }
}

/// The code of an error text: written, else hinted.
pub open spec fn error_code(s: Seq<char>) -> Option<int> {
    match written_code(s) {
        Some(c) => Some(c),
        None => hinted_code(s),
    }
}

/// What to do about an error text, and what to say.
pub open spec fn error_policy(s: Seq<char>) -> (ErrorAction, Seq<char>) {
    match error_code(s) {
        Some(c) => match code_action(c) {
            Some(a) => (a, code_message(c)),
            None => fallback(s, exchange_body(s)),
        },
        None => fallback(s, exchange_body(s)),
    }
}

/// Finds what an error text means.
pub fn classify(text: &str) -> (r: ClassifiedError)
    ensures
        match r.code {
            Some(c) => error_code(text@) == Some(c as int),
            None => error_code(text@) is None,
        },
        (r.action, r.message@) == error_policy(text@),
        r.exchange_msg@ == (match exchange_body(text@) {
            Some((_, m)) => m,
            None => ""@,
        }),
{
    let parsed: Option<(i32, String)> = parse_binance_error(text);
    let code: Option<i32> = match extract_int_code(text) {
        Some(c) => Some(c),
        None => hint_code(text),
    };
    let exchange_msg: String = match &parsed {
        Some((_, m)) => own(m.as_str()),
        None => own(""),
    };
    let known: Option<(ErrorAction, &'static str)> = match code {
        Some(c) => policy_message(c),
        None => None,
    };
    let decided: (ErrorAction, String) = match known {
        Some((a, m)) => (a, own(m)),
        None => fallback_policy(text, &parsed),
    };
    ClassifiedError { code, action: decided.0, message: decided.1, exchange_msg }
}

/// The text with every match of a pattern replaced, as the `regex` crate does
/// it; `None` where it rejects the pattern.
pub uninterp spec fn regex_replaced(
    pattern: Seq<char>,
    text: Seq<char>,
    with: Seq<char>,
) -> Option<Seq<char>>;

/// Credentials in a query: a known name, `=`, and the value up to a separator.
pub const SECRET_PATTERN: &'static str =
    "(?i)\\b(signature|api[_-]?key|secret|listenkey)=([^&\\s\"']+)";

/// `regex::Regex::new` and `replace_all`; the result is named. Stated besides: a
/// pattern is rejected whatever the text is, and a text in which credentials were
/// blotted out stays as it is. There each match ends at a separator or at the end
/// of the text, the name is kept, and `***` is again a value up to that separator:
/// the same matches are found, and each gives itself.
#[verifier::external_body]
fn replace_matches(pattern: &str, text: &str, with: &str) -> (r: Option<String>)
    ensures
        match r {
            Some(t) => regex_replaced(pattern@, text@, with@) == Some(t@),
            None => regex_replaced(pattern@, text@, with@) is None,
        },
        r is None ==> forall|t: Seq<char>| #[trigger] regex_replaced(pattern@, t, with@) is None,
        r is Some && pattern@ == SECRET_PATTERN@ && with@ == "$1=***"@ ==> regex_replaced(
            pattern@,
            r->0@,
            with@,
        ) == Some(r->0@),
{
    let re = regex::Regex::new(pattern).ok()?;
    Some(re.replace_all(text, with).into_owned())
}

/// The text with the values of credentials blotted out.
pub open spec fn redacted(s: Seq<char>) -> Seq<char> {
    match regex_replaced(SECRET_PATTERN@, s, "$1=***"@) {
        Some(t) => t,
        None => "***"@,
    }
}

/// Strips credentials that a transport may put into its errors. Stripping them
/// again changes nothing.
pub fn redact_secrets(text: &str) -> (r: String)
    ensures
        r@ == redacted(text@),
        redacted(r@) == r@,
{
    match replace_matches(SECRET_PATTERN, text, "$1=***") {
        Some(t) => t,
        None => own("***"),
    }
}

/// What the operator reads of an error.
pub open spec fn described(s: Seq<char>) -> Seq<char> {
    let m = error_policy(s).1;
    redacted(
        if m.len() > 0 {
            m
        } else {
            clipped(s, 160)
        },
    )
}

/// What the operator reads of an error. No credential is left in it to strip.
pub fn describe_exchange_error(text: &str) -> (r: String)
    ensures
        r@ == described(text@),
        redacted(r@) == r@,
{
    let info: ClassifiedError = classify(text);
    if !info.message.as_str().is_empty() {
        redact_secrets(info.message.as_str())
    } else {
        redact_secrets(clip_chars(text, 160).as_str())
    }
}

/// Whether a text asks for a retry; the empty text does not.
pub open spec fn asks_retry(s: Seq<char>) -> bool {
    s.len() > 0 && error_policy(s).0 == ErrorAction::Retry
}

pub fn is_retry_error(text: Option<&str>) -> (r: bool)
    ensures
        r == (match text {
            Some(t) => asks_retry(t@),
            None => false,
        }),
{
    match text {
        None => false,
        Some(t) => {
            if t.is_empty() {
                return false;
            }
            classify(t).action == ErrorAction::Retry
        },
    }
}

/// What the operator reads of an error is always a redacted text: the message that
/// the error is known by, or else the start of the error itself.
pub proof fn law_described_errors_are_redacted(s: Seq<char>)
    ensures
        error_policy(s).1.len() > 0 ==> described(s) == redacted(error_policy(s).1),
        error_policy(s).1.len() == 0 ==> described(s) == redacted(clipped(s, 160)),
{
}

/// What becomes of a code that is known: each kind of trouble has one remedy.
pub proof fn law_codes_have_one_remedy(code: int)
    ensures
        code_action(code) == Some(ErrorAction::Retry) <==> code == -1001 || code == -1006 || code
            == -1007 || code == -1008 || code == -1016 || code == -1021,
        code_action(code) == Some(ErrorAction::Ignore) <==> code == -2011 || code == -2013 || code
            == -4130,
        code_action(code) == Some(ErrorAction::Operator) <==> code == -2014 || code == -2015 || code
            == -1022 || code == -2023 || code == -1002 || code == -1003 || code == -1099,
        code_action(code) == Some(ErrorAction::Cooldown) <==> code == -2018 || code == -2019,
        code_action(code) == Some(ErrorAction::Keep) <==> code == -2022 || code == -2026 || code == -2021
            || code == -4087 || code == -2024 || code == -1102,
        code_action(code) == Some(ErrorAction::Skip) <==> code == -2027 || code == -4411 || code == -1121
            || code == -4164 || code == -1013 || code == -1111 || code == -2010,
{
}

} // verus!

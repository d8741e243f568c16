//! Settings from the environment: how each is read, and what is refused.
use super::{default_notional, default_risk_pct, interval_error, interval_of, TradeInterval};
use crate::dec::{dec, decimal_normal, decimal_text, Dec};
use crate::money::{self, amount};
use crate::sessions::{
    error_of, parse_entry_windows, read_window, setting_parts, HourWindow, WindowReading,
    DEFAULT_ENTRY_HOURS,
};
use crate::symbols::SymMap;
use crate::text::{
    from_chars, int_value, lemma_split_nonempty, lower, own, quoted, same, split, split_on, stands_at,
    starts_with, strip_start, to_chars, trim, trimmed, views, without_start,
};
use vstd::prelude::*;
use vstd::string::StringExecFns;

verus! {

pub const DEFAULT_TESTNET_BASE: &'static str = "https://testnet.binancefuture.com";

pub const MAINNET_BASE: &'static str = "https://fapi.binance.com";

pub const MAINNET_HOST: &'static str = "fapi.binance.com";

/// What is wrong with a setting.
#[derive(Debug)]
pub struct ConfigError(pub String);

impl View for ConfigError {
    type V = Seq<char>;

    open spec fn view(&self) -> Seq<char> {
        self.0@
    }
}

fn wrong(text: &str) -> (r: ConfigError)
    ensures
        r@ == text@,
{
    ConfigError(own(text))
}

fn wrong_with(text: &str, detail: &str) -> (r: ConfigError)
    ensures
        r@ == text@ + detail@,
{
    let mut out = own(text);
    out.append(detail);
    ConfigError(out)
}

/// The key pair of an account.
pub struct Credentials {
    pub api_key: String,
    pub api_secret: String,
}

/// A key pair with its texts as characters.
pub struct CredentialsView {
    pub api_key: Seq<char>,
    pub api_secret: Seq<char>,
}

impl View for Credentials {
    type V = CredentialsView;

    open spec fn view(&self) -> CredentialsView {
        CredentialsView { api_key: self.api_key@, api_secret: self.api_secret@ }
    }
}

impl Credentials {
    /// How a key pair is shown: the start of the key, and nothing of the secret.
    pub open spec fn shown(self) -> Seq<char> {
        let key = self.api_key@;
        "Credentials { api_key: "@ + quoted(
            (if key.len() <= 4 {
                key
            } else {
                key.take(4)
            }) + "…"@,
        ) + ", api_secret: "@ + quoted("[redacted]"@) + " }"@
    }

    /// How a key pair is shown: the start of the key, and nothing of the secret.
    pub fn show(&self) -> (r: String)
        ensures
            r@ == self.shown(),
    {
        let n: usize = self.api_key.as_str().unicode_len();
        let mut head = if n <= 4 {
            own(self.api_key.as_str())
        } else {
            proof {
                assert(self.api_key@.subrange(0, 4) =~= self.api_key@.take(4));
            }
            own(self.api_key.as_str().substring_char(0, 4))
        };
        head.append("…");
        let mut out = own("Credentials { api_key: ");
        out.append(crate::text::print_quoted(head.as_str()).as_str());
        out.append(", api_secret: ");
        out.append(crate::text::print_quoted("[redacted]").as_str());
        out.append(" }");
        out
    }
}

/// What is shown of a key pair does not depend on its secret.
pub proof fn law_shown_keys_hide_the_secret(a: Credentials, b: Credentials)
    requires
        a.api_key@ == b.api_key@,
    ensures
        a.shown() == b.shown(),
{
}

/// The settings.
pub struct Config {
    pub credentials: Option<Credentials>,
    pub base_url: String,
    pub poll_seconds: i32,
    pub order_notional: Dec,
    /// Fraction of account equity risked per strategy-4 entry. `0` is off.
    pub risk_pct: Dec,
    pub tp_pct: Dec,
    pub trail_pct: Dec,
    pub recv_window: i32,
    pub live: bool,
    /// In nanoseconds.
    pub http_timeout: i64,
    pub starting_equity: Option<Dec>,
    pub entry_windows: Vec<HourWindow>,
    pub always_enter: bool,
    pub s4_entry_windows: Vec<HourWindow>,
    pub s4_always_enter: bool,
    pub s4_interval: TradeInterval,
    /// Strategy 4 basket size.
    pub s4_max_positions: i32,
    /// Strategy 2 (scalp) entry windows.
    pub s2_entry_windows: Vec<HourWindow>,
    pub s2_always_enter: bool,
    /// Strategy 2 longest hold in bars.
    pub s2_max_hold_bars: usize,
    pub leverage: Option<i32>,
    pub max_positions: i32,
    pub notional_from_exchange: bool,
    pub daily_loss_usdt: Dec,
    /// Largest day loss in R. `0` switches the R halt off.
    pub daily_loss_r: Dec,
}

/// The settings with their texts and lists as sequences.
pub struct ConfigView {
    pub credentials: Option<CredentialsView>,
    pub base_url: Seq<char>,
    pub poll_seconds: i32,
    pub order_notional: Dec,
    pub risk_pct: Dec,
    pub tp_pct: Dec,
    pub trail_pct: Dec,
    pub recv_window: i32,
    pub live: bool,
    pub http_timeout: i64,
    pub starting_equity: Option<Dec>,
    pub entry_windows: Seq<HourWindow>,
    pub always_enter: bool,
    pub s4_entry_windows: Seq<HourWindow>,
    pub s4_always_enter: bool,
    pub s4_interval: TradeInterval,
    pub s4_max_positions: i32,
    pub s2_entry_windows: Seq<HourWindow>,
    pub s2_always_enter: bool,
    pub s2_max_hold_bars: usize,
    pub leverage: Option<i32>,
    pub max_positions: i32,
    pub notional_from_exchange: bool,
    pub daily_loss_usdt: Dec,
    pub daily_loss_r: Dec,
}

pub open spec fn keys_view(c: Option<Credentials>) -> Option<CredentialsView> {
    match c {
        Some(k) => Some(k@),
        None => None,
    }
}

impl View for Config {
    type V = ConfigView;

    open spec fn view(&self) -> ConfigView {
        ConfigView {
            credentials: keys_view(self.credentials),
            base_url: self.base_url@,
            poll_seconds: self.poll_seconds,
            order_notional: self.order_notional,
            risk_pct: self.risk_pct,
            tp_pct: self.tp_pct,
            trail_pct: self.trail_pct,
            recv_window: self.recv_window,
            live: self.live,
            http_timeout: self.http_timeout,
            starting_equity: self.starting_equity,
            entry_windows: self.entry_windows@,
            always_enter: self.always_enter,
            s4_entry_windows: self.s4_entry_windows@,
            s4_always_enter: self.s4_always_enter,
            s4_interval: self.s4_interval,
            s4_max_positions: self.s4_max_positions,
            s2_entry_windows: self.s2_entry_windows@,
            s2_always_enter: self.s2_always_enter,
            s2_max_hold_bars: self.s2_max_hold_bars,
            leverage: self.leverage,
            max_positions: self.max_positions,
            notional_from_exchange: self.notional_from_exchange,
            daily_loss_usdt: self.daily_loss_usdt,
            daily_loss_r: self.daily_loss_r,
        }
    }
}

/// The part of a text before the first separator.
pub open spec fn head_of(s: Seq<char>, sep: char) -> Seq<char> {
    split(s, sep)[0]
}

fn before_first(s: &str, sep: char) -> (r: String)
    ensures
        r@ == head_of(s@, sep),
{
    let parts: Vec<String> = split_on(s, sep);
    proof {
        lemma_split_nonempty(s@, sep);
        assert(views(parts@).len() == parts@.len());
        assert(views(parts@)[0] == parts@[0]@);
    }
    own(parts[0].as_str())
}

/// The host of a base address, in lower case and without its port.
pub open spec fn host_of(base: Seq<char>) -> Seq<char> {
    let rest = match without_start(base, "https://"@) {
        Some(t) => t,
        None => match without_start(base, "http://"@) {
            Some(t) => t,
            None => base,
        },
    };
    lower(head_of(head_of(rest, '/'), ':'))
}

/// The host of a base address, in lower case and without its port.
pub fn fapi_host(base: &str) -> (r: String)
    ensures
        r@ == host_of(base@),
{
    let rest: &str = match strip_start(base, "https://") {
        Some(t) => t,
        None => match strip_start(base, "http://") {
            Some(t) => t,
            None => base,
        },
    };
    let host = before_first(rest, '/');
    before_first(host.as_str(), ':').as_str().to_ascii_lowercase()
}

/// Whether a host is one of the test networks.
pub open spec fn is_testnet(host: Seq<char>) -> bool {
    host == "testnet.binancefuture.com"@ || host == "demo-fapi.binance.com"@
}

pub open spec fn base_allowed(base: Seq<char>, allow_mainnet: bool) -> bool {
    is_testnet(host_of(base)) || (host_of(base) == MAINNET_HOST@ && allow_mainnet)
}

/// Whether orders may go to a base address.
pub fn fapi_base_allowed(base: &str, allow_mainnet: bool) -> (r: bool)
    ensures
        r == base_allowed(base@, allow_mainnet),
{
    let host = fapi_host(base);
    let h: &str = host.as_str();
    if same(h, "testnet.binancefuture.com") || same(h, "demo-fapi.binance.com") {
        return true;
    }
    same(h, MAINNET_HOST) && allow_mainnet
}

/// Without leave, orders go to a test network only.
pub proof fn law_mainnet_needs_leave(base: Seq<char>)
    ensures
        base_allowed(base, false) ==> is_testnet(host_of(base)),
{
}

/// A value without the quotes around it.
pub open spec fn unquoted(value: Seq<char>) -> Seq<char> {
    let v = trimmed(value);
    if v.len() >= 2 && (v[0] == '\'' || v[0] == '"') && v[0] == v.last() {
        v.subrange(1, v.len() - 1)
    } else {
        v
    }
}

/// A value without the quotes around it.
pub fn strip_quotes(value: &str) -> (r: String)
    ensures
        r@ == unquoted(value@),
{
    let t: &str = trim(value);
    let v: Vec<char> = to_chars(t);
    let n: usize = v.len();
    if n >= 2 && (v[0] == '\'' || v[0] == '"') && v[0] == v[n - 1] {
        let len: usize = t.unicode_len();
        return own(t.substring_char(1, len - 1));
    }
    own(t)
}

pub open spec fn is_name_start(c: char) -> bool {
    'a' <= c <= 'z' || 'A' <= c <= 'Z' || c == '_'
}

pub open spec fn is_name_char(c: char) -> bool {
    is_name_start(c) || '0' <= c <= '9'
}

/// Whether a text can name a setting.
pub open spec fn is_name(s: Seq<char>) -> bool {
    s.len() > 0 && is_name_start(s[0]) && forall|i: int|
        0 < i < s.len() ==> is_name_char(#[trigger] s[i])
}

/// Whether a text can name a setting.
pub fn is_identifier(s: &str) -> (r: bool)
    ensures
        r == is_name(s@),
{
    let v: Vec<char> = to_chars(s);
    if v.len() == 0 {
        return false;
    }
    let mut i: usize = 0;
    while i < v.len()
        invariant
            i <= v@.len(),
            v@ == s@,
            i > 0 ==> is_name_start(s@[0]),
            forall|j: int| 0 < j < i ==> is_name_char(#[trigger] s@[j]),
        decreases v@.len() - i,
    {
        let c: char = v[i];
        let start: bool = (c >= 'a' && c <= 'z') || (c >= 'A' && c <= 'Z') || c == '_';
        if !(start || (i > 0 && c >= '0' && c <= '9')) {
            proof {
                if i > 0 {
                    assert(!is_name_char(s@[i as int]));
                }
            }
            return false;
        }
        i = i + 1;
    }
    true
}

/// What one line of a settings file sets.
pub open spec fn line_setting(raw: Seq<char>) -> Option<(Seq<char>, Seq<char>)> {
    let t = trimmed(raw);
    if t.len() == 0 || t[0] == '#' {
        None
    } else {
        let line = match without_start(t, "export "@) {
            Some(rest) => trimmed(rest),
            None => t,
        };
        if !line.contains('=') {
            None
        } else {
            let i = line.index_of_first('=')->0;
            let key = trimmed(line.take(i));
            if is_name(key) {
                Some((key, unquoted(line.skip(i + 1))))
            } else {
                None
            }
        }
    }
}

fn read_line(raw: &str) -> (r: Option<(String, String)>)
    ensures
        match r {
            Some((k, v)) => line_setting(raw@) == Some((k@, v@)),
            None => line_setting(raw@) is None,
        },
{
    let t: &str = trim(raw);
    if t.is_empty() || starts_with(t, "#") {
        proof {
            reveal_strlit("#");
            if t@.len() > 0 {
                assert(t@.subrange(0, 1)[0] == t@[0]);
            }
        }
        return None;
    }
    proof {
        reveal_strlit("#");
        assert(t@[0] != '#') by {
            if t@[0] == '#' {
                assert(t@.subrange(0, 1) =~= "#"@);
            }
        }
    }
    let line: &str = match strip_start(t, "export ") {
        Some(rest) => trim(rest),
        None => t,
    };
    let v: Vec<char> = to_chars(line);
    let n: usize = v.len();
    let mut i: usize = 0;
    while i < n
        invariant
            i <= n,
            n == v@.len(),
            v@ == line@,
            line_setting(raw@) == (if !line@.contains('=') {
                None
            } else {
                let k = line@.index_of_first('=')->0;
                let key = trimmed(line@.take(k));
                if is_name(key) {
                    Some((key, unquoted(line@.skip(k + 1))))
                } else {
                    None
                }
            }),
            forall|j: int| 0 <= j < i ==> line@[j] != '=',
        decreases n - i,
    {
        if v[i] == '=' {
            proof {
                line@.index_of_first_ensures('=');
                assert(line@[i as int] == '=');
                assert(line@.contains('='));
                assert(line@.index_of_first('=')->0 == i);
                assert(line@.subrange(0, i as int) =~= line@.take(i as int));
                assert(line@.subrange(i + 1, n as int) =~= line@.skip(i + 1));
            }
            let len: usize = line.unicode_len();
            let key: &str = trim(line.substring_char(0, i));
            if !is_identifier(key) {
                return None;
            }
            return Some((own(key), strip_quotes(line.substring_char(i + 1, len))));
        }
        i = i + 1;
    }
    None
}

/// What a settings file sets; the last line of a name counts.
pub open spec fn file_settings(lines: Seq<Seq<char>>) -> Map<Seq<char>, Seq<char>>
    decreases lines.len(),
{
    if lines.len() == 0 {
        Map::empty()
    } else {
        let rest = file_settings(lines.drop_last());
        match line_setting(lines.last()) {
            Some((k, v)) => rest.insert(k, v),
            None => rest,
        }
    }
}

/// Reads a settings file: one `NAME=value` per line, `#` for comments.
pub fn dotenv_settings(text: &str) -> (r: SymMap<String>)
    ensures
        crate::models::text_map(r@) == file_settings(split(text@, '\n')),
{
    let lines: Vec<String> = split_on(text, '\n');
    let ghost all = views(lines@);
    let mut out: SymMap<String> = SymMap::new();
    let mut i: usize = 0;
    proof {
        assert(crate::models::text_map(out@) =~= Map::<Seq<char>, Seq<char>>::empty());
    }
    while i < lines.len()
        invariant
            i <= lines@.len(),
            all == views(lines@),
            crate::models::text_map(out@) == file_settings(all.take(i as int)),
        decreases lines@.len() - i,
    {
        proof {
            assert(all.take(i as int + 1).drop_last() =~= all.take(i as int));
            assert(all[i as int] == lines@[i as int]@);
        }
        if let Some((k, v)) = read_line(lines[i].as_str()) {
            let ghost before = out@;
            let ghost vv = v@;
            out.insert(k.as_str(), v);
            proof {
                assert(crate::models::text_map(out@) =~= crate::models::text_map(before).insert(
                    k@,
                    vv,
                ));
            }
        }
        i = i + 1;
    }
    proof {
        assert(all.take(i as int) =~= all);
    }
    out
}

/// A setting, white space around it aside; empty where it is not set.
pub open spec fn setting(env: Map<Seq<char>, Seq<char>>, name: Seq<char>) -> Seq<char> {
    if env.contains_key(name) {
        trimmed(env[name])
    } else {
        Seq::empty()
    }
}

/// A setting, else a default.
pub open spec fn setting_or(env: Map<Seq<char>, Seq<char>>, name: Seq<char>, default: Seq<char>) -> Seq<
    char,
> {
    if setting(env, name).len() == 0 {
        default
    } else {
        setting(env, name)
    }
}

fn get_opt(env: &SymMap<String>, name: &str) -> (r: String)
    ensures
        r@ == setting(crate::models::text_map(env@), name@),
{
    match env.get(name) {
        Some(v) => own(trim(v.as_str())),
        None => {
            let none = String::new();
            proof {
                assert(none@ =~= Seq::<char>::empty());
            }
            none
        },
    }
}

fn get(env: &SymMap<String>, name: &str, default: &str) -> (r: String)
    ensures
        r@ == setting_or(crate::models::text_map(env@), name@, default@),
{
    let v = get_opt(env, name);
    if v.as_str().is_empty() {
        own(default)
    } else {
        v
    }
}

/// Whether a setting says yes.
pub open spec fn says_yes(v: Seq<char>) -> bool {
    v == "1"@ || v == "true"@ || v == "TRUE"@ || v == "yes"@
}

fn is_yes(v: &str) -> (r: bool)
    ensures
        r == says_yes(v@),
{
    same(v, "1") || same(v, "true") || same(v, "TRUE") || same(v, "yes")
}

/// What the standard library says of a text that is no 32-bit integer.
pub uninterp spec fn i32_error(text: Seq<char>) -> Seq<char>;

/// The 32-bit integer that a text stands for.
pub open spec fn i32_of(text: Seq<char>) -> Option<i32> {
    match int_value(text) {
        Some(n) => if i32::MIN <= n <= i32::MAX {
            Some(n as i32)
        } else {
            None
        },
        None => None,
    }
}

/// `str::parse::<i32>`: an optional sign and then digits, within range. The text
/// of the error is named, not stated.
#[verifier::external_body]
pub(crate) fn read_i32(text: &str) -> (r: Result<i32, String>)
    ensures
        match r {
            Ok(n) => i32_of(text@) == Some(n),
            Err(e) => i32_of(text@) is None && e@ == i32_error(text@),
        },
{
    text.parse::<i32>().map_err(|e| e.to_string())
}

/// The count that a text stands for: digits, a plus before them allowed.
pub open spec fn count_of(text: Seq<char>) -> Option<usize> {
    match int_value(text) {
        Some(n) => if text[0] != '-' && n <= usize::MAX {
            Some(n as usize)
        } else {
            None
        },
        None => None,
    }
}

/// `str::parse::<usize>`: digits, a plus before them allowed, within range.
#[verifier::external_body]
fn read_count(text: &str) -> (r: Option<usize>)
    ensures
        r == count_of(text@),
{
    text.parse::<usize>().ok()
}

/// The key pair that is set.
pub open spec fn keys_of(env: Map<Seq<char>, Seq<char>>) -> Result<
    Option<CredentialsView>,
    Seq<char>,
> {
    let key = setting(env, "BINANCE_API_KEY"@);
    let secret = setting(env, "BINANCE_API_SECRET"@);
    if key.len() > 0 && secret.len() > 0 {
        if vstd::utf8::encode_utf8(key).len() < 16 || vstd::utf8::encode_utf8(secret).len() < 16 {
            Err("BINANCE_API_KEY / BINANCE_API_SECRET look truncated"@)
        } else {
            Ok(Some(CredentialsView { api_key: key, api_secret: secret }))
        }
    } else if key.len() > 0 || secret.len() > 0 {
        Err("both BINANCE_API_KEY and BINANCE_API_SECRET are required"@)
    } else {
        Ok(None)
    }
}

fn load_keys(env: &SymMap<String>) -> (r: Result<Option<Credentials>, ConfigError>)
    ensures
        match (r, keys_of(crate::models::text_map(env@))) {
            (Ok(a), Ok(b)) => keys_view(a) == b,
            (Err(a), Err(b)) => a@ == b,
            _ => false,
        },
{
    let key = get_opt(env, "BINANCE_API_KEY");
    let secret = get_opt(env, "BINANCE_API_SECRET");
    let has_key: bool = !key.as_str().is_empty();
    let has_secret: bool = !secret.as_str().is_empty();
    if has_key && has_secret {
        if key.as_str().as_bytes().len() < 16 || secret.as_str().as_bytes().len() < 16 {
            return Err(wrong("BINANCE_API_KEY / BINANCE_API_SECRET look truncated"));
        }
        return Ok(Some(Credentials { api_key: key, api_secret: secret }));
    }
    if has_key || has_secret {
        return Err(wrong("both BINANCE_API_KEY and BINANCE_API_SECRET are required"));
    }
    Ok(None)
}

/// A text without the slashes at its end.
pub open spec fn without_slashes(s: Seq<char>) -> Seq<char>
    decreases s.len(),
{
    if s.len() > 0 && s.last() == '/' {
        without_slashes(s.drop_last())
    } else {
        s
    }
}

fn drop_slashes(text: &str) -> (r: String)
    ensures
        r@ == without_slashes(text@),
{
    let mut v: Vec<char> = to_chars(text);
    while v.len() > 0 && v[v.len() - 1] == '/'
        invariant
            without_slashes(v@) == without_slashes(text@),
        decreases v@.len(),
    {
        let ghost before = v@;
        v.pop();
        proof {
            assert(v@ =~= before.drop_last());
        }
    }
    from_chars(v.as_slice())
}

/// The base address that is set.
pub open spec fn base_of(env: Map<Seq<char>, Seq<char>>) -> Result<Seq<char>, Seq<char>> {
    let base = without_slashes(setting_or(env, "BINANCE_FAPI_BASE"@, DEFAULT_TESTNET_BASE@));
    let leave = says_yes(setting(env, "BINANCE_ALLOW_MAINNET"@));
    if !stands_at(base, "https://"@, 0) {
        Err("BINANCE_FAPI_BASE must be https"@)
    } else if stands_at(base, MAINNET_BASE@, 0) && !leave {
        Err("refusing mainnet base URL; set BINANCE_ALLOW_MAINNET=1 to override"@)
    } else if !base_allowed(base, leave) {
        Err(
            "BINANCE_FAPI_BASE host not allowlisted ("@ + host_of(base)
                + "); use testnet.binancefuture.com"@,
        )
    } else {
        Ok(base)
    }
}

fn load_base(env: &SymMap<String>) -> (r: Result<String, ConfigError>)
    ensures
        match (r, base_of(crate::models::text_map(env@))) {
            (Ok(a), Ok(b)) => a@ == b,
            (Err(a), Err(b)) => a@ == b,
            _ => false,
        },
{
    let raw = get(env, "BINANCE_FAPI_BASE", DEFAULT_TESTNET_BASE);
    let base = drop_slashes(raw.as_str());
    let b: &str = base.as_str();
    if !starts_with(b, "https://") {
        return Err(wrong("BINANCE_FAPI_BASE must be https"));
    }
    let allow = get_opt(env, "BINANCE_ALLOW_MAINNET");
    let leave: bool = is_yes(allow.as_str());
    if starts_with(b, MAINNET_BASE) && !leave {
        return Err(
            wrong("refusing mainnet base URL; set BINANCE_ALLOW_MAINNET=1 to override"),
        );
    }
    if !fapi_base_allowed(b, leave) {
        let mut text = own("BINANCE_FAPI_BASE host not allowlisted (");
        text.append(fapi_host(b).as_str());
        text.append("); use testnet.binancefuture.com");
        return Err(ConfigError(text));
    }
    Ok(base)
}

/// The polling interval that is set.
pub open spec fn poll_of(env: Map<Seq<char>, Seq<char>>) -> Result<i32, Seq<char>> {
    match i32_of(setting_or(env, "STRATEGY1_POLL_SECONDS"@, "60"@)) {
        None => Err("STRATEGY1_POLL_SECONDS must be an integer"@),
        Some(n) => if n != 60 && n != 120 {
            Err("STRATEGY1_POLL_SECONDS must be 60 or 120"@)
        } else {
            Ok(n)
        },
    }
}

fn load_poll(env: &SymMap<String>) -> (r: Result<i32, ConfigError>)
    ensures
        match (r, poll_of(crate::models::text_map(env@))) {
            (Ok(a), Ok(b)) => a == b,
            (Err(a), Err(b)) => a@ == b,
            _ => false,
        },
{
    let raw = get(env, "STRATEGY1_POLL_SECONDS", "60");
    match read_i32(raw.as_str()) {
        Err(_) => Err(wrong("STRATEGY1_POLL_SECONDS must be an integer")),
        Ok(n) => if n != 60 && n != 120 {
            Err(wrong("STRATEGY1_POLL_SECONDS must be 60 or 120"))
        } else {
            Ok(n)
        },
    }
}

/// The amount of a setting, or what is wrong with it.
pub open spec fn amount_setting(raw: Seq<char>) -> Result<Dec, Seq<char>> {
    match amount(raw) {
        Some(d) => Ok(d),
        None => Err(
            "invalid numeric config: "@ + (if trimmed(raw).len() == 0 {
                "missing numeric value"@
            } else {
                "not a decimal: "@ + raw
            }),
        ),
    }
}

fn read_setting(raw: &str) -> (r: Result<Dec, ConfigError>)
    ensures
        match (r, amount_setting(raw@)) {
            (Ok(a), Ok(b)) => a == b,
            (Err(a), Err(b)) => a@ == b,
            _ => false,
        },
{
    match money::dec(raw) {
        Ok(d) => Ok(d),
        Err(e) => Err(wrong_with("invalid numeric config: ", e.message().as_str())),
    }
}

/// The integer of a setting, or what is wrong with it.
pub open spec fn integer_setting(raw: Seq<char>) -> Result<i32, Seq<char>> {
    match i32_of(raw) {
        Some(n) => Ok(n),
        None => Err("invalid numeric config: "@ + i32_error(raw)),
    }
}

fn read_integer_setting(raw: &str) -> (r: Result<i32, ConfigError>)
    ensures
        match (r, integer_setting(raw@)) {
            (Ok(a), Ok(b)) => a == b,
            (Err(a), Err(b)) => a@ == b,
            _ => false,
        },
{
    match read_i32(raw) {
        Ok(n) => Ok(n),
        Err(e) => Err(wrong_with("invalid numeric config: ", e.as_str())),
    }
}

/// Whether the order size is left to the exchange.
pub open spec fn exchange_sized(raw: Seq<char>) -> bool {
    let t = lower(raw);
    t == "binance"@ || t == "min"@ || t == "exchange"@ || t == "0"@
}

/// The numeric settings.
#[derive(Debug, Clone, Copy)]
pub struct Numbers {
    pub notional_from_exchange: bool,
    pub notional: Dec,
    pub risk_pct: Dec,
    pub tp_pct: Dec,
    pub trail_pct: Dec,
    pub recv_window: i32,
    pub http_timeout: i64,
    pub max_positions: i32,
    pub s4_max_positions: i32,
    pub daily_loss_usdt: Dec,
    pub daily_loss_r: Dec,
}

/// The order size that is set.
pub open spec fn notional_of(env: Map<Seq<char>, Seq<char>>) -> Result<Dec, Seq<char>> {
    let raw = setting_or(env, "ORDER_NOTIONAL_USDT"@, "20"@);
    if exchange_sized(raw) {
        Ok(dec(20, 0))
    } else {
        amount_setting(raw)
    }
}

/// The risk fraction that is set.
pub open spec fn risk_of(env: Map<Seq<char>, Seq<char>>) -> Result<Dec, Seq<char>> {
    let raw = setting(env, "RISK_PCT"@);
    match (if raw.len() == 0 {
        Ok(dec(25, 4))
    } else {
        amount_setting(raw)
    }) {
        Ok(r) => if r.lt(dec(0, 0)) {
            Err("RISK_PCT cannot be negative"@)
        } else {
            Ok(r)
        },
        Err(e) => Err(e),
    }
}

/// The numeric settings, or the first that cannot be read.
pub open spec fn numbers_of(env: Map<Seq<char>, Seq<char>>, timeout: Result<i64, Seq<char>>) -> Result<
    Numbers,
    Seq<char>,
> {
    match notional_of(env) {
        Err(e) => Err(e),
        Ok(notional) => match risk_of(env) {
            Err(e) => Err(e),
            Ok(risk_pct) => match amount_setting(setting_or(env, "TAKE_PROFIT_PCT"@, "0.025"@)) {
                Err(e) => Err(e),
                Ok(tp_pct) => match amount_setting(setting_or(env, "TRAIL_PCT"@, "0.020"@)) {
                    Err(e) => Err(e),
                    Ok(trail_pct) => match integer_setting(
                        setting_or(env, "BINANCE_RECV_WINDOW"@, "5000"@),
                    ) {
                        Err(e) => Err(e),
                        Ok(recv_window) => match timeout {
                            Err(e) => Err("invalid numeric config: "@ + e),
                            Ok(http_timeout) => match integer_setting(
                                setting_or(env, "STRATEGY1_MAX_POSITIONS"@, "1"@),
                            ) {
                                Err(e) => Err(e),
                                Ok(max_positions) => match integer_setting(
                                    setting_or(env, "STRATEGY4_MAX_POSITIONS"@, "5"@),
                                ) {
                                    Err(e) => Err(e),
                                    Ok(s4_max_positions) => match amount_setting(
                                        setting_or(env, "DAILY_LOSS_USDT"@, "20"@),
                                    ) {
                                        Err(e) => Err(e),
                                        Ok(daily_loss_usdt) => match amount_setting(
                                            setting_or(
                                                env,
                                                "DAILY_LOSS_R"@,
                                                decimal_text(decimal_normal(dec(3, 0))),
                                            ),
                                        ) {
                                            Err(e) => Err(e),
                                            Ok(daily_loss_r) => Ok(
                                                Numbers {
                                                    notional_from_exchange: exchange_sized(
                                                        setting_or(env, "ORDER_NOTIONAL_USDT"@, "20"@),
                                                    ),
                                                    notional,
                                                    risk_pct,
                                                    tp_pct,
                                                    trail_pct,
                                                    recv_window,
                                                    http_timeout,
                                                    max_positions,
                                                    s4_max_positions,
                                                    daily_loss_usdt,
                                                    daily_loss_r,
                                                },
                                            ),
                                        },
                                    },
                                },
                            },
                        },
                    },
                },
            },
        },
    }
}

/// What is wrong with the size of a numeric setting.
pub open spec fn numbers_error(n: Numbers) -> Option<Seq<char>> {
    if !n.notional.pos() || !n.tp_pct.pos() || !n.trail_pct.pos() {
        Some("notional, take-profit, and trail percents must be positive"@)
    } else if !(1 <= n.max_positions <= 10) {
        Some("STRATEGY1_MAX_POSITIONS must be 1–10"@)
    } else if !(1 <= n.s4_max_positions <= 10) {
        Some("STRATEGY4_MAX_POSITIONS must be 1–10"@)
    } else if n.daily_loss_usdt.lt(dec(0, 0)) {
        Some("DAILY_LOSS_USDT cannot be negative"@)
    } else if n.daily_loss_r.lt(dec(0, 0)) {
        Some("DAILY_LOSS_R cannot be negative"@)
    } else {
        None
    }
}

/// What is wrong with the size of a transport setting.
pub open spec fn transport_error(n: Numbers) -> Option<Seq<char>> {
    if !(100 <= n.recv_window <= 60_000) {
        Some("BINANCE_RECV_WINDOW out of range"@)
    } else if n.http_timeout <= 0 || n.http_timeout > 60_000_000_000 {
        Some("HTTP_TIMEOUT out of range"@)
    } else {
        None
    }
}

fn load_notional(env: &SymMap<String>) -> (r: Result<(Dec, bool), ConfigError>)
    ensures
        match (r, notional_of(crate::models::text_map(env@))) {
            (Ok(a), Ok(b)) => a.0 == b && a.1 == exchange_sized(
                setting_or(crate::models::text_map(env@), "ORDER_NOTIONAL_USDT"@, "20"@),
            ),
            (Err(a), Err(b)) => a@ == b,
            _ => false,
        },
{
    let raw = get(env, "ORDER_NOTIONAL_USDT", "20");
    let low = raw.as_str().to_ascii_lowercase();
    let t: &str = low.as_str();
    if same(t, "binance") || same(t, "min") || same(t, "exchange") || same(t, "0") {
        return Ok((default_notional(), true));
    }
    match read_setting(raw.as_str()) {
        Ok(d) => Ok((d, false)),
        Err(e) => Err(e),
    }
}

fn load_risk(env: &SymMap<String>) -> (r: Result<Dec, ConfigError>)
    ensures
        match (r, risk_of(crate::models::text_map(env@))) {
            (Ok(a), Ok(b)) => a == b,
            (Err(a), Err(b)) => a@ == b,
            _ => false,
        },
{
    let raw = get_opt(env, "RISK_PCT");
    let risk: Dec = if raw.as_str().is_empty() {
        default_risk_pct()
    } else {
        match read_setting(raw.as_str()) {
            Ok(d) => d,
            Err(e) => return Err(e),
        }
    };
    if risk < Dec::zero() {
        return Err(wrong("RISK_PCT cannot be negative"));
    }
    Ok(risk)
}

/// A reading of a time limit, its error as a text.
pub open spec fn timeout_view(t: Result<i64, String>) -> Result<i64, Seq<char>> {
    match t {
        Ok(n) => Ok(n),
        Err(e) => Err(e@),
    }
}

fn load_numbers(env: &SymMap<String>, timeout: Result<i64, String>) -> (r: Result<
    Numbers,
    ConfigError,
>)
    ensures
        match (r, numbers_of(crate::models::text_map(env@), timeout_view(timeout))) {
            (Ok(a), Ok(b)) => a == b,
            (Err(a), Err(b)) => a@ == b,
            _ => false,
        },
{
    let (notional, notional_from_exchange) = match load_notional(env) {
        Ok(x) => x,
        Err(e) => return Err(e),
    };
    let risk_pct: Dec = match load_risk(env) {
        Ok(x) => x,
        Err(e) => return Err(e),
    };
    let tp_pct: Dec = match read_setting(get(env, "TAKE_PROFIT_PCT", "0.025").as_str()) {
        Ok(x) => x,
        Err(e) => return Err(e),
    };
    let trail_pct: Dec = match read_setting(get(env, "TRAIL_PCT", "0.020").as_str()) {
        Ok(x) => x,
        Err(e) => return Err(e),
    };
    let recv_window: i32 = match read_integer_setting(
        get(env, "BINANCE_RECV_WINDOW", "5000").as_str(),
    ) {
        Ok(x) => x,
        Err(e) => return Err(e),
    };
    let http_timeout: i64 = match timeout {
        Ok(x) => x,
        Err(e) => return Err(wrong_with("invalid numeric config: ", e.as_str())),
    };
    let max_positions: i32 = match read_integer_setting(
        get(env, "STRATEGY1_MAX_POSITIONS", "1").as_str(),
    ) {
        Ok(x) => x,
        Err(e) => return Err(e),
    };
    let s4_max_positions: i32 = match read_integer_setting(
        get(env, "STRATEGY4_MAX_POSITIONS", "5").as_str(),
    ) {
        Ok(x) => x,
        Err(e) => return Err(e),
    };
    let daily_loss_usdt: Dec = match read_setting(get(env, "DAILY_LOSS_USDT", "20").as_str()) {
        Ok(x) => x,
        Err(e) => return Err(e),
    };
    let default_r = crate::dayrisk::default_daily_loss_r().normalize().text();
    let daily_loss_r: Dec = match read_setting(
        get(env, "DAILY_LOSS_R", default_r.as_str()).as_str(),
    ) {
        Ok(x) => x,
        Err(e) => return Err(e),
    };
    Ok(
        Numbers {
            notional_from_exchange,
            notional,
            risk_pct,
            tp_pct,
            trail_pct,
            recv_window,
            http_timeout,
            max_positions,
            s4_max_positions,
            daily_loss_usdt,
            daily_loss_r,
        },
    )
}

fn check_numbers(n: &Numbers) -> (r: Option<ConfigError>)
    ensures
        match r {
            Some(e) => numbers_error(*n) == Some(e@),
            None => numbers_error(*n) is None,
        },
{
    if !n.notional.is_pos() || !n.tp_pct.is_pos() || !n.trail_pct.is_pos() {
        return Some(wrong("notional, take-profit, and trail percents must be positive"));
    }
    if !(n.max_positions >= 1 && n.max_positions <= 10) {
        return Some(wrong("STRATEGY1_MAX_POSITIONS must be 1–10"));
    }
    if !(n.s4_max_positions >= 1 && n.s4_max_positions <= 10) {
        return Some(wrong("STRATEGY4_MAX_POSITIONS must be 1–10"));
    }
    if n.daily_loss_usdt < Dec::zero() {
        return Some(wrong("DAILY_LOSS_USDT cannot be negative"));
    }
    if n.daily_loss_r < Dec::zero() {
        return Some(wrong("DAILY_LOSS_R cannot be negative"));
    }
    None
}

fn check_transport(n: &Numbers) -> (r: Option<ConfigError>)
    ensures
        match r {
            Some(e) => transport_error(*n) == Some(e@),
            None => transport_error(*n) is None,
        },
{
    if !(n.recv_window >= 100 && n.recv_window <= 60_000) {
        return Some(wrong("BINANCE_RECV_WINDOW out of range"));
    }
    if n.http_timeout <= 0 || n.http_timeout > 60_000_000_000 {
        return Some(wrong("HTTP_TIMEOUT out of range"));
    }
    None
}

/// Whether a leverage is left to the exchange.
pub open spec fn exchange_leverage(raw: Seq<char>) -> bool {
    let t = lower(raw);
    raw.len() == 0 || t == "0"@ || t == "binance"@ || t == "default"@ || t == "none"@ || t
        == "off"@
}

/// The leverage that is set.
pub open spec fn leverage_of(env: Map<Seq<char>, Seq<char>>) -> Result<Option<i32>, Seq<char>> {
    let raw = setting(env, "FUTURES_LEVERAGE"@);
    if exchange_leverage(raw) {
        Ok(None)
    } else {
        match i32_of(raw) {
            None => Err("FUTURES_LEVERAGE must be an integer or binance"@),
            Some(n) => if !(1 <= n <= 125) {
                Err("FUTURES_LEVERAGE must be 1–125"@)
            } else {
                Ok(Some(n))
            },
        }
    }
}

fn load_leverage(env: &SymMap<String>) -> (r: Result<Option<i32>, ConfigError>)
    ensures
        match (r, leverage_of(crate::models::text_map(env@))) {
            (Ok(a), Ok(b)) => a == b,
            (Err(a), Err(b)) => a@ == b,
            _ => false,
        },
{
    let raw = get_opt(env, "FUTURES_LEVERAGE");
    let low = raw.as_str().to_ascii_lowercase();
    let t: &str = low.as_str();
    if raw.as_str().is_empty() || same(t, "0") || same(t, "binance") || same(t, "default") || same(
        t,
        "none",
    ) || same(t, "off") {
        return Ok(None);
    }
    match read_i32(raw.as_str()) {
        Err(_) => Err(wrong("FUTURES_LEVERAGE must be an integer or binance")),
        Ok(n) => if !(n >= 1 && n <= 125) {
            Err(wrong("FUTURES_LEVERAGE must be 1–125"))
        } else {
            Ok(Some(n))
        },
    }
}

/// The starting equity that is set.
pub open spec fn starting_of(env: Map<Seq<char>, Seq<char>>) -> Result<Option<Dec>, Seq<char>> {
    let raw = setting(env, "BINANCE_STARTING_EQUITY"@);
    if raw.len() == 0 {
        Ok(None)
    } else {
        match amount_setting(raw) {
            Err(e) => Err(e),
            Ok(v) => if v.lt(dec(0, 0)) {
                Err("BINANCE_STARTING_EQUITY cannot be negative"@)
            } else {
                Ok(Some(v))
            },
        }
    }
}

fn load_starting(env: &SymMap<String>) -> (r: Result<Option<Dec>, ConfigError>)
    ensures
        match (r, starting_of(crate::models::text_map(env@))) {
            (Ok(a), Ok(b)) => a == b,
            (Err(a), Err(b)) => a@ == b,
            _ => false,
        },
{
    let raw = get_opt(env, "BINANCE_STARTING_EQUITY");
    if raw.as_str().is_empty() {
        return Ok(None);
    }
    match read_setting(raw.as_str()) {
        Err(e) => Err(e),
        Ok(v) => if v < Dec::zero() {
            Err(wrong("BINANCE_STARTING_EQUITY cannot be negative"))
        } else {
            Ok(Some(v))
        },
    }
}

/// What a piece that is no window is told.
pub open spec fn window_fault(part: Seq<char>) -> Seq<char> {
    match read_window(part) {
        WindowReading::Good(_) => ""@,
        WindowReading::Shape => "entry hour window must look like 7-10, got "@ + quoted(part),
        WindowReading::NotIntegers => "entry hour window must be integers, got "@ + quoted(part),
        WindowReading::StartRange => "entry window start must be 0–23"@,
        WindowReading::EndRange => "entry window end must be 0–24"@,
        WindowReading::Empty => "entry window start and end must differ"@,
    }
}

/// The windows of the first `n` pieces, or what is wrong with the first bad one.
pub open spec fn windows_read(parts: Seq<Seq<char>>, n: int) -> Result<Seq<HourWindow>, Seq<char>>
    decreases n,
{
    if n <= 0 {
        Ok(Seq::empty())
    } else {
        match windows_read(parts, n - 1) {
            Err(e) => Err(e),
            Ok(ws) => match read_window(parts[n - 1]) {
                WindowReading::Good(w) => Ok(ws.push(w)),
                _ => Err(window_fault(parts[n - 1])),
            },
        }
    }
}

proof fn lemma_windows_good(parts: Seq<Seq<char>>, ws: Seq<HourWindow>, n: int)
    requires
        0 <= n <= ws.len(),
        ws.len() <= parts.len(),
        forall|i: int|
            0 <= i < ws.len() ==> read_window(parts[i]) == WindowReading::Good(#[trigger] ws[i]),
    ensures
        windows_read(parts, n) == Ok::<Seq<HourWindow>, Seq<char>>(ws.take(n)),
    decreases n,
{
    if n > 0 {
        lemma_windows_good(parts, ws, n - 1);
        assert(read_window(parts[n - 1]) == WindowReading::Good(ws[n - 1]));
        assert(ws.take(n - 1).push(ws[n - 1]) =~= ws.take(n));
    } else {
        assert(ws.take(0) =~= Seq::<HourWindow>::empty());
    }
}

proof fn lemma_windows_bad(parts: Seq<Seq<char>>, k: int, n: int)
    requires
        0 <= k < n <= parts.len(),
        !(read_window(parts[k]) is Good),
        forall|j: int| 0 <= j < k ==> read_window(#[trigger] parts[j]) is Good,
    ensures
        windows_read(parts, n) == Err::<Seq<HourWindow>, Seq<char>>(window_fault(parts[k])),
    decreases n,
{
    if n - 1 > k {
        lemma_windows_bad(parts, k, n - 1);
    } else {
        let ws = Seq::new(k as nat, |i: int| read_window(parts[i])->Good_0);
        assert forall|i: int| 0 <= i < ws.len() implies read_window(parts[i])
            == WindowReading::Good(#[trigger] ws[i]) by {
            assert(read_window(parts[i]) is Good);
        }
        lemma_windows_good(parts, ws, k);
    }
}

/// Entry windows under a name: none where entries are always open.
pub open spec fn windows_of(
    env: Map<Seq<char>, Seq<char>>,
    name: Seq<char>,
    label: Seq<char>,
    always: bool,
) -> Result<Seq<HourWindow>, Seq<char>> {
    let parts = setting_parts(setting_or(env, name, DEFAULT_ENTRY_HOURS@));
    match windows_read(parts, parts.len() as int) {
        Err(e) => Err(label + e),
        Ok(ws) => Ok(
            if always {
                Seq::empty()
            } else {
                ws
            },
        ),
    }
}

fn load_windows(env: &SymMap<String>, name: &str, label: &str, always: bool) -> (r: Result<
    Vec<HourWindow>,
    ConfigError,
>)
    ensures
        match (r, windows_of(crate::models::text_map(env@), name@, label@, always)) {
            (Ok(a), Ok(b)) => a@ == b,
            (Err(a), Err(b)) => a@ == b,
            _ => false,
        },
{
    let raw = get(env, name, DEFAULT_ENTRY_HOURS);
    let ghost parts = setting_parts(raw@);
    match parse_entry_windows(raw.as_str()) {
        Err(e) => {
            proof {
                let k = choose|k: int|
                    0 <= k < parts.len() && #[trigger] error_of(parts[k], e) && (forall|j: int|
                        0 <= j < k ==> read_window(#[trigger] parts[j]) is Good);
                lemma_windows_bad(parts, k, parts.len() as int);
                assert(e.text() == window_fault(parts[k]));
            }
            Err(wrong_with(label, e.message().as_str()))
        },
        Ok(ws) => {
            proof {
                lemma_windows_good(parts, ws@, ws@.len() as int);
                assert(ws@.take(ws@.len() as int) =~= ws@);
            }
            if always {
                Ok(Vec::new())
            } else {
                Ok(ws)
            }
        },
    }
}

/// The longest hold that is set.
pub open spec fn hold_of(env: Map<Seq<char>, Seq<char>>) -> Result<usize, Seq<char>> {
    match count_of(setting_or(env, "STRATEGY2_MAX_HOLD_BARS"@, "8"@)) {
        None => Err("STRATEGY2_MAX_HOLD_BARS must be an integer"@),
        Some(n) => if !(1 <= n <= 240) {
            Err("STRATEGY2_MAX_HOLD_BARS must be 1–240"@)
        } else {
            Ok(n)
        },
    }
}

fn load_hold(env: &SymMap<String>) -> (r: Result<usize, ConfigError>)
    ensures
        match (r, hold_of(crate::models::text_map(env@))) {
            (Ok(a), Ok(b)) => a == b,
            (Err(a), Err(b)) => a@ == b,
            _ => false,
        },
{
    let raw = get(env, "STRATEGY2_MAX_HOLD_BARS", "8");
    match read_count(raw.as_str()) {
        None => Err(wrong("STRATEGY2_MAX_HOLD_BARS must be an integer")),
        Some(n) => if !(n >= 1 && n <= 240) {
            Err(wrong("STRATEGY2_MAX_HOLD_BARS must be 1–240"))
        } else {
            Ok(n)
        },
    }
}

/// When each strategy may enter.
pub struct Hours {
    pub always_enter: bool,
    pub entry_windows: Vec<HourWindow>,
    pub s4_always_enter: bool,
    pub s4_entry_windows: Vec<HourWindow>,
    pub s4_interval: TradeInterval,
    pub s2_always_enter: bool,
    pub s2_entry_windows: Vec<HourWindow>,
    pub s2_max_hold_bars: usize,
}

/// When each strategy may enter, lists as sequences.
pub struct HoursView {
    pub always_enter: bool,
    pub entry_windows: Seq<HourWindow>,
    pub s4_always_enter: bool,
    pub s4_entry_windows: Seq<HourWindow>,
    pub s4_interval: TradeInterval,
    pub s2_always_enter: bool,
    pub s2_entry_windows: Seq<HourWindow>,
    pub s2_max_hold_bars: usize,
}

impl View for Hours {
    type V = HoursView;

    open spec fn view(&self) -> HoursView {
        HoursView {
            always_enter: self.always_enter,
            entry_windows: self.entry_windows@,
            s4_always_enter: self.s4_always_enter,
            s4_entry_windows: self.s4_entry_windows@,
            s4_interval: self.s4_interval,
            s2_always_enter: self.s2_always_enter,
            s2_entry_windows: self.s2_entry_windows@,
            s2_max_hold_bars: self.s2_max_hold_bars,
        }
    }
}

/// When each strategy may enter, or the first setting that is wrong.
pub open spec fn hours_of(env: Map<Seq<char>, Seq<char>>) -> Result<HoursView, Seq<char>> {
    let always_enter = says_yes(setting(env, "STRATEGY1_ALWAYS_ENTER"@));
    let s4_always_enter = says_yes(setting(env, "STRATEGY4_ALWAYS_ENTER"@));
    let s2_always_enter = says_yes(setting(env, "STRATEGY2_ALWAYS_ENTER"@));
    match windows_of(env, "STRATEGY1_ENTRY_HOURS"@, "STRATEGY1_ENTRY_HOURS: "@, always_enter) {
        Err(e) => Err(e),
        Ok(entry_windows) => match windows_of(
            env,
            "STRATEGY4_ENTRY_HOURS"@,
            "STRATEGY4_ENTRY_HOURS: "@,
            s4_always_enter,
        ) {
            Err(e) => Err(e),
            Ok(s4_entry_windows) => {
                let raw = setting_or(env, "STRATEGY4_INTERVAL"@, "5m"@);
                match interval_of(raw) {
                    None => Err(interval_error(raw)),
                    Some(s4_interval) => match windows_of(
                        env,
                        "STRATEGY2_ENTRY_HOURS"@,
                        "STRATEGY2_ENTRY_HOURS: "@,
                        s2_always_enter,
                    ) {
                        Err(e) => Err(e),
                        Ok(s2_entry_windows) => match hold_of(env) {
                            Err(e) => Err(e),
                            Ok(s2_max_hold_bars) => Ok(
                                HoursView {
                                    always_enter,
                                    entry_windows,
                                    s4_always_enter,
                                    s4_entry_windows,
                                    s4_interval,
                                    s2_always_enter,
                                    s2_entry_windows,
                                    s2_max_hold_bars,
                                },
                            ),
                        },
                    },
                }
            },
        },
    }
}

fn load_hours(env: &SymMap<String>) -> (r: Result<Hours, ConfigError>)
    ensures
        match (r, hours_of(crate::models::text_map(env@))) {
            (Ok(a), Ok(b)) => a@ == b,
            (Err(a), Err(b)) => a@ == b,
            _ => false,
        },
{
    let always_enter: bool = is_yes(get_opt(env, "STRATEGY1_ALWAYS_ENTER").as_str());
    let entry_windows: Vec<HourWindow> = match load_windows(
        env,
        "STRATEGY1_ENTRY_HOURS",
        "STRATEGY1_ENTRY_HOURS: ",
        always_enter,
    ) {
        Ok(x) => x,
        Err(e) => return Err(e),
    };
    let s4_always_enter: bool = is_yes(get_opt(env, "STRATEGY4_ALWAYS_ENTER").as_str());
    let s4_entry_windows: Vec<HourWindow> = match load_windows(
        env,
        "STRATEGY4_ENTRY_HOURS",
        "STRATEGY4_ENTRY_HOURS: ",
        s4_always_enter,
    ) {
        Ok(x) => x,
        Err(e) => return Err(e),
    };
    let raw = get(env, "STRATEGY4_INTERVAL", "5m");
    let s4_interval: TradeInterval = match TradeInterval::parse(raw.as_str()) {
        Ok(x) => x,
        Err(e) => return Err(ConfigError(e)),
    };
    let s2_always_enter: bool = is_yes(get_opt(env, "STRATEGY2_ALWAYS_ENTER").as_str());
    let s2_entry_windows: Vec<HourWindow> = match load_windows(
        env,
        "STRATEGY2_ENTRY_HOURS",
        "STRATEGY2_ENTRY_HOURS: ",
        s2_always_enter,
    ) {
        Ok(x) => x,
        Err(e) => return Err(e),
    };
    let s2_max_hold_bars: usize = match load_hold(env) {
        Ok(x) => x,
        Err(e) => return Err(e),
    };
    Ok(
        Hours {
            always_enter,
            entry_windows,
            s4_always_enter,
            s4_entry_windows,
            s4_interval,
            s2_always_enter,
            s2_entry_windows,
            s2_max_hold_bars,
        },
    )
}

/// The settings that an environment gives, or the first that is wrong.
pub open spec fn config_of(
    live: bool,
    env: Map<Seq<char>, Seq<char>>,
    timeout: Result<i64, Seq<char>>,
) -> Result<ConfigView, Seq<char>> {
    match keys_of(env) {
        Err(e) => Err(e),
        Ok(credentials) => match base_of(env) {
            Err(e) => Err(e),
            Ok(base_url) => match poll_of(env) {
                Err(e) => Err(e),
                Ok(poll_seconds) => match numbers_of(env, timeout) {
                    Err(e) => Err(e),
                    Ok(n) => match (numbers_error(n), leverage_of(env)) {
                        (Some(e), _) => Err(e),
                        (None, Err(e)) => Err(e),
                        (None, Ok(leverage)) => match (transport_error(n), starting_of(env)) {
                            (Some(e), _) => Err(e),
                            (None, Err(e)) => Err(e),
                            (None, Ok(starting_equity)) => match hours_of(env) {
                                Err(e) => Err(e),
                                Ok(h) => if live && credentials is None {
                                    Err(
                                        "refusing --live without BINANCE_API_KEY and BINANCE_API_SECRET"@,
                                    )
                                } else {
                                    Ok(
                                        ConfigView {
                                            credentials,
                                            base_url,
                                            poll_seconds,
                                            order_notional: n.notional,
                                            risk_pct: n.risk_pct,
                                            tp_pct: n.tp_pct,
                                            trail_pct: n.trail_pct,
                                            recv_window: n.recv_window,
                                            live,
                                            http_timeout: n.http_timeout,
                                            starting_equity,
                                            entry_windows: h.entry_windows,
                                            always_enter: h.always_enter,
                                            s4_entry_windows: h.s4_entry_windows,
                                            s4_always_enter: h.s4_always_enter,
                                            s4_interval: h.s4_interval,
                                            s4_max_positions: n.s4_max_positions,
                                            s2_entry_windows: h.s2_entry_windows,
                                            s2_always_enter: h.s2_always_enter,
                                            s2_max_hold_bars: h.s2_max_hold_bars,
                                            leverage,
                                            max_positions: n.max_positions,
                                            notional_from_exchange: n.notional_from_exchange,
                                            daily_loss_usdt: n.daily_loss_usdt,
                                            daily_loss_r: n.daily_loss_r,
                                        },
                                    )
                                },
                            },
                        },
                    },
                },
            },
        },
    }
}

/// Reads the settings of an environment. `timeout` is the reading of
/// `HTTP_TIMEOUT` in nanoseconds, or what is wrong with it.
pub fn load_config(live: bool, env: &SymMap<String>, timeout: Result<i64, String>) -> (r: Result<
    Config,
    ConfigError,
>)
    ensures
        match (r, config_of(live, crate::models::text_map(env@), timeout_view(timeout))) {
            (Ok(a), Ok(b)) => a@ == b,
            (Err(a), Err(b)) => a@ == b,
            _ => false,
        },
{
    let credentials: Option<Credentials> = match load_keys(env) {
        Ok(x) => x,
        Err(e) => return Err(e),
    };
    let base_url: String = match load_base(env) {
        Ok(x) => x,
        Err(e) => return Err(e),
    };
    let poll_seconds: i32 = match load_poll(env) {
        Ok(x) => x,
        Err(e) => return Err(e),
    };
    let n: Numbers = match load_numbers(env, timeout) {
        Ok(x) => x,
        Err(e) => return Err(e),
    };
    if let Some(e) = check_numbers(&n) {
        return Err(e);
    }
    let leverage: Option<i32> = match load_leverage(env) {
        Ok(x) => x,
        Err(e) => return Err(e),
    };
    if let Some(e) = check_transport(&n) {
        return Err(e);
    }
    let starting_equity: Option<Dec> = match load_starting(env) {
        Ok(x) => x,
        Err(e) => return Err(e),
    };
    let h: Hours = match load_hours(env) {
        Ok(x) => x,
        Err(e) => return Err(e),
    };
    if live && credentials.is_none() {
        return Err(
            wrong("refusing --live without BINANCE_API_KEY and BINANCE_API_SECRET"),
        );
    }
    Ok(
        Config {
            credentials,
            base_url,
            poll_seconds,
            order_notional: n.notional,
            risk_pct: n.risk_pct,
            tp_pct: n.tp_pct,
            trail_pct: n.trail_pct,
            recv_window: n.recv_window,
            live,
            http_timeout: n.http_timeout,
            starting_equity,
            entry_windows: h.entry_windows,
            always_enter: h.always_enter,
            s4_entry_windows: h.s4_entry_windows,
            s4_always_enter: h.s4_always_enter,
            s4_interval: h.s4_interval,
            s4_max_positions: n.s4_max_positions,
            s2_entry_windows: h.s2_entry_windows,
            s2_always_enter: h.s2_always_enter,
            s2_max_hold_bars: h.s2_max_hold_bars,
            leverage,
            max_positions: n.max_positions,
            notional_from_exchange: n.notional_from_exchange,
            daily_loss_usdt: n.daily_loss_usdt,
            daily_loss_r: n.daily_loss_r,
        },
    )
}

/// Settings that are accepted keep their ranges: a live desk has keys, orders go
/// to a test network unless leave is given, and sizes are positive.
pub proof fn law_accepted_settings_are_safe(
    live: bool,
    env: Map<Seq<char>, Seq<char>>,
    timeout: Result<i64, Seq<char>>,
)
    ensures
        match config_of(live, env, timeout) {
            Ok(c) => {
                &&& c.live == live
                &&& live ==> c.credentials is Some
                &&& !says_yes(setting(env, "BINANCE_ALLOW_MAINNET"@)) ==> is_testnet(
                    host_of(c.base_url),
                )
                &&& stands_at(c.base_url, "https://"@, 0)
                &&& c.order_notional.pos() && c.tp_pct.pos() && c.trail_pct.pos()
                &&& !c.risk_pct.lt(dec(0, 0))
                &&& 1 <= c.max_positions <= 10 && 1 <= c.s4_max_positions <= 10
                &&& 100 <= c.recv_window <= 60_000
                &&& 0 < c.http_timeout <= 60_000_000_000
                &&& 1 <= c.s2_max_hold_bars <= 240
                &&& c.leverage is Some ==> 1 <= c.leverage->0 <= 125
                &&& c.poll_seconds == 60 || c.poll_seconds == 120
            },
            Err(_) => true,
        },
{
}

} // verus!

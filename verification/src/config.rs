//! Configuration: candle intervals, defaults, and the checks on settings.
use crate::dec::{dec, decimal_normal, decimal_text, n_mul, times, Dec};
use crate::text::{lower, own, same};
pub use load::{
    dotenv_settings, fapi_base_allowed, fapi_host, is_identifier, load_config, strip_quotes, Config,
    ConfigError, Credentials, DEFAULT_TESTNET_BASE, MAINNET_BASE, MAINNET_HOST,
};
use vstd::prelude::*;
use vstd::string::StringExecFns;

pub mod load;

verus! {

/// Continuation candle interval.
#[derive(Debug, Clone, Copy, PartialEq, Eq, Structural)]
pub enum TradeInterval {
    Minute5,
    Minute15,
    Minute30,
    Hour1,
}

/// Whether a text holds only ASCII and small Cyrillic letters.
pub open spec fn plain_case(s: Seq<char>) -> bool {
    forall|i: int| 0 <= i < s.len() ==> (#[trigger] s[i] as int) < 0x80 || 0x430 <= s[i] as int <= 0x44f
}

/// What `str::to_lowercase` gives for a text with other characters.
pub uninterp spec fn wide_lowered(s: Seq<char>) -> Seq<char>;

/// The text in Unicode lower case.
#[verifier::opaque]
pub open spec fn lowered(s: Seq<char>) -> Seq<char> {
    if plain_case(s) {
        lower(s)
    } else {
        wide_lowered(s)
    }
}

/// `str::to_lowercase`: of ASCII and small Cyrillic letters only A-Z change. The
/// lower case of other texts is named, not stated.
#[verifier::external_body]
fn unicode_lower(s: &str) -> (r: String)
    ensures
        plain_case(s@) ==> r@ == lower(s@),
        !plain_case(s@) ==> r@ == wide_lowered(s@),
{
    s.to_lowercase()
}

/// The text in Unicode lower case.
pub(crate) fn to_lower(s: &str) -> (r: String)
    ensures
        r@ == lowered(s@),
{
    proof {
        reveal(lowered);
    }
    unicode_lower(s)
}

/// Cyrillic minute and hour letters in Latin, blanks dropped.
pub open spec fn latin_units(s: Seq<char>) -> Seq<char>
    decreases s.len(),
{
    if s.len() == 0 {
        Seq::empty()
    } else {
        let rest = latin_units(s.drop_last());
        if s.last() == 'м' {
            rest.push('m')
        } else if s.last() == 'ч' {
            rest.push('h')
        } else if s.last() == ' ' {
            rest
        } else {
            rest.push(s.last())
        }
    }
}

fn to_latin_units(text: &str) -> (r: String)
    ensures
        r@ == latin_units(text@),
{
    let v: Vec<char> = crate::text::to_chars(text);
    let mut out = String::new();
    let mut i: usize = 0;
    while i < v.len()
        invariant
            i <= v@.len(),
            out@ == latin_units(v@.take(i as int)),
        decreases v@.len() - i,
    {
        proof {
            assert(v@.take(i as int + 1).drop_last() =~= v@.take(i as int));
        }
        let c: char = v[i];
        if c == 'м' {
            out.push('m');
        } else if c == 'ч' {
            out.push('h');
        } else if c != ' ' {
            out.push(c);
        }
        i = i + 1;
    }
    proof {
        assert(v@.take(i as int) =~= v@);
    }
    out
}

/// The interval that a setting names.
pub open spec fn interval_of(raw: Seq<char>) -> Option<TradeInterval> {
    let s = latin_units(lowered(crate::text::trimmed(raw)));
    if s == "5"@ || s == "5m"@ || s == "m5"@ {
        Some(TradeInterval::Minute5)
    } else if s == "15"@ || s == "15m"@ || s == "m15"@ {
        Some(TradeInterval::Minute15)
    } else if s == "30"@ || s == "30m"@ || s == "m30"@ {
        Some(TradeInterval::Minute30)
    } else if s == "1"@ || s == "1h"@ || s == "60"@ || s == "60m"@ || s == "h1"@ {
        Some(TradeInterval::Hour1)
    } else {
        None
    }
}

/// What a setting that names no interval is told.
pub open spec fn interval_error(raw: Seq<char>) -> Seq<char> {
    "STRATEGY4_INTERVAL must be 5m, 15m, 30m, or 1h (got "@ + raw + ")"@
}

/// A percentage without trailing zeros.
pub open spec fn pct_text(frac: Dec) -> Option<Seq<char>> {
    match n_mul(Some(frac), Some(dec(100, 0))) {
        Some(p) => Some(decimal_text(decimal_normal(p))),
        None => None,
    }
}

/// A fraction as a percentage without trailing zeros.
pub fn pct_label(frac: Dec) -> (r: Option<String>)
    ensures
        match r {
            Some(t) => pct_text(frac) == Some(t@),
            None => pct_text(frac) is None,
        },
        frac.m() != 0 && crate::dec::fits(frac.m() * 100) ==> r is Some,
{
    let _scale: u32 = frac.scale();
    match times(Some(frac), Some(Dec::from_int(100))) {
        Some(p) => Some(p.normalize().text()),
        None => None,
    }
}

impl TradeInterval {
    pub fn parse(raw: &str) -> (r: Result<Self, String>)
        ensures
            match r {
                Ok(i) => interval_of(raw@) == Some(i),
                Err(e) => interval_of(raw@) is None && e@ == interval_error(raw@),
            },
    {
        let low = to_lower(crate::text::trim(raw));
        let text = to_latin_units(low.as_str());
        let s: &str = text.as_str();
        if same(s, "5") || same(s, "5m") || same(s, "m5") {
            Ok(TradeInterval::Minute5)
        } else if same(s, "15") || same(s, "15m") || same(s, "m15") {
            Ok(TradeInterval::Minute15)
        } else if same(s, "30") || same(s, "30m") || same(s, "m30") {
            Ok(TradeInterval::Minute30)
        } else if same(s, "1") || same(s, "1h") || same(s, "60") || same(s, "60m") || same(
            s,
            "h1",
        ) {
            Ok(TradeInterval::Hour1)
        } else {
            let mut out = own("STRATEGY4_INTERVAL must be 5m, 15m, 30m, or 1h (got ");
            out.append(raw);
            out.append(")");
            Err(out)
        }
    }

    /// The interval as the exchange writes it.
    pub open spec fn name(self) -> Seq<char> {
        match self {
            TradeInterval::Minute5 => "5m"@,
            TradeInterval::Minute15 => "15m"@,
            TradeInterval::Minute30 => "30m"@,
            TradeInterval::Hour1 => "1h"@,
        }
    }

    pub fn as_binance(self) -> (r: &'static str)
        ensures
            r@ == self.name(),
    {
        match self {
            TradeInterval::Minute5 => "5m",
            TradeInterval::Minute15 => "15m",
            TradeInterval::Minute30 => "30m",
            TradeInterval::Hour1 => "1h",
        }
    }

    pub open spec fn ru(self) -> Seq<char> {
        match self {
            TradeInterval::Minute5 => "5м"@,
            TradeInterval::Minute15 => "15м"@,
            TradeInterval::Minute30 => "30м"@,
            TradeInterval::Hour1 => "1ч"@,
        }
    }

    pub fn as_ru(self) -> (r: &'static str)
        ensures
            r@ == self.ru(),
    {
        match self {
            TradeInterval::Minute5 => "5м",
            TradeInterval::Minute15 => "15м",
            TradeInterval::Minute30 => "30м",
            TradeInterval::Hour1 => "1ч",
        }
    }

    pub open spec fn minutes(self) -> int {
        match self {
            TradeInterval::Minute5 => 5,
            TradeInterval::Minute15 => 15,
            TradeInterval::Minute30 => 30,
            TradeInterval::Hour1 => 60,
        }
    }

    pub fn duration_ms(self) -> (r: i64)
        ensures
            r == self.minutes() * 60_000,
    {
        match self {
            TradeInterval::Minute5 => 300_000,
            TradeInterval::Minute15 => 900_000,
            TradeInterval::Minute30 => 1_800_000,
            TradeInterval::Hour1 => 3_600_000,
        }
    }

    pub fn fetch_limit(self) -> (r: usize)
        ensures
            r == 50,
    {
        50
    }

    pub fn chart_limit(self) -> (r: usize)
        ensures
            r == 121,
    {
        121
    }

    pub open spec fn min_stop(self) -> Dec {
        match self {
            TradeInterval::Minute5 => dec(15, 3),
            TradeInterval::Minute15 => dec(20, 3),
            TradeInterval::Minute30 => dec(25, 3),
            TradeInterval::Hour1 => dec(30, 3),
        }
    }

    /// Continuation stop floor as a fraction of price. Wider on slower candles.
    pub fn min_stop_pct(self) -> (r: Dec)
        ensures
            r == self.min_stop(),
            0 < r.m() < 100,
    {
        match self {
            TradeInterval::Minute5 => Dec::new(15, 3),
            TradeInterval::Minute15 => Dec::new(20, 3),
            TradeInterval::Minute30 => Dec::new(25, 3),
            TradeInterval::Hour1 => Dec::new(30, 3),
        }
    }

    pub open spec fn max_stop(self) -> Dec {
        match self {
            TradeInterval::Minute5 => dec(35, 3),
            TradeInterval::Minute15 => dec(50, 3),
            TradeInterval::Minute30 => dec(60, 3),
            TradeInterval::Hour1 => dec(80, 3),
        }
    }

    /// Skip the setup if the structure stop is wider than this.
    pub fn max_stop_pct(self) -> (r: Dec)
        ensures
            r == self.max_stop(),
            0 < r.m() < 100,
    {
        match self {
            TradeInterval::Minute5 => Dec::new(35, 3),
            TradeInterval::Minute15 => Dec::new(50, 3),
            TradeInterval::Minute30 => Dec::new(60, 3),
            TradeInterval::Hour1 => Dec::new(80, 3),
        }
    }

    pub open spec fn min_pullback(self) -> Dec {
        match self {
            TradeInterval::Minute5 => dec(10, 3),
            TradeInterval::Minute15 => dec(12, 3),
            TradeInterval::Minute30 => dec(15, 3),
            TradeInterval::Hour1 => dec(20, 3),
        }
    }

    pub fn min_pullback_pct(self) -> (r: Dec)
        ensures
            r == self.min_pullback(),
    {
        match self {
            TradeInterval::Minute5 => Dec::new(10, 3),
            TradeInterval::Minute15 => Dec::new(12, 3),
            TradeInterval::Minute30 => Dec::new(15, 3),
            TradeInterval::Hour1 => Dec::new(20, 3),
        }
    }

    /// Take-profit in R (risk units). Same on every timeframe.
    pub fn reward_r(self) -> (r: Dec)
        ensures
            r == dec(2, 0),
    {
        Dec::from_int(2)
    }

    /// Stop band and reward in print.
    pub open spec fn geometry(self) -> Seq<char> {
        "SL "@ + pct_text(self.min_stop())->0 + "–"@ + pct_text(self.max_stop())->0 + "%  TP "@
            + decimal_text(decimal_normal(dec(2, 0))) + "R"@
    }

    pub fn geometry_ru(self) -> (r: String)
        ensures
            r@ == self.geometry(),
    {
        let mut out = own("SL ");
        if let Some(t) = pct_label(self.min_stop_pct()) {
            out.append(t.as_str());
        }
        out.append("–");
        if let Some(t) = pct_label(self.max_stop_pct()) {
            out.append(t.as_str());
        }
        out.append("%  TP ");
        out.append(self.reward_r().normalize().text().as_str());
        out.append("R");
        out
    }
}

/// The stop band widens with the candle, and its floor is below its ceiling.
pub proof fn law_stop_band_widens(a: TradeInterval, b: TradeInterval)
    requires
        a.minutes() <= b.minutes(),
    ensures
        a.min_stop().le(b.min_stop()),
        a.max_stop().le(b.max_stop()),
        a.min_stop().lt(a.max_stop()),
{
    broadcast use crate::dec::lemma_dec_parts;

    let p = crate::dec::pow10(28 - 3);
    vstd::arithmetic::power::lemma_pow_positive(10, 25);
    assert forall|x: int, y: int| x <= y implies #[trigger] (x * p) <= #[trigger] (y * p) by {
        assert(x * p <= y * p) by (nonlinear_arith)
            requires
                x <= y,
                p > 0,
        ;
    }
    assert(a.min_stop().m() * p < a.max_stop().m() * p) by (nonlinear_arith)
        requires
            a.min_stop().m() < a.max_stop().m(),
            p > 0,
    ;
}

pub const STRATEGY1_POLL_SECONDS: i32 = 60;

pub const DEFAULT_MAX_POSITIONS: i32 = 1;

/// Strategy 4 concurrent longs.
pub const DEFAULT_S4_MAX_POSITIONS: i32 = 5;

/// Strategy 2 (scalp) longest hold in signal bars.
pub const DEFAULT_S2_MAX_HOLD_BARS: usize = 8;

pub fn default_notional() -> (r: Dec)
    ensures
        r == dec(20, 0),
{
    Dec::from_int(20)
}

pub fn default_tp_pct() -> (r: Dec)
    ensures
        r == dec(25, 3),
{
    Dec::new(25, 3)
}

pub fn default_trail_pct() -> (r: Dec)
    ensures
        r == dec(20, 3),
{
    Dec::new(20, 3)
}

/// Strategy-4 risk fraction of account equity: 0.0025.
pub fn default_risk_pct() -> (r: Dec)
    ensures
        r == dec(25, 4),
{
    Dec::new(25, 4)
}

/// What a text of one or two digits and a unit letter is read as.
proof fn lemma_short_interval(s: Seq<char>)
    requires
        2 <= s.len() <= 3,
        forall|i: int| 0 <= i < s.len() - 1 ==> '0' <= #[trigger] s[i] <= '9',
        s.last() == 'm' || s.last() == 'h' || s.last() == 'м' || s.last() == 'ч',
    ensures
        latin_units(lowered(crate::text::trimmed(s))) == s.drop_last().push(
            if s.last() == 'м' {
                'm'
            } else if s.last() == 'ч' {
                'h'
            } else {
                s.last()
            },
        ),
{
    crate::text::lemma_trimmed_stays(s);
    reveal(lowered);
    assert(plain_case(s));
    assert(lower(s) =~= s);
    reveal_with_fuel(latin_units, 4);
    let d = s.drop_last();
    if d.len() == 2 {
        let e = d.drop_last();
        assert(e.drop_last() =~= Seq::<char>::empty());
        assert(latin_units(e) =~= e);
    } else {
        assert(d.drop_last() =~= Seq::<char>::empty());
    }
    assert(latin_units(d) =~= d);
}

/// The name of an interval, in either language, names that interval.
pub proof fn law_interval_names_read_back(i: TradeInterval)
    ensures
        interval_of(i.name()) == Some(i),
        interval_of(i.ru()) == Some(i),
{
    reveal_strlit("5m");
    reveal_strlit("15m");
    reveal_strlit("30m");
    reveal_strlit("1h");
    reveal_strlit("5м");
    reveal_strlit("15м");
    reveal_strlit("30м");
    reveal_strlit("1ч");
    reveal_strlit("5");
    reveal_strlit("m5");
    reveal_strlit("15");
    reveal_strlit("m15");
    reveal_strlit("30");
    reveal_strlit("m30");
    lemma_short_interval(i.name());
    lemma_short_interval(i.ru());
    let a = latin_units(lowered(crate::text::trimmed(i.name())));
    let b = latin_units(lowered(crate::text::trimmed(i.ru())));
    assert(a =~= i.name());
    assert(b =~= i.name());
    assert("5m"@[0] == '5' && "m5"@[0] == 'm' && "15"@[1] == '5' && "30"@[0] == '3');
    assert("15m"@[0] == '1' && "m15"@[0] == 'm' && "30m"@[0] == '3' && "m30"@[0] == 'm');
    assert("1h"@[0] == '1' && "1h"@[1] == 'h');
}

} // verus!

//! Fixed-point decimal numbers: an integer mantissa and a power-of-ten scale.
//!
//! Arithmetic is the one of the `rust_decimal` crate. An operation that leaves
//! the range of that crate gives `None`, and `None` then runs through the rest
//! of the formula.
use vstd::arithmetic::power::{lemma_pow_adds, lemma_pow_increases, lemma_pow_positive, pow};
use vstd::prelude::*;

verus! {

/// Exclusive bound on the magnitude of a mantissa: 2 to the 96th.
pub const MANTISSA_BOUND: i128 = 79228162514264337593543950336;

/// Largest number of fractional digits.
pub const MAX_SCALE: u32 = 28;

/// A decimal number, `mantissa / 10^scale`.
#[derive(Clone, Copy, Debug)]
pub struct Dec {
    mantissa: i128,
    scale: u32,
}

/// Ten to the `n`-th power.
pub open spec fn pow10(n: int) -> int {
    pow(10, n as nat)
}

/// Whether an integer fits a mantissa.
pub open spec fn fits(n: int) -> bool {
    -MANTISSA_BOUND < n < MANTISSA_BOUND
}

/// The decimal with the given mantissa and scale.
pub closed spec fn dec(m: int, s: int) -> Dec {
    Dec { mantissa: m as i128, scale: s as u32 }
}

impl Dec {
    #[verifier::type_invariant]
    pub closed spec fn wf(self) -> bool {
        &&& fits(self.mantissa as int)
        &&& self.scale <= MAX_SCALE
    }

    /// The mantissa as a mathematical integer.
    pub closed spec fn m(self) -> int {
        self.mantissa as int
    }

    /// The scale as a mathematical integer.
    pub closed spec fn s(self) -> int {
        self.scale as int
    }

    /// The mantissa that the number has at scale `t`.
    pub open spec fn at(self, t: int) -> int {
        self.m() * pow10(t - self.s())
    }

    /// The value counted in units of `10^-28`: two decimals stand for the same
    /// number exactly if their units agree, and order as their units do.
    pub open spec fn units(self) -> int {
        self.at(28)
    }

    pub open spec fn pos(self) -> bool {
        self.units() > 0
    }

    pub open spec fn lt(self, other: Dec) -> bool {
        self.units() < other.units()
    }

    pub open spec fn le(self, other: Dec) -> bool {
        self.units() <= other.units()
    }

    pub open spec fn same(self, other: Dec) -> bool {
        self.units() == other.units()
    }
}

/// Parts of a decimal built by `dec`.
pub broadcast proof fn lemma_dec_parts(m: int, s: int)
    requires
        fits(m),
        0 <= s <= 28,
    ensures
        #![trigger dec(m, s)]
        dec(m, s).m() == m,
        dec(m, s).s() == s,
{
}

/// The sign of the units is the sign of the mantissa.
pub proof fn lemma_units_sign(a: Dec)
    ensures
        a.units() > 0 <==> a.m() > 0,
        a.units() < 0 <==> a.m() < 0,
        a.m() == 0 ==> a.units() == 0,
{
    let p = pow10(28 - a.s());
    lemma_pow_positive(10, (28 - a.s()) as nat);
    assert(a.m() * p > 0 <==> a.m() > 0) by (nonlinear_arith)
        requires
            p > 0,
    ;
    assert(a.m() * p < 0 <==> a.m() < 0) by (nonlinear_arith)
        requires
            p > 0,
    ;
    assert(a.m() == 0 ==> a.m() * p == 0) by (nonlinear_arith);
}

/// Negating the mantissa negates the units.
pub proof fn lemma_units_neg(a: Dec, b: Dec)
    requires
        a.m() == -b.m(),
        a.s() == b.s(),
    ensures
        a.units() == -b.units(),
{
    let p = pow10(28 - a.s());
    assert((-b.m()) * p == -(b.m() * p)) by (nonlinear_arith);
}

/// A mantissa has at most 29 digits.
proof fn lemma_mantissa_digits()
    ensures
        pow10(29) > MANTISSA_BOUND,
{
    reveal_with_fuel(pow, 30);
}

/// What `rust_decimal`'s checked addition gives, rounding included.
pub uninterp spec fn decimal_sum(a: Dec, b: Dec) -> Option<Dec>;

/// What `rust_decimal`'s checked subtraction gives, rounding included.
pub uninterp spec fn decimal_difference(a: Dec, b: Dec) -> Option<Dec>;

/// What `rust_decimal`'s checked multiplication gives, rounding included.
pub uninterp spec fn decimal_product(a: Dec, b: Dec) -> Option<Dec>;

/// What `rust_decimal`'s checked division gives, rounding included.
pub uninterp spec fn decimal_quotient(a: Dec, b: Dec) -> Option<Dec>;

/// The text that `rust_decimal` prints for a number.
pub uninterp spec fn decimal_text(a: Dec) -> Seq<char>;

/// The text that `rust_decimal` prints with a fixed number of fractional digits.
pub uninterp spec fn decimal_text_fixed(a: Dec, places: usize) -> Seq<char>;

/// What `rust_decimal` prints with a sign and a precision.
pub uninterp spec fn decimal_text_signed(a: Dec, places: usize) -> Seq<char>;

/// The number that `rust_decimal` reads from a text, if it reads one.
pub uninterp spec fn decimal_parse(text: Seq<char>) -> Option<Dec>;

pub open spec fn max_int(a: int, b: int) -> int {
    if a >= b {
        a
    } else {
        b
    }
}

/// `rust_decimal::Decimal::checked_add`. Stated besides the name: zero is
/// neutral, and a sum that fits the mantissa at the larger scale is exact.
/// The rounding of longer sums is left to the name.
#[verifier::external_body]
fn checked_sum(a: Dec, b: Dec) -> (r: Option<Dec>)
    ensures
        r == decimal_sum(a, b),
        a.m() == 0 ==> r == Some(b),
        a.m() != 0 && b.m() == 0 ==> r == Some(a),
        ({
            let t = max_int(a.s(), b.s());
            a.m() != 0 && b.m() != 0 && fits(a.at(t)) && fits(b.at(t)) && fits(a.at(t) + b.at(t))
                ==> r == Some(dec(a.at(t) + b.at(t), t))
        }),
{
    let x = rust_decimal::Decimal::from_i128_with_scale(a.mantissa, a.scale);
    let y = rust_decimal::Decimal::from_i128_with_scale(b.mantissa, b.scale);
    x.checked_add(y).map(|z| Dec { mantissa: z.mantissa(), scale: z.scale() })
}

/// `rust_decimal::Decimal::checked_sub`. Stated besides the name: zero on
/// either side, a difference that fits the mantissa at the larger scale is exact,
/// and what is left of a number once a smaller positive one is taken from it is in
/// range and positive. The rounding of longer differences is left to the name.
#[verifier::external_body]
fn checked_difference(a: Dec, b: Dec) -> (r: Option<Dec>)
    ensures
        r == decimal_difference(a, b),
        a.m() == 0 ==> r == Some(dec(-b.m(), b.s())),
        a.m() != 0 && b.m() == 0 ==> r == Some(a),
        ({
            let t = max_int(a.s(), b.s());
            a.m() != 0 && b.m() != 0 && fits(a.at(t)) && fits(b.at(t)) && fits(a.at(t) - b.at(t))
                ==> r == Some(dec(a.at(t) - b.at(t), t))
        }),
        b.pos() && b.lt(a) ==> r is Some && r->0.pos(),
{
    let x = rust_decimal::Decimal::from_i128_with_scale(a.mantissa, a.scale);
    let y = rust_decimal::Decimal::from_i128_with_scale(b.mantissa, b.scale);
    x.checked_sub(y).map(|z| Dec { mantissa: z.mantissa(), scale: z.scale() })
}

/// `rust_decimal::Decimal::checked_mul`. Stated besides the name: a zero
/// factor gives zero, and a product that fits mantissa and scale is exact. The
/// rounding of longer products is left to the name.
#[verifier::external_body]
fn checked_product(a: Dec, b: Dec) -> (r: Option<Dec>)
    ensures
        r == decimal_product(a, b),
        a.m() == 0 || b.m() == 0 ==> r == Some(dec(0, 0)),
        a.m() != 0 && b.m() != 0 && fits(a.m() * b.m()) && a.s() + b.s() <= 28 ==> r == Some(
            dec(a.m() * b.m(), a.s() + b.s()),
        ),
{
    let x = rust_decimal::Decimal::from_i128_with_scale(a.mantissa, a.scale);
    let y = rust_decimal::Decimal::from_i128_with_scale(b.mantissa, b.scale);
    x.checked_mul(y).map(|z| Dec { mantissa: z.mantissa(), scale: z.scale() })
}

/// `rust_decimal::Decimal::checked_div`. Stated besides the name: there is no
/// quotient by zero, zero divides to zero, and a mantissa that divides without
/// remainder at a scale not below the divisor's is exact. Other quotients are
/// left to the name.
#[verifier::external_body]
fn checked_quotient(a: Dec, b: Dec) -> (r: Option<Dec>)
    ensures
        r == decimal_quotient(a, b),
        b.m() == 0 ==> r is None,
        b.m() != 0 && a.m() == 0 ==> r == Some(dec(0, 0)),
        forall|q: int| #![trigger q * b.m()]
            b.m() != 0 && a.m() != 0 && a.s() >= b.s() && q * b.m() == a.m() ==> r == Some(
                dec(q, a.s() - b.s()),
            ),
{
    let x = rust_decimal::Decimal::from_i128_with_scale(a.mantissa, a.scale);
    let y = rust_decimal::Decimal::from_i128_with_scale(b.mantissa, b.scale);
    x.checked_div(y).map(|z| Dec { mantissa: z.mantissa(), scale: z.scale() })
}

/// `rust_decimal`'s order on `Decimal`: -1, 0 or 1 as the first number is
/// below, equal to or above the second, whatever their scales.
#[verifier::external_body]
fn compare(a: Dec, b: Dec) -> (r: i8)
    ensures
        r < 0 <==> a.units() < b.units(),
        r == 0 <==> a.units() == b.units(),
        r > 0 <==> a.units() > b.units(),
{
    let x = rust_decimal::Decimal::from_i128_with_scale(a.mantissa, a.scale);
    let y = rust_decimal::Decimal::from_i128_with_scale(b.mantissa, b.scale);
    match x.cmp(&y) {
        std::cmp::Ordering::Less => -1,
        std::cmp::Ordering::Equal => 0,
        std::cmp::Ordering::Greater => 1,
    }
}

/// Half-even division of a magnitude by a power of ten.
pub open spec fn half_even(n: int, p: int) -> int {
    let q = n / p;
    let r = n % p;
    if 2 * r > p || (2 * r == p && q % 2 == 1) {
        q + 1
    } else {
        q
    }
}

/// The number rounded half-even to at most `dp` fractional digits.
pub open spec fn rounded(a: Dec, dp: int) -> Dec {
    if a.s() <= dp {
        a
    } else if a.m() < 0 {
        dec(-half_even(-a.m(), pow10(a.s() - dp)), dp)
    } else {
        dec(half_even(a.m(), pow10(a.s() - dp)), dp)
    }
}

/// `rust_decimal::Decimal::round_dp`: half-even rounding to at most `dp`
/// fractional digits.
#[verifier::external_body]
fn round_places(a: Dec, dp: u32) -> (r: Dec)
    ensures
        r == rounded(a, dp as int),
{
    let z = rust_decimal::Decimal::from_i128_with_scale(a.mantissa, a.scale).round_dp(dp);
    Dec { mantissa: z.mantissa(), scale: z.scale() }
}

/// The same number without trailing fractional zeros.
pub open spec fn is_normal_form(a: Dec, r: Dec) -> bool {
    &&& r.units() == a.units()
    &&& r.s() == 0 || r.m() % 10 != 0
    &&& r.s() <= a.s()
}

/// The number with the trailing zeros of its fraction stripped.
#[verifier::opaque]
pub open spec fn decimal_normal(a: Dec) -> Dec
    decreases a.s(),
{
    if a.s() > 0 && a.m() % 10 == 0 {
        decimal_normal(dec(a.m() / 10, a.s() - 1))
    } else {
        a
    }
}

proof fn lemma_normal_form(a: Dec)
    requires
        a.wf(),
    ensures
        is_normal_form(a, decimal_normal(a)),
    decreases a.s(),
{
    reveal(decimal_normal);
    if a.s() > 0 && a.m() % 10 == 0 {
        let b = dec(a.m() / 10, a.s() - 1);
        law_value_ignores_trailing_zeros(b, a);
        lemma_normal_form(b);
    }
}

/// `rust_decimal::Decimal::normalize`: the same number, with the trailing
/// zeros of the fraction stripped.
#[verifier::external_body]
fn normal_form(a: Dec) -> (r: Dec)
    ensures
        r == decimal_normal(a),
{
    let z = rust_decimal::Decimal::from_i128_with_scale(a.mantissa, a.scale).normalize();
    Dec { mantissa: z.mantissa(), scale: z.scale() }
}

/// The greatest integer not above the number, at scale 0.
pub open spec fn floored(a: Dec) -> Dec {
    if a.s() == 0 {
        a
    } else {
        dec(a.m() / pow10(a.s()), 0)
    }
}

/// The least integer not below the number, at scale 0.
pub open spec fn ceiled(a: Dec) -> Dec {
    if a.s() == 0 {
        a
    } else {
        dec(-((-a.m()) / pow10(a.s())), 0)
    }
}

/// `rust_decimal::Decimal::floor`.
#[verifier::external_body]
fn round_down(a: Dec) -> (r: Dec)
    ensures
        r == floored(a),
{
    let z = rust_decimal::Decimal::from_i128_with_scale(a.mantissa, a.scale).floor();
    Dec { mantissa: z.mantissa(), scale: z.scale() }
}

/// `rust_decimal::Decimal::ceil`.
#[verifier::external_body]
fn round_up(a: Dec) -> (r: Dec)
    ensures
        r == ceiled(a),
{
    let z = rust_decimal::Decimal::from_i128_with_scale(a.mantissa, a.scale).ceil();
    Dec { mantissa: z.mantissa(), scale: z.scale() }
}

/// `rust_decimal`'s `Display` for `Decimal`; what it prints is named, not stated.
#[verifier::external_body]
fn print(a: Dec) -> (r: String)
    ensures
        r@ == decimal_text(a),
{
    rust_decimal::Decimal::from_i128_with_scale(a.mantissa, a.scale).to_string()
}

/// Whether a number can be printed with that many fractional digits: the whole
/// digits, the point and the fraction must fit in a buffer of 32 characters.
pub open spec fn prints(a: Dec, places: int) -> bool {
    let bound = pow10(31 - places + a.s());
    &&& 0 <= places <= 28
    &&& -bound < a.m() < bound
}

/// `rust_decimal`'s `Display` for `Decimal` with a precision; what it prints is
/// named, not stated. It writes to a buffer of 32 characters and panics where
/// that is too short, so the number must print.
#[verifier::external_body]
fn print_fixed(a: Dec, places: usize) -> (r: String)
    requires
        prints(a, places as int),
    ensures
        r@ == decimal_text_fixed(a, places),
{
    let x = rust_decimal::Decimal::from_i128_with_scale(a.mantissa, a.scale);
    format!("{:.*}", places, x)
}

/// `rust_decimal`'s `Display` for `Decimal` with a sign and a precision; what it
/// prints is named, not stated. The sign needs no room in the buffer of 32
/// characters.
#[verifier::external_body]
fn print_signed(a: Dec, places: usize) -> (r: String)
    requires
        prints(a, places as int),
    ensures
        r@ == decimal_text_signed(a, places),
{
    let x = rust_decimal::Decimal::from_i128_with_scale(a.mantissa, a.scale);
    format!("{:+.*}", places, x)
}

/// `rust_decimal`'s `FromStr` for `Decimal`; which texts it reads, and as which
/// number, is named, not stated.
#[verifier::external_body]
fn read(text: &str) -> (r: Option<Dec>)
    ensures
        r == decimal_parse(text@),
{
    let z = text.parse::<rust_decimal::Decimal>().ok()?;
    Some(Dec { mantissa: z.mantissa(), scale: z.scale() })
}

impl PartialEq for Dec {
    fn eq(&self, other: &Dec) -> (r: bool) {
        compare(*self, *other) == 0
    }
}

impl vstd::std_specs::cmp::PartialEqSpecImpl for Dec {
    open spec fn obeys_eq_spec() -> bool {
        true
    }

    open spec fn eq_spec(&self, other: &Dec) -> bool {
        self.units() == other.units()
    }
}

impl Eq for Dec {

}

impl PartialOrd for Dec {
    fn partial_cmp(&self, other: &Dec) -> (r: Option<std::cmp::Ordering>) {
        let c: i8 = compare(*self, *other);
        if c < 0 {
            Some(std::cmp::Ordering::Less)
        } else if c == 0 {
            Some(std::cmp::Ordering::Equal)
        } else {
            Some(std::cmp::Ordering::Greater)
        }
    }
}

impl vstd::std_specs::cmp::PartialOrdSpecImpl for Dec {
    open spec fn obeys_partial_cmp_spec() -> bool {
        true
    }

    open spec fn partial_cmp_spec(&self, other: &Dec) -> Option<std::cmp::Ordering> {
        if self.units() < other.units() {
            Some(std::cmp::Ordering::Less)
        } else if self.units() == other.units() {
            Some(std::cmp::Ordering::Equal)
        } else {
            Some(std::cmp::Ordering::Greater)
        }
    }
}

/// `-a`.
pub open spec fn negated(a: Dec) -> Dec {
    dec(-a.m(), a.s())
}

/// `|a|`.
pub open spec fn magnitude(a: Dec) -> Dec {
    if a.m() < 0 {
        negated(a)
    } else {
        a
    }
}

pub open spec fn larger(a: Dec, b: Dec) -> Dec {
    if a.lt(b) {
        b
    } else {
        a
    }
}

pub open spec fn smaller(a: Dec, b: Dec) -> Dec {
    if b.lt(a) {
        b
    } else {
        a
    }
}

impl Dec {
    /// `mantissa / 10^scale`, if both are in range.
    pub fn from_parts(mantissa: i128, scale: u32) -> (r: Option<Dec>)
        ensures
            fits(mantissa as int) && scale <= MAX_SCALE ==> r == Some(
                dec(mantissa as int, scale as int),
            ),
            !(fits(mantissa as int) && scale <= MAX_SCALE) ==> r is None,
    {
        if -MANTISSA_BOUND < mantissa && mantissa < MANTISSA_BOUND && scale <= MAX_SCALE {
            Some(Dec { mantissa, scale })
        } else {
            None
        }
    }

    /// `mantissa / 10^scale` for the constants of the library.
    pub fn new(mantissa: i64, scale: u32) -> (r: Dec)
        requires
            scale <= MAX_SCALE,
        ensures
            r == dec(mantissa as int, scale as int),
            r.m() == mantissa,
            r.s() == scale,
    {
        Dec { mantissa: mantissa as i128, scale }
    }

    /// The integer `n`.
    pub fn from_int(n: i64) -> (r: Dec)
        ensures
            r == dec(n as int, 0),
            r.m() == n,
            r.s() == 0,
    {
        Dec { mantissa: n as i128, scale: 0 }
    }

    /// The count `n`.
    pub fn from_count(n: usize) -> (r: Dec)
        ensures
            r == dec(n as int, 0),
            r.m() == n,
            r.s() == 0,
    {
        Dec { mantissa: n as i128, scale: 0 }
    }

    pub fn zero() -> (r: Dec)
        ensures
            r == dec(0, 0),
            r.units() == 0,
    {
        let r = Dec { mantissa: 0, scale: 0 };
        proof {
            lemma_units_sign(r);
        }
        r
    }

    pub fn one() -> (r: Dec)
        ensures
            r == dec(1, 0),
            r.units() > 0,
    {
        let r = Dec { mantissa: 1, scale: 0 };
        proof {
            lemma_units_sign(r);
        }
        r
    }

    pub fn mantissa(&self) -> (r: i128)
        ensures
            r == self.m(),
            fits(r as int),
    {
        proof {
            use_type_invariant(self);
        }
        self.mantissa
    }

    pub fn scale(&self) -> (r: u32)
        ensures
            r == self.s(),
            r <= MAX_SCALE,
    {
        proof {
            use_type_invariant(self);
        }
        self.scale
    }

    /// Whether the number is above zero.
    pub fn is_pos(&self) -> (r: bool)
        ensures
            r == self.pos(),
    {
        proof {
            lemma_units_sign(*self);
        }
        self.mantissa > 0
    }

    /// Whether the number is below zero.
    pub fn is_neg(&self) -> (r: bool)
        ensures
            r == (self.units() < 0),
    {
        proof {
            lemma_units_sign(*self);
        }
        self.mantissa < 0
    }

    pub fn is_zero(&self) -> (r: bool)
        ensures
            r == (self.units() == 0),
    {
        proof {
            lemma_units_sign(*self);
        }
        self.mantissa == 0
    }

    pub fn neg(self) -> (r: Dec)
        ensures
            r == negated(self),
            r.units() == -self.units(),
    {
        proof {
            use_type_invariant(&self);
        }
        let r = Dec { mantissa: -self.mantissa, scale: self.scale };
        proof {
            lemma_units_neg(r, self);
        }
        r
    }

    pub fn abs(self) -> (r: Dec)
        ensures
            r == magnitude(self),
            r.units() == (if self.units() < 0 { -self.units() } else { self.units() }),
    {
        proof {
            lemma_units_sign(self);
        }
        if self.mantissa < 0 {
            self.neg()
        } else {
            self
        }
    }

    pub fn max(self, other: Dec) -> (r: Dec)
        ensures
            r == larger(self, other),
    {
        if self < other {
            other
        } else {
            self
        }
    }

    pub fn min(self, other: Dec) -> (r: Dec)
        ensures
            r == smaller(self, other),
    {
        if self > other {
            other
        } else {
            self
        }
    }

    /// Rounds half-even to at most `dp` fractional digits.
    pub fn round_dp(self, dp: u32) -> (r: Dec)
        ensures
            r == rounded(self, dp as int),
    {
        round_places(self, dp)
    }

    /// The same number without trailing fractional zeros.
    pub fn normalize(self) -> (r: Dec)
        ensures
            r == decimal_normal(self),
            is_normal_form(self, r),
    {
        proof {
            use_type_invariant(&self);
            lemma_normal_form(self);
        }
        normal_form(self)
    }

    pub fn floor(self) -> (r: Dec)
        ensures
            r == floored(self),
    {
        round_down(self)
    }

    pub fn ceil(self) -> (r: Dec)
        ensures
            r == ceiled(self),
    {
        round_up(self)
    }

    pub fn text(&self) -> (r: String)
        ensures
            r@ == decimal_text(*self),
    {
        print(*self)
    }

    /// Whether the number can be printed with that many fractional digits.
    fn can_print(&self, places: usize) -> (r: bool)
        ensures
            r == prints(*self, places as int),
    {
        proof {
            use_type_invariant(self);
        }
        if places > 28 {
            return false;
        }
        let size: i128 = if self.mantissa < 0 {
            -self.mantissa
        } else {
            self.mantissa
        };
        let digits: usize = 31 - places + self.scale as usize;
        let mut p: i128 = 1;
        let mut i: usize = 0;
        proof {
            reveal_with_fuel(pow, 1);
        }
        while i < digits && p <= size
            invariant
                i <= digits,
                p == pow10(i as int),
                p > 0,
                size < MANTISSA_BOUND,
            decreases digits - i,
        {
            proof {
                lemma_pow_adds(10, 1, i as nat);
                assert(pow(10, 1) == 10) by {
                    reveal_with_fuel(pow, 2);
                }
            }
            p = p * 10;
            i = i + 1;
        }
        proof {
            lemma_pow_increases(10, i as nat, digits as nat);
        }
        p > size
    }

    /// The number with that many fractional digits, where it prints.
    pub fn text_fixed(&self, places: usize) -> (r: Option<String>)
        ensures
            prints(*self, places as int) ==> r is Some && r->0@ == decimal_text_fixed(*self, places),
            !prints(*self, places as int) ==> r is None,
    {
        if self.can_print(places) {
            Some(print_fixed(*self, places))
        } else {
            None
        }
    }

    /// The number with at most two fractional digits, which always fits.
    pub fn text_short(&self, places: usize) -> (r: String)
        requires
            places <= 2,
        ensures
            r@ == decimal_text_fixed(*self, places),
    {
        proof {
            use_type_invariant(self);
            lemma_mantissa_digits();
            lemma_pow_increases(10, 29, (31 - places + self.s()) as nat);
        }
        print_fixed(*self, places)
    }

    /// The number with a sign and that many fractional digits, where it prints.
    pub fn text_signed(&self, places: usize) -> (r: Option<String>)
        ensures
            prints(*self, places as int) ==> r is Some && r->0@ == decimal_text_signed(*self, places),
            !prints(*self, places as int) ==> r is None,
    {
        if self.can_print(places) {
            Some(print_signed(*self, places))
        } else {
            None
        }
    }

    /// Reads a number.
    pub fn parse(text: &str) -> (r: Option<Dec>)
        ensures
            r == decimal_parse(text@),
    {
        read(text)
    }
}

/// A number, or `None` once a formula has left the decimal range.
pub type Num = Option<Dec>;

pub open spec fn n_add(a: Num, b: Num) -> Num {
    match (a, b) {
        (Some(x), Some(y)) => decimal_sum(x, y),
        _ => None,
    }
}

pub open spec fn n_sub(a: Num, b: Num) -> Num {
    match (a, b) {
        (Some(x), Some(y)) => decimal_difference(x, y),
        _ => None,
    }
}

pub open spec fn n_mul(a: Num, b: Num) -> Num {
    match (a, b) {
        (Some(x), Some(y)) => decimal_product(x, y),
        _ => None,
    }
}

pub open spec fn n_div(a: Num, b: Num) -> Num {
    match (a, b) {
        (Some(x), Some(y)) => decimal_quotient(x, y),
        _ => None,
    }
}

/// The facts that hold of every sum.
pub open spec fn sum_facts(a: Dec, b: Dec, r: Num) -> bool {
    let t = max_int(a.s(), b.s());
    &&& a.m() == 0 ==> r == Some(b)
    &&& a.m() != 0 && b.m() == 0 ==> r == Some(a)
    &&& a.m() != 0 && b.m() != 0 && fits(a.at(t)) && fits(b.at(t)) && fits(a.at(t) + b.at(t))
        ==> r == Some(dec(a.at(t) + b.at(t), t))
}

/// `a + b`.
pub fn plus(a: Num, b: Num) -> (r: Num)
    ensures
        r == n_add(a, b),
        a is Some && b is Some ==> sum_facts(a->0, b->0, r),
{
    match (a, b) {
        (Some(x), Some(y)) => checked_sum(x, y),
        _ => None,
    }
}

/// The facts that hold of every difference.
pub open spec fn difference_facts(a: Dec, b: Dec, r: Num) -> bool {
    let t = max_int(a.s(), b.s());
    &&& a.m() == 0 ==> r == Some(negated(b))
    &&& a.m() != 0 && b.m() == 0 ==> r == Some(a)
    &&& a.m() != 0 && b.m() != 0 && fits(a.at(t)) && fits(b.at(t)) && fits(a.at(t) - b.at(t))
        ==> r == Some(dec(a.at(t) - b.at(t), t))
    &&& b.pos() && b.lt(a) ==> r is Some && r->0.pos()
}

/// `a - b`.
pub fn minus(a: Num, b: Num) -> (r: Num)
    ensures
        r == n_sub(a, b),
        a is Some && b is Some ==> difference_facts(a->0, b->0, r),
{
    match (a, b) {
        (Some(x), Some(y)) => checked_difference(x, y),
        _ => None,
    }
}

/// The facts that hold of every product.
pub open spec fn product_facts(a: Dec, b: Dec, r: Num) -> bool {
    &&& a.m() == 0 || b.m() == 0 ==> r == Some(dec(0, 0))
    &&& a.m() != 0 && b.m() != 0 && fits(a.m() * b.m()) && a.s() + b.s() <= 28 ==> r == Some(
        dec(a.m() * b.m(), a.s() + b.s()),
    )
}

/// `a * b`.
pub fn times(a: Num, b: Num) -> (r: Num)
    ensures
        r == n_mul(a, b),
        a is Some && b is Some ==> product_facts(a->0, b->0, r),
{
    match (a, b) {
        (Some(x), Some(y)) => checked_product(x, y),
        _ => None,
    }
}

/// The facts that hold of every quotient.
pub open spec fn quotient_facts(a: Dec, b: Dec, r: Num) -> bool {
    &&& b.m() == 0 ==> r is None
    &&& b.m() != 0 && a.m() == 0 ==> r == Some(dec(0, 0))
    &&& forall|q: int| #![trigger q * b.m()]
        b.m() != 0 && a.m() != 0 && a.s() >= b.s() && q * b.m() == a.m() ==> r == Some(
            dec(q, a.s() - b.s()),
        )
}

/// `a / b`.
pub fn over(a: Num, b: Num) -> (r: Num)
    ensures
        r == n_div(a, b),
        a is Some && b is Some ==> quotient_facts(a->0, b->0, r),
{
    match (a, b) {
        (Some(x), Some(y)) => checked_quotient(x, y),
        _ => None,
    }
}

/// Order by value is a total order that looks through scales.
pub proof fn law_order_is_total(a: Dec, b: Dec, c: Dec)
    ensures
        a.lt(b) || a.same(b) || b.lt(a),
        a.le(b) && b.le(c) ==> a.le(c),
        a.le(b) && b.le(a) ==> a.same(b),
{
}

/// Appending a zero digit to the mantissa and one to the scale keeps the value.
pub proof fn law_value_ignores_trailing_zeros(a: Dec, b: Dec)
    requires
        a.s() + 1 == b.s(),
        b.s() <= 28,
        b.m() == 10 * a.m(),
    ensures
        a.same(b),
{
    let k = (28 - b.s()) as nat;
    lemma_pow_adds(10, 1, k);
    assert(pow(10, 1) == 10) by {
        reveal_with_fuel(pow, 2);
    }
    let p = pow(10, k);
    assert(a.m() * (10 * p) == (10 * a.m()) * p) by (nonlinear_arith);
}

/// What `plus`, `minus`, `times` and `over` promise of each of their results,
/// for all numbers at once.
pub open spec fn decimal_rules() -> bool {
    &&& forall|a: Dec, b: Dec|
        a.wf() && b.wf() ==> sum_facts(a, b, #[trigger] decimal_sum(a, b))
    &&& forall|a: Dec, b: Dec|
        a.wf() && b.wf() ==> difference_facts(a, b, #[trigger] decimal_difference(a, b))
    &&& forall|a: Dec, b: Dec|
        a.wf() && b.wf() ==> product_facts(a, b, #[trigger] decimal_product(a, b))
    &&& forall|a: Dec, b: Dec|
        a.wf() && b.wf() ==> quotient_facts(a, b, #[trigger] decimal_quotient(a, b))
}

/// Whether two numbers, their sum and their difference can be written with the
/// digits of the longer of their fractions.
pub open spec fn short(a: Dec, b: Dec) -> bool {
    let t = max_int(a.s(), b.s());
    &&& a.wf() && b.wf()
    &&& fits(a.at(t)) && fits(b.at(t))
    &&& fits(a.at(t) + b.at(t)) && fits(a.at(t) - b.at(t))
}

/// What `wf` says: the mantissa fits, and the scale is at most 28.
pub proof fn lemma_wf(a: Dec)
    ensures
        a.wf() <==> fits(a.m()) && 0 <= a.s() <= 28,
{
}

proof fn lemma_scaled_up(a: Dec, t: int)
    requires
        0 <= a.s() <= t <= 28,
    ensures
        a.units() == a.at(t) * pow10(28 - t),
{
    lemma_pow_adds(10, (t - a.s()) as nat, (28 - t) as nat);
    let p = pow10(t - a.s());
    let q = pow10(28 - t);
    assert(a.m() * (p * q) == (a.m() * p) * q) by (nonlinear_arith);
}

/// Sums and differences of numbers that stay short are exact: their values add
/// and subtract as numbers do.
pub proof fn law_short_sums_are_exact(a: Dec, b: Dec)
    requires
        short(a, b),
    ensures
        sum_facts(a, b, decimal_sum(a, b)) ==> (decimal_sum(a, b) matches Some(r) && r.wf()
            && r.units() == a.units() + b.units()),
        difference_facts(a, b, decimal_difference(a, b)) ==> (decimal_difference(a, b) matches Some(
            r,
        ) && r.wf() && r.units() == a.units() - b.units()),
{
    broadcast use lemma_dec_parts;

    let t = max_int(a.s(), b.s());
    lemma_scaled_up(a, t);
    lemma_scaled_up(b, t);
    let x = a.at(t);
    let y = b.at(t);
    let q = pow10(28 - t);
    assert((x + y) * q == x * q + y * q) by (nonlinear_arith);
    assert((x - y) * q == x * q - y * q) by (nonlinear_arith);
    lemma_units_sign(a);
    lemma_units_sign(b);
    lemma_units_neg(negated(b), b);
    lemma_scaled_up(dec(x + y, t), t);
    lemma_scaled_up(dec(x - y, t), t);
    lemma_pow_same_scale(dec(x + y, t), t);
    lemma_pow_same_scale(dec(x - y, t), t);
}

proof fn lemma_pow_same_scale(a: Dec, t: int)
    requires
        a.s() == t,
    ensures
        a.at(t) == a.m(),
{
    reveal_with_fuel(pow, 1);
}

/// Whether a number goes into another without remainder, at a fraction no longer
/// than the other's.
pub open spec fn goes_into(b: Dec, a: Dec) -> bool {
    &&& a.wf() && b.wf()
    &&& b.m() != 0
    &&& a.s() >= b.s()
    &&& exists|q: int| #[trigger] (q * b.m()) == a.m()
}

/// A quotient without remainder is exact: times the divisor it is the dividend.
/// So a positive number goes more than once into exactly the numbers above it.
pub proof fn law_even_quotients_are_exact(a: Dec, b: Dec)
    requires
        goes_into(b, a),
        quotient_facts(a, b, decimal_quotient(a, b)),
    ensures
        decimal_quotient(a, b) matches Some(r) && r.units() * b.units() == a.units() * dec(
            1,
            0,
        ).units(),
        b.pos() ==> (dec(1, 0).lt(decimal_quotient(a, b)->0) <==> b.lt(a)),
        b.pos() ==> (decimal_quotient(a, b)->0.lt(dec(1, 0)) <==> a.lt(b)),
{
    broadcast use lemma_dec_parts;

    let q = choose|q: int| #[trigger] (q * b.m()) == a.m();
    let r = decimal_quotient(a, b)->0;
    lemma_units_sign(a);
    if a.m() == 0 {
        lemma_units_sign(dec(0, 0));
        assert(0 * b.units() == 0 && 0 * dec(1, 0).units() == 0) by (nonlinear_arith);
    } else {
        let m = a.m();
        let d = b.m();
        lemma_wf(a);
        assert(-MANTISSA_BOUND < q < MANTISSA_BOUND) by (nonlinear_arith)
            requires
                q * d == m,
                d != 0,
                -MANTISSA_BOUND < m < MANTISSA_BOUND,
        ;
        assert(q * b.m() == a.m());
        assert(r == dec(q, a.s() - b.s()));
        let x = pow10(28 - (a.s() - b.s()));
        let y = pow10(28 - b.s());
        let z = pow10(28 - a.s());
        let one = pow10(28);
        lemma_pow_adds(10, (28 - (a.s() - b.s())) as nat, (28 - b.s()) as nat);
        lemma_pow_adds(10, (28 - a.s()) as nat, 28);
        assert(x * y == z * one);
        assert((q * x) * (b.m() * y) == (q * b.m()) * (x * y)) by (nonlinear_arith);
        assert(a.m() * (z * one) == (a.m() * z) * one) by (nonlinear_arith);
    }
    assert(dec(1, 0).m() == 1 && dec(1, 0).s() == 0);
    assert(1 * pow10(28) == pow10(28)) by (nonlinear_arith);
    assert(dec(1, 0).units() == pow10(28));
    lemma_pow_positive(10, 28);
    if b.pos() {
        let u = r.units();
        let v = b.units();
        let k = a.units();
        let one = pow10(28);
        assert((one < u <==> v < k) && (u < one <==> k < v)) by (nonlinear_arith)
            requires
                u * v == k * one,
                v > 0,
                one > 0,
        ;
    }
}

/// Whether a product can be written with all the digits of its factors.
pub open spec fn short_product(a: Dec, b: Dec) -> bool {
    a.wf() && b.wf() && fits(a.m() * b.m()) && a.s() + b.s() <= 28
}

/// Products that stay short are exact: their values multiply as numbers do.
pub proof fn law_short_products_are_exact(a: Dec, b: Dec)
    requires
        short_product(a, b),
        product_facts(a, b, decimal_product(a, b)),
    ensures
        decimal_product(a, b) matches Some(r) && r.wf() && r.units() * dec(1, 0).units() == a.units()
            * b.units(),
{
    broadcast use lemma_dec_parts;

    let r = decimal_product(a, b)->0;
    let one = pow10(28);
    assert(dec(1, 0).m() == 1 && dec(1, 0).s() == 0);
    assert(1 * pow10(28) == pow10(28)) by (nonlinear_arith);
    lemma_units_sign(a);
    lemma_units_sign(b);
    if a.m() == 0 || b.m() == 0 {
        lemma_units_sign(dec(0, 0));
        assert(0 * one == 0) by (nonlinear_arith);
        assert(a.units() * b.units() == 0) by (nonlinear_arith)
            requires
                a.units() == 0 || b.units() == 0,
        ;
    } else {
        let x = pow10(28 - a.s());
        let y = pow10(28 - b.s());
        let z = pow10(28 - (a.s() + b.s()));
        lemma_pow_adds(10, (28 - a.s()) as nat, (28 - b.s()) as nat);
        lemma_pow_adds(10, (28 - (a.s() + b.s())) as nat, 28);
        assert(x * y == z * one);
        let m = a.m();
        let n = b.m();
        assert((m * x) * (n * y) == (m * n) * (x * y)) by (nonlinear_arith);
        assert((m * n) * (z * one) == ((m * n) * z) * one) by (nonlinear_arith);
    }
}

/// The floor of a number is the whole number at or below it and less than one away;
/// the ceiling is the one at or above it.
pub proof fn law_floor_and_ceiling(a: Dec)
    requires
        a.wf(),
    ensures
        floored(a).le(a) && a.units() < floored(a).units() + dec(1, 0).units(),
        a.le(ceiled(a)) && ceiled(a).units() < a.units() + dec(1, 0).units(),
        floored(a).s() == 0 && ceiled(a).s() == 0,
{
    broadcast use lemma_dec_parts;

    let t = pow10(a.s());
    let one = pow10(28);
    let rest = pow10(28 - a.s());
    lemma_pow_positive(10, a.s() as nat);
    lemma_pow_positive(10, (28 - a.s()) as nat);
    lemma_pow_adds(10, a.s() as nat, (28 - a.s()) as nat);
    assert(t * rest == one);
    assert(dec(1, 0).m() == 1 && dec(1, 0).s() == 0);
    assert(1 * one == one) by (nonlinear_arith);
    lemma_pow_positive(10, 28);
    if a.s() > 0 {
        let m = a.m();
        let q = m / t;
        let c = -((-m) / t);
        assert(q * t <= m < q * t + t) by (nonlinear_arith)
            requires
                q == m / t,
                t > 0,
        ;
        assert(c * t - t < m <= c * t) by (nonlinear_arith)
            requires
                c == -((-m) / t),
                t > 0,
        ;
        assert(-MANTISSA_BOUND < q < MANTISSA_BOUND && -MANTISSA_BOUND < c < MANTISSA_BOUND)
            by (nonlinear_arith)
            requires
                q * t <= m < q * t + t,
                c * t - t < m <= c * t,
                t >= 1,
                -MANTISSA_BOUND < m < MANTISSA_BOUND,
        ;
        assert(q * one == (q * t) * rest) by (nonlinear_arith)
            requires
                t * rest == one,
        ;
        assert(c * one == (c * t) * rest) by (nonlinear_arith)
            requires
                t * rest == one,
        ;
        assert((q * t) * rest <= m * rest && m * rest < (q * t) * rest + t * rest)
            by (nonlinear_arith)
            requires
                q * t <= m < q * t + t,
                rest > 0,
        ;
        assert(m * rest <= (c * t) * rest && (c * t) * rest < m * rest + t * rest)
            by (nonlinear_arith)
            requires
                c * t - t < m <= c * t,
                rest > 0,
        ;
    }
}

} // verus!

//! Text helpers: ASCII case, searching, joining, and decimal digits.
use vstd::prelude::*;
use vstd::string::{StrSliceExecFns, StringExecFns};

verus! {

/// ASCII upper case of one character; others stay as they are.
pub open spec fn upper_char(c: char) -> char {
    if 'a' <= c <= 'z' {
        (c as u8 - 32) as u8 as char
    } else {
        c
    }
}

/// ASCII upper case of a text.
pub open spec fn upper(s: Seq<char>) -> Seq<char> {
    Seq::new(s.len(), |i: int| upper_char(s[i]))
}

/// ASCII lower case of one character; others stay as they are.
pub open spec fn lower_char(c: char) -> char {
    if 'A' <= c <= 'Z' {
        (c as u8 + 32) as u8 as char
    } else {
        c
    }
}

/// ASCII lower case of a text.
pub open spec fn lower(s: Seq<char>) -> Seq<char> {
    Seq::new(s.len(), |i: int| lower_char(s[i]))
}

/// Whether `p` stands in `s` at position `i`.
pub open spec fn stands_at(s: Seq<char>, p: Seq<char>, i: int) -> bool {
    0 <= i && i + p.len() <= s.len() && s.subrange(i, i + p.len()) == p
}

/// Whether `p` stands anywhere in `s`.
pub open spec fn has(s: Seq<char>, p: Seq<char>) -> bool {
    exists|i: int| stands_at(s, p, i)
}

/// Code-point order of texts, which is also their byte order.
pub open spec fn text_lt(a: Seq<char>, b: Seq<char>) -> bool
    decreases a.len(),
{
    if b.len() == 0 {
        false
    } else if a.len() == 0 {
        true
    } else if a[0] != b[0] {
        (a[0] as int) < (b[0] as int)
    } else {
        text_lt(a.drop_first(), b.drop_first())
    }
}

/// `str::to_ascii_uppercase`: a-z become A-Z, every other character stays.
pub assume_specification[ str::to_ascii_uppercase ](s: &str) -> (r: String)
    ensures
        r@ == upper(s@),
;

/// `str::to_ascii_lowercase`: A-Z become a-z, every other character stays.
pub assume_specification[ str::to_ascii_lowercase ](s: &str) -> (r: String)
    ensures
        r@ == lower(s@),
;

/// `str::eq_ignore_ascii_case`: equal up to ASCII case.
pub assume_specification[ str::eq_ignore_ascii_case ](s: &str, other: &str) -> (r: bool)
    ensures
        r == (lower(s@) == lower(other@)),
;

/// `String::push`: appends one character.
pub assume_specification[ String::push ](s: &mut String, c: char)
    ensures
        final(s)@ == old(s)@.push(c),
;

/// `PartialEq` for `str`: the same characters.
#[verifier::external_body]
pub(crate) fn same(a: &str, b: &str) -> (r: bool)
    ensures
        r == (a@ == b@),
{
    a == b
}

/// `PartialOrd` for `str`: byte order, which is the order of the code points.
#[verifier::external_body]
pub(crate) fn before(a: &str, b: &str) -> (r: bool)
    ensures
        r == text_lt(a@, b@),
{
    a < b
}

/// `str::contains` with a text pattern.
#[verifier::external_body]
pub(crate) fn contains(s: &str, p: &str) -> (r: bool)
    ensures
        r == has(s@, p@),
{
    s.contains(p)
}

/// `str::starts_with` with a text pattern.
#[verifier::external_body]
pub(crate) fn starts_with(s: &str, p: &str) -> (r: bool)
    ensures
        r == stands_at(s@, p@, 0),
{
    s.starts_with(p)
}

/// Whether `s` ends with `p`.
pub open spec fn ends(s: Seq<char>, p: Seq<char>) -> bool {
    stands_at(s, p, s.len() - p.len())
}

/// `str::ends_with` with a text pattern.
#[verifier::external_body]
pub(crate) fn ends_with(s: &str, p: &str) -> (r: bool)
    ensures
        r == ends(s@, p@),
{
    s.ends_with(p)
}

/// `s` without the ending `p`, where it has it.
pub open spec fn without_ending(s: Seq<char>, p: Seq<char>) -> Seq<char> {
    if ends(s, p) {
        s.take(s.len() - p.len())
    } else {
        s
    }
}

/// `s` without the ending `p`, where it has it.
pub(crate) fn strip_ending<'a>(s: &'a str, p: &str) -> (r: &'a str)
    ensures
        r@ == without_ending(s@, p@),
{
    if ends_with(s, p) {
        let n: usize = s.unicode_len();
        let k: usize = p.unicode_len();
        proof {
            assert(s@.subrange(0, n - k) =~= s@.take(n - k));
        }
        s.substring_char(0, n - k)
    } else {
        s
    }
}

/// `s` without the beginning `p`, where it has it.
pub open spec fn without_start(s: Seq<char>, p: Seq<char>) -> Option<Seq<char>> {
    if stands_at(s, p, 0) {
        Some(s.skip(p.len() as int))
    } else {
        None
    }
}

/// `s` without the beginning `p`, where it has it.
pub(crate) fn strip_start<'a>(s: &'a str, p: &str) -> (r: Option<&'a str>)
    ensures
        match r {
            Some(t) => without_start(s@, p@) == Some(t@),
            None => without_start(s@, p@) is None,
        },
{
    if starts_with(s, p) {
        let n: usize = s.unicode_len();
        let k: usize = p.unicode_len();
        proof {
            assert(s@.subrange(k as int, n as int) =~= s@.skip(k as int));
        }
        Some(s.substring_char(k, n))
    } else {
        None
    }
}

/// The text cut to `max` characters, the last of them an ellipsis where cut.
pub open spec fn clipped(s: Seq<char>, max: int) -> Seq<char> {
    if s.len() <= max {
        s
    } else if max == 0 {
        "…"@
    } else {
        s.take(max - 1) + "…"@
    }
}

/// Cuts a text to `max` characters.
pub(crate) fn clip_chars(text: &str, max: usize) -> (r: String)
    ensures
        r@ == clipped(text@, max as int),
{
    let n: usize = text.unicode_len();
    if n <= max {
        return own(text);
    }
    if max == 0 {
        return own("…");
    }
    proof {
        assert(text@.subrange(0, max - 1) =~= text@.take(max - 1));
    }
    let mut out = own(text.substring_char(0, max - 1));
    out.append("…");
    out
}

/// Unicode's `White_Space` characters.
pub open spec fn is_white(c: char) -> bool {
    let n = c as int;
    ||| 0x9 <= n <= 0xd
    ||| n == 0x20
    ||| n == 0x85
    ||| n == 0xa0
    ||| n == 0x1680
    ||| 0x2000 <= n <= 0x200a
    ||| n == 0x2028
    ||| n == 0x2029
    ||| n == 0x202f
    ||| n == 0x205f
    ||| n == 0x3000
}

/// What is left of a text once white space is cut from its start.
#[verifier::opaque]
pub open spec fn trimmed_start(s: Seq<char>) -> Seq<char>
    decreases s.len(),
{
    if s.len() > 0 && is_white(s[0]) {
        trimmed_start(s.drop_first())
    } else {
        s
    }
}

/// What is left of a text once white space is cut from its end.
#[verifier::opaque]
pub open spec fn trimmed_end(s: Seq<char>) -> Seq<char>
    decreases s.len(),
{
    if s.len() > 0 && is_white(s.last()) {
        trimmed_end(s.drop_last())
    } else {
        s
    }
}

/// The text without the white space around it.
#[verifier::opaque]
pub open spec fn trimmed(s: Seq<char>) -> Seq<char> {
    trimmed_end(trimmed_start(s))
}

/// A text with no white space at its ends is its own trimmed form.
pub proof fn lemma_trimmed_stays(s: Seq<char>)
    requires
        s.len() > 0 ==> !is_white(s[0]) && !is_white(s.last()),
    ensures
        trimmed(s) == s,
{
    reveal(trimmed);
    reveal(trimmed_start);
    reveal(trimmed_end);
}

/// `str::trim`: the text without the white space around it, which is Unicode's
/// `White_Space`.
#[verifier::external_body]
pub(crate) fn trim(s: &str) -> (r: &str)
    ensures
        r@ == trimmed(s@),
{
    s.trim()
}

/// An owned copy of a text.
pub(crate) fn own(s: &str) -> (r: String)
    ensures
        r@ == s@,
{
    s.to_owned()
}

/// The characters of a text.
pub(crate) fn to_chars(s: &str) -> (r: Vec<char>)
    ensures
        r@ == s@,
{
    let mut out: Vec<char> = Vec::new();
    for c in iter: s.chars()
        invariant
            out@ == s@.take(iter.index()),
            iter.seq() == s@,
    {
        out.push(c);
    }
    out
}

/// The text made of the given characters.
pub(crate) fn from_chars(chars: &[char]) -> (r: String)
    ensures
        r@ == chars@,
{
    let mut out = String::new();
    let mut i: usize = 0;
    while i < chars.len()
        invariant
            i <= chars@.len(),
            out@ == chars@.take(i as int),
        decreases chars@.len() - i,
    {
        out.push(chars[i]);
        proof {
            assert(chars@.take(i as int + 1) == chars@.take(i as int).push(chars@[i as int]));
        }
        i = i + 1;
    }
    proof {
        assert(chars@.take(i as int) == chars@);
    }
    out
}

/// The digits of `n` in base ten.
pub open spec fn digits(n: nat) -> Seq<char>
    decreases n,
{
    if n < 10 {
        seq![(48 + n) as u8 as char]
    } else {
        digits(n / 10).push((48 + n % 10) as u8 as char)
    }
}

/// An integer in base ten, as it is printed.
pub open spec fn int_text(n: int) -> Seq<char> {
    if n < 0 {
        seq!['-'] + digits((-n) as nat)
    } else {
        digits(n as nat)
    }
}

fn digit_char(d: u64) -> (c: char)
    requires
        d < 10,
    ensures
        c == (48 + d) as u8 as char,
{
    (48u8 + d as u8) as char
}

fn write_digits(out: &mut String, n: u64)
    ensures
        final(out)@ == old(out)@ + digits(n as nat),
    decreases n,
{
    if n < 10 {
        out.push(digit_char(n));
    } else {
        write_digits(out, n / 10);
        out.push(digit_char(n % 10));
    }
}

/// Prints an unsigned integer.
pub(crate) fn print_u64(n: u64) -> (r: String)
    ensures
        r@ == int_text(n as int),
{
    let mut out = String::new();
    write_digits(&mut out, n);
    out
}

/// Prints a signed integer.
pub(crate) fn print_i64(n: i64) -> (r: String)
    ensures
        r@ == int_text(n as int),
{
    let mut out = String::new();
    if n < 0 {
        out.push('-');
        if n == i64::MIN {
            write_digits(&mut out, 9223372036854775808u64);
        } else {
            write_digits(&mut out, (-n) as u64);
        }
    } else {
        write_digits(&mut out, n as u64);
    }
    out
}

/// Two digits at least.
pub open spec fn padded2(n: nat) -> Seq<char> {
    if n < 10 {
        seq!['0'] + digits(n)
    } else {
        digits(n)
    }
}

/// Prints an unsigned integer with two digits at least.
pub(crate) fn print_padded2(n: u64) -> (r: String)
    ensures
        r@ == padded2(n as nat),
{
    let mut out = String::new();
    if n < 10 {
        out.push('0');
    }
    write_digits(&mut out, n);
    out
}

pub open spec fn is_digit(c: char) -> bool {
    '0' <= c <= '9'
}

/// The number that a run of digits stands for.
pub open spec fn digits_value(s: Seq<char>) -> nat
    decreases s.len(),
{
    if s.len() == 0 {
        0
    } else {
        (10 * digits_value(s.drop_last()) + (s.last() as int - 48)) as nat
    }
}

pub open spec fn all_digits(s: Seq<char>) -> bool {
    s.len() > 0 && forall|i: int| 0 <= i < s.len() ==> is_digit(#[trigger] s[i])
}

/// The integer that a text stands for: an optional sign and then digits only.
pub open spec fn int_value(s: Seq<char>) -> Option<int> {
    if all_digits(s) {
        Some(digits_value(s) as int)
    } else if s.len() > 0 && s[0] == '+' && all_digits(s.drop_first()) {
        Some(digits_value(s.drop_first()) as int)
    } else if s.len() > 0 && s[0] == '-' && all_digits(s.drop_first()) {
        Some(-(digits_value(s.drop_first()) as int))
    } else {
        None
    }
}

/// Reads a run of digits; `None` where it is none or leaves `0..=limit`.
fn read_digits(v: &[char], from: usize, limit: u64) -> (r: Option<u64>)
    requires
        from <= v@.len(),
        limit <= 0x8000_0000_0000_0000,
    ensures
        ({
            let s = v@.subrange(from as int, v@.len() as int);
            match r {
                Some(n) => all_digits(s) && n == digits_value(s) && n <= limit,
                None => !all_digits(s) || digits_value(s) > limit,
            }
        }),
{
    let ghost s = v@.subrange(from as int, v@.len() as int);
    if from >= v.len() {
        return None;
    }
    let mut n: u64 = 0;
    let mut over: bool = false;
    let mut i: usize = from;
    while i < v.len()
        invariant
            from <= i <= v@.len(),
            s == v@.subrange(from as int, v@.len() as int),
            limit <= 0x8000_0000_0000_0000,
            n <= limit,
            forall|j: int| 0 <= j < i - from ==> is_digit(#[trigger] s[j]),
            over ==> digits_value(s.take(i - from)) > limit,
            !over ==> n == digits_value(s.take(i - from)),
        decreases v@.len() - i,
    {
        let c: char = v[i];
        proof {
            assert(s[i - from] == c);
            assert(s.take(i - from + 1).drop_last() =~= s.take(i - from));
            assert(s.take(i - from + 1).last() == c);
        }
        if c < '0' || c > '9' {
            proof {
                assert(!is_digit(s[i - from]));
            }
            return None;
        }
        let d: u64 = (c as u32 - 48) as u64;
        if !over {
            let wide: u128 = 10 * (n as u128) + d as u128;
            if wide > limit as u128 {
                over = true;
            } else {
                n = wide as u64;
            }
        }
        i = i + 1;
    }
    proof {
        assert(s.take(i - from) =~= s);
    }
    if over {
        None
    } else {
        Some(n)
    }
}

/// Reads an integer; `None` where the text is none or leaves `i64`.
pub(crate) fn parse_i64(text: &str) -> (r: Option<i64>)
    ensures
        match r {
            Some(n) => int_value(text@) == Some(n as int),
            None => int_value(text@) is None || !(i64::MIN <= int_value(text@)->0 <= i64::MAX),
        },
{
    let v: Vec<char> = to_chars(text);
    let ghost s = v@;
    if v.len() == 0 {
        return None;
    }
    proof {
        assert(s.subrange(0, s.len() as int) =~= s);
        assert(s.subrange(1, s.len() as int) =~= s.drop_first());
    }
    if v[0] == '-' {
        proof {
            assert(!is_digit(s[0]));
        }
        match read_digits(v.as_slice(), 1, 0x8000_0000_0000_0000) {
            Some(n) => {
                if n == 0x8000_0000_0000_0000 {
                    Some(i64::MIN)
                } else {
                    Some(-(n as i64))
                }
            },
            None => None,
        }
    } else if v[0] == '+' {
        proof {
            assert(!is_digit(s[0]));
        }
        match read_digits(v.as_slice(), 1, 0x7fff_ffff_ffff_ffff) {
            Some(n) => Some(n as i64),
            None => None,
        }
    } else {
        match read_digits(v.as_slice(), 0, 0x7fff_ffff_ffff_ffff) {
            Some(n) => Some(n as i64),
            None => None,
        }
    }
}

/// The pieces of a text between the separators.
pub open spec fn split(s: Seq<char>, sep: char) -> Seq<Seq<char>>
    decreases s.len(),
{
    if s.len() == 0 {
        seq![Seq::empty()]
    } else {
        let rest = split(s.drop_last(), sep);
        if s.last() == sep {
            rest.push(Seq::empty())
        } else {
            rest.update(rest.len() - 1, rest.last().push(s.last()))
        }
    }
}

/// There is always a last piece.
pub proof fn lemma_split_nonempty(s: Seq<char>, sep: char)
    ensures
        split(s, sep).len() > 0,
    decreases s.len(),
{
    if s.len() > 0 {
        lemma_split_nonempty(s.drop_last(), sep);
    }
}

/// The pieces of a text between the separators.
pub(crate) fn split_on(text: &str, sep: char) -> (r: Vec<String>)
    ensures
        views(r@) == split(text@, sep),
{
    let v: Vec<char> = to_chars(text);
    let ghost s = v@;
    let mut out: Vec<String> = Vec::new();
    let mut piece = String::new();
    let mut i: usize = 0;
    while i < v.len()
        invariant
            i <= v@.len(),
            s == v@,
            views(out@).push(piece@) == split(s.take(i as int), sep),
        decreases v@.len() - i,
    {
        let ghost done = views(out@);
        let ghost part = piece@;
        proof {
            assert(s.take(i as int + 1).drop_last() =~= s.take(i as int));
            lemma_split_nonempty(s.take(i as int), sep);
        }
        if v[i] == sep {
            out.push(piece);
            piece = String::new();
            proof {
                assert(views(out@) =~= done.push(part));
                assert(split(s.take(i as int + 1), sep) == done.push(part).push(Seq::empty()));
            }
        } else {
            piece.push(v[i]);
            proof {
                let rest = split(s.take(i as int), sep);
                assert(rest.last() == part);
                assert(rest.update(rest.len() - 1, part.push(s[i as int])) =~= done.push(
                    part.push(s[i as int]),
                ));
            }
        }
        i = i + 1;
    }
    proof {
        assert(s.take(i as int) =~= s);
    }
    let ghost done = views(out@);
    let ghost part = piece@;
    out.push(piece);
    proof {
        assert(views(out@) =~= done.push(part));
    }
    out
}

/// The text as `Debug` prints it, in quotes and with escapes.
pub uninterp spec fn quoted(s: Seq<char>) -> Seq<char>;

/// `Debug` for `str`; what it prints is named, not stated.
#[verifier::external_body]
pub(crate) fn print_quoted(s: &str) -> (r: String)
    ensures
        r@ == quoted(s@),
{
    format!("{:?}", s)
}

/// The views of a list of texts.
pub open spec fn views(v: Seq<String>) -> Seq<Seq<char>> {
    Seq::new(v.len(), |i: int| v[i]@)
}

/// The parts with `sep` between neighbours.
pub open spec fn joined(parts: Seq<Seq<char>>, sep: Seq<char>) -> Seq<char>
    decreases parts.len(),
{
    if parts.len() == 0 {
        Seq::empty()
    } else if parts.len() == 1 {
        parts[0]
    } else {
        joined(parts.drop_last(), sep) + sep + parts.last()
    }
}

/// `parts` joined with `sep`.
pub(crate) fn join(parts: &[String], sep: &str) -> (r: String)
    ensures
        r@ == joined(views(parts@), sep@),
{
    let mut out = String::new();
    let mut i: usize = 0;
    while i < parts.len()
        invariant
            i <= parts@.len(),
            out@ == joined(views(parts@.take(i as int)), sep@),
        decreases parts@.len() - i,
    {
        let ghost before = views(parts@.take(i as int));
        let ghost after = views(parts@.take(i as int + 1));
        if i > 0 {
            out.append(sep);
        }
        out.append(parts[i].as_str());
        proof {
            assert(after.drop_last() == before);
            assert(after.last() == parts@[i as int]@);
            if i == 0 {
                assert(before == Seq::<Seq<char>>::empty());
                assert(out@ == parts@[0]@);
            } else {
                assert(out@ == joined(before, sep@) + sep@ + parts@[i as int]@);
            }
        }
        i = i + 1;
    }
    proof {
        assert(parts@.take(i as int) == parts@);
    }
    out
}

/// Whether a text stands in a list of texts.
pub(crate) fn listed(list: &[String], s: &str) -> (r: bool)
    ensures
        r == views(list@).contains(s@),
{
    let mut i: usize = 0;
    while i < list.len()
        invariant
            i <= list@.len(),
            forall|j: int| 0 <= j < i ==> views(list@)[j] != s@,
        decreases list@.len() - i,
    {
        if same(list[i].as_str(), s) {
            proof {
                assert(views(list@)[i as int] == s@);
            }
            return true;
        }
        i = i + 1;
    }
    false
}

/// Upper case does not change upper case.
pub proof fn law_upper_is_stable(s: Seq<char>)
    ensures
        upper(upper(s)) == upper(s),
{
    assert forall|i: int| 0 <= i < s.len() implies upper_char(upper_char(s[i])) == upper_char(
        s[i],
    ) by {}
    assert(upper(upper(s)) =~= upper(s));
}

/// Whether some text of a list has the given upper case.
pub open spec fn has_key(v: Seq<Seq<char>>, key: Seq<char>) -> bool {
    exists|i: int| 0 <= i < v.len() && upper(#[trigger] v[i]) == key
}

/// Whether some text of a list has the given upper case.
pub(crate) fn holds_key(v: &[String], key: &str) -> (r: bool)
    ensures
        r == has_key(views(v@), key@),
{
    let mut i: usize = 0;
    while i < v.len()
        invariant
            i <= v@.len(),
            forall|j: int| 0 <= j < i ==> upper(#[trigger] views(v@)[j]) != key@,
        decreases v@.len() - i,
    {
        let up = v[i].as_str().to_ascii_uppercase();
        if same(up.as_str(), key) {
            proof {
                assert(upper(views(v@)[i as int]) == key@);
            }
            return true;
        }
        i = i + 1;
    }
    false
}

/// A text put into an ordered list: before the first larger one from the end.
pub open spec fn put_in_order(v: Seq<Seq<char>>, x: Seq<char>) -> Seq<Seq<char>>
    decreases v.len(),
{
    if v.len() == 0 {
        seq![x]
    } else if text_lt(x, v.last()) {
        put_in_order(v.drop_last(), x).push(v.last())
    } else {
        v.push(x)
    }
}

/// The texts in order.
pub open spec fn in_text_order(v: Seq<Seq<char>>) -> Seq<Seq<char>>
    decreases v.len(),
{
    if v.len() == 0 {
        Seq::empty()
    } else {
        put_in_order(in_text_order(v.drop_last()), v.last())
    }
}

proof fn lemma_put_in_order(v: Seq<Seq<char>>, x: Seq<char>, i: int)
    requires
        0 <= i <= v.len(),
        forall|j: int| i <= j < v.len() ==> text_lt(x, #[trigger] v[j]),
        i > 0 ==> !text_lt(x, v[i - 1]),
    ensures
        put_in_order(v, x) == v.insert(i, x),
    decreases v.len(),
{
    if i < v.len() {
        let d = v.drop_last();
        assert forall|j: int| i <= j < d.len() implies text_lt(x, #[trigger] d[j]) by {
            assert(d[j] == v[j]);
        }
        assert(text_lt(x, v[v.len() - 1]));
        lemma_put_in_order(d, x, i);
        assert(d.insert(i, x).push(v.last()) =~= v.insert(i, x));
    } else if v.len() == 0 {
        assert(v.insert(0, x) =~= seq![x]);
    } else {
        assert(v.insert(i, x) =~= v.push(x));
    }
}

/// Puts a text into an ordered list.
pub(crate) fn insert_in_order(v: &mut Vec<String>, x: String)
    ensures
        views(final(v)@) == put_in_order(views(old(v)@), x@),
{
    let ghost all = views(v@);
    let mut i: usize = v.len();
    while i > 0 && before(x.as_str(), v[i - 1].as_str())
        invariant
            i <= v@.len(),
            v@ == old(v)@,
            all == views(v@),
            forall|j: int| i <= j < all.len() ==> text_lt(x@, #[trigger] all[j]),
        decreases i,
    {
        proof {
            assert(all[i - 1] == v@[i - 1]@);
        }
        i = i - 1;
    }
    let ghost xv = x@;
    proof {
        if i > 0 {
            assert(all[i - 1] == v@[i - 1]@);
        }
        lemma_put_in_order(all, xv, i as int);
    }
    v.insert(i, x);
    proof {
        assert(views(v@) =~= all.insert(i as int, xv));
    }
}

/// The texts in order.
pub(crate) fn sort_texts(v: &[String]) -> (r: Vec<String>)
    ensures
        views(r@) == in_text_order(views(v@)),
{
    let ghost all = views(v@);
    let mut out: Vec<String> = Vec::new();
    let mut i: usize = 0;
    proof {
        assert(views(out@) =~= in_text_order(all.take(0)));
    }
    while i < v.len()
        invariant
            i <= v@.len(),
            all == views(v@),
            views(out@) == in_text_order(all.take(i as int)),
        decreases v@.len() - i,
    {
        proof {
            assert(all.take(i as int + 1).drop_last() =~= all.take(i as int));
            assert(all[i as int] == v@[i as int]@);
        }
        insert_in_order(&mut out, own(v[i].as_str()));
        i = i + 1;
    }
    proof {
        assert(all.take(i as int) =~= all);
    }
    out
}

/// Ordering texts keeps them, each as often as it was there.
pub proof fn law_ordering_keeps_the_texts(v: Seq<Seq<char>>)
    ensures
        in_text_order(v).to_multiset() == v.to_multiset(),
    decreases v.len(),
{
    broadcast use vstd::seq_lib::group_to_multiset_ensures;

    if v.len() > 0 {
        let d = v.drop_last();
        law_ordering_keeps_the_texts(d);
        lemma_put_multiset(in_text_order(d), v.last());
        assert(d.push(v.last()) =~= v);
    } else {
        assert(in_text_order(v) =~= v);
    }
}

proof fn lemma_put_multiset(v: Seq<Seq<char>>, x: Seq<char>)
    ensures
        put_in_order(v, x).to_multiset() == v.to_multiset().insert(x),
    decreases v.len(),
{
    broadcast use vstd::seq_lib::group_to_multiset_ensures;

    if v.len() == 0 {
        assert(seq![x] =~= v.push(x));
    } else if text_lt(x, v.last()) {
        let d = v.drop_last();
        lemma_put_multiset(d, x);
        assert(d.push(v.last()) =~= v);
        assert(d.to_multiset().insert(x).insert(v.last()) =~= d.to_multiset().insert(
            v.last(),
        ).insert(x));
    }
}

/// A number of blanks.
pub open spec fn blanks(n: int) -> Seq<char> {
    Seq::new(if n < 0 { 0 } else { n as nat }, |i: int| ' ')
}

/// A text filled up on the right.
pub open spec fn left_in(s: Seq<char>, width: int) -> Seq<char> {
    s + blanks(width - s.len())
}

/// A text filled up on the left.
pub open spec fn right_in(s: Seq<char>, width: int) -> Seq<char> {
    blanks(width - s.len()) + s
}

fn write_blanks(n: usize) -> (r: String)
    ensures
        r@ == blanks(n as int),
{
    let mut out = String::new();
    let mut i: usize = 0;
    proof {
        assert(out@ =~= blanks(0));
    }
    while i < n
        invariant
            i <= n,
            out@ == blanks(i as int),
        decreases n - i,
    {
        out.push(' ');
        proof {
            assert(blanks(i as int).push(' ') =~= blanks(i as int + 1));
        }
        i = i + 1;
    }
    out
}

/// Fills a text up on the right.
pub(crate) fn pad_right(s: &str, width: usize) -> (r: String)
    ensures
        r@ == left_in(s@, width as int),
{
    let n: usize = to_chars(s).len();
    let mut out = own(s);
    if n < width {
        out.append(write_blanks(width - n).as_str());
    } else {
        proof {
            assert(s@ + blanks(width - n) =~= s@);
        }
    }
    out
}

/// Fills a text up on the left.
pub(crate) fn pad_left(s: &str, width: usize) -> (r: String)
    ensures
        r@ == right_in(s@, width as int),
{
    let n: usize = to_chars(s).len();
    if n < width {
        let mut out = write_blanks(width - n);
        out.append(s);
        out
    } else {
        proof {
            assert(blanks(width - n) + s@ =~= s@);
        }
        own(s)
    }
}

/// Two texts are equal or ordered one way.
pub proof fn lemma_text_total(a: Seq<char>, b: Seq<char>)
    ensures
        a == b || text_lt(a, b) || text_lt(b, a),
    decreases a.len(),
{
    if a.len() > 0 && b.len() > 0 && a[0] == b[0] {
        lemma_text_total(a.drop_first(), b.drop_first());
        if a.drop_first() == b.drop_first() {
            assert(a =~= seq![a[0]] + a.drop_first());
            assert(b =~= seq![b[0]] + b.drop_first());
        }
    } else if a.len() == 0 && b.len() == 0 {
        assert(a =~= b);
    }
}

/// Text order carries over.
pub proof fn lemma_text_chain(a: Seq<char>, b: Seq<char>, c: Seq<char>)
    requires
        text_lt(a, b),
        text_lt(b, c),
    ensures
        text_lt(a, c),
    decreases a.len(),
{
    if a.len() > 0 && a[0] == b[0] && b[0] == c[0] {
        lemma_text_chain(a.drop_first(), b.drop_first(), c.drop_first());
    }
}

/// No text is before itself.
pub proof fn lemma_text_strict(a: Seq<char>)
    ensures
        !text_lt(a, a),
    decreases a.len(),
{
    if a.len() > 0 {
        lemma_text_strict(a.drop_first());
    }
}

/// Whether texts stand in strictly rising order.
pub open spec fn texts_rise(v: Seq<Seq<char>>) -> bool {
    forall|i: int, j: int| 0 <= i < j < v.len() ==> text_lt(#[trigger] v[i], #[trigger] v[j])
}

/// Two rising lists of the same texts are one.
pub proof fn lemma_rising_unique(a: Seq<Seq<char>>, b: Seq<Seq<char>>)
    requires
        texts_rise(a),
        texts_rise(b),
        forall|x: Seq<char>| a.contains(x) <==> b.contains(x),
    ensures
        a == b,
    decreases a.len(),
{
    if a.len() == 0 {
        if b.len() > 0 {
            assert(b.contains(b[0]));
        }
        assert(a =~= b);
    } else {
        assert(a.contains(a.last()));
        assert(b.len() > 0);
        let x = a.last();
        let y = b.last();
        assert(b.contains(y));
        let i = choose|i: int| 0 <= i < a.len() && a[i] == y;
        let j = choose|j: int| 0 <= j < b.len() && b[j] == x;
        if x != y {
            assert(text_lt(a[i], a[a.len() - 1]));
            assert(text_lt(b[j], b[b.len() - 1]));
            lemma_text_chain(x, y, x);
            lemma_text_strict(x);
        }
        let c = a.drop_last();
        let d = b.drop_last();
        assert forall|z: Seq<char>| c.contains(z) <==> d.contains(z) by {
            lemma_text_strict(x);
            if c.contains(z) {
                let k = choose|k: int| 0 <= k < c.len() && c[k] == z;
                assert(a[k] == z);
                assert(a.contains(z));
                assert(text_lt(a[k], a[a.len() - 1]));
                let m = choose|m: int| 0 <= m < b.len() && b[m] == z;
                assert(d[m] == z);
            }
            if d.contains(z) {
                let k = choose|k: int| 0 <= k < d.len() && d[k] == z;
                assert(b[k] == z);
                assert(b.contains(z));
                assert(text_lt(b[k], b[b.len() - 1]));
                let m = choose|m: int| 0 <= m < a.len() && a[m] == z;
                assert(c[m] == z);
            }
        }
        lemma_rising_unique(c, d);
        assert(a =~= c.push(x));
        assert(b =~= d.push(y));
    }
}

/// Putting a new text into a rising list keeps it rising and adds that text alone.
pub proof fn lemma_put_keeps_rising(v: Seq<Seq<char>>, x: Seq<char>)
    requires
        texts_rise(v),
        !v.contains(x),
    ensures
        texts_rise(put_in_order(v, x)),
        forall|z: Seq<char>| #[trigger]
            put_in_order(v, x).contains(z) <==> v.contains(z) || z == x,
        put_in_order(v, x).len() == v.len() + 1,
    decreases v.len(),
{
    let r = put_in_order(v, x);
    if v.len() == 0 {
        assert(r[0] == x);
    } else if text_lt(x, v.last()) {
        let d = v.drop_last();
        assert forall|z: Seq<char>| d.contains(z) implies v.contains(z) by {
            let k = choose|k: int| 0 <= k < d.len() && d[k] == z;
            assert(v[k] == z);
        }
        lemma_put_keeps_rising(d, x);
        let p = put_in_order(d, x);
        assert(r == p.push(v.last()));
        assert forall|i: int, j: int| 0 <= i < j < r.len() implies text_lt(
            #[trigger] r[i],
            #[trigger] r[j],
        ) by {
            if j < p.len() {
                assert(text_lt(p[i], p[j]));
            } else {
                assert(p.contains(p[i]));
                if p[i] != x {
                    assert(d.contains(p[i]));
                    let k = choose|k: int| 0 <= k < d.len() && d[k] == p[i];
                    assert(text_lt(v[k], v[v.len() - 1]));
                }
            }
        }
        assert forall|z: Seq<char>| r.contains(z) <==> v.contains(z) || z == x by {
            if r.contains(z) {
                let k = choose|k: int| 0 <= k < r.len() && r[k] == z;
                if k < p.len() {
                    assert(p[k] == z);
                    assert(p.contains(z));
                } else {
                    assert(v[v.len() - 1] == z);
                }
            }
            if v.contains(z) || z == x {
                if z == v.last() {
                    assert(r[p.len() as int] == z);
                } else {
                    if v.contains(z) {
                        let k = choose|k: int| 0 <= k < v.len() && v[k] == z;
                        assert(d[k] == z);
                    }
                    assert(p.contains(z));
                    let k = choose|k: int| 0 <= k < p.len() && p[k] == z;
                    assert(r[k] == z);
                }
            }
        }
    } else {
        assert(v.contains(v.last()));
        lemma_text_total(v.last(), x);
        assert(r == v.push(x));
        assert forall|i: int, j: int| 0 <= i < j < r.len() implies text_lt(
            #[trigger] r[i],
            #[trigger] r[j],
        ) by {
            if j == v.len() && i < v.len() - 1 {
                assert(text_lt(v[i], v[v.len() - 1]));
                lemma_text_chain(v[i], v.last(), x);
            }
        }
        assert forall|z: Seq<char>| r.contains(z) <==> v.contains(z) || z == x by {
            if r.contains(z) {
                let k = choose|k: int| 0 <= k < r.len() && r[k] == z;
                if k < v.len() {
                    assert(v[k] == z);
                }
            }
            if v.contains(z) {
                let k = choose|k: int| 0 <= k < v.len() && v[k] == z;
                assert(r[k] == z);
            }
            if z == x {
                assert(r[v.len() as int] == z);
            }
        }
    }
}

/// `str::trim_start`: the text without the white space at its start, which is
/// Unicode's `White_Space`.
#[verifier::external_body]
pub(crate) fn trim_start(s: &str) -> (r: &str)
    ensures
        r@ == trimmed_start(s@),
{
    s.trim_start()
}

/// The words of a text: its longest runs of characters that are no white space,
/// in order.
#[verifier::opaque]
pub open spec fn words_of(s: Seq<char>) -> Seq<Seq<char>>
    decreases s.len(),
{
    if s.len() == 0 {
        Seq::empty()
    } else {
        let n = s.len() as int;
        let before = words_of(s.drop_last());
        if is_white(s[n - 1]) {
            before
        } else if n == 1 || is_white(s[n - 2]) {
            before.push(seq![s[n - 1]])
        } else {
            before.drop_last().push(before.last().push(s[n - 1]))
        }
    }
}

/// `str::split_whitespace`: the words between white space, which is Unicode's
/// `White_Space`.
#[verifier::external_body]
pub(crate) fn split_words(s: &str) -> (r: Vec<String>)
    ensures
        views(r@) == words_of(s@),
{
    s.split_whitespace().map(String::from).collect()
}

/// The lines of a text: pieces between line breaks, each without a carriage
/// return at its end; a break at the very end adds none.
pub open spec fn lines_in(s: Seq<char>) -> Seq<Seq<char>> {
    let p = split(s, '\n');
    let q = if p.last().len() == 0 {
        p.drop_last()
    } else {
        p
    };
    Seq::new(
        q.len(),
        |i: int|
            if i < p.len() - 1 {
                without_ending(q[i], "\r"@)
            } else {
                q[i]
            },
    )
}

/// The lines of a text.
pub(crate) fn split_lines(s: &str) -> (r: Vec<String>)
    ensures
        views(r@) == lines_in(s@),
{
    let mut p: Vec<String> = split_on(s, '\n');
    let ghost all = split(s@, '\n');
    proof {
        lemma_split_nonempty(s@, '\n');
        assert(views(p@).len() == p@.len());
        assert(views(p@).last() == p@.last()@);
    }
    let n: usize = p.len();
    let mut out: Vec<String> = Vec::new();
    let last_empty: bool = p[n - 1].as_str().is_empty();
    let count: usize = if last_empty {
        n - 1
    } else {
        n
    };
    let mut i: usize = 0;
    while i < count
        invariant
            i <= count <= n,
            n == p@.len(),
            all == views(p@),
            out@.len() == i,
            forall|j: int|
                0 <= j < i ==> (#[trigger] out@[j])@ == (if j < n - 1 {
                    without_ending(all[j], "\r"@)
                } else {
                    all[j]
                }),
        decreases count - i,
    {
        proof {
            assert(all[i as int] == p@[i as int]@);
        }
        if i < n - 1 {
            out.push(own(strip_ending(p[i].as_str(), "\r")));
        } else {
            out.push(own(p[i].as_str()));
        }
        i = i + 1;
    }
    proof {
        assert(views(out@) =~= lines_in(s@));
    }
    out
}

/// Puts all texts of one list behind another.
pub(crate) fn extend_texts(into: &mut Vec<String>, from: &[String])
    ensures
        views(final(into)@) == views(old(into)@) + views(from@),
{
    let ghost start = views(into@);
    let ghost more = views(from@);
    let mut i: usize = 0;
    proof {
        assert(start + more.take(0) =~= start);
    }
    while i < from.len()
        invariant
            i <= from@.len(),
            more == views(from@),
            views(into@) == start + more.take(i as int),
        decreases from@.len() - i,
    {
        let ghost before = views(into@);
        into.push(own(from[i].as_str()));
        proof {
            assert(views(into@) =~= before.push(more[i as int]));
            assert(start + more.take(i as int + 1) =~= (start + more.take(i as int)).push(
                more[i as int],
            ));
        }
        i = i + 1;
    }
    proof {
        assert(more.take(i as int) =~= more);
    }
}

/// Puts a text behind a list.
pub(crate) fn add_text(into: &mut Vec<String>, t: String)
    ensures
        views(final(into)@) == views(old(into)@).push(t@),
{
    let ghost before = views(into@);
    let ghost tv = t@;
    into.push(t);
    proof {
        assert(views(into@) =~= before.push(tv));
    }
}

/// The first `n` characters of a text.
pub open spec fn shortened(s: Seq<char>, n: int) -> Seq<char> {
    if s.len() <= n {
        s
    } else {
        s.take(n)
    }
}

pub(crate) fn cut_text(s: &str, n: usize) -> (r: String)
    ensures
        r@ == shortened(s@, n as int),
{
    if s.unicode_len() <= n {
        return own(s);
    }
    proof {
        assert(s@.subrange(0, n as int) =~= s@.take(n as int));
    }
    own(s.substring_char(0, n))
}

} // verus!

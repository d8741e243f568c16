//! The colour of a line.
use super::LineTone;
use crate::dec::{dec, decimal_parse, Dec};
use crate::errorlog::first_at;
use crate::text::{
    contains, from_chars, has, is_digit, split_words, stands_at, to_chars, trim_start,
    trimmed_start, views, words_of,
};
use vstd::prelude::*;

verus! {

/// How many characters from an index on are digits or points.
pub open spec fn number_run(s: Seq<char>, i: int) -> int
    decreases s.len() - i,
{
    if 0 <= i < s.len() && (is_digit(s[i]) || s[i] == '.') {
        1 + number_run(s, i + 1)
    } else {
        0
    }
}

/// The number that a text starts with, white space before it aside.
pub open spec fn leading_number(raw: Seq<char>) -> Option<Dec> {
    let s = trimmed_start(raw);
    if s.len() == 0 {
        None
    } else {
        let from = if s[0] == '+' || s[0] == '-' {
            1int
        } else {
            0
        };
        let n = number_run(s, from);
        if n == 0 {
            None
        } else {
            decimal_parse(
                s.subrange(
                    if s[0] == '+' {
                        1
                    } else {
                        0
                    },
                    from + n,
                ),
            )
        }
    }
}

fn parse_leading_decimal(raw: &str) -> (r: Option<Dec>)
    ensures
        r == leading_number(raw@),
{
    let t: &str = trim_start(raw);
    let v: Vec<char> = to_chars(t);
    if v.len() == 0 {
        return None;
    }
    let from: usize = if v[0] == '+' || v[0] == '-' {
        1
    } else {
        0
    };
    let mut end: usize = from;
    while end < v.len() && (('0' <= v[end] && v[end] <= '9') || v[end] == '.')
        invariant
            from <= end <= v@.len(),
            v@ == t@,
            number_run(t@, from as int) == (end - from) + number_run(t@, end as int),
        decreases v@.len() - end,
    {
        end = end + 1;
    }
    if end == from {
        return None;
    }
    let start: usize = if v[0] == '+' {
        1
    } else {
        0
    };
    let mut part: Vec<char> = Vec::new();
    let mut i: usize = start;
    while i < end
        invariant
            start <= i <= end <= v@.len(),
            part@ == v@.subrange(start as int, i as int),
        decreases end - i,
    {
        part.push(v[i]);
        proof {
            assert(v@.subrange(start as int, i + 1) =~= v@.subrange(start as int, i as int).push(
                v@[i as int],
            ));
        }
        i = i + 1;
    }
    Dec::parse(from_chars(part.as_slice()).as_str())
}

/// The number behind the first place of a mark.
pub open spec fn number_behind(line: Seq<char>, mark: Seq<char>) -> Option<Dec> {
    match first_at(line, mark, 0) {
        Some(i) => leading_number(line.skip(i + mark.len())),
        None => None,
    }
}

/// Where a mark first stands.
fn find_mark(v: &[char], mark: &[char]) -> (r: Option<usize>)
    requires
        mark@.len() > 0,
    ensures
        match r {
            Some(i) => first_at(v@, mark@, 0) == Some(i as int) && i + mark@.len() <= v@.len(),
            None => first_at(v@, mark@, 0) is None,
        },
{
    let len: usize = v.len();
    let mut i: usize = 0;
    while i < v.len() && v.len() - i >= mark.len()
        invariant
            i <= v@.len(),
            mark@.len() > 0,
            len == v@.len(),
            first_at(v@, mark@, 0) == first_at(v@, mark@, i as int),
        decreases v@.len() - i,
    {
        let mut j: usize = 0;
        while j < mark.len() && v[i + j] == mark[j]
            invariant
                i + mark@.len() <= len,
                len == v@.len(),
                j <= mark@.len(),
                forall|k: int| 0 <= k < j ==> v@[i + k] == mark@[k],
            decreases mark@.len() - j,
        {
            j = j + 1;
        }
        if j == mark.len() {
            proof {
                assert(v@.subrange(i as int, i + mark@.len()) =~= mark@);
            }
            return Some(i);
        }
        proof {
            if stands_at(v@, mark@, i as int) {
                assert(v@.subrange(i as int, i + mark@.len())[j as int] == v@[i + j]);
            }
        }
        i = i + 1;
    }
    None
}

fn number_after(line: &str, mark: &str) -> (r: Option<Dec>)
    requires
        mark@.len() > 0,
    ensures
        r == number_behind(line@, mark@),
{
    let v: Vec<char> = to_chars(line);
    let m: Vec<char> = to_chars(mark);
    match find_mark(v.as_slice(), m.as_slice()) {
        Some(i) => {
            let len: usize = v.len();
            proof {
                assert(i + m@.len() <= len);
            }
            let start: usize = i + m.len();
            let mut rest: Vec<char> = Vec::new();
            let mut k: usize = start;
            while k < v.len()
                invariant
                    start <= k <= v@.len(),
                    rest@ == v@.subrange(start as int, k as int),
                decreases v@.len() - k,
            {
                rest.push(v[k]);
                proof {
                    assert(v@.subrange(start as int, k + 1) =~= v@.subrange(
                        start as int,
                        k as int,
                    ).push(v@[k as int]));
                }
                k = k + 1;
            }
            proof {
                assert(rest@ =~= line@.skip(start as int));
            }
            parse_leading_decimal(from_chars(rest.as_slice()).as_str())
        },
        None => None,
    }
}

/// The tone of an amount; nothing lost counts as profit.
pub open spec fn amount_tone(d: Dec) -> LineTone {
    if d.units() < 0 {
        LineTone::Loss
    } else {
        LineTone::Profit
    }
}

fn tone_of(d: Dec) -> (r: LineTone)
    ensures
        r == amount_tone(d),
{
    if d.is_neg() {
        LineTone::Loss
    } else {
        LineTone::Profit
    }
}

/// The tone of a line on how far a long is from a gain of its risk.
pub open spec fn one_r_tone_of(line: Seq<char>) -> Option<LineTone> {
    if has(line, "до 1R:"@) {
        if has(line, "пройден"@) {
            Some(LineTone::Profit)
        } else if has(line, "нет стопа"@) {
            Some(LineTone::Warn)
        } else {
            match number_behind(line, "осталось "@) {
                Some(left) => Some(
                    if !left.pos() {
                        LineTone::Profit
                    } else if left.lt(dec(50, 0)) {
                        LineTone::Warn
                    } else {
                        LineTone::Loss
                    },
                ),
                None => None,
            }
        }
    } else {
        None
    }
}

fn one_r_tone(line: &str) -> (r: Option<LineTone>)
    ensures
        r == one_r_tone_of(line@),
{
    if !contains(line, "до 1R:") {
        return None;
    }
    if contains(line, "пройден") {
        return Some(LineTone::Profit);
    }
    if contains(line, "нет стопа") {
        return Some(LineTone::Warn);
    }
    proof {
        reveal_strlit("осталось ");
    }
    let left: Dec = number_after(line, "осталось ")?;
    if !left.is_pos() {
        Some(LineTone::Profit)
    } else if left < Dec::from_int(50) {
        Some(LineTone::Warn)
    } else {
        Some(LineTone::Loss)
    }
}

/// The number of the first word with a percent sign.
pub open spec fn percent_word(words: Seq<Seq<char>>) -> Option<Dec>
    decreases words.len(),
{
    if words.len() == 0 {
        None
    } else if has(words[0], "%"@) {
        leading_number(words[0])
    } else {
        percent_word(words.drop_first())
    }
}

fn read_percent_word(line: &str) -> (r: Option<Dec>)
    ensures
        r == percent_word(words_of(line@)),
{
    let words: Vec<String> = split_words(line);
    let ghost all = words_of(line@);
    let mut i: usize = 0;
    proof {
        assert(all.skip(0) =~= all);
        assert(all.len() == words@.len());
    }
    while i < words.len()
        invariant
            i <= words@.len(),
            all == views(words@),
            all == words_of(line@),
            all.len() == words@.len(),
            percent_word(all) == percent_word(all.skip(i as int)),
        decreases words@.len() - i,
    {
        proof {
            assert(all.skip(i as int)[0] == words@[i as int]@);
            assert(all.skip(i as int).drop_first() =~= all.skip(i as int + 1));
        }
        if contains(words[i].as_str(), "%") {
            return parse_leading_decimal(words[i].as_str());
        }
        i = i + 1;
    }
    None
}

pub open spec fn opt_tone(d: Option<Dec>) -> Option<LineTone> {
    match d {
        Some(x) => Some(amount_tone(x)),
        None => None,
    }
}

/// The first of two readings.
pub open spec fn either(a: Option<Dec>, b: Option<Dec>) -> Option<Dec> {
    if a is Some {
        a
    } else {
        b
    }
}

/// The tone of a line of a frame.
pub open spec fn tone_at(line: Seq<char>, profit: Dec) -> Option<LineTone> {
    if has(line, "Прибыль счета"@) {
        Some(amount_tone(profit))
    } else if has(line, "Нереализованный PnL"@) || has(line, "ованный PnL"@) {
        opt_tone(either(number_behind(line, ":"@), leading_number(line)))
    } else if number_behind(line, "uPnL="@) is Some {
        opt_tone(number_behind(line, "uPnL="@))
    } else if number_behind(line, "нетто="@) is Some {
        opt_tone(number_behind(line, "нетто="@))
    } else if number_behind(line, "день:"@) is Some {
        opt_tone(number_behind(line, "день:"@))
    } else if one_r_tone_of(line) is Some {
        one_r_tone_of(line)
    } else if has(line, "last="@) && has(line, "%"@) {
        opt_tone(either(number_behind(line, " "@), percent_word(words_of(line))))
    } else {
        None
    }
}

/// The colour of a painted line; a frame that is printed stays plain.
pub fn line_tone(line: &str, account_profit: Dec) -> (r: Option<LineTone>)
    ensures
        r == tone_at(line@, account_profit),
{
    proof {
        reveal_strlit(":");
        reveal_strlit("uPnL=");
        reveal_strlit("нетто=");
        reveal_strlit("день:");
        reveal_strlit(" ");
    }
    if contains(line, "Прибыль счета") {
        return Some(tone_of(account_profit));
    }
    if contains(line, "Нереализованный PnL") || contains(line, "ованный PnL") {
        let d: Dec = match number_after(line, ":") {
            Some(d) => d,
            None => parse_leading_decimal(line)?,
        };
        return Some(tone_of(d));
    }
    if let Some(d) = number_after(line, "uPnL=") {
        return Some(tone_of(d));
    }
    if let Some(d) = number_after(line, "нетто=") {
        return Some(tone_of(d));
    }
    if let Some(d) = number_after(line, "день:") {
        return Some(tone_of(d));
    }
    if let Some(t) = one_r_tone(line) {
        return Some(t);
    }
    if contains(line, "last=") && contains(line, "%") {
        let d: Dec = match number_after(line, " ") {
            Some(d) => d,
            None => read_percent_word(line)?,
        };
        return Some(tone_of(d));
    }
    None
}

} // verus!

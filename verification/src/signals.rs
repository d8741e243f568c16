//! Which chime a trade sounds: a purchase, a winning close, a losing close.
use crate::config::{lowered, plain_case, to_lower};
use crate::flatten::{FlattenResult, FlattenView};
use crate::live::{ApplyView, LiveApplyResult};
use crate::models::{Decision, DecisionView};
use crate::text::{contains, from_chars, has, lower, same, to_chars, trim, trimmed};
use vstd::prelude::*;

verus! {

#[derive(Debug, Clone, Copy, PartialEq, Eq, Structural)]
pub enum TradeSignal {
    Buy,
    SellWin,
    SellLoss,
}

/// Whether Unicode counts a character beyond ASCII as a letter or a digit.
pub uninterp spec fn is_wide_word_char(c: char) -> bool;

/// Whether a character is a letter or a digit.
pub open spec fn is_word_char(c: char) -> bool {
    if (c as int) < 0x80 {
        'a' <= c <= 'z' || 'A' <= c <= 'Z' || '0' <= c <= '9'
    } else {
        is_wide_word_char(c)
    }
}

/// `char::is_alphanumeric`: of ASCII the letters and the digits. Which other
/// characters count is named, not stated.
#[verifier::external_body]
fn word_char(c: char) -> (r: bool)
    ensures
        (c as int) < 0x80 ==> r == ('a' <= c <= 'z' || 'A' <= c <= 'Z' || '0' <= c <= '9'),
        (c as int) >= 0x80 ==> r == is_wide_word_char(c),
{
    c.is_alphanumeric()
}

/// Dashes and underscores as blanks.
pub open spec fn spaced(s: Seq<char>) -> Seq<char> {
    Seq::new(
        s.len(),
        |i: int|
            if s[i] == '-' || s[i] == '_' {
                ' '
            } else {
                s[i]
            },
    )
}

fn space_out(v: &[char]) -> (r: Vec<char>)
    ensures
        r@ == spaced(v@),
{
    let mut out: Vec<char> = Vec::new();
    let mut i: usize = 0;
    while i < v.len()
        invariant
            i <= v@.len(),
            out@ == spaced(v@).take(i as int),
        decreases v@.len() - i,
    {
        let c: char = v[i];
        out.push(
            if c == '-' || c == '_' {
                ' '
            } else {
                c
            },
        );
        proof {
            assert(spaced(v@).take(i as int + 1) =~= spaced(v@).take(i as int).push(
                spaced(v@)[i as int],
            ));
        }
        i = i + 1;
    }
    proof {
        assert(spaced(v@).take(i as int) =~= spaced(v@));
    }
    out
}

/// Whether the word `tp` stands at a place.
pub open spec fn tp_at(s: Seq<char>, i: int) -> bool {
    &&& 0 <= i && i + 1 < s.len()
    &&& s[i] == 't' && s[i + 1] == 'p'
    &&& i == 0 || !is_word_char(s[i - 1])
    &&& i + 2 == s.len() || !is_word_char(s[i + 2])
}

/// Whether the word `tp` occurs.
pub open spec fn has_tp(s: Seq<char>) -> bool {
    exists|i: int| #[trigger] tp_at(s, i)
}

fn finds_tp(v: &[char]) -> (r: bool)
    ensures
        r == has_tp(v@),
{
    let mut i: usize = 0;
    while i < v.len()
        invariant
            i <= v@.len(),
            forall|j: int| 0 <= j < i ==> !#[trigger] tp_at(v@, j),
        decreases v@.len() - i,
    {
        if i + 1 < v.len() && v[i] == 't' && v[i + 1] == 'p' {
            let left: bool = i == 0 || !word_char(v[i - 1]);
            let right: bool = i + 2 == v.len() || !word_char(v[i + 2]);
            if left && right {
                proof {
                    assert(tp_at(v@, i as int));
                }
                return true;
            }
        }
        i = i + 1;
    }
    false
}

/// Whether the words of a reason speak of a win: a take-profit or a break-even.
pub open spec fn suggests_win(reason: Seq<char>) -> bool {
    let low = lowered(reason);
    let flat = spaced(low);
    has(flat, "take profit"@) || has(low, "безубыток"@) || has(low, "частичная фиксация"@) || has_tp(
        flat,
    )
}

/// Whether the words of a reason speak of a win.
pub fn reason_suggests_win(reason: &str) -> (r: bool)
    ensures
        r == suggests_win(reason@),
{
    let low = to_lower(reason);
    let v: Vec<char> = space_out(to_chars(low.as_str()).as_slice());
    let flat = from_chars(v.as_slice());
    if contains(flat.as_str(), "take profit") || contains(low.as_str(), "безубыток") || contains(
        low.as_str(),
        "частичная фиксация",
    ) {
        return true;
    }
    finds_tp(v.as_slice())
}

/// The word `tp` by itself, in either case, speaks of a win.
pub proof fn law_tp_as_a_word_suggests_a_win(reason: Seq<char>, i: int)
    requires
        plain_case(reason),
        0 <= i && i + 1 < reason.len(),
        reason[i] == 't' || reason[i] == 'T',
        reason[i + 1] == 'p' || reason[i + 1] == 'P',
        i == 0 || !is_word_char(reason[i - 1]),
        i + 2 == reason.len() || !is_word_char(reason[i + 2]),
    ensures
        suggests_win(reason),
{
    reveal(lowered);
    let flat = spaced(lowered(reason));
    assert(flat.len() == reason.len());
    assert(flat[i] == 't' && flat[i + 1] == 'p');
    assert(tp_at(flat, i));
}

/// The chime of a close.
pub open spec fn close_kind(won: Option<bool>, reason: Seq<char>) -> TradeSignal {
    let win = match won {
        Some(x) => x,
        None => suggests_win(reason),
    };
    if win {
        TradeSignal::SellWin
    } else {
        TradeSignal::SellLoss
    }
}

fn kind_of_close(won: Option<bool>, reason: &str) -> (r: TradeSignal)
    ensures
        r == close_kind(won, reason@),
{
    let win: bool = match won {
        Some(x) => x,
        None => reason_suggests_win(reason),
    };
    if win {
        TradeSignal::SellWin
    } else {
        TradeSignal::SellLoss
    }
}

/// The chime of a decision that was carried out.
pub open spec fn decision_kind(
    d: DecisionView,
    result: ApplyView,
    live: bool,
    has_position: bool,
    won: Option<bool>,
) -> Option<TradeSignal> {
    match d {
        DecisionView::Hold { .. } => None,
        DecisionView::EnterLong { .. } => if result.filled || (!live && result.error is None) {
            Some(TradeSignal::Buy)
        } else {
            None
        },
        DecisionView::ExitPosition { reason, .. } => if result.error is Some || (live
            && !has_position) {
            None
        } else {
            Some(close_kind(won, reason))
        },
        DecisionView::AmendStop { .. } => None,
        DecisionView::ReduceLong { reason, .. } => if result.error is Some || (live
            && !result.filled) {
            None
        } else {
            Some(
                close_kind(
                    if won is Some {
                        won
                    } else {
                        Some(true)
                    },
                    reason,
                ),
            )
        },
    }
}

/// The chime of a decision that was carried out.
pub fn kind_for_decision(
    decision: &Decision,
    result: &LiveApplyResult,
    live: bool,
    has_position: bool,
    won: Option<bool>,
) -> (r: Option<TradeSignal>)
    ensures
        r == decision_kind(decision@, result@, live, has_position, won),
{
    match decision {
        Decision::Hold { .. } => None,
        Decision::EnterLong { .. } => {
            if result.filled || (!live && result.error.is_none()) {
                Some(TradeSignal::Buy)
            } else {
                None
            }
        },
        Decision::ExitPosition { reason, .. } => {
            if result.error.is_some() || (live && !has_position) {
                None
            } else {
                Some(kind_of_close(won, reason.as_str()))
            }
        },
        Decision::AmendStop { .. } => None,
        Decision::ReduceLong { reason, .. } => {
            if result.error.is_some() || (live && !result.filled) {
                None
            } else {
                let outcome: Option<bool> = if won.is_some() {
                    won
                } else {
                    Some(true)
                };
                Some(kind_of_close(outcome, reason.as_str()))
            }
        },
    }
}

/// The chime of a flatten: nothing where nothing was closed.
pub open spec fn flatten_kind(result: FlattenView, won: Option<bool>) -> Option<TradeSignal> {
    if result.closed.len() == 0 {
        None
    } else if won == Some(true) {
        Some(TradeSignal::SellWin)
    } else {
        Some(TradeSignal::SellLoss)
    }
}

/// The chime of a flatten: nothing where nothing was closed.
pub fn kind_for_flatten(result: &FlattenResult, won: Option<bool>) -> (r: Option<TradeSignal>)
    ensures
        r == flatten_kind(result@, won),
{
    proof {
        assert(result@.closed.len() == result.closed@.len());
    }
    if result.closed.len() == 0 {
        return None;
    }
    match won {
        Some(true) => Some(TradeSignal::SellWin),
        _ => Some(TradeSignal::SellLoss),
    }
}

/// Whether chimes sound: by the setting where it says yes or no, else by the
/// switch.
pub open spec fn chimes_on(raw: Option<Seq<char>>, enabled: bool) -> bool {
    let t = lower(
        trimmed(
            match raw {
                Some(x) => x,
                None => ""@,
            },
        ),
    );
    if t == "0"@ || t == "false"@ || t == "off"@ || t == "no"@ {
        false
    } else if t == "1"@ || t == "true"@ || t == "on"@ || t == "yes"@ {
        true
    } else {
        enabled
    }
}

/// The switch of the chimes, and which one sounds.
#[derive(Debug, Clone, Copy)]
pub struct Chimes {
    pub enabled: bool,
}

impl Chimes {
    /// Switches the chimes on or off.
    pub fn set_enabled(&mut self, on: bool)
        ensures
            *final(self) == (Chimes { enabled: on }),
    {
        self.enabled = on;
    }

    /// Whether chimes sound, by the value of `TRADER_SIGNALS` and the switch.
    pub fn signals_enabled(&self, raw: Option<&str>) -> (r: bool)
        ensures
            r == chimes_on(
                match raw {
                    Some(t) => Some(t@),
                    None => None,
                },
                self.enabled,
            ),
    {
        let text: &str = match raw {
            Some(t) => t,
            None => "",
        };
        let low = trim(text).to_ascii_lowercase();
        let t: &str = low.as_str();
        if same(t, "0") || same(t, "false") || same(t, "off") || same(t, "no") {
            return false;
        }
        if same(t, "1") || same(t, "true") || same(t, "on") || same(t, "yes") {
            return true;
        }
        self.enabled
    }
}

/// The bytes of a number, the lowest first.
pub open spec fn le32(n: u32) -> Seq<u8> {
    seq![
        (n % 256) as u8,
        ((n / 256) % 256) as u8,
        ((n / 65_536) % 256) as u8,
        (n / 16_777_216) as u8,
    ]
}

pub open spec fn le16(n: u16) -> Seq<u8> {
    seq![(n % 256) as u8, (n / 256) as u8]
}

fn push32(out: &mut Vec<u8>, n: u32)
    ensures
        final(out)@ == old(out)@ + le32(n),
{
    let ghost before = out@;
    out.push((n % 256) as u8);
    out.push(((n / 256) % 256) as u8);
    out.push(((n / 65_536) % 256) as u8);
    out.push((n / 16_777_216) as u8);
    proof {
        assert(out@ =~= before + le32(n));
    }
}

fn push16(out: &mut Vec<u8>, n: u16)
    ensures
        final(out)@ == old(out)@ + le16(n),
{
    let ghost before = out@;
    out.push((n % 256) as u8);
    out.push((n / 256) as u8);
    proof {
        assert(out@ =~= before + le16(n));
    }
}

/// The bit pattern of a sample.
pub open spec fn sample_bits(s: i16) -> u16 {
    if s >= 0 {
        s as u16
    } else {
        (s + 65_536) as u16
    }
}

/// The bytes of the first `n` samples.
pub open spec fn sample_bytes(pcm: Seq<i16>, n: int) -> Seq<u8>
    decreases n,
{
    if n <= 0 {
        Seq::empty()
    } else {
        sample_bytes(pcm, n - 1) + le16(sample_bits(pcm[n - 1]))
    }
}

/// A sound file: one channel of sixteen-bit samples.
pub open spec fn wav_of(pcm: Seq<i16>, sample_rate: u32) -> Seq<u8> {
    let data = 2 * pcm.len();
    seq![0x52u8, 0x49, 0x46, 0x46] + le32((36 + data) as u32) + seq![0x57u8, 0x41, 0x56, 0x45] + seq![
        0x66u8,
        0x6d,
        0x74,
        0x20,
    ] + le32(16) + le16(1) + le16(1) + le32(sample_rate) + le32((2 * sample_rate) as u32) + le16(2) + le16(
        16,
    ) + seq![0x64u8, 0x61, 0x74, 0x61] + le32(data as u32) + sample_bytes(pcm, pcm.len() as int)
}

fn push_tag(out: &mut Vec<u8>, a: u8, b: u8, c: u8, d: u8)
    ensures
        final(out)@ == old(out)@ + seq![a, b, c, d],
{
    let ghost before = out@;
    out.push(a);
    out.push(b);
    out.push(c);
    out.push(d);
    proof {
        assert(out@ =~= before + seq![a, b, c, d]);
    }
}

/// The bytes of a sound file.
pub fn wav_bytes(pcm: &[i16], sample_rate: u32) -> (r: Vec<u8>)
    requires
        36 + 2 * pcm@.len() <= u32::MAX,
        2 * sample_rate <= u32::MAX,
    ensures
        r@ == wav_of(pcm@, sample_rate),
{
    let data: u32 = 2 * (pcm.len() as u32);
    let mut out: Vec<u8> = Vec::new();
    proof {
        assert(out@ + seq![0x52u8, 0x49u8, 0x46u8, 0x46u8] =~= seq![0x52u8, 0x49u8, 0x46u8, 0x46u8]);
    }
    push_tag(&mut out, 0x52, 0x49, 0x46, 0x46);
    push32(&mut out, 36 + data);
    push_tag(&mut out, 0x57, 0x41, 0x56, 0x45);
    push_tag(&mut out, 0x66, 0x6d, 0x74, 0x20);
    push32(&mut out, 16);
    push16(&mut out, 1);
    push16(&mut out, 1);
    push32(&mut out, sample_rate);
    push32(&mut out, 2 * sample_rate);
    push16(&mut out, 2);
    push16(&mut out, 16);
    push_tag(&mut out, 0x64, 0x61, 0x74, 0x61);
    push32(&mut out, data);
    let ghost head = out@;
    let mut i: usize = 0;
    proof {
        assert(out@ =~= head + sample_bytes(pcm@, 0));
    }
    while i < pcm.len()
        invariant
            i <= pcm@.len(),
            out@ == head + sample_bytes(pcm@, i as int),
        decreases pcm@.len() - i,
    {
        let s: i16 = pcm[i];
        let bits: u16 = if s >= 0 {
            s as u16
        } else {
            (s as i32 + 65_536) as u16
        };
        push16(&mut out, bits);
        proof {
            assert(out@ =~= head + (sample_bytes(pcm@, i as int) + le16(sample_bits(s))));
        }
        i = i + 1;
    }
    out
}

/// Which decisions are heard: a hold and a moved stop never; an entry that was
/// filled, or is on paper and met no error, as a purchase; a close without an error
/// as a sale, won or lost as it was.
pub proof fn law_chimes(d: DecisionView, r: ApplyView, live: bool, has_position: bool, won: Option<bool>)
    ensures
        d is Hold || d is AmendStop ==> decision_kind(d, r, live, has_position, won) is None,
        d is EnterLong ==> (decision_kind(d, r, live, has_position, won) == Some(TradeSignal::Buy)
            <==> r.filled || !live && r.error is None),
        d is EnterLong && !(r.filled || !live && r.error is None) ==> decision_kind(
            d,
            r,
            live,
            has_position,
            won,
        ) is None,
        d is ExitPosition && (r.error is Some || live && !has_position) ==> decision_kind(
            d,
            r,
            live,
            has_position,
            won,
        ) is None,
        d is ExitPosition && r.error is None && (!live || has_position) && won is Some ==> decision_kind(
            d,
            r,
            live,
            has_position,
            won,
        ) == Some(
            if won->0 {
                TradeSignal::SellWin
            } else {
                TradeSignal::SellLoss
            },
        ),
{
}

/// A flatten is heard exactly where it closed something, as a win only where it
/// won.
pub proof fn law_flatten_chimes(r: FlattenView, won: Option<bool>)
    ensures
        flatten_kind(r, won) is None <==> r.closed.len() == 0,
        r.closed.len() > 0 ==> (flatten_kind(r, won) == Some(TradeSignal::SellWin) <==> won == Some(true)),
        r.closed.len() > 0 && won != Some(true) ==> flatten_kind(r, won) == Some(TradeSignal::SellLoss),
{
}

} // verus!

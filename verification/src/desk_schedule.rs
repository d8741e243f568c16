//! Desk schedule router: which strategy may open new longs at which UTC hour.
//!
//! The schedule gates new entries only. Open positions stay on the strategy
//! that opened them.
use crate::sessions::{
    default_entry_windows, default_windows, hour_at, hour_in_windows, hour_open, in_window, utc_hour,
    HourWindow,
};
use crate::text::same;
use vstd::prelude::*;

verus! {

/// The strategy that may open new longs.
#[derive(Debug, Clone, Copy, PartialEq, Eq, Structural)]
pub enum DeskSid {
    Scalp,
    Trend,
    Continuation,
}

impl DeskSid {
    /// The strategy's number.
    pub open spec fn number(self) -> i32 {
        match self {
            DeskSid::Scalp => 2,
            DeskSid::Trend => 3,
            DeskSid::Continuation => 4,
        }
    }

    pub fn as_i32(self) -> (r: i32)
        ensures
            r == self.number(),
    {
        match self {
            DeskSid::Scalp => 2,
            DeskSid::Trend => 3,
            DeskSid::Continuation => 4,
        }
    }
}

/// Whether a switch is set to one of the words for "on".
pub open spec fn switched_on(value: Option<Seq<char>>) -> bool {
    match value {
        Some(v) => v == "1"@ || v == "true"@ || v == "TRUE"@ || v == "yes"@ || v == "YES"@,
        None => false,
    }
}

/// Reads a switch.
pub fn switch_enabled(value: Option<&str>) -> (r: bool)
    ensures
        r == switched_on(
            match value {
                Some(v) => Some(v@),
                None => None,
            },
        ),
{
    match value {
        Some(v) => same(v, "1") || same(v, "true") || same(v, "TRUE") || same(v, "yes") || same(
            v,
            "YES",
        ),
        None => false,
    }
}

/// Whether the value of `DESK_SCHEDULE` switches the schedule on.
pub fn desk_schedule_enabled(value: Option<&str>) -> (r: bool)
    ensures
        r == switched_on(
            match value {
                Some(v) => Some(v@),
                None => None,
            },
        ),
{
    switch_enabled(value)
}

/// Hours before and around the daily close.
pub open spec fn s3_arm_window() -> HourWindow {
    (22u8, 24u8)
}

pub fn hour_in_s4_open(hour: u8) -> (r: bool)
    ensures
        r == hour_open(hour as int, default_windows()),
        r == (hour < 2 || 7 <= hour < 10 || 13 <= hour < 16),
{
    let w: Vec<HourWindow> = default_entry_windows();
    let r: bool = hour_in_windows(hour as u32, w.as_slice());
    proof {
        lemma_s4_hours(hour as int);
    }
    r
}

proof fn lemma_s4_hours(hour: int)
    requires
        hour >= 0,
    ensures
        hour_open(hour, default_windows()) <==> (hour < 2 || 7 <= hour < 10 || 13 <= hour < 16),
{
    let d = default_windows();
    assert(d[0] == (0u8, 2u8) && d[1] == (7u8, 10u8) && d[2] == (13u8, 16u8));
    if hour < 2 {
        assert(in_window(hour, d[0]));
    }
    if 7 <= hour < 10 {
        assert(in_window(hour, d[1]));
    }
    if 13 <= hour < 16 {
        assert(in_window(hour, d[2]));
    }
}

pub fn hour_in_s3_arm(hour: u8) -> (r: bool)
    ensures
        r == in_window(hour as int, s3_arm_window()),
        r == (22 <= hour < 24),
{
    22 <= hour && hour < 24
}

/// Who owns an hour: the continuation windows win, then the hours around the
/// daily close, and the scalp fills the gaps.
pub open spec fn owner(hour: int) -> DeskSid {
    let h = hour % 24;
    if hour_open(h, default_windows()) {
        DeskSid::Continuation
    } else if in_window(h, s3_arm_window()) {
        DeskSid::Trend
    } else {
        DeskSid::Scalp
    }
}

/// Owner for new opens at a UTC hour.
pub fn desk_owner(utc_hour: u8) -> (r: DeskSid)
    ensures
        r == owner(utc_hour as int),
{
    let h: u8 = utc_hour % 24;
    if hour_in_s4_open(h) {
        DeskSid::Continuation
    } else if hour_in_s3_arm(h) {
        DeskSid::Trend
    } else {
        DeskSid::Scalp
    }
}

/// Owner for new opens at an instant.
pub fn desk_owner_at(now: i64) -> (r: DeskSid)
    ensures
        r == owner(hour_at(now as int)),
{
    desk_owner(utc_hour(now))
}

/// Whether a strategy may enter: always without the schedule, else only its owner.
pub open spec fn entry_allowed(enabled: bool, strategy_id: i32, hour: int) -> bool {
    !enabled || owner(hour).number() == strategy_id
}

/// When the schedule is off, always allow. When on, only the owner may enter.
pub fn may_enter_long(enabled: bool, strategy_id: i32, utc_hour: u8) -> (r: bool)
    ensures
        r == entry_allowed(enabled, strategy_id, utc_hour as int),
{
    if !enabled {
        return true;
    }
    desk_owner(utc_hour).as_i32() == strategy_id
}

pub fn may_enter_long_at(enabled: bool, strategy_id: i32, now: i64) -> (r: bool)
    ensures
        r == entry_allowed(enabled, strategy_id, hour_at(now as int)),
{
    may_enter_long(enabled, strategy_id, utc_hour(now))
}

/// Hour and owner for each hour of the day.
pub fn hour_owner_table() -> (r: Vec<(u8, DeskSid)>)
    ensures
        r@ == Seq::new(24, |h: int| (h as u8, owner(h))),
{
    let mut out: Vec<(u8, DeskSid)> = Vec::new();
    let mut h: u8 = 0;
    while h < 24
        invariant
            h <= 24,
            out@ == Seq::new(h as nat, |k: int| (k as u8, owner(k))),
        decreases 24 - h,
    {
        out.push((h, desk_owner(h)));
        proof {
            assert(out@ =~= Seq::new((h + 1) as nat, |k: int| (k as u8, owner(k))));
        }
        h = h + 1;
    }
    out
}

/// The day is covered: the owner of every hour is spelled out, and with the
/// schedule on exactly one of the three strategies may enter.
pub proof fn law_every_hour_has_one_owner(hour: int, strategy_id: i32)
    requires
        0 <= hour < 24,
    ensures
        owner(hour) == DeskSid::Continuation <==> (hour < 2 || 7 <= hour < 10 || 13 <= hour < 16),
        owner(hour) == DeskSid::Trend <==> hour >= 22,
        entry_allowed(true, strategy_id, hour) <==> strategy_id == owner(hour).number(),
{
    lemma_s4_hours(hour);
    assert(hour % 24 == hour);
}

/// The schedule is the same every day.
pub proof fn law_schedule_repeats_daily(hour: int, days: int)
    requires
        hour >= 0,
        days >= 0,
    ensures
        owner(hour + 24 * days) == owner(hour),
{
    assert((hour + 24 * days) % 24 == hour % 24);
}

} // verus!

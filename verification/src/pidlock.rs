//! One live session at a time: two would buy twice.
use crate::models::opt_view;
use crate::text::{int_text, int_value, own, parse_i64, print_u64, trim, trimmed};
use vstd::prelude::*;
use vstd::string::StringExecFns;

verus! {

/// A lock that is held: the path of its file.
#[derive(Debug)]
pub struct LiveLock {
    pub path: String,
}

/// The process that a lock file names; zero where it names none.
pub open spec fn holder_of(text: Seq<char>) -> int {
    match int_value(trimmed(text)) {
        Some(n) => if 0 <= n <= u32::MAX {
            n
        } else {
            0
        },
        None => 0,
    }
}

pub fn lock_holder(text: &str) -> (r: u32)
    ensures
        r == holder_of(text@),
{
    match parse_i64(trim(text)) {
        Some(n) => if 0 <= n && n <= u32::MAX as i64 {
            n as u32
        } else {
            0
        },
        None => 0,
    }
}

/// Why a lock cannot be taken: a live process holds it. A lock without a process,
/// or of one that has ended, is stale and may be replaced.
pub open spec fn refusal_of(holder: u32, alive: bool) -> Option<Seq<char>> {
    if holder != 0 && alive {
        Some("уже запущен другой --live (pid "@ + int_text(holder as int) + "). Сначала q в том TUI."@)
    } else {
        None
    }
}

pub fn lock_refusal(holder: u32, alive: bool) -> (r: Option<String>)
    ensures
        opt_view(r) == refusal_of(holder, alive),
{
    if holder != 0 && alive {
        let mut t = own("уже запущен другой --live (pid ");
        t.append(print_u64(holder as u64).as_str());
        t.append("). Сначала q в том TUI.");
        Some(t)
    } else {
        None
    }
}

/// A live holder is never pushed aside, and a file that names no process never
/// bars the way.
pub proof fn law_live_sessions_exclude_each_other(text: Seq<char>, alive: bool)
    ensures
        holder_of(text) > 0 && alive ==> refusal_of(holder_of(text) as u32, alive) is Some,
        holder_of(text) == 0 || !alive ==> refusal_of(holder_of(text) as u32, alive) is None,
{
}

} // verus!

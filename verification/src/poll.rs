//! What a pull in the background hands over.
use crate::models::{EngineState, EngineStateView, MarketSnapshot};
use crate::profit::{pinned_to, EquityPin};
use crate::snapshot::{apply_tradfi_skip, skips_merged};
use crate::text::views;
use crate::tui::{note_pulled, stale_text};
use vstd::prelude::*;

verus! {

/// One pull. The symbols that are not to be traded are merged where the state is.
#[derive(Debug)]
pub struct Pulled<T> {
    pub snapshot: T,
    pub tradfi: Vec<String>,
}

/// The state that a pull leaves.
pub open spec fn state_after_pull(s: EngineStateView, tradfi: Seq<Seq<char>>) -> EngineStateView {
    let merged = skips_merged(s, tradfi);
    EngineStateView {
        last_error: if merged.last_error == Some(stale_text()) {
            None
        } else {
            merged.last_error
        },
        ..merged
    }
}

/// Takes a pull over: skipped symbols are merged, a fresh live account pins the
/// starting equity, and a warning that no pull came is taken back. Says whether the
/// pinned equity is to be stored.
pub fn adopt_pull(state: &mut EngineState, pin: &mut EquityPin, pulled: &Pulled<MarketSnapshot>) -> (r: bool)
    ensures
        final(state)@ == state_after_pull(old(state)@, views(pulled.tradfi@)),
        if pulled.snapshot.live_book && pulled.snapshot.account_fresh {
            (*final(pin), r) == pinned_to(*old(pin), pulled.snapshot.account.starting_equity)
        } else {
            *final(pin) == *old(pin) && !r
        },
{
    apply_tradfi_skip(state, pulled.tradfi.as_slice());
    note_pulled(state);
    if pulled.snapshot.live_book && pulled.snapshot.account_fresh {
        let (_, store) = pin.capture(pulled.snapshot.account.starting_equity);
        store
    } else {
        false
    }
}

} // verus!

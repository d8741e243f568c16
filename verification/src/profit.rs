//! Account profit: current equity minus a pinned starting equity.
use crate::dec::{minus, n_add, n_sub, plus, Dec, Num};
use vstd::prelude::*;

verus! {

pub const DEFAULT_BASELINE_PATH: &'static str = ".state/starting_equity";

pub open spec fn equity_of(wallet_balance: Dec, unrealized_pnl: Dec) -> Num {
    n_add(Some(wallet_balance), Some(unrealized_pnl))
}

pub fn current_equity(wallet_balance: Dec, unrealized_pnl: Dec) -> (r: Num)
    ensures
        r == equity_of(wallet_balance, unrealized_pnl),
{
    plus(Some(wallet_balance), Some(unrealized_pnl))
}

pub open spec fn profit_of(wallet_balance: Dec, unrealized_pnl: Dec, starting_equity: Dec) -> Num {
    n_sub(equity_of(wallet_balance, unrealized_pnl), Some(starting_equity))
}

pub fn account_profit(wallet_balance: Dec, unrealized_pnl: Dec, starting_equity: Dec) -> (r: Num)
    ensures
        r == profit_of(wallet_balance, unrealized_pnl, starting_equity),
{
    minus(current_equity(wallet_balance, unrealized_pnl), Some(starting_equity))
}

/// The pinned equity, or the live one where nothing is pinned.
pub fn pin_starting_equity(existing: Option<Dec>, live_equity: Dec) -> (r: Dec)
    ensures
        r == (match existing {
            Some(v) => v,
            None => live_equity,
        }),
{
    match existing {
        Some(v) => v,
        None => live_equity,
    }
}

/// The starting equity read from the first line of a stored file: present, a
/// number, and not negative.
pub open spec fn stored_equity(first_line: Option<Seq<char>>) -> Option<Dec> {
    match first_line {
        Some(line) => {
            let t = crate::text::trimmed(line);
            if t.len() == 0 {
                None
            } else {
                match crate::dec::decimal_parse(crate::text::trimmed(t)) {
                    Some(v) => if crate::text::trimmed(t).len() == 0 || v.units() < 0 {
                        None
                    } else {
                        Some(v)
                    },
                    None => None,
                }
            }
        },
        None => None,
    }
}

/// Reads a stored starting equity.
pub fn read_starting_equity(first_line: Option<&str>) -> (r: Option<Dec>)
    ensures
        r == stored_equity(
            match first_line {
                Some(l) => Some(l@),
                None => None,
            },
        ),
{
    match first_line {
        Some(line) => {
            let t = crate::text::trim(line);
            if t.is_empty() {
                return None;
            }
            match crate::money::dec(t) {
                Ok(v) => if v.is_neg() {
                    None
                } else {
                    Some(v)
                },
                Err(_) => None,
            }
        },
        None => None,
    }
}

/// The starting equity that profit is measured from.
#[derive(Debug, Clone, Copy)]
pub struct EquityPin {
    pub value: Option<Dec>,
    pub persist: bool,
}

impl EquityPin {
    /// A configured equity is pinned and never stored; else the stored one counts.
    pub fn from_config(starting_equity: Option<Dec>, stored: Option<Dec>) -> (r: Self)
        ensures
            r == (match starting_equity {
                Some(v) => EquityPin { value: Some(v), persist: false },
                None => EquityPin { value: stored, persist: true },
            }),
    {
        match starting_equity {
            Some(v) => EquityPin { value: Some(v), persist: false },
            None => EquityPin { value: stored, persist: true },
        }
    }

    /// Pins the live equity the first time. The second part says whether it is
    /// to be stored now.
    pub fn capture(&mut self, live_equity: Dec) -> (r: (Dec, bool))
        ensures
            final(self).value == Some(r.0),
            final(self).persist == old(self).persist,
            r.0 == (match old(self).value {
                Some(v) => v,
                None => live_equity,
            }),
            r.1 == (old(self).value is None && old(self).persist),
    {
        match self.value {
            Some(v) => (v, false),
            None => {
                self.value = Some(live_equity);
                (live_equity, self.persist)
            },
        }
    }
}

/// A pin that has seen a live equity, and whether it is to be stored now.
pub open spec fn pinned_to(p: EquityPin, live_equity: Dec) -> (EquityPin, bool) {
    (
        EquityPin {
            value: Some(
                match p.value {
                    Some(v) => v,
                    None => live_equity,
                },
            ),
            persist: p.persist,
        },
        p.value is None && p.persist,
    )
}

/// The profit of an account, wherever the decimals hold all digits: what is in the
/// wallet and what the open positions are ahead, less what it started with.
pub proof fn law_profit_is_equity_less_the_start(wallet: Dec, open: Dec, start: Dec)
    requires
        crate::dec::decimal_rules(),
        crate::dec::short(wallet, open),
        crate::dec::short(crate::dec::decimal_sum(wallet, open)->0, start),
    ensures
        equity_of(wallet, open) matches Some(e) && e.units() == wallet.units() + open.units(),
        profit_of(wallet, open, start) matches Some(p) && p.units() == wallet.units() + open.units()
            - start.units(),
{
    crate::dec::law_short_sums_are_exact(wallet, open);
    crate::dec::law_short_sums_are_exact(crate::dec::decimal_sum(wallet, open)->0, start);
}

/// A pinned equity never changes: the first live one stays, whatever comes later,
/// and is stored once.
pub proof fn law_the_first_equity_stays(p: EquityPin, first: Dec, later: Dec)
    ensures
        p.value is None ==> pinned_to(p, first).0.value == Some(first),
        p.value is Some ==> pinned_to(p, first).0.value == p.value,
        pinned_to(pinned_to(p, first).0, later).0.value == pinned_to(p, first).0.value,
        !pinned_to(pinned_to(p, first).0, later).1,
        pinned_to(p, first).1 <==> p.value is None && p.persist,
{
}

} // verus!

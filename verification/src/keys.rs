//! Key bindings as a pure function (no terminal required).
use vstd::prelude::*;

verus! {

/// Flatten is armed with `x`, confirmed with a second `x`. Any other key cancels.
#[derive(Debug, Clone, Copy, PartialEq, Eq, Structural)]
pub enum KeyAction {
    Quit,
    Strategy(i32),
    Refresh,
    FlattenArm,
    FlattenConfirm,
    FlattenCancel,
    Ignore,
}

/// Whether a key is the flatten key.
pub open spec fn is_flatten_key(ch: char) -> bool {
    ch == 'x' || ch == 'X'
}

/// What a key does, given whether a flatten is armed.
pub open spec fn key_action(ch: char, flatten_armed: bool) -> KeyAction {
    if ch == 'q' || ch == 'Q' {
        KeyAction::Quit
    } else if ch == '1' {
        KeyAction::Strategy(1)
    } else if ch == '2' {
        KeyAction::Strategy(2)
    } else if ch == '3' {
        KeyAction::Strategy(3)
    } else if ch == '4' {
        KeyAction::Strategy(4)
    } else if ch == 'r' || ch == 'R' {
        KeyAction::Refresh
    } else if is_flatten_key(ch) {
        if flatten_armed {
            KeyAction::FlattenConfirm
        } else {
            KeyAction::FlattenArm
        }
    } else if flatten_armed {
        KeyAction::FlattenCancel
    } else {
        KeyAction::Ignore
    }
}

pub fn handle_key(ch: char, flatten_armed: bool) -> (r: KeyAction)
    ensures
        r == key_action(ch, flatten_armed),
{
    match ch {
        'q' | 'Q' => KeyAction::Quit,
        '1' => KeyAction::Strategy(1),
        '2' => KeyAction::Strategy(2),
        '3' => KeyAction::Strategy(3),
        '4' => KeyAction::Strategy(4),
        'r' | 'R' => KeyAction::Refresh,
        'x' | 'X' => if flatten_armed {
            KeyAction::FlattenConfirm
        } else {
            KeyAction::FlattenArm
        },
        _ => if flatten_armed {
            KeyAction::FlattenCancel
        } else {
            KeyAction::Ignore
        },
    }
}

/// Whether the flatten is armed after a key, and whether the key confirmed it.
pub fn apply_flatten_key(armed: bool, ch: char) -> (r: (bool, bool))
    ensures
        r.0 == (!armed && is_flatten_key(ch)),
        r.1 == (armed && is_flatten_key(ch)),
{
    match handle_key(ch, armed) {
        KeyAction::FlattenArm => (true, false),
        KeyAction::FlattenConfirm => (false, true),
        _ => (false, false),
    }
}

/// A flatten needs two presses of its key in a row: it is confirmed only when
/// it was armed before, and a key that confirms leaves it disarmed.
pub proof fn law_flatten_takes_two_presses(first: char, second: char)
    ensures
        key_action(first, false) != KeyAction::FlattenConfirm,
        key_action(second, key_action(first, false) == KeyAction::FlattenArm)
            == KeyAction::FlattenConfirm <==> is_flatten_key(first) && is_flatten_key(second),
{
}

} // verus!

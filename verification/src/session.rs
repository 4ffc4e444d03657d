//! Interactive-session state that carries the store's rules: the input mode
//! and the focus of the main viewer.

use vstd::prelude::*;

verus! {

/// Whether keystrokes edit the input line or drive the menu.
#[derive(Debug, Clone, Copy, PartialEq, Eq, Structural)]
pub enum InputMode {
    Normal,
    Editing,
}

/// What the main viewer shows.
#[derive(Debug, Clone, Copy, PartialEq, Eq, Structural)]
pub enum Focus {
    Nothing,
    Charts,
    ExpenseReport,
    BalanceSheet,
    NewTransaction,
    Register,
    DeleteTransaction,
}

/// The focus after a toggle: asking for the current focus clears it, asking
/// for another moves to it.
pub fn toggle_focus(current: Focus, requested: Focus) -> (r: Focus)
    ensures
        current == requested ==> r == Focus::Nothing,
        current != requested ==> r == requested,
{
    if current == requested {
        Focus::Nothing
    } else {
        requested
    }
}

} // verus!

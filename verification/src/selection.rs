//! Wallet selection: the pure state transition behind choosing a wallet in
//! the surrounding application. Selecting a wallet connects it; selecting
//! the wallet that is already selected toggles back to no selection.

use vstd::prelude::*;

use crate::address::bytes_eq;

verus! {

/// Which wallet, if any, is currently selected, identified by an opaque
/// identity token.
pub enum Selection {
    Unselected,
    Selected { identity: Vec<u8> },
}

impl View for Selection {
    type V = Option<Seq<u8>>;

    open spec fn view(&self) -> Option<Seq<u8>> {
        match self {
            Selection::Unselected => None,
            Selection::Selected { identity } => Some(identity@),
        }
    }
}

/// The transition: choosing the identity already selected clears the
/// selection, choosing any other identity selects it.
pub open spec fn spec_select(current: Option<Seq<u8>>, chosen: Seq<u8>) -> Option<Seq<u8>> {
    if current == Some(chosen) {
        None
    } else {
        Some(chosen)
    }
}

/// Apply one selection action.
pub fn select(current: &Selection, chosen: Vec<u8>) -> (r: Selection)
    ensures
        r@ == spec_select(current@, chosen@),
{
    match current {
        Selection::Selected { identity } => {
            if bytes_eq(identity, &chosen) {
                Selection::Unselected
            } else {
                Selection::Selected { identity: chosen }
            }
        },
        Selection::Unselected => Selection::Selected { identity: chosen },
    }
}

} // verus!

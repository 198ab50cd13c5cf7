//! The front desk, where guests are seated.

use vstd::prelude::*;

verus! {

/// Puts a guest on the waiting list; nothing is kept yet.
pub fn poner_en_espera() {
}

} // verus!

//! A number-guessing game whose rules are verified, together with a few small
//! string, geometry and restaurant-ordering helpers.

pub mod guess;
pub mod parte_de_atras;
pub mod fachada;
pub mod game;
pub mod secret;
pub mod rectangle;
pub mod words;

use vstd::prelude::*;

use crate::parte_de_atras::Desayuno;

verus! {

/// Orders a summer breakfast on rye, then changes the toast to wheat; the
/// guest is put on hold at the front desk first, once by each path to it.
pub fn comer_en_restaurant() -> (r: Desayuno)
    ensures
        r.pan() == "trigo"@,
        r.fruta() == "melocotones"@,
{
    crate::fachada::recepcion::poner_en_espera();
    fachada::recepcion::poner_en_espera();
    let mut comer = parte_de_atras::Desayuno::verano("centeno");
    comer.cambiar_tostada("trigo");
    comer
}

} // verus!

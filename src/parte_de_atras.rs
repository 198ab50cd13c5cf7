//! The kitchen, and the breakfasts it makes.

use vstd::prelude::*;

verus! {

/// A breakfast: the guest picks the toast; the fruit is the kitchen's
/// choice and stays hidden from the guest.
pub struct Desayuno {
    pub tostada: String,
    fruta_de_temporada: String,
}

impl Desayuno {
    /// The toast, as text.
    pub closed spec fn pan(&self) -> Seq<char> {
        self.tostada@
    }

    /// The seasonal fruit that comes with the breakfast.
    pub closed spec fn fruta(&self) -> Seq<char> {
        self.fruta_de_temporada@
    }

    /// The summer breakfast: the toast asked for, with peaches.
    pub fn verano(tostada: &str) -> (r: Desayuno)
        ensures
            r.pan() == tostada@,
            r.fruta() == "melocotones"@,
    {
        Desayuno { tostada: tostada.to_owned(), fruta_de_temporada: "melocotones".to_owned() }
    }

    /// Changes the toast; the fruit stays as it was.
    pub fn cambiar_tostada(&mut self, tostada: &str)
        ensures
            final(self).pan() == tostada@,
            final(self).fruta() == old(self).fruta(),
    {
        self.tostada = tostada.to_owned();
    }
}

} // verus!

//! The species table: atomic number to element symbol and atomic mass.
//! Masses are held in units of 1e-4 u, so that each tabulated value is an
//! exact integer.

use vstd::prelude::*;

verus! {

/// An element of the table: its symbol and its mass in 1e-4 u.
#[derive(Clone, Debug)]
pub struct Species {
    pub symbol: String,
    pub mass_e4: u32,
}

/// What a `Species` holds, as plain values.
pub struct SpeciesView {
    pub symbol: Seq<char>,
    pub mass_e4: u32,
}

impl View for Species {
    type V = SpeciesView;

    open spec fn view(&self) -> SpeciesView {
        SpeciesView { symbol: self.symbol@, mass_e4: self.mass_e4 }
    }
}

/// The symbol and mass (1e-4 u) of atomic number `n`, for the supported
/// elements.
pub open spec fn species_spec(n: u32) -> Option<SpeciesView> {
    if n == 1 {
        Some(SpeciesView { symbol: "H"@, mass_e4: 10080 })
    } else if n == 2 {
        Some(SpeciesView { symbol: "He"@, mass_e4: 40026 })
    } else if n == 6 {
        Some(SpeciesView { symbol: "C"@, mass_e4: 120110 })
    } else if n == 7 {
        Some(SpeciesView { symbol: "N"@, mass_e4: 140070 })
    } else if n == 8 {
        Some(SpeciesView { symbol: "O"@, mass_e4: 159990 })
    } else if n == 9 {
        Some(SpeciesView { symbol: "F"@, mass_e4: 189980 })
    } else if n == 10 {
        Some(SpeciesView { symbol: "Ne"@, mass_e4: 201800 })
    } else if n == 15 {
        Some(SpeciesView { symbol: "P"@, mass_e4: 309740 })
    } else if n == 16 {
        Some(SpeciesView { symbol: "S"@, mass_e4: 320600 })
    } else if n == 17 {
        Some(SpeciesView { symbol: "Cl"@, mass_e4: 354500 })
    } else if n == 47 {
        Some(SpeciesView { symbol: "Ag"@, mass_e4: 1078700 })
    } else if n == 79 {
        Some(SpeciesView { symbol: "Au"@, mass_e4: 1969700 })
    } else {
        None
    }
}

/// Looks up atomic number `n` in the species table.
pub fn lookup_species(n: u32) -> (r: Option<Species>)
    ensures
        match r {
            Some(sp) => species_spec(n) == Some(sp@),
            None => species_spec(n) is None,
        },
{
    let entry: Option<(&str, u32)> = if n == 1 {
        Some(("H", 10080))
    } else if n == 2 {
        Some(("He", 40026))
    } else if n == 6 {
        Some(("C", 120110))
    } else if n == 7 {
        Some(("N", 140070))
    } else if n == 8 {
        Some(("O", 159990))
    } else if n == 9 {
        Some(("F", 189980))
    } else if n == 10 {
        Some(("Ne", 201800))
    } else if n == 15 {
        Some(("P", 309740))
    } else if n == 16 {
        Some(("S", 320600))
    } else if n == 17 {
        Some(("Cl", 354500))
    } else if n == 47 {
        Some(("Ag", 1078700))
    } else if n == 79 {
        Some(("Au", 1969700))
    } else {
        None
    };
    match entry {
        Some((symbol, mass_e4)) => Some(Species { symbol: symbol.to_owned(), mass_e4 }),
        None => None,
    }
}

} // verus!

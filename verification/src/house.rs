//! A builder that assembles a house description field by field, filling in
//! defaults for anything left unset.

use vstd::prelude::*;

verus! {

/// A finished house description.
pub struct House {
    pub bedrooms: u32,
    pub bathrooms: u32,
    pub square_feet: u32,
}

/// Collects the chosen fields of a [`House`]; unset fields fall back to
/// defaults when built.
pub struct HouseBuilder {
    pub bedrooms: Option<u32>,
    pub bathrooms: Option<u32>,
    pub square_feet: Option<u32>,
}

impl HouseBuilder {
    /// A builder with nothing chosen yet.
    pub fn new() -> (b: Self)
        ensures
            b.bedrooms is None,
            b.bathrooms is None,
            b.square_feet is None,
    {
        HouseBuilder { bedrooms: None, bathrooms: None, square_feet: None }
    }

    /// Chooses the number of bedrooms.
    pub fn bedrooms(self, n: u32) -> (b: Self)
        ensures
            b.bedrooms == Some(n),
            b.bathrooms == self.bathrooms,
            b.square_feet == self.square_feet,
    {
        HouseBuilder { bedrooms: Some(n), ..self }
    }

    /// Chooses the number of bathrooms.
    pub fn bathrooms(self, n: u32) -> (b: Self)
        ensures
            b.bathrooms == Some(n),
            b.bedrooms == self.bedrooms,
            b.square_feet == self.square_feet,
    {
        HouseBuilder { bathrooms: Some(n), ..self }
    }

    /// Chooses the floor area in square feet.
    pub fn square_feet(self, sqft: u32) -> (b: Self)
        ensures
            b.square_feet == Some(sqft),
            b.bedrooms == self.bedrooms,
            b.bathrooms == self.bathrooms,
    {
        HouseBuilder { square_feet: Some(sqft), ..self }
    }

    /// Builds the house: chosen fields are kept, unset ones get the
    /// defaults 3 bedrooms, 2 bathrooms and 2000 square feet.
    pub fn build(self) -> (h: House)
        ensures
            h.bedrooms == if self.bedrooms is Some { self.bedrooms->0 } else { 3u32 },
            h.bathrooms == if self.bathrooms is Some { self.bathrooms->0 } else { 2u32 },
            h.square_feet == if self.square_feet is Some { self.square_feet->0 } else { 2000u32 },
    {
        House {
            bedrooms: match self.bedrooms {
                Some(n) => n,
                None => 3,
            },
            bathrooms: match self.bathrooms {
                Some(n) => n,
                None => 2,
            },
            square_feet: match self.square_feet {
                Some(n) => n,
                None => 2000,
            },
        }
    }
}

} // verus!

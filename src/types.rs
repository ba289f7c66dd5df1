//! Value types carried by the protocol and the block catalogue.
use std::collections::HashMap;
use vstd::prelude::*;

verus! {

/// A 2D coordinate, such as a chunk position.
#[derive(Debug, Clone, Copy, PartialEq, Eq, Hash)]
pub struct Coords2<T>(pub T, pub T);

/// A 3D coordinate. Positions hold the IEEE-754 bit patterns of the
/// single-precision components (`Coords3<u32>`).
#[derive(Debug, Clone, Copy, PartialEq, Eq, Hash)]
pub struct Coords3<T>(pub T, pub T, pub T);

/// An orientation as the IEEE-754 bit patterns of its single-precision
/// components x, y, z, w.
#[derive(Debug, Clone, Copy, PartialEq, Eq, Hash)]
pub struct Quaternion(pub u32, pub u32, pub u32, pub u32);

impl Coords3<i32> {
    /// Component-wise sum.
    pub fn add(&self, other: &Self) -> (r: Self)
        requires
            crate::vec::fits_i32(self.0 + other.0),
            crate::vec::fits_i32(self.1 + other.1),
            crate::vec::fits_i32(self.2 + other.2),
        ensures
            r.0 == self.0 + other.0,
            r.1 == self.1 + other.1,
            r.2 == self.2 + other.2,
    {
        Coords3(self.0 + other.0, self.1 + other.1, self.2 + other.2)
    }

    /// Component-wise difference.
    pub fn sub(&self, other: &Self) -> (r: Self)
        requires
            crate::vec::fits_i32(self.0 - other.0),
            crate::vec::fits_i32(self.1 - other.1),
            crate::vec::fits_i32(self.2 - other.2),
        ensures
            r.0 == self.0 - other.0,
            r.1 == self.1 - other.1,
            r.2 == self.2 - other.2,
    {
        Coords3(self.0 - other.0, self.1 - other.1, self.2 - other.2)
    }

    /// Every component multiplied by `scale`.
    pub fn scale(&self, scale: i32) -> (r: Self)
        requires
            crate::vec::fits_i32(self.0 * scale),
            crate::vec::fits_i32(self.1 * scale),
            crate::vec::fits_i32(self.2 * scale),
        ensures
            r.0 == self.0 * scale,
            r.1 == self.1 * scale,
            r.2 == self.2 * scale,
    {
        Coords3(self.0 * scale, self.1 * scale, self.2 * scale)
    }
}

/// One entry of the block catalogue.
#[derive(Debug, Clone)]
pub struct Block {
    pub name: String,
    pub is_block: bool,
    pub is_empty: bool,
    pub is_fluid: bool,
    pub is_light: bool,
    pub is_plant: bool,
    pub is_solid: bool,
    pub is_transparent: bool,
    pub light_level: i64,
    pub is_plantable: bool,
    pub textures: HashMap<String, String>,
    pub transparent_standalone: bool,
}

/// The terrain generators that a world can be configured with.
#[derive(Debug, Clone, Copy, PartialEq, Eq, Structural)]
pub enum GeneratorType {
    FLAT,
    HILLY,
}

/// What `str::to_lowercase` returns for the given characters.
pub uninterp spec fn lower_of(s: Seq<char>) -> Seq<char>;

/// Relies on `str::to_lowercase`: the result depends on the characters alone.
#[verifier::external_body]
fn lowercase(s: &str) -> (r: String)
    ensures
        r@ == lower_of(s@),
{
    s.to_lowercase()
}

/// The generator named by an already lower-cased name.
pub open spec fn generator_named(lower: Seq<char>) -> Option<GeneratorType> {
    if lower == "flat"@ {
        Some(GeneratorType::FLAT)
    } else if lower == "hilly"@ {
        Some(GeneratorType::HILLY)
    } else {
        None
    }
}

impl GeneratorType {
    /// Parses a generator name, ignoring letter case.
    pub fn parse(name: &str) -> (r: Option<Self>)
        ensures
            r == generator_named(lower_of(name@)),
    {
        let lower = lowercase(name);
        Self::parse_lowered(&lower)
    }

    /// Parses a name that is already lower-cased: `"flat"` or `"hilly"`.
    pub fn parse_lowered(lower: &String) -> (r: Option<Self>)
        ensures
            r == generator_named(lower@),
    {
        let flat: String = "flat".to_owned();
        let hilly: String = "hilly".to_owned();
        if *lower == flat {
            Some(GeneratorType::FLAT)
        } else if *lower == hilly {
            Some(GeneratorType::HILLY)
        } else {
            None
        }
    }
}

} // verus!

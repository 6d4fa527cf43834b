//! The four discrete monitor orientations, with their textual transform
//! tags and the integer encoding used by the persisted configuration
//! format.

use vstd::prelude::*;

use crate::text::str_eq;

verus! {

/// One of the four quarter-turn orientations a monitor can take.
#[derive(Clone, Copy, Debug, PartialEq, Eq, Structural)]
pub enum Rotation {
    Normal,
    Deg90,
    Deg180,
    Deg270,
}

impl Default for Rotation {
    fn default() -> (r: Self)
        ensures
            r == Rotation::Normal,
    {
        Rotation::Normal
    }
}

/// The orientation an optional textual transform tag denotes: `"90"`,
/// `"180"` and `"270"` name the quarter turns; anything else, including
/// an absent tag, means no rotation.
pub open spec fn spec_rotation_of_tag(tag: Option<Seq<char>>) -> Rotation {
    if tag == Some("90"@) {
        Rotation::Deg90
    } else if tag == Some("180"@) {
        Rotation::Deg180
    } else if tag == Some("270"@) {
        Rotation::Deg270
    } else {
        Rotation::Normal
    }
}

/// The view of an optional owned transform tag.
pub open spec fn spec_tag_view(tag: Option<String>) -> Option<Seq<char>> {
    match tag {
        Some(s) => Some(s@),
        None => None,
    }
}

/// The textual tag each orientation serializes to.
pub open spec fn spec_transform_of_rotation(r: Rotation) -> Seq<char> {
    match r {
        Rotation::Normal => "normal"@,
        Rotation::Deg90 => "90"@,
        Rotation::Deg180 => "180"@,
        Rotation::Deg270 => "270"@,
    }
}

/// The integer each orientation is encoded as in configuration lines.
pub open spec fn spec_hyprland_of_rotation(r: Rotation) -> i32 {
    match r {
        Rotation::Normal => 0,
        Rotation::Deg90 => 1,
        Rotation::Deg180 => 2,
        Rotation::Deg270 => 3,
    }
}

/// The next orientation in the fixed cycle
/// Normal -> 90 -> 180 -> 270 -> Normal.
pub open spec fn spec_cycle(r: Rotation) -> Rotation {
    match r {
        Rotation::Normal => Rotation::Deg90,
        Rotation::Deg90 => Rotation::Deg180,
        Rotation::Deg180 => Rotation::Deg270,
        Rotation::Deg270 => Rotation::Normal,
    }
}

impl Rotation {
    /// Maps an optional textual transform tag to an orientation;
    /// unrecognized or absent tags mean `Normal`. Never fails.
    pub fn from_transform(transform: &Option<String>) -> (r: Self)
        ensures
            r == spec_rotation_of_tag(spec_tag_view(*transform)),
    {
        match transform {
            Some(s) => {
                if str_eq(s.as_str(), "90") {
                    Rotation::Deg90
                } else if str_eq(s.as_str(), "180") {
                    Rotation::Deg180
                } else if str_eq(s.as_str(), "270") {
                    Rotation::Deg270
                } else {
                    Rotation::Normal
                }
            },
            None => Rotation::Normal,
        }
    }

    /// The textual transform tag of this orientation.
    pub fn to_transform(&self) -> (r: &'static str)
        ensures
            r@ == spec_transform_of_rotation(*self),
    {
        match self {
            Rotation::Normal => "normal",
            Rotation::Deg90 => "90",
            Rotation::Deg180 => "180",
            Rotation::Deg270 => "270",
        }
    }

    /// The integer encoding of this orientation in the persisted
    /// configuration format.
    pub fn to_hyprland(&self) -> (r: i32)
        ensures
            r == spec_hyprland_of_rotation(*self),
    {
        match self {
            Rotation::Normal => 0,
            Rotation::Deg90 => 1,
            Rotation::Deg180 => 2,
            Rotation::Deg270 => 3,
        }
    }

    /// Advances to the next orientation in the fixed cycle.
    pub fn cycle(&self) -> (r: Self)
        ensures
            r == spec_cycle(*self),
    {
        match self {
            Rotation::Normal => Rotation::Deg90,
            Rotation::Deg90 => Rotation::Deg180,
            Rotation::Deg180 => Rotation::Deg270,
            Rotation::Deg270 => Rotation::Normal,
        }
    }
}

/// Cycling four times returns every orientation to where it started.
pub proof fn lemma_cycle_four_is_identity(r: Rotation)
    ensures
        spec_cycle(spec_cycle(spec_cycle(spec_cycle(r)))) == r,
{
}

} // verus!

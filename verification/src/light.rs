//! The colors and kinds of the lights on the board.

use vstd::prelude::*;

verus! {

/// The five light colors, in the order of the per-color tallies.
#[derive(Clone, Copy, PartialEq, Eq, Debug, Hash, Structural)]
pub enum LightColor {
    Red,
    Green,
    Blue,
    Yellow,
    Purple,
}

impl LightColor {
    /// The slot of this color in a five-entry per-color tally.
    pub open spec fn index_spec(self) -> int {
        match self {
            LightColor::Red => 0,
            LightColor::Green => 1,
            LightColor::Blue => 2,
            LightColor::Yellow => 3,
            LightColor::Purple => 4,
        }
    }

    /// The slot of this color in a five-entry per-color tally.
    pub fn index(self) -> (r: usize)
        ensures
            r == self.index_spec(),
            r < 5,
    {
        match self {
            LightColor::Red => 0,
            LightColor::Green => 1,
            LightColor::Blue => 2,
            LightColor::Yellow => 3,
            LightColor::Purple => 4,
        }
    }

    /// The color in slot `i` of a five-entry tally.
    pub fn from_index(i: usize) -> (r: LightColor)
        requires
            i < 5,
        ensures
            r.index_spec() == i,
    {
        if i == 0 {
            LightColor::Red
        } else if i == 1 {
            LightColor::Green
        } else if i == 2 {
            LightColor::Blue
        } else if i == 3 {
            LightColor::Yellow
        } else {
            LightColor::Purple
        }
    }
}

/// What a light is: a plain light, a hollow light, or one of the power lights.
#[derive(Clone, Copy, PartialEq, Eq, Debug, Hash, Structural)]
pub enum LightKind {
    Normal,
    Hollow,
    RayH,
    RayV,
    Supernova,
    Cross,
    Starburst,
    Blackhole,
}

impl LightKind {
    /// A hollow light: it scores nothing and drains the score when matched.
    pub open spec fn is_hollow_spec(self) -> bool {
        self == LightKind::Hollow
    }

    /// A power light: anything but a plain or hollow light.
    pub open spec fn is_power_spec(self) -> bool {
        self != LightKind::Normal && self != LightKind::Hollow
    }

    /// Whether this is a hollow light.
    pub fn is_hollow(self) -> (r: bool)
        ensures
            r == self.is_hollow_spec(),
    {
        match self {
            LightKind::Hollow => true,
            _ => false,
        }
    }

    /// Whether this is a power light.
    pub fn is_power(self) -> (r: bool)
        ensures
            r == self.is_power_spec(),
    {
        match self {
            LightKind::Normal | LightKind::Hollow => false,
            _ => true,
        }
    }
}

} // verus!

//! The six axis directions a pipe segment can point at, and the geometry of
//! the small prism drawn for each of them.
//!
//! The renderer works in floating-point world units; the verified core keeps
//! all geometry in integer thousandths of a unit, so a prism extent of `300`
//! here stands for 0.3 world units.

use vstd::prelude::*;
use vstd::string::StringSliceAdditionalSpecFns;

verus! {

/// One of the six directions a pipe can enter or leave a cell by.
#[derive(PartialEq, Eq, Structural, Clone, Copy, Debug)]
pub enum Direction {
    Above,
    Below,
    North,
    South,
    East,
    West,
}

/// A point in space, in thousandths of a grid unit.
#[derive(PartialEq, Eq, Structural, Clone, Copy, Debug)]
pub struct MilliPoint {
    pub x: u64,
    pub y: u64,
    pub z: u64,
}

/// Largest grid coordinate the geometry accepts: it keeps every scaled
/// coordinate comfortably inside `u64`.
pub const COORD_LIMIT: u64 = 1000000;

/// Maps the byte of a direction token (`a`, `b`, `n`, `s`, `e`, `w`) to the
/// direction it names; any other token has no direction.
pub open spec fn dir_of_bytes(t: Seq<u8>) -> Option<Direction> {
    if t.len() == 1 {
        if t[0] == 97 {
            Some(Direction::Above)
        } else if t[0] == 98 {
            Some(Direction::Below)
        } else if t[0] == 110 {
            Some(Direction::North)
        } else if t[0] == 115 {
            Some(Direction::South)
        } else if t[0] == 101 {
            Some(Direction::East)
        } else if t[0] == 119 {
            Some(Direction::West)
        } else {
            None
        }
    } else {
        None
    }
}

impl Direction {
    /// Extent of the pipe prism along the x axis, in thousandths of a unit.
    pub open spec fn spec_pipe_width(self) -> u64 {
        if self == Direction::East || self == Direction::West {
            650
        } else {
            300
        }
    }

    /// Extent of the pipe prism along the y axis, in thousandths of a unit.
    pub open spec fn spec_pipe_height(self) -> u64 {
        if self == Direction::Above || self == Direction::Below {
            650
        } else {
            300
        }
    }

    /// Extent of the pipe prism along the z axis, in thousandths of a unit.
    pub open spec fn spec_pipe_depth(self) -> u64 {
        if self == Direction::North || self == Direction::South {
            650
        } else {
            300
        }
    }

    /// x coordinate of the prism center for a cell centered at `x` units.
    pub open spec fn spec_center_x(self, x: int) -> int {
        if self == Direction::East {
            x * 1000 + 175
        } else if self == Direction::West {
            x * 1000 - 175
        } else {
            x * 1000
        }
    }

    /// y coordinate of the prism center for a cell centered at `y` units.
    pub open spec fn spec_center_y(self, y: int) -> int {
        if self == Direction::Above {
            y * 1000 + 175
        } else if self == Direction::Below {
            y * 1000 - 175
        } else {
            y * 1000
        }
    }

    /// z coordinate of the prism center for a cell centered at `z` units.
    pub open spec fn spec_center_z(self, z: int) -> int {
        if self == Direction::North {
            z * 1000 + 175
        } else if self == Direction::South {
            z * 1000 - 175
        } else {
            z * 1000
        }
    }

    pub fn pipe_width(&self) -> (r: u64)
        ensures
            r == self.spec_pipe_width(),
    {
        match self {
            Direction::East => 650,
            Direction::West => 650,
            _ => 300,
        }
    }

    pub fn pipe_height(&self) -> (r: u64)
        ensures
            r == self.spec_pipe_height(),
    {
        match self {
            Direction::Above => 650,
            Direction::Below => 650,
            _ => 300,
        }
    }

    pub fn pipe_depth(&self) -> (r: u64)
        ensures
            r == self.spec_pipe_depth(),
    {
        match self {
            Direction::North => 650,
            Direction::South => 650,
            _ => 300,
        }
    }

    /// Center of the pipe prism for a cell at grid position `(x, y, z)`:
    /// the cell center, pushed 175 thousandths of a unit toward the direction.
    pub fn pipe_center(&self, x: usize, y: usize, z: usize) -> (r: MilliPoint)
        requires
            1 <= x <= COORD_LIMIT,
            1 <= y <= COORD_LIMIT,
            1 <= z <= COORD_LIMIT,
        ensures
            r.x == self.spec_center_x(x as int),
            r.y == self.spec_center_y(y as int),
            r.z == self.spec_center_z(z as int),
    {
        let xm: u64 = (x as u64) * 1000;
        let ym: u64 = (y as u64) * 1000;
        let zm: u64 = (z as u64) * 1000;
        match self {
            Direction::Above => MilliPoint { x: xm, y: ym + 175, z: zm },
            Direction::Below => MilliPoint { x: xm, y: ym - 175, z: zm },
            Direction::North => MilliPoint { x: xm, y: ym, z: zm + 175 },
            Direction::South => MilliPoint { x: xm, y: ym, z: zm - 175 },
            Direction::East => MilliPoint { x: xm + 175, y: ym, z: zm },
            Direction::West => MilliPoint { x: xm - 175, y: ym, z: zm },
        }
    }

    /// Reads a direction from the bytes of a single token.
    pub fn from_bytes(t: &[u8]) -> (r: Option<Direction>)
        ensures
            r == dir_of_bytes(t@),
    {
        if t.len() == 1 {
            let b = t[0];
            if b == 97 {
                Some(Direction::Above)
            } else if b == 98 {
                Some(Direction::Below)
            } else if b == 110 {
                Some(Direction::North)
            } else if b == 115 {
                Some(Direction::South)
            } else if b == 101 {
                Some(Direction::East)
            } else if b == 119 {
                Some(Direction::West)
            } else {
                None
            }
        } else {
            None
        }
    }

    /// Reads a direction from a one-letter string token.
    pub fn from_str(s: &str) -> (r: Result<Direction, ()>)
        ensures
            (match dir_of_bytes(s.spec_bytes()) {
                Some(d) => r == Ok::<Direction, ()>(d),
                None => r == Err::<Direction, ()>(()),
            }),
    {
        match Direction::from_bytes(s.as_bytes()) {
            Some(d) => Ok(d),
            None => Err(()),
        }
    }
}

} // verus!

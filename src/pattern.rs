use vstd::prelude::*;

verus! {

/// The procedural patterns a material can carry.
#[derive(Debug, Clone, Copy, PartialEq, Eq, Structural)]
pub enum PatternType {
    Checker,
    Gradient,
    Ring,
    Stripe,
    Test,
}

/// Which of a pattern's two colors a point takes.
#[derive(Debug, Clone, Copy, PartialEq, Eq, Structural)]
pub enum Band {
    First,
    Second,
}

/// The integer cells that a pattern-space point falls in: the floors of its
/// coordinates, and the floor of its distance from the y axis.
#[derive(Debug, Clone, Copy, PartialEq, Eq, Structural)]
pub struct Cell {
    pub x: i64,
    pub y: i64,
    pub z: i64,
    pub radius: i64,
}

/// Even cells take the first color, odd cells the second, on both sides of zero.
pub open spec fn band_of(n: int) -> Band {
    if n % 2 == 0 {
        Band::First
    } else {
        Band::Second
    }
}

/// The band that a pattern of kind `kind` gives a point in `cell`; the
/// gradient and test patterns have none, their color varies continuously.
pub open spec fn band_spec(kind: PatternType, cell: Cell) -> Option<Band> {
    match kind {
        PatternType::Stripe => Some(band_of(cell.x as int)),
        PatternType::Ring => Some(band_of(cell.radius as int)),
        PatternType::Checker => Some(band_of(cell.x + cell.y + cell.z)),
        PatternType::Gradient => None,
        PatternType::Test => None,
    }
}

fn alternate(n: i128) -> (b: Band)
    ensures
        b == band_of(n as int),
{
    if n % 2 == 0 {
        Band::First
    } else {
        Band::Second
    }
}

impl PatternType {
    /// The band of a point in `cell`: stripes alternate with the cell along
    /// x, rings with the cell of the distance from the y axis, checkers with
    /// the sum of the three coordinate cells.
    pub fn band(&self, cell: &Cell) -> (b: Option<Band>)
        ensures
            b == band_spec(*self, *cell),
    {
        match self {
            PatternType::Stripe => Some(alternate(cell.x as i128)),
            PatternType::Ring => Some(alternate(cell.radius as i128)),
            PatternType::Checker => Some(
                alternate(cell.x as i128 + cell.y as i128 + cell.z as i128),
            ),
            PatternType::Gradient => None,
            PatternType::Test => None,
        }
    }
}

} // verus!

use vstd::prelude::*;

use crate::random::random_below;

verus! {

/// Exclusive upper bound of each colour channel of a freshly spawned
/// particle; keeps the aggregate distinguishable from a white background.
pub const CHANNEL_LIMIT: u8 = 234;

/// The visual attribute of a particle: an RGB triple.
#[derive(Clone, Copy, Debug, PartialEq, Eq, Structural)]
pub struct Color {
    pub r: u8,
    pub g: u8,
    pub b: u8,
}

/// One occupant of the lattice: a mobile particle of the active set, or a
/// frozen member of the aggregate.
#[derive(Clone, Copy, Debug, PartialEq, Eq, Structural)]
pub struct Cell {
    pub x: usize,
    pub y: usize,
    pub color: Color,
    pub is_frozen: bool,
}

/// A colour whose channels all lie below [`CHANNEL_LIMIT`].
pub open spec fn spawn_color(c: Color) -> bool {
    &&& c.r < CHANNEL_LIMIT
    &&& c.g < CHANNEL_LIMIT
    &&& c.b < CHANNEL_LIMIT
}

/// What holds of every particle that [`Cell::new`] can produce for a
/// `w` by `h` lattice.
pub open spec fn spawned(c: Cell, w: int, h: int, is_frozen: bool) -> bool {
    &&& c.x < w
    &&& c.y < h
    &&& c.is_frozen == is_frozen
    &&& spawn_color(c.color)
}

impl Cell {
    /// A particle at a uniformly random position of a `w` by `h` lattice,
    /// with each colour channel drawn uniformly below [`CHANNEL_LIMIT`].
    pub fn new(is_frozen: bool, w: usize, h: usize) -> (cell: Cell)
        requires
            0 < w,
            0 < h,
        ensures
            spawned(cell, w as int, h as int, is_frozen),
    {
        let x = random_below(w);
        let y = random_below(h);
        let r = random_below(CHANNEL_LIMIT as usize) as u8;
        let g = random_below(CHANNEL_LIMIT as usize) as u8;
        let b = random_below(CHANNEL_LIMIT as usize) as u8;
        Cell { x, y, color: Color { r, g, b }, is_frozen }
    }
}

} // verus!

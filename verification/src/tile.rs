use vstd::prelude::*;

verus! {

/// Where a sector sits inside its tile: the sector file it comes from, its
/// size, and its origin within the tile, in pixels.
pub struct Sector {
    pub path: String,
    /// width, height
    pub dimensions: (u32, u32),
    /// x, y
    pub origin: (u32, u32),
}

/// A tile definition: its art is a solid base color with sector rectangles
/// painted on top.
pub struct Tile {
    pub name: String,
    pub path: String,
    pub description: String,
    /// Hex color code of the base fill.
    pub color_code: String,
    /// width, height
    pub dimensions: (u32, u32),
    pub sectors: Vec<Sector>,
}

} // verus!

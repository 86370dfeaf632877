//! The data model of the tiling grid: sizes, grid kinds, tiles, tile
//! states, tile features and the renderer's glyph configuration.

use vstd::prelude::*;
use vstd::string::StrSliceExecFns;

verus! {

/// A rectangular extent: a pair of non-negative sizes.
#[derive(Debug, Clone, Copy, PartialEq, Eq, Structural)]
pub struct Size {
    pub x: usize,
    pub y: usize,
}

/// The tiling geometries a grid can carry. Only `Squares` is exercised
/// end to end; the other variants are placeholders for geometry-specific
/// logic that does not exist yet.
#[derive(Debug, Clone, Copy, PartialEq, Eq, Structural)]
pub enum GridKind {
    Triangle {},
    Squares,
    Hex,
    Rectange { size: Size },
}

/// A decoration placed on a tile, identified by a static label.
#[derive(Debug, Clone, Copy, Eq, Hash)]
pub enum TileFeatures {
    Named(&'static str),
}

/// The label of a feature, as a sequence of characters.
pub open spec fn feat_label(f: TileFeatures) -> Seq<char> {
    match f {
        TileFeatures::Named(s) => s@,
    }
}

/// Character-for-character equality of two string slices.
pub fn str_eq(a: &str, b: &str) -> (r: bool)
    ensures
        r == (a@ == b@),
{
    let n = a.unicode_len();
    if n != b.unicode_len() {
        return false;
    }
    let mut i: usize = 0;
    while i < n
        invariant
            n == a@.len(),
            n == b@.len(),
            i <= n,
            forall|j: int| 0 <= j < i ==> a@[j] == b@[j],
        decreases n - i,
    {
        if a.get_char(i) != b.get_char(i) {
            return false;
        }
        i += 1;
    }
    proof {
        assert(a@ =~= b@);
    }
    true
}

impl PartialEq for TileFeatures {
    fn eq(&self, other: &TileFeatures) -> bool {
        match (self, other) {
            (TileFeatures::Named(a), TileFeatures::Named(b)) => str_eq(a, b),
        }
    }
}

impl vstd::std_specs::cmp::PartialEqSpecImpl for TileFeatures {
    open spec fn obeys_eq_spec() -> bool {
        true
    }

    open spec fn eq_spec(&self, other: &TileFeatures) -> bool {
        feat_label(*self) == feat_label(*other)
    }
}

/// A single addressable cell: a signed coordinate pair, an on/off state,
/// and the ordered list of features attached to it.
#[derive(Debug, Clone)]
pub struct Tile {
    pub x: i32,
    pub y: i32,
    pub state: bool,
    pub features: Vec<TileFeatures>,
}

/// Two tiles agree on coordinate, state, and the labels of their features.
pub open spec fn tile_like(a: Tile, b: Tile) -> bool {
    &&& a.x == b.x
    &&& a.y == b.y
    &&& a.state == b.state
    &&& a.features@.len() == b.features@.len()
    &&& forall|i: int|
        0 <= i < a.features@.len() ==> feat_label(#[trigger] a.features@[i]) == feat_label(
            b.features@[i],
        )
}

impl PartialEq for Tile {
    fn eq(&self, other: &Tile) -> bool {
        if !(self.x == other.x && self.y == other.y && self.state == other.state) {
            return false;
        }
        if self.features.len() != other.features.len() {
            return false;
        }
        let mut i: usize = 0;
        while i < self.features.len()
            invariant
                i <= self.features@.len(),
                self.features@.len() == other.features@.len(),
                forall|j: int|
                    0 <= j < i ==> feat_label(#[trigger] self.features@[j]) == feat_label(
                        other.features@[j],
                    ),
            decreases self.features@.len() - i,
        {
            if !(self.features[i] == other.features[i]) {
                return false;
            }
            i += 1;
        }
        true
    }
}

impl vstd::std_specs::cmp::PartialEqSpecImpl for Tile {
    open spec fn obeys_eq_spec() -> bool {
        true
    }

    open spec fn eq_spec(&self, other: &Tile) -> bool {
        tile_like(*self, *other)
    }
}

/// A grid: its tiling kind, the full tile collection (a flat sequence,
/// with no index structure), and the square extent it was created with.
#[derive(Debug, Clone)]
pub struct Grid {
    pub kind: GridKind,
    pub tiles: Vec<Tile>,
    pub size: Size,
}

/// The state reported for a coordinate: `On` or `Off` when a tile backs
/// it, `Void` when no tile exists there.
#[derive(Debug, Clone, Copy, PartialEq, Eq, Structural)]
pub enum TileState {
    On,
    Off,
    Void,
}

/// When false, moving onto a non-existent tile would generate a new one;
/// when true, such a move is cancelled. Declared policy only: no current
/// operation reads it, and rendering never generates tiles.
pub const FIXED_SIZE: bool = true;

/// The default square grid edge length. All sides are equal.
pub const GRID_SIZE: usize = 20;

/// The glyphs the renderer prints for a tile that is on, one that is off,
/// and a coordinate with no tile.
#[derive(Debug, Clone, Copy)]
pub struct UiTiles {
    pub on: &'static str,
    pub off: &'static str,
    pub void: &'static str,
}

/// The default glyph configuration for the renderer.
pub fn default_ui_tiles() -> (u: UiTiles)
    ensures
        u.on@ == "██"@,
        u.off@ == "░░"@,
        u.void@ == "▗▘"@,
{
    UiTiles { on: "██", off: "░░", void: "▗▘" }
}

/// One entry of the feature-to-glyph mapping the renderer consults:
/// the glyph printed for a tile whose last feature carries this label.
#[derive(Debug, Clone, Copy)]
pub struct FeatureGlyph {
    pub feature: TileFeatures,
    pub glyph: &'static str,
}

} // verus!

//! The diagnostic renderer: the bounding box of a grid's tiles, the
//! span figures printed in the summary lines, and the glyph block that
//! pictures the grid row by row.

use vstd::math::abs;
use vstd::prelude::*;
use vstd::string::StringExecFns;

use crate::ops::first_match;
use crate::ops::tile_at;
use crate::types::FeatureGlyph;
use crate::types::Grid;
use crate::types::Tile;
use crate::types::TileFeatures;
use crate::types::UiTiles;
use crate::types::feat_label;

verus! {

/// The largest x coordinate among the tiles, seeded at 0: a grid whose
/// tiles all sit at negative x still reports a maximum of 0.
pub open spec fn spec_max_x(tiles: Seq<Tile>) -> int
    decreases tiles.len(),
{
    if tiles.len() == 0 {
        0
    } else {
        let rest = spec_max_x(tiles.drop_last());
        if tiles.last().x as int > rest {
            tiles.last().x as int
        } else {
            rest
        }
    }
}

/// The smallest x coordinate among the tiles, seeded at 0.
pub open spec fn spec_min_x(tiles: Seq<Tile>) -> int
    decreases tiles.len(),
{
    if tiles.len() == 0 {
        0
    } else {
        let rest = spec_min_x(tiles.drop_last());
        if (tiles.last().x as int) < rest {
            tiles.last().x as int
        } else {
            rest
        }
    }
}

/// The largest y coordinate among the tiles, seeded at 0.
pub open spec fn spec_max_y(tiles: Seq<Tile>) -> int
    decreases tiles.len(),
{
    if tiles.len() == 0 {
        0
    } else {
        let rest = spec_max_y(tiles.drop_last());
        if tiles.last().y as int > rest {
            tiles.last().y as int
        } else {
            rest
        }
    }
}

/// The smallest y coordinate among the tiles, seeded at 0.
pub open spec fn spec_min_y(tiles: Seq<Tile>) -> int
    decreases tiles.len(),
{
    if tiles.len() == 0 {
        0
    } else {
        let rest = spec_min_y(tiles.drop_last());
        if (tiles.last().y as int) < rest {
            tiles.last().y as int
        } else {
            rest
        }
    }
}

/// The bounding box of a grid's tiles, each extent seeded at 0.
#[derive(Debug, Clone, Copy)]
pub struct Bounds {
    pub min_x: i32,
    pub max_x: i32,
    pub min_y: i32,
    pub max_y: i32,
}

/// Computes the bounding box of the grid's tile coordinates, each
/// extent seeded at 0, so the minima never exceed 0 and the maxima
/// never fall below it.
pub fn grid_bounds(grid: &Grid) -> (b: Bounds)
    ensures
        b.min_x as int == spec_min_x(grid.tiles@),
        b.max_x as int == spec_max_x(grid.tiles@),
        b.min_y as int == spec_min_y(grid.tiles@),
        b.max_y as int == spec_max_y(grid.tiles@),
        b.min_x <= 0 <= b.max_x,
        b.min_y <= 0 <= b.max_y,
{
    let mut max_x: i32 = 0;
    let mut min_x: i32 = 0;
    let mut max_y: i32 = 0;
    let mut min_y: i32 = 0;
    let mut i: usize = 0;
    while i < grid.tiles.len()
        invariant
            i <= grid.tiles@.len(),
            min_x as int == spec_min_x(grid.tiles@.take(i as int)),
            max_x as int == spec_max_x(grid.tiles@.take(i as int)),
            min_y as int == spec_min_y(grid.tiles@.take(i as int)),
            max_y as int == spec_max_y(grid.tiles@.take(i as int)),
            min_x <= 0 <= max_x,
            min_y <= 0 <= max_y,
        decreases grid.tiles@.len() - i,
    {
        let t = &grid.tiles[i];
        proof {
            assert(grid.tiles@.take(i as int + 1).drop_last() =~= grid.tiles@.take(i as int));
            assert(grid.tiles@.take(i as int + 1).last() == grid.tiles@[i as int]);
        }
        if t.x > max_x {
            max_x = t.x;
        } else if t.x < min_x {
            min_x = t.x;
        }
        if t.y > max_y {
            max_y = t.y;
        } else if t.y < min_y {
            min_y = t.y;
        }
        i += 1;
    }
    proof {
        assert(grid.tiles@.take(grid.tiles@.len() as int) =~= grid.tiles@);
    }
    Bounds { min_x, max_x, min_y, max_y }
}

/// The span figures of the summary lines: per axis the sum `|min| +
/// |max|` (which double-counts nothing here, the minima being at most
/// 0 and the maxima at least 0) and its half as the centre.
#[derive(Debug, Clone, Copy)]
pub struct Spans {
    pub size_x: i32,
    pub size_y: i32,
    pub center_x: i32,
    pub center_y: i32,
}

/// Computes the summary spans of a bounding box: per axis the sum of
/// the absolute extents, and half of it as the centre.
pub fn bounds_spans(b: &Bounds) -> (s: Spans)
    requires
        b.min_x <= 0 <= b.max_x,
        b.min_y <= 0 <= b.max_y,
        b.max_x as int - b.min_x as int <= i32::MAX as int,
        b.max_y as int - b.min_y as int <= i32::MAX as int,
    ensures
        s.size_x as int == abs(b.min_x as int) + abs(b.max_x as int),
        s.size_y as int == abs(b.min_y as int) + abs(b.max_y as int),
        s.center_x as int == s.size_x as int / 2,
        s.center_y as int == s.size_y as int / 2,
{
    let size_x = b.max_x - b.min_x;
    let size_y = b.max_y - b.min_y;
    Spans { size_x, size_y, center_x: size_x / 2, center_y: size_y / 2 }
}

/// The glyph the mapping assigns to the feature with this label: the
/// glyph of the first entry whose feature label matches, if any.
pub open spec fn glyph_lookup(fm: Seq<FeatureGlyph>, f: TileFeatures) -> Option<Seq<char>>
    decreases fm.len(),
{
    if fm.len() == 0 {
        None
    } else if feat_label(fm[0].feature) == feat_label(f) {
        Some(fm[0].glyph@)
    } else {
        glyph_lookup(fm.drop_first(), f)
    }
}

/// Every tile that carries features has a glyph mapped for its last
/// feature: the renderer has no fallback for a known feature without a
/// glyph.
pub open spec fn features_mapped(tiles: Seq<Tile>, fm: Seq<FeatureGlyph>) -> bool {
    forall|i: int|
        0 <= i < tiles.len() && (#[trigger] tiles[i]).features@.len() > 0 ==> glyph_lookup(
            fm,
            tiles[i].features@.last(),
        ) is Some
}

/// The glyph printed for the cell at `(x, y)`: the mapped glyph of the
/// first matching tile's last feature, else that tile's on/off glyph,
/// or the void glyph when no tile sits there.
pub open spec fn cell_glyph(
    tiles: Seq<Tile>,
    ui: UiTiles,
    fm: Seq<FeatureGlyph>,
    x: int,
    y: int,
) -> Seq<char> {
    match first_match(tiles, x, y) {
        None => ui.void@,
        Some(t) => if t.features@.len() > 0 {
            match glyph_lookup(fm, t.features@.last()) {
                Some(g) => g,
                None => Seq::empty(),
            }
        } else if t.state {
            ui.on@
        } else {
            ui.off@
        },
    }
}

/// One rendered row: the cell glyphs for `x` from `x_lo` to `x_hi`
/// inclusive, in order.
pub open spec fn row_chars(
    tiles: Seq<Tile>,
    ui: UiTiles,
    fm: Seq<FeatureGlyph>,
    x_lo: int,
    x_hi: int,
    y: int,
) -> Seq<char>
    decreases x_hi + 1 - x_lo,
{
    if x_lo > x_hi {
        Seq::empty()
    } else {
        row_chars(tiles, ui, fm, x_lo, x_hi - 1, y) + cell_glyph(tiles, ui, fm, x_hi, y)
    }
}

/// The rendered block: the rows for `y` from `y_lo` to `y_hi`
/// inclusive, each closed by a newline.
pub open spec fn block_chars(
    tiles: Seq<Tile>,
    ui: UiTiles,
    fm: Seq<FeatureGlyph>,
    x_lo: int,
    x_hi: int,
    y_lo: int,
    y_hi: int,
) -> Seq<char>
    decreases y_hi + 1 - y_lo,
{
    if y_lo > y_hi {
        Seq::empty()
    } else {
        block_chars(tiles, ui, fm, x_lo, x_hi, y_lo, y_hi - 1) + row_chars(
            tiles,
            ui,
            fm,
            x_lo,
            x_hi,
            y_hi,
        ) + seq!['\n']
    }
}

/// A first match comes from the sequence itself and sits at the looked
/// up coordinate.
proof fn lemma_first_match_is_elem(tiles: Seq<Tile>, x: int, y: int)
    ensures
        match first_match(tiles, x, y) {
            Some(t) => has_match_elem(tiles, x, y, t),
            None => true,
        },
    decreases tiles.len(),
{
    if tiles.len() > 0 && !tile_at(tiles[0], x, y) {
        lemma_first_match_is_elem(tiles.drop_first(), x, y);
        if let Some(t) = first_match(tiles.drop_first(), x, y) {
            let i = choose|i: int|
                0 <= i < tiles.drop_first().len() && tiles.drop_first()[i] == t && tile_at(t, x, y);
            assert(tiles[i + 1] == t);
        }
    }
}

/// The tile occurs in the sequence and sits at `(x, y)`.
pub open spec fn has_match_elem(tiles: Seq<Tile>, x: int, y: int, t: Tile) -> bool {
    exists|i: int| 0 <= i < tiles.len() && tiles[i] == t && tile_at(t, x, y)
}

/// The first tile of the collection at `(x, y)`, if any.
fn find_tile<'a>(tiles: &'a Vec<Tile>, x: i32, y: i32) -> (r: Option<&'a Tile>)
    ensures
        match r {
            Some(t) => first_match(tiles@, x as int, y as int) == Some(*t),
            None => first_match(tiles@, x as int, y as int) is None,
        },
{
    let mut i: usize = 0;
    proof {
        assert(tiles@.skip(0) =~= tiles@);
    }
    while i < tiles.len()
        invariant
            i <= tiles@.len(),
            first_match(tiles@, x as int, y as int) == first_match(
                tiles@.skip(i as int),
                x as int,
                y as int,
            ),
        decreases tiles@.len() - i,
    {
        let t = &tiles[i];
        proof {
            assert(tiles@.skip(i as int)[0] == tiles@[i as int]);
        }
        if t.x == x && t.y == y {
            return Some(t);
        }
        proof {
            assert(tiles@.skip(i as int).drop_first() =~= tiles@.skip(i as int + 1));
        }
        i += 1;
    }
    proof {
        assert(tiles@.skip(tiles@.len() as int) =~= Seq::<Tile>::empty());
    }
    None
}

/// The glyph mapped for the feature, by the first entry whose label
/// matches.
fn glyph_for(fm: &Vec<FeatureGlyph>, f: &TileFeatures) -> (r: Option<&'static str>)
    ensures
        match r {
            Some(g) => glyph_lookup(fm@, *f) == Some(g@),
            None => glyph_lookup(fm@, *f) is None,
        },
{
    let mut i: usize = 0;
    proof {
        assert(fm@.skip(0) =~= fm@);
    }
    while i < fm.len()
        invariant
            i <= fm@.len(),
            glyph_lookup(fm@, *f) == glyph_lookup(fm@.skip(i as int), *f),
        decreases fm@.len() - i,
    {
        let e = &fm[i];
        proof {
            assert(fm@.skip(i as int)[0] == fm@[i as int]);
        }
        if e.feature == *f {
            return Some(e.glyph);
        }
        proof {
            assert(fm@.skip(i as int).drop_first() =~= fm@.skip(i as int + 1));
        }
        i += 1;
    }
    proof {
        assert(fm@.skip(fm@.len() as int) =~= Seq::<FeatureGlyph>::empty());
    }
    None
}

/// The glyph for one cell, as the renderer prints it.
fn cell_str(grid: &Grid, ui: &UiTiles, fm: &Vec<FeatureGlyph>, x: i32, y: i32) -> (r: &'static str)
    requires
        features_mapped(grid.tiles@, fm@),
    ensures
        r@ == cell_glyph(grid.tiles@, *ui, fm@, x as int, y as int),
{
    match find_tile(&grid.tiles, x, y) {
        None => ui.void,
        Some(t) => {
            if t.features.len() > 0 {
                proof {
                    lemma_first_match_is_elem(grid.tiles@, x as int, y as int);
                    let i = choose|i: int|
                        0 <= i < grid.tiles@.len() && grid.tiles@[i] == *t && tile_at(
                            *t,
                            x as int,
                            y as int,
                        );
                    assert(glyph_lookup(fm@, grid.tiles@[i].features@.last()) is Some);
                }
                let f = &t.features[t.features.len() - 1];
                match glyph_for(fm, f) {
                    Some(g) => g,
                    None => ui.void,  // unreachable: every carried feature is mapped
                }
            } else if t.state {
                ui.on
            } else {
                ui.off
            }
        },
    }
}

/// Renders the grid's bounding box as text: for every row of the box,
/// top to bottom, the glyph of each cell left to right, each row closed
/// by a newline. The box is the one `grid_bounds` reports, so the
/// minima are seeded at 0.
pub fn render_grid(grid: &Grid, ui: &UiTiles, fm: &Vec<FeatureGlyph>) -> (out: String)
    requires
        features_mapped(grid.tiles@, fm@),
    ensures
        out@ == block_chars(
            grid.tiles@,
            *ui,
            fm@,
            spec_min_x(grid.tiles@),
            spec_max_x(grid.tiles@),
            spec_min_y(grid.tiles@),
            spec_max_y(grid.tiles@),
        ),
{
    let b = grid_bounds(grid);
    let ghost x_lo = b.min_x as int;
    let ghost x_hi = b.max_x as int;
    let mut out = String::new();
    let mut y: i64 = b.min_y as i64;
    proof {
        assert(out@ =~= block_chars(
            grid.tiles@,
            *ui,
            fm@,
            x_lo,
            x_hi,
            b.min_y as int,
            b.min_y as int - 1,
        ));
    }
    while y <= b.max_y as i64
        invariant
            features_mapped(grid.tiles@, fm@),
            b.min_x as int == spec_min_x(grid.tiles@),
            b.max_x as int == spec_max_x(grid.tiles@),
            b.min_y as int == spec_min_y(grid.tiles@),
            b.max_y as int == spec_max_y(grid.tiles@),
            x_lo == b.min_x as int,
            x_hi == b.max_x as int,
            b.min_y as int <= y as int <= b.max_y as int + 1,
            out@ == block_chars(grid.tiles@, *ui, fm@, x_lo, x_hi, b.min_y as int, y as int - 1),
        decreases b.max_y as int + 1 - y as int,
    {
        let mut x: i64 = b.min_x as i64;
        let ghost row_start = out@;
        proof {
            assert(out@ =~= row_start + row_chars(
                grid.tiles@,
                *ui,
                fm@,
                x_lo,
                b.min_x as int - 1,
                y as int,
            ));
        }
        while x <= b.max_x as i64
            invariant
                features_mapped(grid.tiles@, fm@),
                x_lo == b.min_x as int,
                x_hi == b.max_x as int,
                b.min_y as int <= y as int <= b.max_y as int,
                b.min_x as int <= x as int <= b.max_x as int + 1,
                out@ == row_start + row_chars(grid.tiles@, *ui, fm@, x_lo, x as int - 1, y as int),
                row_start == block_chars(
                    grid.tiles@,
                    *ui,
                    fm@,
                    x_lo,
                    x_hi,
                    b.min_y as int,
                    y as int - 1,
                ),
            decreases b.max_x as int + 1 - x as int,
        {
            let g = cell_str(grid, ui, fm, x as i32, y as i32);
            out.append(g);
            proof {
                assert(out@ =~= row_start + row_chars(
                    grid.tiles@,
                    *ui,
                    fm@,
                    x_lo,
                    x as int,
                    y as int,
                ));
            }
            x += 1;
        }
        out.append("\n");
        proof {
            reveal_strlit("\n");
            assert("\n"@ =~= seq!['\n']);
            assert(out@ =~= block_chars(
                grid.tiles@,
                *ui,
                fm@,
                x_lo,
                x_hi,
                b.min_y as int,
                y as int,
            ));
        }
        y += 1;
    }
    out
}

} // verus!

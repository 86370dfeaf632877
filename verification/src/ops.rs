//! The grid operations: creation, coordinate lookup, tile update, and
//! the deduplicating insertion helper, each against a sequence-level
//! specification.

use vstd::arithmetic::div_mod::lemma_fundamental_div_mod_converse;
use vstd::prelude::*;

use crate::types::Grid;
use crate::types::GridKind;
use crate::types::Size;
use crate::types::Tile;
use crate::types::TileFeatures;
use crate::types::TileState;

verus! {

/// The tile sits at coordinate `(x, y)`.
pub open spec fn tile_at(t: Tile, x: int, y: int) -> bool {
    t.x as int == x && t.y as int == y
}

/// Some tile of the sequence sits at coordinate `(x, y)`.
pub open spec fn has_tile_at(tiles: Seq<Tile>, x: int, y: int) -> bool {
    exists|i: int| 0 <= i < tiles.len() && tile_at(#[trigger] tiles[i], x, y)
}

/// The first tile of the sequence at coordinate `(x, y)`, if any.
pub open spec fn first_match(tiles: Seq<Tile>, x: int, y: int) -> Option<Tile>
    decreases tiles.len(),
{
    if tiles.len() == 0 {
        None
    } else if tile_at(tiles[0], x, y) {
        Some(tiles[0])
    } else {
        first_match(tiles.drop_first(), x, y)
    }
}

/// The state reported for coordinate `(x, y)`: the state of the first
/// tile there, or `Void` when no tile sits there.
pub open spec fn spec_state_tile(tiles: Seq<Tile>, x: int, y: int) -> TileState {
    match first_match(tiles, x, y) {
        None => TileState::Void,
        Some(t) => if t.state {
            TileState::On
        } else {
            TileState::Off
        },
    }
}

/// Tile `i` of a freshly created grid of edge `size`: it sits at
/// `(i / size, i % size)`, carries the default state, and has no
/// features.
pub open spec fn init_tile_ok(t: Tile, size: int, s: bool, i: int) -> bool {
    &&& t.x as int == i / size
    &&& t.y as int == i % size
    &&& t.state == s
    &&& t.features@.len() == 0
}

/// The grid is exactly what creation with the given arguments yields:
/// `size * size` tiles, one per coordinate of `[0, size) x [0, size)`
/// in row-major order, each with the default state and no features.
pub open spec fn is_init_grid(g: Grid, kind: GridKind, size: usize, s: bool) -> bool {
    &&& g.kind == kind
    &&& g.size.x == size
    &&& g.size.y == size
    &&& g.tiles@.len() == size * size
    &&& forall|i: int|
        0 <= i < g.tiles@.len() ==> init_tile_ok(#[trigger] g.tiles@[i], size as int, s, i)
}

/// Creates a square grid: one tile for every coordinate pair of
/// `[0, size) x [0, size)`, each set to the default state with no
/// features. A `size` of zero yields an empty tile collection.
pub fn grid_init(kind: GridKind, size: usize, default_state: bool) -> (g: Grid)
    requires
        size <= i32::MAX as usize,
        size * size <= usize::MAX,
    ensures
        is_init_grid(g, kind, size, default_state),
{
    let mut tiles: Vec<Tile> = Vec::new();
    let mut x: usize = 0;
    while x < size
        invariant
            x <= size,
            size <= i32::MAX as usize,
            size * size <= usize::MAX,
            tiles@.len() == x * size,
            forall|i: int|
                0 <= i < tiles@.len() ==> init_tile_ok(
                    #[trigger] tiles@[i],
                    size as int,
                    default_state,
                    i,
                ),
        decreases size - x,
    {
        let mut y: usize = 0;
        while y < size
            invariant
                x < size,
                y <= size,
                size <= i32::MAX as usize,
                size * size <= usize::MAX,
                tiles@.len() == x * size + y,
                forall|i: int|
                    0 <= i < tiles@.len() ==> init_tile_ok(
                        #[trigger] tiles@[i],
                        size as int,
                        default_state,
                        i,
                    ),
            decreases size - y,
        {
            proof {
                assert(x * size + y < size * size) by (nonlinear_arith)
                    requires
                        x < size,
                        y < size,
                ;
                lemma_fundamental_div_mod_converse(
                    (x * size + y) as int,
                    size as int,
                    x as int,
                    y as int,
                );
            }
            tiles.push(Tile { x: x as i32, y: y as i32, state: default_state, features: Vec::new() });
            y += 1;
        }
        x += 1;
        proof {
            assert((x - 1) * size + size == x * size) by (nonlinear_arith);
        }
    }
    Grid { kind, tiles, size: Size { x: size, y: size } }
}

/// Holds when no two tiles of the sequence share a coordinate pair.
pub open spec fn coords_unique(tiles: Seq<Tile>) -> bool {
    forall|i: int, j: int|
        #![trigger tiles[i], tiles[j]]
        0 <= i < j < tiles.len() ==> !(tiles[i].x == tiles[j].x && tiles[i].y == tiles[j].y)
}

/// Deduplication by coordinate, first occurrence wins: each tile is
/// kept only when no earlier kept tile already sits at its coordinate.
pub open spec fn spec_add_tiles(tiles: Seq<Tile>) -> Seq<Tile>
    decreases tiles.len(),
{
    if tiles.len() == 0 {
        Seq::empty()
    } else {
        let rest = spec_add_tiles(tiles.drop_last());
        let t = tiles.last();
        if has_tile_at(rest, t.x as int, t.y as int) {
            rest
        } else {
            rest.push(t)
        }
    }
}

/// Whether some tile of the collection sits at coordinate `(x, y)`.
fn contains_coord(tiles: &Vec<Tile>, x: i32, y: i32) -> (r: bool)
    ensures
        r == has_tile_at(tiles@, x as int, y as int),
{
    let mut i: usize = 0;
    while i < tiles.len()
        invariant
            i <= tiles@.len(),
            forall|j: int| 0 <= j < i ==> !tile_at(#[trigger] tiles@[j], x as int, y as int),
        decreases tiles@.len() - i,
    {
        let t = &tiles[i];
        if t.x == x && t.y == y {
            return true;
        }
        i += 1;
    }
    false
}

/// Deduplicates a tile sequence by coordinate, first occurrence wins:
/// a tile is appended to the output only when no tile already in the
/// output shares its coordinate pair.
pub fn add_tiles(tiles_in: Vec<Tile>) -> (r: Vec<Tile>)
    ensures
        r@ == spec_add_tiles(tiles_in@),
{
    let ghost orig = tiles_in@;
    let mut tiles_in = tiles_in;
    let mut tiles_out: Vec<Tile> = Vec::new();
    while tiles_in.len() > 0
        invariant
            tiles_in@.len() <= orig.len(),
            tiles_in@ =~= orig.skip(orig.len() - tiles_in@.len()),
            tiles_out@ == spec_add_tiles(orig.take(orig.len() - tiles_in@.len())),
        decreases tiles_in@.len(),
    {
        let ghost p = orig.len() - tiles_in@.len();
        let tile_in = tiles_in.remove(0);
        proof {
            assert(tile_in == orig[p]);
            assert(tiles_in@ =~= orig.skip(p + 1));
            assert(orig.take(p + 1).drop_last() =~= orig.take(p));
            assert(orig.take(p + 1).last() == orig[p]);
        }
        let unique = !contains_coord(&tiles_out, tile_in.x, tile_in.y);
        if unique {
            tiles_out.push(tile_in);
        }
    }
    proof {
        assert(orig.take(orig.len() as int) =~= orig);
    }
    tiles_out
}

/// Returns the state of the tile at `(x, y)`: `On` or `Off` from the
/// first matching tile, `Void` when no tile sits there.
pub fn grid_state_tile(grid: &Grid, x: i32, y: i32) -> (r: TileState)
    ensures
        r == spec_state_tile(grid.tiles@, x as int, y as int),
{
    let mut i: usize = 0;
    proof {
        assert(grid.tiles@.skip(0) =~= grid.tiles@);
    }
    while i < grid.tiles.len()
        invariant
            i <= grid.tiles@.len(),
            first_match(grid.tiles@, x as int, y as int) == first_match(
                grid.tiles@.skip(i as int),
                x as int,
                y as int,
            ),
        decreases grid.tiles@.len() - i,
    {
        let t = &grid.tiles[i];
        proof {
            assert(grid.tiles@.skip(i as int)[0] == grid.tiles@[i as int]);
        }
        if t.x == x && t.y == y {
            if t.state {
                return TileState::On;
            } else {
                return TileState::Off;
            }
        }
        proof {
            assert(grid.tiles@.skip(i as int).drop_first() =~= grid.tiles@.skip(i as int + 1));
        }
        i += 1;
    }
    proof {
        assert(grid.tiles@.skip(grid.tiles@.len() as int) =~= Seq::<Tile>::empty());
    }
    TileState::Void
}

/// The updated tile keeps its coordinate, takes the new state, and has
/// the new features appended, in order, after its old ones.
pub open spec fn updated_tile(told: Tile, tnew: Tile, s: bool, fs: Seq<TileFeatures>) -> bool {
    &&& tnew.x == told.x
    &&& tnew.y == told.y
    &&& tnew.state == s
    &&& tnew.features@ == told.features@ + fs
}

/// The grid `r` is `g` after an update at `(x, y)`: same kind and size,
/// same tiles everywhere else, and every tile at `(x, y)` rewritten to
/// the new state with the new features appended.
pub open spec fn is_updated_grid(
    g: Grid,
    r: Grid,
    x: int,
    y: int,
    s: bool,
    fs: Seq<TileFeatures>,
) -> bool {
    &&& r.kind == g.kind
    &&& r.size == g.size
    &&& r.tiles@.len() == g.tiles@.len()
    &&& forall|i: int|
        0 <= i < g.tiles@.len() && !tile_at(g.tiles@[i], x, y) ==> #[trigger] r.tiles@[i]
            == g.tiles@[i]
    &&& forall|i: int|
        0 <= i < g.tiles@.len() && tile_at(g.tiles@[i], x, y) ==> updated_tile(
            g.tiles@[i],
            #[trigger] r.tiles@[i],
            s,
            fs,
        )
}

/// Rewrites every tile at `(x, y)`: sets its state and appends the new
/// features after its existing ones, so repeated updates accumulate.
/// All other tiles, and the grid's kind and size, are preserved. When
/// no tile sits at `(x, y)` the grid comes back unchanged.
pub fn grid_update_tile(
    grid: Grid,
    x: i32,
    y: i32,
    state: bool,
    features_new: Vec<TileFeatures>,
) -> (r: Grid)
    ensures
        is_updated_grid(grid, r, x as int, y as int, state, features_new@),
{
    let Grid { kind, size, tiles } = grid;
    let ghost orig = tiles@;
    let mut tiles = tiles;
    let mut tiles_out: Vec<Tile> = Vec::new();
    while tiles.len() > 0
        invariant
            tiles@.len() + tiles_out@.len() == orig.len(),
            tiles@ =~= orig.skip(tiles_out@.len() as int),
            forall|j: int|
                0 <= j < tiles_out@.len() && !tile_at(orig[j], x as int, y as int)
                    ==> #[trigger] tiles_out@[j] == orig[j],
            forall|j: int|
                0 <= j < tiles_out@.len() && tile_at(orig[j], x as int, y as int) ==> updated_tile(
                    orig[j],
                    #[trigger] tiles_out@[j],
                    state,
                    features_new@,
                ),
        decreases tiles@.len(),
    {
        let ghost p = tiles_out@.len() as int;
        let mut t = tiles.remove(0);
        proof {
            assert(t == orig[p]);
            assert(tiles@ =~= orig.skip(p + 1));
        }
        if t.x == x && t.y == y {
            let ghost old_feats = t.features@;
            t.state = state;
            let mut k: usize = 0;
            while k < features_new.len()
                invariant
                    k <= features_new@.len(),
                    t.features@ =~= old_feats + features_new@.take(k as int),
                    t.x == orig[p].x,
                    t.y == orig[p].y,
                    t.state == state,
                decreases features_new@.len() - k,
            {
                t.features.push(features_new[k]);
                proof {
                    assert(old_feats + features_new@.take(k as int) + seq![features_new@[k as int]]
                        =~= old_feats + features_new@.take(k as int + 1));
                }
                k += 1;
            }
            proof {
                assert(features_new@.take(features_new@.len() as int) =~= features_new@);
                assert(t.features@ == old_feats + features_new@);
            }
        }
        tiles_out.push(t);
    }
    Grid { kind, size, tiles: tiles_out }
}

} // verus!

//! The laws the operations obey, proved from their sequence-level
//! specifications: completeness of creation, lookup on a fresh grid,
//! accumulation across updates, the no-op on a missed update, and the
//! idempotence of deduplication.

use vstd::arithmetic::div_mod::lemma_fundamental_div_mod;
use vstd::arithmetic::div_mod::lemma_fundamental_div_mod_converse;
use vstd::arithmetic::div_mod::lemma_mod_pos_bound;
use vstd::prelude::*;

use crate::ops::coords_unique;
use crate::ops::first_match;
use crate::ops::has_tile_at;
use crate::ops::is_init_grid;
use crate::ops::is_updated_grid;
use crate::ops::spec_add_tiles;
use crate::ops::spec_state_tile;
use crate::ops::tile_at;
use crate::types::Grid;
use crate::types::GridKind;
use crate::types::Tile;
use crate::types::TileFeatures;
use crate::types::TileState;

verus! {

/// When no tile of the sequence sits at `(x, y)`, the first-match scan
/// finds nothing.
pub proof fn lemma_first_match_none(tiles: Seq<Tile>, x: int, y: int)
    requires
        forall|j: int| 0 <= j < tiles.len() ==> !tile_at(#[trigger] tiles[j], x, y),
    ensures
        first_match(tiles, x, y) is None,
    decreases tiles.len(),
{
    if tiles.len() > 0 {
        assert forall|j: int| 0 <= j < tiles.drop_first().len() implies !tile_at(
            #[trigger] tiles.drop_first()[j],
            x,
            y,
        ) by {
            assert(tiles.drop_first()[j] == tiles[j + 1]);
        }
        lemma_first_match_none(tiles.drop_first(), x, y);
    }
}

/// When tile `i` sits at `(x, y)` and no earlier tile does, the
/// first-match scan finds exactly tile `i`.
pub proof fn lemma_first_match_at(tiles: Seq<Tile>, x: int, y: int, i: int)
    requires
        0 <= i < tiles.len(),
        tile_at(tiles[i], x, y),
        forall|j: int| 0 <= j < i ==> !tile_at(#[trigger] tiles[j], x, y),
    ensures
        first_match(tiles, x, y) == Some(tiles[i]),
    decreases i,
{
    if i > 0 {
        assert forall|j: int| 0 <= j < i - 1 implies !tile_at(
            #[trigger] tiles.drop_first()[j],
            x,
            y,
        ) by {
            assert(tiles.drop_first()[j] == tiles[j + 1]);
        }
        assert(tiles.drop_first()[i - 1] == tiles[i]);
        lemma_first_match_at(tiles.drop_first(), x, y, i - 1);
    }
}

/// Creation is complete: a fresh grid of edge `size` holds exactly
/// `size * size` tiles, every coordinate of `[0, size) x [0, size)` is
/// backed by one, and no two tiles share a coordinate pair.
pub proof fn lemma_init_complete(g: Grid, kind: GridKind, size: usize, s: bool)
    requires
        is_init_grid(g, kind, size, s),
    ensures
        g.tiles@.len() == size * size,
        forall|xi: int, yi: int|
            0 <= xi < size && 0 <= yi < size ==> #[trigger] has_tile_at(g.tiles@, xi, yi),
        coords_unique(g.tiles@),
{
    let sz = size as int;
    assert forall|xi: int, yi: int|
        0 <= xi < size && 0 <= yi < size implies #[trigger] has_tile_at(g.tiles@, xi, yi) by {
        let i = xi * sz + yi;
        assert(0 <= i && i < sz * sz) by (nonlinear_arith)
            requires
                0 <= xi < sz,
                0 <= yi < sz,
                i == xi * sz + yi,
        ;
        lemma_fundamental_div_mod_converse(i, sz, xi, yi);
        assert(tile_at(g.tiles@[i], xi, yi));
    }
    assert forall|i: int, j: int|
        #![trigger g.tiles@[i], g.tiles@[j]]
        0 <= i < j < g.tiles@.len() implies !(g.tiles@[i].x == g.tiles@[j].x && g.tiles@[i].y
        == g.tiles@[j].y) by {
        if g.tiles@[i].x == g.tiles@[j].x && g.tiles@[i].y == g.tiles@[j].y {
            assert(sz != 0) by (nonlinear_arith)
                requires
                    sz * sz > 0,
            ;
            lemma_fundamental_div_mod(i, sz);
            lemma_fundamental_div_mod(j, sz);
        }
    }
}

/// Lookup on a fresh grid: every coordinate of `[0, size) x [0, size)`
/// reports the default state, every other coordinate reports `Void`.
pub proof fn lemma_init_lookup(g: Grid, kind: GridKind, size: usize, s: bool, x: i32, y: i32)
    requires
        is_init_grid(g, kind, size, s),
    ensures
        0 <= (x as int) < (size as int) && 0 <= (y as int) < (size as int) ==> spec_state_tile(
            g.tiles@,
            x as int,
            y as int,
        ) == (if s {
            TileState::On
        } else {
            TileState::Off
        }),
        !(0 <= (x as int) < (size as int) && 0 <= (y as int) < (size as int)) ==> spec_state_tile(
            g.tiles@,
            x as int,
            y as int,
        ) == TileState::Void,
{
    let xi = x as int;
    let yi = y as int;
    let sz = size as int;
    if 0 <= xi < sz && 0 <= yi < sz {
        let i = xi * sz + yi;
        assert(0 <= i && i < sz * sz) by (nonlinear_arith)
            requires
                0 <= xi < sz,
                0 <= yi < sz,
                i == xi * sz + yi,
        ;
        lemma_fundamental_div_mod_converse(i, sz, xi, yi);
        assert forall|j: int| 0 <= j < i implies !tile_at(#[trigger] g.tiles@[j], xi, yi) by {
            if tile_at(g.tiles@[j], xi, yi) {
                lemma_fundamental_div_mod(j, sz);
                assert(j / sz == xi && j % sz == yi);
                assert(j == sz * xi + yi);
                assert(sz * xi == xi * sz) by (nonlinear_arith);
                assert(false);
            }
        }
        lemma_first_match_at(g.tiles@, xi, yi, i);
    } else {
        assert forall|j: int| 0 <= j < g.tiles@.len() implies !tile_at(
            #[trigger] g.tiles@[j],
            xi,
            yi,
        ) by {
            if tile_at(g.tiles@[j], xi, yi) {
                assert(sz != 0) by (nonlinear_arith)
                    requires
                        sz * sz > 0,
                ;
                lemma_fundamental_div_mod(j, sz);
                lemma_mod_pos_bound(j, sz);
                assert(0 <= j / sz < sz) by (nonlinear_arith)
                    requires
                        sz > 0,
                        0 <= j < sz * sz,
                        j == sz * (j / sz) + (j % sz),
                        0 <= j % sz < sz,
                ;
            }
        }
        lemma_first_match_none(g.tiles@, xi, yi);
    }
}

/// Two updates at the same coordinate accumulate: the tiles there end
/// with the second state and with both feature sequences appended in
/// order; every other tile is untouched by both.
pub proof fn lemma_update_accumulates(
    g0: Grid,
    g1: Grid,
    g2: Grid,
    x: int,
    y: int,
    s1: bool,
    s2: bool,
    fs1: Seq<TileFeatures>,
    fs2: Seq<TileFeatures>,
)
    requires
        is_updated_grid(g0, g1, x, y, s1, fs1),
        is_updated_grid(g1, g2, x, y, s2, fs2),
    ensures
        g2.kind == g0.kind,
        g2.size == g0.size,
        g2.tiles@.len() == g0.tiles@.len(),
        forall|i: int|
            0 <= i < g0.tiles@.len() && !tile_at(g0.tiles@[i], x, y) ==> #[trigger] g2.tiles@[i]
                == g0.tiles@[i],
        forall|i: int|
            0 <= i < g0.tiles@.len() && tile_at(g0.tiles@[i], x, y) ==> {
                &&& (#[trigger] g2.tiles@[i]).x == g0.tiles@[i].x
                &&& g2.tiles@[i].y == g0.tiles@[i].y
                &&& g2.tiles@[i].state == s2
                &&& g2.tiles@[i].features@ == g0.tiles@[i].features@ + fs1 + fs2
            },
{
    assert forall|i: int|
        0 <= i < g0.tiles@.len() && !tile_at(g0.tiles@[i], x, y) implies #[trigger] g2.tiles@[i]
        == g0.tiles@[i] by {
        assert(g1.tiles@[i] == g0.tiles@[i]);
    }
    assert forall|i: int| 0 <= i < g0.tiles@.len() && tile_at(g0.tiles@[i], x, y) implies {
        &&& (#[trigger] g2.tiles@[i]).x == g0.tiles@[i].x
        &&& g2.tiles@[i].y == g0.tiles@[i].y
        &&& g2.tiles@[i].state == s2
        &&& g2.tiles@[i].features@ == g0.tiles@[i].features@ + fs1 + fs2
    } by {
        assert(tile_at(g1.tiles@[i], x, y));
    }
}

/// Updating a coordinate no tile sits at is a no-op: kind, size and the
/// whole tile sequence come back unchanged.
pub proof fn lemma_update_miss(g: Grid, r: Grid, x: int, y: int, s: bool, fs: Seq<TileFeatures>)
    requires
        is_updated_grid(g, r, x, y, s, fs),
        !has_tile_at(g.tiles@, x, y),
    ensures
        r.kind == g.kind,
        r.size == g.size,
        r.tiles@ == g.tiles@,
{
    assert forall|i: int| 0 <= i < g.tiles@.len() implies r.tiles@[i] == g.tiles@[i] by {
        assert(!tile_at(g.tiles@[i], x, y));
    }
    assert(r.tiles@ =~= g.tiles@);
}

/// Deduplication guarantees uniqueness: no two tiles of its result
/// share a coordinate pair.
pub proof fn lemma_add_tiles_unique(tiles: Seq<Tile>)
    ensures
        coords_unique(spec_add_tiles(tiles)),
    decreases tiles.len(),
{
    if tiles.len() > 0 {
        lemma_add_tiles_unique(tiles.drop_last());
        let rest = spec_add_tiles(tiles.drop_last());
        let t = tiles.last();
        if !has_tile_at(rest, t.x as int, t.y as int) {
            let out = rest.push(t);
            assert forall|i: int, j: int|
                #![trigger out[i], out[j]]
                0 <= i < j < out.len() implies !(out[i].x == out[j].x && out[i].y
                == out[j].y) by {
                if j < rest.len() {
                    assert(out[i] == rest[i] && out[j] == rest[j]);
                } else {
                    assert(out[j] == t && out[i] == rest[i]);
                    assert(!tile_at(rest[i], t.x as int, t.y as int));
                }
            }
        }
    }
}

/// Deduplication of a sequence already free of coordinate duplicates
/// returns it unchanged, order preserved.
pub proof fn lemma_add_tiles_noop(tiles: Seq<Tile>)
    requires
        coords_unique(tiles),
    ensures
        spec_add_tiles(tiles) == tiles,
    decreases tiles.len(),
{
    if tiles.len() == 0 {
        assert(spec_add_tiles(tiles) =~= tiles);
    } else {
        let prefix = tiles.drop_last();
        assert forall|i: int, j: int|
            #![trigger prefix[i], prefix[j]]
            0 <= i < j < prefix.len() implies !(prefix[i].x == prefix[j].x && prefix[i].y
            == prefix[j].y) by {
            assert(prefix[i] == tiles[i] && prefix[j] == tiles[j]);
        }
        lemma_add_tiles_noop(prefix);
        let t = tiles.last();
        if has_tile_at(prefix, t.x as int, t.y as int) {
            let i = choose|i: int| 0 <= i < prefix.len() && tile_at(#[trigger] prefix[i], t.x as int, t.y as int);
            assert(prefix[i] == tiles[i]);
            assert(tiles[i].x == tiles[tiles.len() - 1].x && tiles[i].y == tiles[tiles.len() - 1].y);
            assert(false);
        }
        assert(spec_add_tiles(tiles) =~= prefix.push(t));
        assert(prefix.push(t) =~= tiles);
    }
}

/// Deduplication is idempotent: applying it twice yields what one
/// application yields.
pub proof fn lemma_add_tiles_idempotent(tiles: Seq<Tile>)
    ensures
        spec_add_tiles(spec_add_tiles(tiles)) == spec_add_tiles(tiles),
{
    lemma_add_tiles_unique(tiles);
    lemma_add_tiles_noop(spec_add_tiles(tiles));
}

} // verus!

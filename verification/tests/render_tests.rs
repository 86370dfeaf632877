use grid::bounds_spans;
use grid::grid_bounds;
use grid::grid_init;
use grid::render_grid;
use grid::FeatureGlyph;
use grid::Grid;
use grid::GridKind;
use grid::Size;
use grid::Tile;
use grid::TileFeatures;
use grid::UiTiles;

fn tile(x: i32, y: i32, state: bool, features: Vec<TileFeatures>) -> Tile {
    Tile { x, y, state, features }
}

fn ascii_ui() -> UiTiles {
    UiTiles { on: "#", off: ".", void: " " }
}

#[test]
fn bounds_of_an_empty_grid_are_zero() {
    let g = Grid { kind: GridKind::Squares, tiles: vec![], size: Size { x: 0, y: 0 } };
    let b = grid_bounds(&g);
    assert_eq!((b.min_x, b.max_x, b.min_y, b.max_y), (0, 0, 0, 0));
}

#[test]
fn bounds_minima_are_seeded_at_zero() {
    let g = Grid {
        kind: GridKind::Squares,
        tiles: vec![tile(1, 2, true, vec![]), tile(3, 1, false, vec![])],
        size: Size { x: 0, y: 0 },
    };
    let b = grid_bounds(&g);
    assert_eq!((b.min_x, b.max_x, b.min_y, b.max_y), (0, 3, 0, 2));
}

#[test]
fn bounds_track_negative_coordinates() {
    let g = Grid {
        kind: GridKind::Squares,
        tiles: vec![tile(-2, 5, true, vec![]), tile(4, -3, false, vec![])],
        size: Size { x: 0, y: 0 },
    };
    let b = grid_bounds(&g);
    assert_eq!((b.min_x, b.max_x, b.min_y, b.max_y), (-2, 4, -3, 5));
}

#[test]
fn spans_sum_the_absolute_extents() {
    let g = Grid {
        kind: GridKind::Squares,
        tiles: vec![tile(-3, -1, true, vec![]), tile(4, 5, false, vec![])],
        size: Size { x: 0, y: 0 },
    };
    let s = bounds_spans(&grid_bounds(&g));
    assert_eq!((s.size_x, s.size_y), (7, 6));
    assert_eq!((s.center_x, s.center_y), (3, 3));
}

#[test]
fn render_covers_the_min_seeded_bounding_box() {
    let g = Grid {
        kind: GridKind::Squares,
        tiles: vec![tile(0, 0, false, vec![]), tile(2, 3, true, vec![])],
        size: Size { x: 0, y: 0 },
    };
    let out = render_grid(&g, &ascii_ui(), &vec![]);
    // rows 0..=3, columns 0..=2: 12 cells
    assert_eq!(out, ".  \n   \n   \n  #\n");
}

#[test]
fn render_fresh_grid_is_all_off() {
    let g = grid_init(GridKind::Squares, 2, false);
    let out = render_grid(&g, &ascii_ui(), &vec![]);
    assert_eq!(out, "..\n..\n");
}

#[test]
fn render_prints_the_glyph_of_the_last_feature() {
    let g = Grid {
        kind: GridKind::Squares,
        tiles: vec![
            tile(0, 0, false, vec![TileFeatures::Named("ruin"), TileFeatures::Named("tower")]),
            tile(1, 0, true, vec![]),
        ],
        size: Size { x: 0, y: 0 },
    };
    let fm = vec![
        FeatureGlyph { feature: TileFeatures::Named("ruin"), glyph: "R" },
        FeatureGlyph { feature: TileFeatures::Named("tower"), glyph: "T" },
    ];
    let out = render_grid(&g, &ascii_ui(), &fm);
    assert_eq!(out, "T#\n");
}

#[test]
fn render_uses_first_matching_tile_and_void_for_holes() {
    let g = Grid {
        kind: GridKind::Squares,
        tiles: vec![
            tile(1, 1, true, vec![]),
            tile(1, 1, false, vec![]),
            tile(-1, 0, true, vec![]),
        ],
        size: Size { x: 0, y: 0 },
    };
    let out = render_grid(&g, &ascii_ui(), &vec![]);
    // columns -1..=1, rows 0..=1; (1,1) rendered from the first of its two tiles
    assert_eq!(out, "#  \n  #\n");
}

use grid::add_tiles;
use grid::default_ui_tiles;
use grid::grid_init;
use grid::grid_state_tile;
use grid::grid_update_tile;
use grid::Grid;
use grid::GridKind;
use grid::Size;
use grid::str_eq;
use grid::Tile;
use grid::TileFeatures;
use grid::TileState;
use grid::FIXED_SIZE;
use grid::GRID_SIZE;

fn tile(x: i32, y: i32, state: bool, features: Vec<TileFeatures>) -> Tile {
    Tile { x, y, state, features }
}

#[test]
fn init_makes_a_tile_per_cell() {
    let g = grid_init(GridKind::Squares, 3, false);
    assert_eq!(g.tiles.len(), 9);
    assert_eq!(g.size.x, 3);
    assert_eq!(g.size.y, 3);
    assert_eq!(g.kind, GridKind::Squares);
    for x in 0..3i32 {
        for y in 0..3i32 {
            let t = &g.tiles[(x * 3 + y) as usize];
            assert_eq!(t.x, x);
            assert_eq!(t.y, y);
            assert!(!t.state);
            assert!(t.features.is_empty());
        }
    }
}

#[test]
fn init_zero_size_is_empty() {
    let g = grid_init(GridKind::Hex, 0, true);
    assert!(g.tiles.is_empty());
    assert_eq!(g.size.x, 0);
    assert_eq!(g.size.y, 0);
    assert_eq!(grid_state_tile(&g, 0, 0), TileState::Void);
}

#[test]
fn init_keeps_default_state() {
    let g = grid_init(GridKind::Squares, 2, true);
    assert_eq!(g.tiles.len(), 4);
    for t in &g.tiles {
        assert!(t.state);
    }
}

#[test]
fn lookup_on_fresh_grid() {
    let g = grid_init(GridKind::Squares, 4, true);
    for x in 0..4 {
        for y in 0..4 {
            assert_eq!(grid_state_tile(&g, x, y), TileState::On);
        }
    }
    assert_eq!(grid_state_tile(&g, 4, 0), TileState::Void);
    assert_eq!(grid_state_tile(&g, 0, 4), TileState::Void);
    assert_eq!(grid_state_tile(&g, -1, 0), TileState::Void);
    assert_eq!(grid_state_tile(&g, 100, 100), TileState::Void);
}

#[test]
fn lookup_first_match_wins() {
    let g = Grid {
        kind: GridKind::Squares,
        tiles: vec![tile(0, 0, true, vec![]), tile(0, 0, false, vec![])],
        size: Size { x: 1, y: 1 },
    };
    assert_eq!(grid_state_tile(&g, 0, 0), TileState::On);
}

#[test]
fn update_applies_and_preserves_others() {
    let g = grid_init(GridKind::Squares, 3, false);
    let before = g.clone();
    let g2 = grid_update_tile(g, 1, 1, true, vec![TileFeatures::Named("flag")]);
    assert_eq!(g2.tiles.len(), 9);
    assert_eq!(g2.kind, before.kind);
    assert_eq!(g2.size.x, before.size.x);
    assert_eq!(g2.size.y, before.size.y);
    for i in 0..9 {
        let t = &g2.tiles[i];
        if t.x == 1 && t.y == 1 {
            assert!(t.state);
            assert_eq!(t.features, vec![TileFeatures::Named("flag")]);
        } else {
            assert_eq!(*t, before.tiles[i]);
        }
    }
    assert_eq!(grid_state_tile(&g2, 1, 1), TileState::On);
    assert_eq!(grid_state_tile(&g2, 5, 5), TileState::Void);
}

#[test]
fn update_accumulates_features() {
    let g = grid_init(GridKind::Squares, 2, false);
    let g1 = grid_update_tile(g, 0, 1, true, vec![TileFeatures::Named("first")]);
    let g2 = grid_update_tile(
        g1,
        0,
        1,
        false,
        vec![TileFeatures::Named("second"), TileFeatures::Named("third")],
    );
    let t = g2.tiles.iter().find(|t| t.x == 0 && t.y == 1).unwrap();
    assert!(!t.state);
    assert_eq!(
        t.features,
        vec![
            TileFeatures::Named("first"),
            TileFeatures::Named("second"),
            TileFeatures::Named("third"),
        ]
    );
}

#[test]
fn update_miss_is_a_noop() {
    let g = grid_init(GridKind::Squares, 3, true);
    let before = g.clone();
    let g2 = grid_update_tile(g, 7, -2, false, vec![TileFeatures::Named("ghostly")]);
    assert_eq!(g2.kind, before.kind);
    assert_eq!(g2.size.x, before.size.x);
    assert_eq!(g2.size.y, before.size.y);
    assert_eq!(g2.tiles, before.tiles);
}

#[test]
fn add_tiles_first_occurrence_wins() {
    let out = add_tiles(vec![
        tile(0, 0, true, vec![TileFeatures::Named("keep")]),
        tile(1, 0, false, vec![]),
        tile(0, 0, false, vec![TileFeatures::Named("drop")]),
        tile(1, 0, true, vec![]),
    ]);
    assert_eq!(out.len(), 2);
    assert_eq!(out[0], tile(0, 0, true, vec![TileFeatures::Named("keep")]));
    assert_eq!(out[1], tile(1, 0, false, vec![]));
}

#[test]
fn add_tiles_keeps_duplicate_free_input() {
    let input = vec![
        tile(2, 1, true, vec![]),
        tile(0, 0, false, vec![TileFeatures::Named("mark")]),
        tile(-1, 5, true, vec![]),
    ];
    let out = add_tiles(input.clone());
    assert_eq!(out, input);
}

#[test]
fn add_tiles_is_idempotent() {
    let input = vec![
        tile(0, 0, true, vec![]),
        tile(0, 1, false, vec![]),
        tile(0, 0, false, vec![]),
        tile(2, 2, true, vec![]),
        tile(0, 1, true, vec![]),
    ];
    let once = add_tiles(input);
    let twice = add_tiles(once.clone());
    assert_eq!(twice, once);
}

#[test]
fn constants_match_the_declared_policy() {
    assert!(FIXED_SIZE);
    assert_eq!(GRID_SIZE, 20);
}

#[test]
fn default_glyphs() {
    let ui = default_ui_tiles();
    assert_eq!(ui.on, "██");
    assert_eq!(ui.off, "░░");
    assert_eq!(ui.void, "▗▘");
}

#[test]
fn str_eq_compares_contents() {
    assert!(str_eq("tile", "tile"));
    assert!(!str_eq("tile", "tale"));
    assert!(!str_eq("tile", "tiles"));
    assert!(str_eq("", ""));
}

#[test]
fn feature_equality_is_by_label() {
    let label = String::from("flag");
    let leaked: &'static str = Box::leak(label.into_boxed_str());
    assert_eq!(TileFeatures::Named("flag"), TileFeatures::Named(leaked));
    assert_ne!(TileFeatures::Named("flag"), TileFeatures::Named("banner"));
}

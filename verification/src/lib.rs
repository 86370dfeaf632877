//! A two-dimensional tiling grid: a fixed collection of addressable
//! cells, each with a binary state and an ordered list of decorative
//! features, together with a textual rendering routine for debugging.

pub mod laws;
pub mod ops;
pub mod render;
pub mod types;

pub use laws::lemma_add_tiles_idempotent;
pub use laws::lemma_add_tiles_noop;
pub use laws::lemma_add_tiles_unique;
pub use laws::lemma_first_match_at;
pub use laws::lemma_first_match_none;
pub use laws::lemma_init_complete;
pub use laws::lemma_init_lookup;
pub use laws::lemma_update_accumulates;
pub use laws::lemma_update_miss;
pub use ops::add_tiles;
pub use ops::coords_unique;
pub use ops::first_match;
pub use ops::grid_init;
pub use ops::grid_state_tile;
pub use ops::grid_update_tile;
pub use ops::has_tile_at;
pub use ops::init_tile_ok;
pub use ops::is_init_grid;
pub use ops::is_updated_grid;
pub use ops::spec_add_tiles;
pub use ops::spec_state_tile;
pub use ops::tile_at;
pub use ops::updated_tile;
pub use render::Bounds;
pub use render::Spans;
pub use render::block_chars;
pub use render::bounds_spans;
pub use render::cell_glyph;
pub use render::features_mapped;
pub use render::glyph_lookup;
pub use render::grid_bounds;
pub use render::render_grid;
pub use render::row_chars;
pub use render::spec_max_x;
pub use render::spec_max_y;
pub use render::spec_min_x;
pub use render::spec_min_y;
pub use types::FIXED_SIZE;
pub use types::FeatureGlyph;
pub use types::GRID_SIZE;
pub use types::Grid;
pub use types::GridKind;
pub use types::Size;
pub use types::Tile;
pub use types::TileFeatures;
pub use types::TileState;
pub use types::UiTiles;
pub use types::default_ui_tiles;
pub use types::feat_label;
pub use types::str_eq;
pub use types::tile_like;

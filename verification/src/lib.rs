//! Scoring of completed mahjong hands: decomposition of a hand into groups,
//! the scoring patterns each decomposition satisfies, and the best judgment.

pub mod agaritilesets;
pub mod context;
pub mod form;
pub mod judge;
pub mod sorting;
pub mod tile;
pub mod tiles;
pub mod tileset;
pub mod tilesets;
pub mod utils;

//! Board, economy and save-file rules of the Lightcore match-3 game.

pub mod light;
pub mod grid;
pub mod falling;
pub mod gravity;
pub mod spawning;
pub mod wave;
pub mod rewards;
pub mod swap;
pub mod shop;
pub mod input;
pub mod lifecycle;
pub mod hud;
pub mod text;
pub mod campaign;
pub mod run;
pub mod storage;
pub mod resolution;
pub mod platform;

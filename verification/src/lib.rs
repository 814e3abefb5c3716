//! Verified game-state logic of a small first-person 3D game: the menu and
//! settings state machine, keyboard input, frame-rate tiers, door bookkeeping
//! in loaded scenes, mesh index layout and light-tile resources.

pub mod game_manager;
pub mod session;
pub mod meshes;
pub mod model_import;
pub mod scene;
pub mod ui;

//! Verified geometry and planning logic of a set of WorldEdit-style commands
//! for a redstone-focused Minecraft server: selections, clipboard flips and
//! rotations, stacking, tiled schematic layouts, ROM lookup-table generation
//! and image stamping.

pub mod geometry;
pub mod clipboard;
pub mod rom;
pub mod container;
pub mod layout;
pub mod selection;
pub mod vertical;
pub mod image;
pub mod names;
pub mod history;
pub mod help;

//! Core of an interactive planning board: labeled recipe boxes are dragged
//! over a pannable two-dimensional surface, and the resource ratios of the
//! selected recipes are aggregated into a net-production summary.
//!
//! The crate holds the two subsystems with real invariants:
//! a pointer-driven drag/pan state machine over a scrollable coordinate
//! space, and a resource-flow data model (name interning, a recipe registry,
//! and the net-production aggregation). Rendering, file dialogs and other
//! UI plumbing are left to the surrounding application.

pub mod drag_plane;
pub mod factory;
pub mod factory_world;
pub mod geometry;
pub mod recipe_json;
pub mod search;

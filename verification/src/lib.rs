//! Falling sand on a field of rock.
//!
//! A scene is a set of rock cells drawn as polylines. Grains of sand enter
//! one at a time at a fixed cell and fall one row per step until they come
//! to rest, leave the scene, or block the entrance.
//!
//! [`parse_input`] reads a scene into a [`World`]. [`World::move_step`]
//! advances it where nothing lies below the rock; [`World::add_floor`] and
//! [`World::move_step_part2`] let the sand pile up on a floor instead. What
//! every function does is stated over [`scene::Scene`], the mathematical
//! model of a world, and [`run`] holds what is proved of whole runs.

pub mod cell;
pub mod parse;
pub mod path;
pub mod pour;
pub mod render;
pub mod run;
pub mod scene;
pub mod text;
pub mod world;

pub use crate::parse::{parse_input, parse_line, ParseError};
pub use crate::pour::{part1, part2, RunEnd, RunEndPart2};
pub use crate::render::Glyph;
pub use crate::world::{Clogged, Escaped, Step, World};

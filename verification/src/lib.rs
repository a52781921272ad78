//! A city of small people and the buildings that keep them content.
//!
//! Every tick the needs of each person wear a little, buildings within reach
//! give some of them back, people make up their minds about each other, and
//! everybody takes one step: the sum of idle wandering, of the company they
//! seek or shun, and of the pull of the nearest building that answers a need
//! that has become a problem.
//!
//! Every quantity is a fixed-point integer: a need score of `100_000` is one
//! hundred points, a coordinate of `1_000_000` is one world unit, and time is
//! counted in microseconds.  Nothing in the crate rounds implicitly; each
//! contract names the exact integer that comes out.
//!
//! * [`fixed`] and [`vector`]: integer square roots, and points and forces on
//!   the bounded plane of the world.
//! * [`timer`]: repeating clocks, and the wait before a building may be placed.
//! * [`chance`]: the seeded dice from which every random draw comes.
//! * [`person`], [`social`], [`movement`]: needs, opinions and forces.
//! * [`building`], [`drag`]: placing buildings, dragging them, pulling stacked
//!   ones apart.
//! * [`score`], [`selector`], [`states`]: what the panels show.
//! * [`world`]: all of it together, and the tick.

pub mod fixed;
pub mod vector;
pub mod chance;
pub mod timer;
pub mod drag;
pub mod building;
pub mod movement;
pub mod person;
pub mod social;
pub mod score;
pub mod selector;
pub mod states;
pub mod world;

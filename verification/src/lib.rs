//! A turn-based tactical combat resolver on a finite 2D grid.
//!
//! The library decides which tile a unit occupies, whether a path between
//! tiles is walkable, whether one tile can see another, whose turn it is,
//! and what numeric and positional consequences an action produces when it
//! is executed against targets.
//!
//! The modules, leaves first: [`position`] holds the grid geometry —
//! Manhattan distance, directions, and the supercover line; [`map`] owns
//! the obstacle layer and answers walkability, line-of-sight and
//! shortest-path queries; [`attribute`] is the bounded numeric value behind
//! health, shield, action points and movement points; [`turn`] sequences
//! whose turn it is; [`action`] describes what a combatant can do; and
//! [`battle`] executes actions against the arena.

pub mod attribute;
pub mod position;
pub mod map;
pub mod turn;
pub mod action;
pub mod battle;
pub mod color;

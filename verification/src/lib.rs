//! A deterministic factory simulation.
//!
//! Players place producers and transporter units on a grid. Units find their
//! way over the grid and carry raw material from piles to producers, producers
//! turn what they receive into goods, and finished hats are to be delivered
//! before a deadline. Everything a player asks for is an action; the actions
//! of a game are recorded with the tick at which they were carried out, and a
//! recording can be played back.
//!
//! - [`player`]: the kinds of resources, ledgers of them, the player, and the
//!   phases that run the clock, the producers and the objective.
//! - [`board`]: the grid, its coordinates, and the search for routes.
//! - [`items`]: what can stand in the world, and the phases that move units
//!   and goods.
//! - [`action`]: actions, their four-byte records, and how they are carried
//!   out, recorded and played back.
//! - [`world`]: the world as a whole, and how a game is laid out.
//! - [`schedule`]: the tick, which runs all phases in order.
//! - [`ui`]: what choosing, selling and selecting do to each other.
//! - [`economy`]: units neither create goods nor lose them.
//! - [`invariants`]: a recording stays in the order of its ticks, and no id
//!   of a unit is given out twice.
//! - [`replay`]: a replay goes the way of the game that was recorded.

pub mod action;
pub mod board;
pub mod economy;
pub mod invariants;
pub mod items;
pub mod player;
pub mod replay;
pub mod schedule;
pub mod ui;
pub mod world;

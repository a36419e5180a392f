//! Game rules of a two-team capture-the-points skirmish: teams, units, capturable
//! map nodes, combat, production, selection and pointer input, all as plain values.
//! Positions are carried through as an opaque type parameter; the embedding engine
//! measures distances and hands the results in.
use vstd::prelude::*;

pub mod team;
pub mod combat;
pub mod unit;
pub mod rng;
pub mod map_node;
pub mod hello;
pub mod input;
pub mod game;

verus! {

} // verus!

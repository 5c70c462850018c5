//! Hyades engine core: the integer-valued bookkeeping of the simulation —
//! entity handles, component storage, per-empire knowledge sets, the hull and
//! role taxonomy with the Design roster, and the named rungs of the Band
//! ladder.
#![allow(unused_imports)]

pub mod units;
pub mod sorted;
pub mod hulls;
pub mod ecs;
pub mod knowledge;
pub mod fleets;
pub mod snapshot;
pub mod resources;

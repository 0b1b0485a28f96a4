//! Verified core of the hekate traffic simulation kernel.
//!
//! The library holds the kernel's discrete logic: the identifiers and closed
//! code sets its records use, the typed event union and its documented
//! within-tick order, the named random-stream derivation, the edge-triggered
//! safety and hitch-limit monitors, the close-pass interval bookkeeping, the
//! tactical choice and the maneuver lifecycle decisions, and the per-slot
//! passes over the agent roster. Measured quantities travel through these
//! types as exact IEEE-754 bit patterns ([`measure::Measure`]); the geometry
//! and motion models that compute them live outside the library.
#![allow(unused_imports)]

pub mod ids;
pub mod measure;
pub mod stage;
pub mod event;
pub mod rng;
pub mod safety;
pub mod lifecycle;
pub mod close_pass;
pub mod articulated;
pub mod run;
pub mod traversal;
pub mod signals;
pub mod demand;
pub mod following;
pub mod tactic;
pub mod handoff;
pub mod roster;
pub mod choice;


//! Core of a live maze-exploration simulator.
//!
//! The library models a rectangular maze, a navigating agent, the
//! random-avoider policy that drives it, and the coordination machinery
//! between a simulation worker and a presentation loop: a start/finish
//! handshake, an order-preserving progress channel, and a single-slot
//! snapshot cache.  Rendering and the actual worker thread live outside
//! the library; every decision they rely on is made here, under contract.

pub mod grid;
pub mod reach;
pub mod agent;
pub mod controller;
pub mod signal;
pub mod progress;
pub mod worker;
pub mod session;

//! A single-node particle execution plumber.
//!
//! Particles are routed to per-signature actors, each with a first-in-first-out
//! mailbox, and actors are driven one step at a time on interpreter instances
//! borrowed from bounded pools. The plumber is a polled state machine: the
//! embedding runtime hands it particles, clock readings and the outcomes of
//! interpreter runs, and performs the work that each tick asks for.
pub mod actor;
pub mod deadline;
pub mod model;
pub mod particle;
pub mod plumber;
pub mod schedule;
pub mod storage;
pub mod token;
pub mod types;
pub mod vm_pool;
pub mod workers;

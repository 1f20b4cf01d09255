//! Run-time aliasing guard and stacked state-transition scheduler.
//!
//! The crate provides two cooperating primitives for an entity-component
//! scheduler that runs many systems against one shared store:
//!
//! * a dynamic aliasing guard ([`access`]) that enforces "one writer XOR many
//!   readers" per resource slot at run time, and
//! * a stack-based state machine that turns a requested state change into an
//!   ordered sequence of enter/exit/pause/resume phases, exposed to the outer
//!   scheduler as run-criteria decisions.

pub mod access;
pub mod collections;
pub mod identifier;
pub mod state;

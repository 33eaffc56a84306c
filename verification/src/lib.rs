//! A pipeline that turns input events into output events by running each one
//! through a chain of independently registered modifiers, ordered by priority.
//!
//! Every contract is stated over plain mathematical models: a registry is the
//! sequence of its modifiers in registration order, a chain of modifiers acts
//! on a working state `(context, metadata, output)`, and a pass relates the
//! context before it to the context after it and to the outputs it emits.
//!
//! - `order`: what it means for one priority to run before another.
//! - `modifier`: the modifier record, compared by priority alone.
//! - `registry`: registration, and the sorted snapshot that a pass runs.
//! - `engine`: the fold over one event and the pass over a batch of events.
//! - `pipeline`: a registry bundled with the initialisers of its events.
//! - `host`: what registering a pipeline asks of the hosting application.
//! - `declaration`: the five names that declare a pipeline.
//! - `laws`: what holds of every chain, every event and every pass.

pub mod declaration;
pub mod engine;
pub mod host;
pub mod laws;
pub mod modifier;
pub mod order;
pub mod pipeline;
pub mod registry;

//! The kernel of a small game in real time: entities that move along
//! straight lines, a scheduler that runs one-shot events in the order of
//! their times, spaces that own the entities, and the casts that bring
//! entities into being and schedule what becomes of them.
//!
//! Positions are read off the line that a body moves along, so nothing is
//! integrated and no error builds up. Time only moves forward. Events find
//! the entity they are meant for or do nothing. All of it is stated over
//! mathematical values and proved.

pub mod charms;
pub mod entities;
pub mod entity_heap;
pub mod event_queue;
pub mod events;
pub mod forms;
pub mod game;
pub mod links;
pub mod physics;
pub mod units;

//! Companion logic for a resource-gathering game: parsing of chat-log lines, the
//! record/find state machine they drive, and the route that orders the surveys.

pub mod engine;
pub mod parser;
pub mod pathfinder;
pub mod render;
pub mod state;
pub mod survey;

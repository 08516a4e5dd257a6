//! A booking engine for a rail network: stations, trains, seats and tickets
//! kept in id-ordered tables that share one identifier counter.

pub mod types;
pub mod messages;
pub mod model;
pub mod engine;
pub mod laws;

pub use engine::RailSystem;
pub use types::{AdminCap, BookingStatus, Error, ErrorKind, Station, Ticket, Train};

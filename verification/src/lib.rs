//! An event-sourced order aggregate.
//!
//! The state of an order is never stored: it is the left fold of the order's
//! event stream. Commands are turned into proposed events, events are folded
//! into state, and a separate projection tallies the events of all orders.
//!
//! * [`model`] holds the mathematical model: views of the data types and the
//!   spec functions that the contracts are stated over.
//! * [`order`] holds the executable types and functions.
//! * [`laws`] holds theorems about the model.
//! * [`clock`] holds the timestamp type and the reading of the wall clock.

pub mod clock;
pub mod laws;
pub mod model;
pub mod order;

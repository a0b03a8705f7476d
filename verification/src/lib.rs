//! A resilient AMQP-style message-consumption loop, verified.
//!
//! The library models the two parts of a consumer that carry real logic:
//! the acknowledgment dispatcher, which maps a business verdict to exactly
//! one broker acknowledgment, and the consumption loop, a state machine
//! that subscribes, pulls deliveries in order, dispatches one acknowledgment
//! per delivery, and reconnects when the stream dies.  The surrounding
//! transport work (connecting, awaiting stream items, sending the
//! acknowledgment frames) is performed by an unverified driver that feeds
//! events to the state machine and carries out the actions it returns.

pub mod consumer;
pub mod handler_message_result;

//! A streaming-response server engine, as pure decision logic.
//!
//! - [`encoder`] frames messages for chunked and event-stream responses;
//!   [`decoder`] reads chunked bodies back.
//! - [`handler`] is the state machine of one connection.
//! - [`gate`] hands each message of the source to exactly one consumer.
//! - [`source`] is the counting message source.
//! - [`pool`] keeps the books of a fixed-size worker pool.
//!
//! Nothing here touches a socket, a thread or a clock. The caller performs
//! the actions that the library returns and reports back what happened.

pub mod decoder;
pub mod encoder;
pub mod gate;
pub mod handler;
pub mod pool;
pub mod source;

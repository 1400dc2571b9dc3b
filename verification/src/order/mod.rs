//! Order identity and resting-order state.
//!
//! The interesting piece here is [`FIFOOrderId`], whose encoding makes price-time
//! priority a property of the *key type* rather than of the matching code.

pub mod id;
mod resting;
pub mod side;

pub use id::{FIFOOrderId, MAX_SEQUENCE_NUMBER};
pub use resting::RestingOrder;
pub use side::Side;

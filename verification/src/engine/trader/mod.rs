//! Trader identity, balances, and the seat table.

pub mod balance_laws;
pub mod key;
pub mod state;
pub mod table;

pub use key::TraderKey;
pub use state::TraderState;
pub use table::{SeatIndex, TraderTable, NO_SEAT};

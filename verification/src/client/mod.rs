//! Talking to a deployed market: typed instruction builders, decoding for market accounts,
//! and decoding for trade events.

pub mod account_laws;
pub mod address;
pub mod decode;
pub mod decode_laws;
pub mod event;
pub mod event_laws;
pub mod grammar;
pub mod instruction;
pub mod instruction_laws;
pub mod program;
pub mod reader;
pub mod setup;
pub mod setup_laws;
pub mod state;
pub mod state_laws;
pub mod system;
pub mod token;
